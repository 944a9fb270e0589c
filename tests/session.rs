use propinva::random::random_draw;
use propinva::{Draw, Message, Mode, Slot, State};

fn draw(multiplier: u32, num: u32, den: u32, a_is_base: bool, hidden: Slot) -> Draw {
    Draw { multiplier, num, den, a_is_base, hidden }
}

fn hidden_value(s: &State) -> u32 {
    match s.hidden_slot {
        Slot::NumA => s.num_a,
        Slot::DenA => s.den_a,
        Slot::NumB => s.num_b,
        Slot::DenB => s.den_b,
    }
}

fn exercising(d: Draw) -> State {
    let mut s = State::default();
    s.start_with(d);
    s
}

#[test]
fn new_session_is_at_start() {
    let s = State::default();
    assert_eq!(s.mode, Mode::Start);
    assert_eq!(s.exercise_count, 0);
    assert_eq!(s.errors_count, 0);
    assert_eq!(s.errors, [0u64; 12]);
    assert_eq!(s.accuracy_percent(), None);
}

#[test]
fn generated_problems_have_equal_cross_products() {
    let mut s = State::default();
    s.start();
    for _ in 0..500 {
        assert_eq!(s.num_a * s.den_b, s.num_b * s.den_a);
        s.restart();
    }
}

#[test]
fn generated_problems_scale_one_base_side() {
    for _ in 0..500 {
        let d = random_draw();
        assert!((2..=10).contains(&d.multiplier));
        assert!((1..=12).contains(&d.num));
        assert!((1..=12).contains(&d.den));
        let s = exercising(d);
        let m = d.multiplier;
        if d.a_is_base {
            assert_eq!((s.num_a, s.den_a), (d.num, d.den));
            assert_eq!((s.num_b, s.den_b), (d.num * m, d.den * m));
        } else {
            assert_eq!((s.num_b, s.den_b), (d.num, d.den));
            assert_eq!((s.num_a, s.den_a), (d.num * m, d.den * m));
        }
        assert_eq!(s.hidden_slot, d.hidden);
    }
}

#[test]
fn draws_vary() {
    let first = random_draw();
    let mut multipliers = std::collections::BTreeSet::new();
    let mut slots = std::collections::BTreeSet::new();
    let mut sides = std::collections::BTreeSet::new();
    let mut differs = false;
    for _ in 0..1000 {
        let d = random_draw();
        multipliers.insert(d.multiplier);
        slots.insert(format!("{:?}", d.hidden));
        sides.insert(d.a_is_base);
        differs = differs || d != first;
    }
    assert!(differs);
    assert!(multipliers.len() > 1);
    assert!(!multipliers.contains(&11));
    assert_eq!(slots.len(), 4);
    assert_eq!(sides.len(), 2);
}

#[test]
fn input_sets_entered_value() {
    let mut s = exercising(draw(3, 2, 5, true, Slot::NumA));
    s.read_input(String::from("42"));
    assert_eq!(s.input_number, 42);
    assert!(s.can_submit());
    for bad in ["abc", "-5", "0", "1000"] {
        s.read_input(String::from(bad));
        assert_eq!(s.input_number, 0);
        assert!(!s.can_submit());
    }
}

#[test]
fn correct_answer_scores() {
    let mut s = exercising(draw(4, 5, 6, false, Slot::DenA));
    assert_eq!(s.den_a, 24);
    s.read_input(String::from("24"));
    let before = s.errors;
    s.evaluate();
    assert_eq!(s.mode, Mode::Result);
    assert!(!s.error_made);
    assert_eq!(s.errors, before);
    assert_eq!(s.exercise_count, 1);
    assert_eq!(s.errors_count, 0);
}

#[test]
fn wrong_answer_marks_ratio_and_base() {
    let mut s = exercising(draw(7, 3, 4, true, Slot::NumA));
    assert_eq!((s.num_a, s.num_b), (3, 21));
    s.read_input(String::from("5"));
    s.evaluate();
    assert!(s.error_made);
    assert_eq!(s.errors_count, 1);
    assert_eq!(s.exercise_count, 1);
    assert_eq!(s.errors[7 - 1], 1);
    assert_eq!(s.errors[3 - 1], 1);
    assert_eq!(s.errors.iter().sum::<u64>(), 2);
}

#[test]
fn wrong_denominator_uses_denominator_pair() {
    let mut s = exercising(draw(2, 9, 5, false, Slot::DenB));
    assert_eq!((s.den_a, s.den_b), (10, 5));
    s.read_input(String::from("6"));
    s.evaluate();
    assert_eq!(s.errors[2 - 1], 1);
    assert_eq!(s.errors[5 - 1], 1);
    assert_eq!(s.errors_count, 1);
}

#[test]
fn ratio_equal_to_base_counts_twice() {
    let mut s = exercising(draw(3, 3, 1, true, Slot::NumB));
    s.read_input(String::from("8"));
    s.evaluate();
    assert_eq!(s.errors[3 - 1], 2);
    assert_eq!(s.dominant_factor(), 3);
    assert!(s.has_repeated_error());
}

#[test]
fn restart_clears_everything() {
    let mut s = exercising(draw(7, 3, 4, true, Slot::NumA));
    s.read_input(String::from("5"));
    s.evaluate();
    s.finish();
    s.restart();
    assert_eq!(s.mode, Mode::Exercising);
    assert_eq!(s.exercise_count, 0);
    assert_eq!(s.errors_count, 0);
    assert_eq!(s.errors, [0u64; 12]);
    assert_eq!(s.input_number, 0);
    assert!(!s.error_made);
    let mut t = State::default();
    t.restart();
    assert_eq!(t.mode, Mode::Exercising);
    assert_eq!(t.exercise_count, 0);
}

#[test]
fn end_to_end_session() {
    let d = draw(5, 3, 4, true, Slot::NumB);
    let mut s = State::default();
    s.start_with(d);
    assert_eq!(s.num_b, 15);
    s.read_input(String::from("5"));
    s.evaluate();
    assert!(s.error_made);
    s.next_with(d);
    assert_eq!(s.mode, Mode::Exercising);
    assert!(!s.error_made);
    assert_eq!(s.input_number, 0);
    s.read_input(String::from("15"));
    s.evaluate();
    assert!(!s.error_made);
    s.finish();
    assert_eq!(s.mode, Mode::FinalEvaluation);
    assert_eq!(s.exercise_count, 2);
    assert_eq!(s.errors_count, 1);
    assert_eq!(s.correct_count(), 1);
    assert_eq!(s.accuracy_percent(), Some(50));
}

#[test]
fn full_session_without_errors() {
    let mut s = State::default();
    s.start();
    for i in 1..=20u32 {
        let v = hidden_value(&s);
        s.read_input(v.to_string());
        s.evaluate();
        assert!(!s.error_made);
        if i < 20 {
            assert!(!s.session_complete());
            s.next();
        }
    }
    assert!(s.session_complete());
    s.finish();
    assert_eq!(s.exercise_count, 20);
    assert_eq!(s.errors_count, 0);
    assert_eq!(s.accuracy_percent(), Some(100));
    assert!(!s.has_repeated_error());
}

#[test]
fn accuracy_rounds_down() {
    let mut s = exercising(draw(2, 1, 1, true, Slot::NumA));
    for answer in ["9", "1", "1"] {
        s.read_input(String::from(answer));
        s.evaluate();
        s.next_with(draw(2, 1, 1, true, Slot::NumA));
    }
    assert_eq!(s.exercise_count, 3);
    assert_eq!(s.errors_count, 1);
    assert_eq!(s.accuracy_percent(), Some(66));
}

#[test]
fn dominant_factor_prefers_first_on_tie() {
    let mut s = State::default();
    assert_eq!(s.dominant_factor(), 1);
    s.errors[4] = 3;
    s.errors[8] = 3;
    assert_eq!(s.dominant_factor(), 5);
    assert!(s.has_repeated_error());
    s.errors = [0; 12];
    s.errors[11] = 1;
    assert_eq!(s.dominant_factor(), 12);
    assert!(!s.has_repeated_error());
}

#[test]
fn events_out_of_stage_change_nothing() {
    let mut s = State::default();
    s.read_input(String::from("7"));
    assert_eq!(s.input_number, 0);
    s.evaluate();
    assert_eq!(s.mode, Mode::Start);
    assert_eq!(s.exercise_count, 0);
    s.next_with(draw(2, 1, 1, true, Slot::NumA));
    s.finish();
    assert_eq!(s.mode, Mode::Start);
    s.start_with(draw(2, 1, 1, true, Slot::NumA));
    s.start_with(draw(3, 2, 2, true, Slot::NumA));
    assert_eq!(s.num_b, 2);
    s.evaluate();
    assert_eq!(s.mode, Mode::Exercising);
    assert_eq!(s.exercise_count, 0);
    s.finish();
    assert_eq!(s.mode, Mode::Exercising);
}

#[test]
fn messages_drive_the_session() {
    let mut s = State::default();
    s.update(Message::Start);
    assert_eq!(s.mode, Mode::Exercising);
    let v = hidden_value(&s);
    s.update(Message::ReadInput(v.to_string()));
    assert_eq!(s.input_number, v);
    s.update(Message::Check);
    assert_eq!(s.mode, Mode::Result);
    s.update(Message::Next);
    assert_eq!(s.mode, Mode::Exercising);
    let wrong = hidden_value(&s) + 1;
    s.update(Message::ReadInput(wrong.to_string()));
    s.update(Message::Check);
    s.update(Message::Finish);
    assert_eq!(s.mode, Mode::FinalEvaluation);
    assert_eq!(s.accuracy_percent(), Some(50));
    s.update(Message::Restart);
    assert_eq!(s.mode, Mode::Exercising);
    assert_eq!(s.exercise_count, 0);
}
