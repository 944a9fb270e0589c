//! The session: a state machine that generates problems, judges answers and
//! keeps the error statistics.

use vstd::prelude::*;
use crate::entry::{entry_of_text, parse_entry};
use crate::random::random_draw;

verus! {

/// Answers after which the window offers the final evaluation instead of a
/// next problem.
pub const SESSION_LENGTH: u32 = 20;

/// Wrong answers that implicate one factor before practising it is advised.
pub const REPEATED_ERRORS: u64 = 2;

/// The stage of a session.
#[derive(Debug, Clone, Copy, PartialEq, Eq, Structural)]
pub enum Mode {
    Start,
    Exercising,
    Result,
    FinalEvaluation,
}

impl Default for Mode {
    fn default() -> (r: Mode)
        ensures
            r == Mode::Start,
    {
        Mode::Start
    }
}

/// Which of the four numbers of the problem the user has to supply.
#[derive(Debug, Clone, Copy, PartialEq, Eq, Structural)]
pub enum Slot {
    NumA,
    DenA,
    NumB,
    DenB,
}

/// The random choices that make a problem.
#[derive(Debug, Clone, Copy, PartialEq, Eq, Structural)]
pub struct Draw {
    pub multiplier: u32,
    pub num: u32,
    pub den: u32,
    /// Side A is the unscaled fraction `num / den`; otherwise side B is.
    pub a_is_base: bool,
    pub hidden: Slot,
}

impl Draw {
    /// The ranges that problem generation draws from.
    pub open spec fn valid(self) -> bool {
        &&& 2 <= self.multiplier <= 10
        &&& 1 <= self.num <= 12
        &&& 1 <= self.den <= 12
    }

    pub open spec fn num_a(self) -> nat {
        if self.a_is_base { self.num as nat } else { (self.num * self.multiplier) as nat }
    }

    pub open spec fn den_a(self) -> nat {
        if self.a_is_base { self.den as nat } else { (self.den * self.multiplier) as nat }
    }

    pub open spec fn num_b(self) -> nat {
        if self.a_is_base { (self.num * self.multiplier) as nat } else { self.num as nat }
    }

    pub open spec fn den_b(self) -> nat {
        if self.a_is_base { (self.den * self.multiplier) as nat } else { self.den as nat }
    }
}

/// Every generated problem states two equal fractions: the cross products
/// `num_a * den_b` and `num_b * den_a` agree.
pub proof fn lemma_cross_products(d: Draw)
    requires
        d.valid(),
    ensures
        d.num_a() * d.den_b() == d.num_b() * d.den_a(),
{
    let (n, e, m) = (d.num as int, d.den as int, d.multiplier as int);
    assert(n * (e * m) == (n * m) * e) by (nonlinear_arith);
}

/// In every generated problem exactly one side is the base fraction
/// `num / den`, side A when `a_is_base` holds and side B otherwise, and the
/// other side is that fraction with both terms times the multiplier.
pub proof fn lemma_one_base_side(d: Draw)
    requires
        d.valid(),
    ensures
        d.a_is_base ==> d.num_a() == d.num && d.den_a() == d.den,
        !d.a_is_base ==> d.num_b() == d.num && d.den_b() == d.den,
        (d.num_b() == d.num_a() * d.multiplier && d.den_b() == d.den_a() * d.multiplier)
            <==> d.a_is_base,
        (d.num_a() == d.num_b() * d.multiplier && d.den_a() == d.den_b() * d.multiplier)
            <==> !d.a_is_base,
{
    let (n, m) = (d.num as int, d.multiplier as int);
    assert(n * m * m > n * m) by (nonlinear_arith)
        requires
            n >= 1,
            m >= 2,
    ;
    assert(n * m > n) by (nonlinear_arith)
        requires
            n >= 1,
            m >= 2,
    ;
}

/// Once a session has begun, its two fractions are equal: the cross products
/// agree in every state that the session's operations reach.
pub proof fn lemma_session_cross_products(s: State)
    requires
        s.wf(),
        s.mode != Mode::Start,
    ensures
        s.num_a * s.den_b == s.num_b * s.den_a,
{
    let d = choose|d: Draw| d.valid() && #[trigger] s@.with_problem(d) == s@;
    lemma_cross_products(d);
}

/// A base term and the same term times a multiplier of at least 2: the
/// scaled one is the larger, and dividing it by the base gives back the
/// multiplier.
proof fn lemma_scaled_pair(base: nat, m: nat)
    requires
        1 <= base,
        2 <= m,
    ensures
        base * m > base,
        (base * m) / base == m,
{
    assert(base * m > base) by (nonlinear_arith)
        requires
            1 <= base,
            2 <= m,
    ;
    vstd::arithmetic::div_mod::lemma_div_multiples_vanish(m as int, base as int);
    assert(base * m == m * base) by (nonlinear_arith);
}

/// What a session holds, over mathematical integers. `hist[k - 1]` counts the
/// wrong answers that implicated factor `k`.
pub struct Snapshot {
    pub mode: Mode,
    pub error_made: bool,
    pub errors_count: nat,
    pub exercise_count: nat,
    pub num_a: nat,
    pub den_a: nat,
    pub num_b: nat,
    pub den_b: nat,
    pub hidden: Slot,
    pub input_number: nat,
    pub hist: Seq<nat>,
}

/// One more in bucket `k` of a histogram of factors.
pub open spec fn bumped(h: Seq<nat>, k: nat) -> Seq<nat> {
    h.update(k - 1, h[k - 1] + 1)
}

/// A new session after a restart, on the problem that `d` makes.
pub open spec fn fresh_session(d: Draw) -> Snapshot {
    Snapshot {
        mode: Mode::Exercising,
        error_made: false,
        errors_count: 0,
        exercise_count: 0,
        num_a: d.num_a(),
        den_a: d.den_a(),
        num_b: d.num_b(),
        den_b: d.den_b(),
        hidden: d.hidden,
        input_number: 0,
        hist: Seq::new(12, |i: int| 0nat),
    }
}

/// The session as the program starts it.
pub open spec fn initial_session() -> Snapshot {
    Snapshot {
        mode: Mode::Start,
        error_made: false,
        errors_count: 0,
        exercise_count: 0,
        num_a: 0,
        den_a: 0,
        num_b: 0,
        den_b: 0,
        hidden: Slot::NumA,
        input_number: 0,
        hist: Seq::new(12, |i: int| 0nat),
    }
}

impl Snapshot {
    /// The value that the user has to supply.
    pub open spec fn hidden_value(self) -> nat {
        match self.hidden {
            Slot::NumA => self.num_a,
            Slot::DenA => self.den_a,
            Slot::NumB => self.num_b,
            Slot::DenB => self.den_b,
        }
    }

    /// The two numerators when a numerator is hidden, else the two
    /// denominators.
    pub open spec fn hidden_pair(self) -> (nat, nat) {
        match self.hidden {
            Slot::NumA | Slot::NumB => (self.num_a, self.num_b),
            Slot::DenA | Slot::DenB => (self.den_a, self.den_b),
        }
    }

    /// The smaller member of the hidden pair.
    pub open spec fn base_factor(self) -> nat {
        let (a, b) = self.hidden_pair();
        if a > b { b } else { a }
    }

    /// The larger member of the hidden pair divided by the smaller.
    pub open spec fn ratio_factor(self) -> nat {
        let (a, b) = self.hidden_pair();
        if a > b { a / b } else { b / a }
    }

    /// The four numbers and the hidden slot that `d` makes.
    pub open spec fn with_problem(self, d: Draw) -> Snapshot {
        Snapshot {
            num_a: d.num_a(),
            den_a: d.den_a(),
            num_b: d.num_b(),
            den_b: d.den_b(),
            hidden: d.hidden,
            ..self
        }
    }

    /// The problem is one that generation can make.
    pub open spec fn generated(self) -> bool {
        exists|d: Draw| d.valid() && #[trigger] self.with_problem(d) == self
    }

    /// Begin: from the start screen to the first problem.
    pub open spec fn begun(self, d: Draw) -> Snapshot {
        if self.mode == Mode::Start {
            Snapshot { input_number: 0, mode: Mode::Exercising, ..self.with_problem(d) }
        } else {
            self
        }
    }

    /// SetInput: the entered value, while a problem is shown.
    pub open spec fn with_input(self, v: nat) -> Snapshot {
        if self.mode == Mode::Exercising {
            Snapshot { input_number: v, ..self }
        } else {
            self
        }
    }

    /// Submit: judge the entered value; a wrong one implicates the ratio of
    /// the hidden pair and its smaller member.
    pub open spec fn submitted(self) -> Snapshot {
        if self.mode == Mode::Exercising && self.input_number != 0 {
            if self.input_number == self.hidden_value() {
                Snapshot {
                    exercise_count: self.exercise_count + 1,
                    error_made: false,
                    mode: Mode::Result,
                    ..self
                }
            } else {
                Snapshot {
                    exercise_count: self.exercise_count + 1,
                    errors_count: self.errors_count + 1,
                    error_made: true,
                    hist: bumped(bumped(self.hist, self.ratio_factor()), self.base_factor()),
                    mode: Mode::Result,
                    ..self
                }
            }
        } else {
            self
        }
    }

    /// Advance: from a judged answer to the next problem.
    pub open spec fn advanced(self, d: Draw) -> Snapshot {
        if self.mode == Mode::Result {
            Snapshot {
                input_number: 0,
                error_made: false,
                mode: Mode::Exercising,
                ..self.with_problem(d)
            }
        } else {
            self
        }
    }

    /// Conclude: from a judged answer to the final evaluation.
    pub open spec fn concluded(self) -> Snapshot {
        if self.mode == Mode::Result {
            Snapshot { mode: Mode::FinalEvaluation, ..self }
        } else {
            self
        }
    }
}

/// A training session. Its fields are the snapshot that the window shows;
/// `errors[k - 1]` counts the wrong answers that implicated factor `k`.
#[derive(Debug, Clone, Copy)]
pub struct State {
    pub mode: Mode,
    pub error_made: bool,
    pub errors_count: u32,
    pub exercise_count: u32,
    pub num_a: u32,
    pub den_a: u32,
    pub num_b: u32,
    pub den_b: u32,
    pub hidden_slot: Slot,
    pub input_number: u32,
    pub errors: [u64; 12],
}

impl View for State {
    type V = Snapshot;

    open spec fn view(&self) -> Snapshot {
        Snapshot {
            mode: self.mode,
            error_made: self.error_made,
            errors_count: self.errors_count as nat,
            exercise_count: self.exercise_count as nat,
            num_a: self.num_a as nat,
            den_a: self.den_a as nat,
            num_b: self.num_b as nat,
            den_b: self.den_b as nat,
            hidden: self.hidden_slot,
            input_number: self.input_number as nat,
            hist: Seq::new(12, |i: int| self.errors@[i] as nat),
        }
    }
}

impl Default for State {
    fn default() -> (r: State)
        ensures
            r.wf(),
            r@ == initial_session(),
    {
        let r = State {
            mode: Mode::Start,
            error_made: false,
            errors_count: 0,
            exercise_count: 0,
            num_a: 0,
            den_a: 0,
            num_b: 0,
            den_b: 0,
            hidden_slot: Slot::NumA,
            input_number: 0,
            errors: [0u64; 12],
        };
        assert(r@.hist =~= initial_session().hist);
        r
    }
}

impl State {
    /// No more errors than answers, no bucket above two per error, and a
    /// generated problem once the session has begun.
    pub open spec fn wf(&self) -> bool {
        &&& self.errors_count <= self.exercise_count
        &&& forall|k: int| 0 <= k < 12 ==> #[trigger] self.errors@[k] <= 2 * self.errors_count
        &&& self.mode != Mode::Start ==> self@.generated()
    }

    /// Puts the problem that `d` makes in place.
    fn set_numbers(&mut self, d: Draw)
        requires
            d.valid(),
        ensures
            final(self)@ == old(self)@.with_problem(d),
            final(self).errors == old(self).errors,
            final(self)@.with_problem(d) == final(self)@,
    {
        let mul = d.multiplier;
        assert(d.num * mul <= 120 && d.den * mul <= 120) by (nonlinear_arith)
            requires
                d.num <= 12,
                d.den <= 12,
                mul <= 10,
        ;
        self.num_a = if d.a_is_base { d.num } else { d.num * mul };
        self.den_a = if d.a_is_base { d.den } else { d.den * mul };
        self.num_b = if d.a_is_base { d.num * mul } else { d.num };
        self.den_b = if d.a_is_base { d.den * mul } else { d.den };
        self.hidden_slot = d.hidden;
        assert(self@.hist =~= old(self)@.hist);
    }

    /// Begin, on the problem that `d` makes; nothing happens outside the
    /// start screen.
    pub fn start_with(&mut self, d: Draw)
        requires
            old(self).wf(),
            d.valid(),
        ensures
            final(self).wf(),
            final(self)@ == old(self)@.begun(d),
    {
        if self.mode != Mode::Start {
            return;
        }
        self.set_numbers(d);
        self.input_number = 0;
        self.mode = Mode::Exercising;
        assert(self@.hist =~= old(self)@.begun(d).hist);
        assert(self@.with_problem(d) == self@);
    }

    /// Begin, on a random problem.
    pub fn start(&mut self)
        requires
            old(self).wf(),
        ensures
            final(self).wf(),
            exists|d: Draw| d.valid() && final(self)@ == #[trigger] old(self)@.begun(d),
    {
        let d = random_draw();
        self.start_with(d);
    }

    /// SetInput: the value of `input_string` when it is a number in 1..=999,
    /// otherwise 0; nothing happens unless a problem is shown.
    pub fn read_input(&mut self, input_string: String)
        requires
            old(self).wf(),
        ensures
            final(self).wf(),
            final(self)@ == old(self)@.with_input(entry_of_text(input_string@)),
    {
        if self.mode != Mode::Exercising {
            return;
        }
        self.input_number = parse_entry(input_string.as_str());
        assert(self@.hist =~= old(self)@.hist);
        assert(old(self)@.generated());
        let ghost d = choose|d: Draw| d.valid() && #[trigger] old(self)@.with_problem(d) == old(self)@;
        assert(self@.with_problem(d) == self@);
    }
    /// Submit: counts the answer and judges the entered value against the
    /// hidden one. A wrong answer counts an error and adds one to the bucket
    /// of the ratio of the hidden pair and one to that of its smaller member.
    /// Nothing happens unless a problem is shown and a value is entered.
    pub fn evaluate(&mut self)
        requires
            old(self).wf(),
            old(self).exercise_count < u32::MAX,
        ensures
            final(self).wf(),
            final(self)@ == old(self)@.submitted(),
            old(self).mode == Mode::Exercising && old(self).input_number != 0
                && old(self)@.input_number == old(self)@.hidden_value() ==> {
                &&& !final(self).error_made
                &&& final(self)@.hist == old(self)@.hist
                &&& final(self).exercise_count == old(self).exercise_count + 1
                &&& final(self).errors_count == old(self).errors_count
            },
    {
        if self.mode != Mode::Exercising || self.input_number == 0 {
            return;
        }
        assert(self@.generated());
        let ghost d = choose|d: Draw| d.valid() && #[trigger] self@.with_problem(d) == self@;
        let (expected, a, b) = match self.hidden_slot {
            Slot::NumA => (self.num_a, self.num_a, self.num_b),
            Slot::DenA => (self.den_a, self.den_a, self.den_b),
            Slot::NumB => (self.num_b, self.num_a, self.num_b),
            Slot::DenB => (self.den_b, self.den_a, self.den_b),
        };
        self.exercise_count = self.exercise_count + 1;
        if self.input_number != expected {
            self.errors_count = self.errors_count + 1;
            self.error_made = true;
            let (big, small) = if a > b { (a, b) } else { (b, a) };
            proof {
                lemma_scaled_pair(d.num as nat, d.multiplier as nat);
                lemma_scaled_pair(d.den as nat, d.multiplier as nat);
            }
            let ratio = big / small;
            assert(ratio == old(self)@.ratio_factor());
            assert(small == old(self)@.base_factor());
            assert(1 <= ratio <= 12 && 1 <= small <= 12);
            let r = (ratio - 1) as usize;
            self.errors[r] = self.errors[r] + 1;
            let k = (small - 1) as usize;
            self.errors[k] = self.errors[k] + 1;
        } else {
            self.error_made = false;
        }
        self.mode = Mode::Result;
        assert(self@.hist =~= old(self)@.submitted().hist);
        assert(self@.with_problem(d) == self@);
    }
    /// Advance, on the problem that `d` makes: clears the entered value and
    /// the verdict. Nothing happens unless an answer has just been judged.
    pub fn next_with(&mut self, d: Draw)
        requires
            old(self).wf(),
            d.valid(),
        ensures
            final(self).wf(),
            final(self)@ == old(self)@.advanced(d),
    {
        if self.mode != Mode::Result {
            return;
        }
        self.set_numbers(d);
        self.input_number = 0;
        self.error_made = false;
        self.mode = Mode::Exercising;
        assert(self@.hist =~= old(self)@.advanced(d).hist);
        assert(self@.with_problem(d) == self@);
    }

    /// Advance, on a random problem.
    pub fn next(&mut self)
        requires
            old(self).wf(),
        ensures
            final(self).wf(),
            exists|d: Draw| d.valid() && final(self)@ == #[trigger] old(self)@.advanced(d),
    {
        let d = random_draw();
        self.next_with(d);
    }

    /// Conclude: from a judged answer to the final evaluation; nothing else
    /// changes, and nothing happens in another stage.
    pub fn finish(&mut self)
        requires
            old(self).wf(),
        ensures
            final(self).wf(),
            final(self)@ == old(self)@.concluded(),
    {
        if self.mode == Mode::Result {
            self.mode = Mode::FinalEvaluation;
        }
        assert(self@.hist =~= old(self)@.concluded().hist);
        proof {
            if old(self).mode != Mode::Start {
                let d = choose|d: Draw| d.valid() && #[trigger] old(self)@.with_problem(d) == old(self)@;
                assert(self@.with_problem(d) == self@);
            }
        }
    }

    /// Restart, from any stage, on the problem that `d` makes: no answers, no
    /// errors, an empty histogram, and the problem shown.
    pub fn restart_with(&mut self, d: Draw)
        requires
            d.valid(),
        ensures
            final(self).wf(),
            final(self)@ == fresh_session(d),
            final(self).mode == Mode::Exercising,
            final(self).exercise_count == 0,
            final(self).errors_count == 0,
            forall|k: int| 0 <= k < 12 ==> #[trigger] final(self)@.hist[k] == 0,
    {
        self.mode = Mode::Exercising;
        self.error_made = false;
        self.errors_count = 0;
        self.exercise_count = 0;
        self.input_number = 0;
        self.errors = [0u64; 12];
        self.set_numbers(d);
        assert(self@.hist =~= fresh_session(d).hist);
        assert(self@.with_problem(d) == self@);
    }

    /// Restart, from any stage, on a random problem.
    pub fn restart(&mut self)
        ensures
            final(self).wf(),
            exists|d: Draw| d.valid() && final(self)@ == #[trigger] fresh_session(d),
            final(self).mode == Mode::Exercising,
            final(self).exercise_count == 0,
            final(self).errors_count == 0,
            forall|k: int| 0 <= k < 12 ==> #[trigger] final(self)@.hist[k] == 0,
    {
        let d = random_draw();
        self.restart_with(d);
    }

    /// Applies one event of the window to the session.
    pub fn update(&mut self, message: Message)
        requires
            old(self).wf(),
            message is Check ==> old(self).exercise_count < u32::MAX,
        ensures
            final(self).wf(),
            match message {
                Message::Start => exists|d: Draw|
                    d.valid() && final(self)@ == #[trigger] old(self)@.begun(d),
                Message::ReadInput(t) => final(self)@ == old(self)@.with_input(entry_of_text(t@)),
                Message::Check => final(self)@ == old(self)@.submitted(),
                Message::Next => exists|d: Draw|
                    d.valid() && final(self)@ == #[trigger] old(self)@.advanced(d),
                Message::Finish => final(self)@ == old(self)@.concluded(),
                Message::Restart => exists|d: Draw|
                    d.valid() && final(self)@ == #[trigger] fresh_session(d),
            },
    {
        match message {
            Message::Start => self.start(),
            Message::ReadInput(t) => self.read_input(t),
            Message::Check => self.evaluate(),
            Message::Next => self.next(),
            Message::Finish => self.finish(),
            Message::Restart => self.restart(),
        }
    }

    /// Whether a value is entered, so that the answer can be submitted.
    pub fn can_submit(&self) -> (r: bool)
        ensures
            r == (self.input_number != 0),
    {
        self.input_number != 0
    }

    /// Whether the session has reached its length, so that the window offers
    /// the final evaluation rather than a next problem.
    pub fn session_complete(&self) -> (r: bool)
        ensures
            r == (self.exercise_count >= SESSION_LENGTH),
    {
        self.exercise_count >= SESSION_LENGTH
    }

    /// Answers that were right.
    pub fn correct_count(&self) -> (r: u32)
        requires
            self.wf(),
        ensures
            r == self.exercise_count - self.errors_count,
    {
        self.exercise_count - self.errors_count
    }

    /// The share of right answers in percent, rounded down; `None` before any
    /// answer.
    pub fn accuracy_percent(&self) -> (r: Option<u32>)
        requires
            self.wf(),
        ensures
            r == accuracy_of(self.exercise_count as nat, self.errors_count as nat),
    {
        if self.exercise_count == 0 {
            return None;
        }
        let total = self.exercise_count as u64;
        let correct = (self.exercise_count - self.errors_count) as u64;
        assert((100 * correct as int) / (total as int) <= 100) by {
            vstd::arithmetic::div_mod::lemma_div_is_ordered(
                100 * correct as int,
                100 * total as int,
                total as int,
            );
            vstd::arithmetic::div_mod::lemma_div_multiples_vanish(100, total as int);
            assert(100 * total as int == total as int * 100) by (nonlinear_arith);
        }
        Some((100 * correct / total) as u32)
    }

    /// The factor whose bucket holds the most errors, the smallest on a tie.
    pub fn dominant_factor(&self) -> (r: u32)
        ensures
            1 <= r <= 12,
            is_first_max(self@.hist, r - 1),
    {
        let mut best: usize = 0;
        let mut i: usize = 1;
        while i < 12
            invariant
                1 <= i <= 12,
                best < i,
                forall|j: int| 0 <= j < i ==> self@.hist[j] <= self@.hist[best as int],
                forall|j: int| 0 <= j < best ==> self@.hist[j] < self@.hist[best as int],
            decreases 12 - i,
        {
            if self.errors[i] > self.errors[best] {
                best = i;
            }
            i = i + 1;
        }
        (best + 1) as u32
    }

    /// Whether the dominant factor was implicated in at least two errors, so
    /// that practising it is advised.
    pub fn has_repeated_error(&self) -> (r: bool)
        ensures
            forall|i: int| is_first_max(self@.hist, i) ==> r == (self@.hist[i] >= REPEATED_ERRORS),
            r == exists|k: int| 0 <= k < 12 && #[trigger] self@.hist[k] >= REPEATED_ERRORS,
    {
        let f = self.dominant_factor();
        proof {
            if exists|k: int| 0 <= k < 12 && #[trigger] self@.hist[k] >= REPEATED_ERRORS {
                let k = choose|k: int| 0 <= k < 12 && #[trigger] self@.hist[k] >= REPEATED_ERRORS;
                assert(self@.hist[k] <= self@.hist[f - 1]);
            }
            assert(self@.hist[f - 1] == self.errors@[f - 1]);
        }
        self.errors[(f - 1) as usize] >= REPEATED_ERRORS
    }
}

/// The share of right answers in percent, rounded down; none before any
/// answer.
pub open spec fn accuracy_of(total: nat, errors: nat) -> Option<u32> {
    if total == 0 {
        None
    } else {
        Some(((100 * (total - errors)) as int / total as int) as u32)
    }
}

/// `i` is the first position of a largest entry of `h`.
pub open spec fn is_first_max(h: Seq<nat>, i: int) -> bool {
    &&& 0 <= i < h.len()
    &&& forall|j: int| 0 <= j < h.len() ==> h[j] <= h[i]
    &&& forall|j: int| 0 <= j < i ==> h[j] < h[i]
}

/// An event that the window sends to the session.
#[derive(Debug, Clone)]
pub enum Message {
    Start,
    ReadInput(String),
    Check,
    Next,
    Finish,
    Restart,
}


} // verus!
