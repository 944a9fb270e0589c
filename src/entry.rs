//! Reading the number that the user typed.

use vstd::prelude::*;
use vstd::utf8::encode_utf8;

verus! {

/// The largest value that counts as an answer is one below this bound.
pub const ENTRY_BOUND: u32 = 1000;

pub open spec fn is_digit(b: u8) -> bool {
    48 <= b <= 57
}

pub open spec fn all_digits(s: Seq<u8>) -> bool {
    forall|i: int| 0 <= i < s.len() ==> is_digit(#[trigger] s[i])
}

/// The value of a run of decimal digits, most significant first.
pub open spec fn digits_value(s: Seq<u8>) -> nat
    decreases s.len(),
{
    if s.len() == 0 {
        0
    } else {
        digits_value(s.drop_last()) * 10 + (s.last() - 48) as nat
    }
}

/// An unsigned decimal number as Rust's integer parsing reads it: an optional
/// `+`, then at least one digit and nothing else.
pub open spec fn unsigned_value(s: Seq<u8>) -> Option<nat> {
    let d = if s.len() > 0 && s[0] == 43 { s.drop_first() } else { s };
    if d.len() > 0 && all_digits(d) {
        Some(digits_value(d))
    } else {
        None
    }
}

/// What an input text amounts to: its value when it is a number in 1..=999,
/// otherwise 0, which stands for "no input".
pub open spec fn entry_value(s: Seq<u8>) -> nat {
    match unsigned_value(s) {
        Some(v) => if 0 < v < ENTRY_BOUND { v } else { 0 },
        None => 0,
    }
}

/// `entry_value` of the UTF-8 encoding of a text.
pub open spec fn entry_of_text(t: Seq<char>) -> nat {
    entry_value(encode_utf8(t))
}

proof fn lemma_capped_step(v: nat, d: nat)
    requires
        d < 10,
    ensures
        min_cap(min_cap(v) * 10 + d) == min_cap(v * 10 + d),
{
}

/// `v`, or the bound when `v` reaches it.
pub open spec fn min_cap(v: nat) -> nat {
    if v < ENTRY_BOUND { v } else { ENTRY_BOUND as nat }
}

/// Reads an input text: its number when it is one in 1..=999, otherwise 0.
pub fn parse_entry(text: &str) -> (r: u32)
    ensures
        r == entry_of_text(text@),
        r < ENTRY_BOUND,
{
    let b = text.as_bytes();
    let n = b.len();
    let mut i: usize = 0;
    if n > 0 && b[0] == 43u8 {
        i = 1;
    }
    let start = i;
    let ghost d = b@.subrange(start as int, n as int);
    proof {
        if b@.len() > 0 && b@[0] == 43 {
            assert(d =~= b@.drop_first());
        } else {
            assert(d =~= b@);
        }
    }
    let ghost whole = unsigned_value(b@);
    if start == n {
        return 0;
    }
    let mut acc: u32 = 0;
    while i < n
        invariant
            start <= i <= n,
            n == b@.len(),
            d == b@.subrange(start as int, n as int),
            b@ == encode_utf8(text@),
            d.len() > 0,
            whole == unsigned_value(b@),
            whole == (if all_digits(d) { Some(digits_value(d)) } else { None::<nat> }),
            all_digits(b@.subrange(start as int, i as int)),
            acc == min_cap(digits_value(b@.subrange(start as int, i as int))),
        decreases n - i,
    {
        let c = b[i];
        if c < 48u8 || c > 57u8 {
            assert(d[i - start] == c);
            assert(!is_digit(d[i - start]));
            assert(!all_digits(d));
            return 0;
        }
        let ghost prev = b@.subrange(start as int, i as int);
        let ghost next = b@.subrange(start as int, i + 1);
        assert(next.drop_last() =~= prev);
        proof {
            lemma_capped_step(digits_value(prev), (c - 48) as nat);
        }
        let v: u32 = acc * 10 + (c - 48u8) as u32;
        acc = if v < ENTRY_BOUND { v } else { ENTRY_BOUND };
        i = i + 1;
        assert(all_digits(next)) by {
            assert forall|j: int| 0 <= j < next.len() implies is_digit(#[trigger] next[j]) by {
                if j < prev.len() {
                    assert(next[j] == prev[j]);
                }
            }
        }
    }
    assert(b@.subrange(start as int, n as int) =~= d);
    if acc == 0 || acc >= ENTRY_BOUND {
        0
    } else {
        acc
    }
}

} // verus!
