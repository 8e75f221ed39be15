//! Runs of bytes: the longest prefix of a sequence whose bytes all satisfy a
//! predicate, and the byte classes the line grammar is built from.

use vstd::prelude::*;

verus! {

pub const COLON: u8 = 0x3a;

pub const BAR: u8 = 0x7c;

pub const AT: u8 = 0x40;

pub const NEWLINE: u8 = 0x0a;

/// `0-9`.
pub open spec fn is_digit(b: u8) -> bool {
    0x30 <= b <= 0x39
}

/// `0-9`, `A-Z`, `a-z`.
pub open spec fn is_alphanumeric(b: u8) -> bool {
    is_digit(b) || 0x41 <= b <= 0x5a || 0x61 <= b <= 0x7a
}

/// The class of all bytes but `d`.
pub open spec fn other_than(d: u8) -> spec_fn(u8) -> bool {
    |b: u8| b != d
}

/// The class of decimal digits.
pub open spec fn digits() -> spec_fn(u8) -> bool {
    |b: u8| is_digit(b)
}

/// The class of ASCII letters and digits.
pub open spec fn alphanumerics() -> spec_fn(u8) -> bool {
    |b: u8| is_alphanumeric(b)
}

/// Length of the longest prefix of `s` whose bytes all satisfy `p`.
pub open spec fn leading(s: Seq<u8>, p: spec_fn(u8) -> bool) -> nat
    decreases s.len(),
{
    if s.len() > 0 && p(s[0]) {
        1 + leading(s.skip(1), p)
    } else {
        0
    }
}

/// `leading(s, p)` stays within `s`, every byte before it satisfies `p`, and
/// the byte at it, if there is one, does not.
pub proof fn lemma_leading(s: Seq<u8>, p: spec_fn(u8) -> bool)
    ensures
        leading(s, p) <= s.len(),
        forall|i: int| 0 <= i < leading(s, p) ==> p(#[trigger] s[i]),
        leading(s, p) < s.len() ==> !p(s[leading(s, p) as int]),
    decreases s.len(),
{
    if s.len() > 0 && p(s[0]) {
        let t = s.skip(1);
        lemma_leading(t, p);
        assert forall|i: int| 0 <= i < leading(s, p) implies p(#[trigger] s[i]) by {
            if i > 0 {
                assert(s[i] == t[i - 1]);
            }
        }
        if leading(s, p) < s.len() {
            assert(s[leading(s, p) as int] == t[leading(t, p) as int]);
        }
    }
}

/// The only index that ends a run of `p` in `s` is `leading(s, p)`.
pub proof fn lemma_leading_is(s: Seq<u8>, p: spec_fn(u8) -> bool, n: int)
    requires
        0 <= n <= s.len(),
        forall|i: int| 0 <= i < n ==> p(#[trigger] s[i]),
        n < s.len() ==> !p(s[n]),
    ensures
        leading(s, p) == n,
    decreases s.len(),
{
    if n > 0 {
        let t = s.skip(1);
        assert forall|i: int| 0 <= i < n - 1 implies p(#[trigger] t[i]) by {
            assert(t[i] == s[i + 1]);
        }
        lemma_leading_is(t, p, n - 1);
    }
}

/// The first position at or after `start` that holds `d`, or the length of
/// `input` where no such position exists.
pub fn find_byte(input: &[u8], start: usize, d: u8) -> (end: usize)
    requires
        start <= input.len(),
    ensures
        end == start + leading(input@.skip(start as int), other_than(d)),
        end <= input.len(),
{
    let mut end: usize = start;
    while end < input.len() && input[end] != d
        invariant
            start <= end <= input.len(),
            forall|i: int| start <= i < end ==> input@[i] != d,
        decreases input.len() - end,
    {
        end += 1;
    }
    proof {
        let s = input@.skip(start as int);
        assert forall|i: int| 0 <= i < end - start implies other_than(d)(#[trigger] s[i]) by {
            assert(s[i] == input@[start + i]);
        }
        lemma_leading_is(s, other_than(d), end - start);
    }
    end
}

/// The first position at or after `start` that holds no decimal digit, or the
/// length of `input` where no such position exists.
pub fn skip_digits(input: &[u8], start: usize) -> (end: usize)
    requires
        start <= input.len(),
    ensures
        end == start + leading(input@.skip(start as int), digits()),
        end <= input.len(),
{
    let mut end: usize = start;
    while end < input.len() && 0x30 <= input[end] && input[end] <= 0x39
        invariant
            start <= end <= input.len(),
            forall|i: int| start <= i < end ==> is_digit(input@[i]),
        decreases input.len() - end,
    {
        end += 1;
    }
    proof {
        let s = input@.skip(start as int);
        assert forall|i: int| 0 <= i < end - start implies digits()(#[trigger] s[i]) by {
            assert(s[i] == input@[start + i]);
        }
        lemma_leading_is(s, digits(), end - start);
    }
    end
}

} // verus!
