//! The sample-rate literal: the text after `|@`.
//!
//! A rate is a decimal floating-point literal in the grammar that Rust's
//! `f64` parses, upper and lower case alike:
//!
//! ```text
//! rate     ::= sign? ( "inf" | "infinity" | "nan" | number )
//! number   ::= ( digit+ | digit+ "." digit* | digit* "." digit+ ) exponent?
//! exponent ::= "e" sign? digit+
//! sign     ::= "+" | "-"
//! ```
//!
//! The library decides whether a text is such a literal and keeps the text;
//! it computes no binary floating-point value.

use crate::scan::{digits, leading, skip_digits};
use vstd::prelude::*;
use vstd::slice::slice_subrange;

verus! {

pub const PLUS: u8 = 0x2b;

pub const MINUS: u8 = 0x2d;

pub const POINT: u8 = 0x2e;

/// `+` or `-`.
pub open spec fn is_sign(b: u8) -> bool {
    b == PLUS || b == MINUS
}

/// `b`, or its lower-case form where `b` is an upper-case ASCII letter.
pub open spec fn lower(b: u8) -> u8 {
    if 0x41 <= b <= 0x5a {
        (b + 0x20) as u8
    } else {
        b
    }
}

/// `s` spells the lower-case `word`, in whatever case.
pub open spec fn spells(s: Seq<u8>, word: Seq<u8>) -> bool {
    s.len() == word.len() && forall|i: int| 0 <= i < s.len() ==> lower(#[trigger] s[i]) == word[i]
}

/// `inf`
pub open spec fn word_inf() -> Seq<u8> {
    seq![0x69u8, 0x6eu8, 0x66u8]
}

/// `infinity`
pub open spec fn word_infinity() -> Seq<u8> {
    seq![0x69u8, 0x6eu8, 0x66u8, 0x69u8, 0x6eu8, 0x69u8, 0x74u8, 0x79u8]
}

/// `nan`
pub open spec fn word_nan() -> Seq<u8> {
    seq![0x6eu8, 0x61u8, 0x6eu8]
}

/// One of the three names of a value that is no number: `inf`, `infinity`,
/// `nan`.
pub open spec fn is_special(s: Seq<u8>) -> bool {
    spells(s, word_inf()) || spells(s, word_infinity()) || spells(s, word_nan())
}

/// `e` or `E`, an optional sign, and one or more digits up to the end.
pub open spec fn is_exponent(s: Seq<u8>) -> bool {
    s.len() > 0 && lower(s[0]) == 0x65 && {
        let t = s.skip(1);
        let d = if t.len() > 0 && is_sign(t[0]) {
            t.skip(1)
        } else {
            t
        };
        d.len() > 0 && leading(d, digits()) == d.len()
    }
}

/// Digits with at most one point among them and at least one digit in all,
/// then an optional exponent up to the end.
pub open spec fn is_number(s: Seq<u8>) -> bool {
    let whole = leading(s, digits());
    let after_whole = s.skip(whole as int);
    let pointed = after_whole.len() > 0 && after_whole[0] == POINT;
    let fraction_part = if pointed {
        after_whole.skip(1)
    } else {
        after_whole
    };
    let fraction = if pointed {
        leading(fraction_part, digits())
    } else {
        0
    };
    let rest = fraction_part.skip(fraction as int);
    whole + fraction > 0 && (rest.len() == 0 || is_exponent(rest))
}

/// The literal without its sign, if it has one.
pub open spec fn unsigned(s: Seq<u8>) -> Seq<u8> {
    if s.len() > 0 && is_sign(s[0]) {
        s.skip(1)
    } else {
        s
    }
}

/// `s` is a floating-point literal.
pub open spec fn is_float_literal(s: Seq<u8>) -> bool {
    is_special(unsigned(s)) || is_number(unsigned(s))
}

/// Every byte of a floating-point literal is ASCII, and none is a line
/// break.
pub proof fn lemma_float_literal_is_plain(s: Seq<u8>)
    requires
        is_float_literal(s),
    ensures
        forall|i: int| 0 <= i < s.len() ==> 0x0a < #[trigger] s[i] < 0x80,
{
    let u = unsigned(s);
    assert forall|i: int| 0 <= i < u.len() implies 0x0a < #[trigger] u[i] < 0x80 by {
        if spells(u, word_inf()) {
            assert(lower(u[i]) == word_inf()[i]);
        } else if spells(u, word_infinity()) {
            assert(lower(u[i]) == word_infinity()[i]);
        } else if spells(u, word_nan()) {
            assert(lower(u[i]) == word_nan()[i]);
        } else {
            lemma_number_is_plain(u, i);
        }
    }
    assert forall|i: int| 0 <= i < s.len() implies 0x0a < #[trigger] s[i] < 0x80 by {
        if s.len() > 0 && is_sign(s[0]) {
            if i > 0 {
                assert(s[i] == u[i - 1]);
            }
        } else {
            assert(s[i] == u[i]);
        }
    }
}

/// A floating-point literal holds at least one byte.
pub proof fn lemma_float_literal_is_not_empty(s: Seq<u8>)
    requires
        is_float_literal(s),
    ensures
        s.len() > 0,
{
    let u = unsigned(s);
    if is_number(u) {
        crate::scan::lemma_leading(u, digits());
        let whole = leading(u, digits()) as int;
        let after_whole = u.skip(whole);
        if after_whole.len() > 0 && after_whole[0] == POINT {
            crate::scan::lemma_leading(after_whole.skip(1), digits());
        }
    }
}

proof fn lemma_number_is_plain(s: Seq<u8>, i: int)
    requires
        is_number(s),
        0 <= i < s.len(),
    ensures
        0x0a < s[i] < 0x80,
{
    let whole = leading(s, digits()) as int;
    crate::scan::lemma_leading(s, digits());
    let after_whole = s.skip(whole);
    let pointed = after_whole.len() > 0 && after_whole[0] == POINT;
    let fraction_part = if pointed {
        after_whole.skip(1)
    } else {
        after_whole
    };
    let fraction = if pointed {
        leading(fraction_part, digits()) as int
    } else {
        0
    };
    crate::scan::lemma_leading(fraction_part, digits());
    let rest = fraction_part.skip(fraction);
    let point = if pointed {
        1int
    } else {
        0int
    };
    if i < whole {
        assert(digits()(s[i]));
    } else if i < whole + point {
        assert(s[i] == after_whole[0]);
    } else if i < whole + point + fraction {
        assert(s[i] == fraction_part[i - whole - point]);
        assert(digits()(fraction_part[i - whole - point]));
    } else {
        let j = i - whole - point - fraction;
        assert(s[i] == rest[j]);
        assert(is_exponent(rest));
        let t = rest.skip(1);
        let signed = t.len() > 0 && is_sign(t[0]);
        let d = if signed {
            t.skip(1)
        } else {
            t
        };
        crate::scan::lemma_leading(d, digits());
        if j == 0 {
        } else if signed && j == 1 {
            assert(rest[j] == t[0]);
        } else if signed {
            assert(rest[j] == d[j - 2]);
            assert(digits()(d[j - 2]));
        } else {
            assert(rest[j] == d[j - 1]);
            assert(digits()(d[j - 1]));
        }
    }
}

fn lower_byte(b: u8) -> (r: u8)
    ensures
        r == lower(b),
{
    if 0x41 <= b && b <= 0x5a {
        b + 0x20
    } else {
        b
    }
}

fn special(s: &[u8]) -> (ok: bool)
    ensures
        ok == is_special(s@),
{
    if s.len() == 3 {
        let a: u8 = lower_byte(s[0]);
        let b: u8 = lower_byte(s[1]);
        let c: u8 = lower_byte(s[2]);
        let inf = a == 0x69 && b == 0x6e && c == 0x66;
        let nan = a == 0x6e && b == 0x61 && c == 0x6e;
        proof {
            assert(inf == spells(s@, word_inf())) by {
                if inf {
                    assert forall|i: int| 0 <= i < 3 implies lower(#[trigger] s@[i])
                        == word_inf()[i] by {}
                } else if spells(s@, word_inf()) {
                    assert(lower(s@[0]) == word_inf()[0]);
                    assert(lower(s@[1]) == word_inf()[1]);
                    assert(lower(s@[2]) == word_inf()[2]);
                }
            }
            assert(nan == spells(s@, word_nan())) by {
                if nan {
                    assert forall|i: int| 0 <= i < 3 implies lower(#[trigger] s@[i])
                        == word_nan()[i] by {}
                } else if spells(s@, word_nan()) {
                    assert(lower(s@[0]) == word_nan()[0]);
                    assert(lower(s@[1]) == word_nan()[1]);
                    assert(lower(s@[2]) == word_nan()[2]);
                }
            }
        }
        inf || nan
    } else if s.len() == 8 {
        let ok = lower_byte(s[0]) == 0x69 && lower_byte(s[1]) == 0x6e && lower_byte(s[2]) == 0x66
            && lower_byte(s[3]) == 0x69 && lower_byte(s[4]) == 0x6e && lower_byte(s[5]) == 0x69
            && lower_byte(s[6]) == 0x74 && lower_byte(s[7]) == 0x79;
        proof {
            assert(ok == spells(s@, word_infinity())) by {
                if ok {
                    assert forall|i: int| 0 <= i < 8 implies lower(#[trigger] s@[i])
                        == word_infinity()[i] by {}
                } else if spells(s@, word_infinity()) {
                    assert(lower(s@[0]) == word_infinity()[0]);
                    assert(lower(s@[1]) == word_infinity()[1]);
                    assert(lower(s@[2]) == word_infinity()[2]);
                    assert(lower(s@[3]) == word_infinity()[3]);
                    assert(lower(s@[4]) == word_infinity()[4]);
                    assert(lower(s@[5]) == word_infinity()[5]);
                    assert(lower(s@[6]) == word_infinity()[6]);
                    assert(lower(s@[7]) == word_infinity()[7]);
                }
            }
        }
        ok
    } else {
        false
    }
}

fn exponent(s: &[u8], start: usize) -> (ok: bool)
    requires
        start < s.len(),
    ensures
        ok == is_exponent(s@.skip(start as int)),
{
    let ghost e = s@.skip(start as int);
    if lower_byte(s[start]) != 0x65 {
        return false;
    }
    let signed = start + 1 < s.len() && (s[start + 1] == PLUS || s[start + 1] == MINUS);
    let from: usize = if signed {
        start + 2
    } else {
        start + 1
    };
    let end = skip_digits(s, from);
    proof {
        let t = e.skip(1);
        let d = if t.len() > 0 && is_sign(t[0]) {
            t.skip(1)
        } else {
            t
        };
        assert(t =~= s@.skip(start + 1));
        assert(d =~= s@.skip(from as int));
    }
    from < s.len() && end == s.len()
}

fn number(s: &[u8]) -> (ok: bool)
    ensures
        ok == is_number(s@),
{
    let n = s.len();
    let whole = skip_digits(s, 0);
    let pointed = whole < n && s[whole] == POINT;
    let from: usize = if pointed {
        whole + 1
    } else {
        whole
    };
    let end: usize = if pointed {
        skip_digits(s, from)
    } else {
        from
    };
    proof {
        assert(s@.skip(0) =~= s@);
        let after_whole = s@.skip(whole as int);
        let fraction_part = if pointed {
            after_whole.skip(1)
        } else {
            after_whole
        };
        assert(fraction_part =~= s@.skip(from as int));
        assert(fraction_part.skip(end - from) =~= s@.skip(end as int));
    }
    if end - from + whole == 0 {
        false
    } else if end == n {
        true
    } else {
        exponent(s, end)
    }
}

/// Whether `text` is a floating-point literal.
pub fn is_rate_literal(text: &[u8]) -> (ok: bool)
    ensures
        ok == is_float_literal(text@),
{
    let n = text.len();
    let from: usize = if n > 0 && (text[0] == PLUS || text[0] == MINUS) {
        1
    } else {
        0
    };
    let body = slice_subrange(text, from, n);
    proof {
        assert(body@ =~= unsigned(text@));
    }
    special(body) || number(body)
}

} // verus!
