//! The host numeric grammar: the text forms std accepts when parsing
//! a floating-point number, stated as a grammar over characters and
//! decided by a verified acceptor. A plain-decimal time value must
//! satisfy this grammar.
//!
//! The grammar is the one std documents for float parsing:
//! an optional sign, then one of the case-insensitive keywords `inf`,
//! `infinity`, `nan`, or a number: a mantissa of digits with at most
//! one `.` and at least one digit, then an optional exponent `e`/`E`,
//! optional sign, and one or more digits.

use vstd::prelude::*;
use vstd::string::StrSliceExecFns;

use crate::num::all_digits;
use crate::num::is_digit_char;

verus! {

/// A sign character.
pub open spec fn is_sign_char(c: char) -> bool {
    c == '+' || c == '-'
}

/// `s` without its optional leading sign.
pub open spec fn strip_sign(s: Seq<char>) -> Seq<char> {
    if s.len() > 0 && is_sign_char(s[0]) {
        s.skip(1)
    } else {
        s
    }
}

/// The keyword `inf`, in any letter case.
pub open spec fn is_inf_text(b: Seq<char>) -> bool {
    b.len() == 3 && (b[0] == 'i' || b[0] == 'I') && (b[1] == 'n' || b[1] == 'N') && (b[2] == 'f'
        || b[2] == 'F')
}

/// The keyword `infinity`, in any letter case.
pub open spec fn is_infinity_text(b: Seq<char>) -> bool {
    b.len() == 8 && (b[0] == 'i' || b[0] == 'I') && (b[1] == 'n' || b[1] == 'N') && (b[2] == 'f'
        || b[2] == 'F') && (b[3] == 'i' || b[3] == 'I') && (b[4] == 'n' || b[4] == 'N') && (b[5]
        == 'i' || b[5] == 'I') && (b[6] == 't' || b[6] == 'T') && (b[7] == 'y' || b[7] == 'Y')
}

/// The keyword `nan`, in any letter case.
pub open spec fn is_nan_text(b: Seq<char>) -> bool {
    b.len() == 3 && (b[0] == 'n' || b[0] == 'N') && (b[1] == 'a' || b[1] == 'A') && (b[2] == 'n'
        || b[2] == 'N')
}

/// An exponent marker.
pub open spec fn is_e_char(c: char) -> bool {
    c == 'e' || c == 'E'
}

/// `m` is a mantissa: not empty, only digits and at most one `.`, and
/// at least one digit.
pub open spec fn is_mantissa(m: Seq<char>) -> bool {
    &&& m.len() > 0
    &&& forall|i: int| 0 <= i < m.len() ==> is_digit_char(#[trigger] m[i]) || m[i] == '.'
    &&& forall|i: int, j: int|
        0 <= i < m.len() && 0 <= j < m.len() && #[trigger] m[i] == '.' && #[trigger] m[j] == '.'
            ==> i == j
    &&& exists|i: int| 0 <= i < m.len() && is_digit_char(#[trigger] m[i])
}

/// `x` is exponent text after the marker: an optional sign, then one
/// or more digits.
pub open spec fn is_exponent_text(x: Seq<char>) -> bool {
    strip_sign(x).len() > 0 && all_digits(strip_sign(x))
}

/// An exponent marker stands somewhere in `b`.
pub open spec fn has_e(b: Seq<char>) -> bool {
    exists|i: int| 0 <= i < b.len() && is_e_char(#[trigger] b[i])
}

/// `i` is the position of the first exponent marker of `b`.
pub open spec fn is_first_e(b: Seq<char>, i: int) -> bool {
    0 <= i < b.len() && is_e_char(b[i]) && (forall|j: int| 0 <= j < i ==> !is_e_char(#[trigger] b[j]))
}

/// The position of the first exponent marker of `b`; meaningful only
/// when `b` has one.
pub open spec fn first_e(b: Seq<char>) -> int {
    choose|i: int| is_first_e(b, i)
}

/// At most one position is the first exponent marker, so a found
/// first marker is the first marker.
pub proof fn lemma_first_e(b: Seq<char>, i: int)
    requires
        is_first_e(b, i),
    ensures
        first_e(b) == i,
        has_e(b),
{
    assert(has_e(b)) by {
        assert(0 <= i < b.len() && is_e_char(b[i]));
    }
    let j = first_e(b);
    assert(is_first_e(b, j)) by {
        assert(is_first_e(b, i));
    }
    if j < i {
        assert(!is_e_char(b[j]));
    }
    if i < j {
        assert(!is_e_char(b[i]));
    }
}

/// `b` is a number: a mantissa, then optionally an exponent marker
/// with exponent text after it. The mantissa holds no marker, so the
/// split stands at the first one.
pub open spec fn is_number_text(b: Seq<char>) -> bool {
    if has_e(b) {
        is_mantissa(b.take(first_e(b))) && is_exponent_text(b.skip(first_e(b) + 1))
    } else {
        is_mantissa(b)
    }
}

/// `s` satisfies the host numeric grammar for a floating-point
/// number.
pub open spec fn is_numeric_text(s: Seq<char>) -> bool {
    ||| is_inf_text(strip_sign(s))
    ||| is_infinity_text(strip_sign(s))
    ||| is_nan_text(strip_sign(s))
    ||| is_number_text(strip_sign(s))
}

/// Decide whether every character of `s` in `from .. to` is a digit.
fn all_digits_range(s: &str, from: usize, to: usize) -> (r: bool)
    requires
        from <= to <= s@.len(),
    ensures
        r == all_digits(s@.subrange(from as int, to as int)),
{
    let ghost d = s@.subrange(from as int, to as int);
    let mut i: usize = from;
    while i < to
        invariant
            from <= i <= to <= s@.len(),
            d == s@.subrange(from as int, to as int),
            forall|j: int| 0 <= j < i - from ==> is_digit_char(#[trigger] d[j]),
        decreases to - i,
    {
        let c = s.get_char(i);
        let cv = c as u32;
        if cv < 48 || cv > 57 {
            proof {
                assert(c as int == cv as int);
                assert(d[i - from] == s@[i as int]);
                assert(!is_digit_char(d[i - from]));
            }
            return false;
        }
        proof {
            assert(d[i - from] == s@[i as int]);
        }
        i += 1;
    }
    true
}

/// Decide whether the characters of `s` in `from .. to` form a
/// mantissa.
fn mantissa_range(s: &str, from: usize, to: usize) -> (r: bool)
    requires
        from <= to <= s@.len(),
    ensures
        r == is_mantissa(s@.subrange(from as int, to as int)),
{
    let ghost m = s@.subrange(from as int, to as int);
    if from == to {
        return false;
    }
    let mut i: usize = from;
    let mut saw_digit = false;
    let mut saw_dot = false;
    let ghost mut dot_pos: int = 0;
    while i < to
        invariant
            from <= i <= to <= s@.len(),
            m == s@.subrange(from as int, to as int),
            forall|j: int| 0 <= j < i - from ==> is_digit_char(#[trigger] m[j]) || m[j] == '.',
            saw_digit == exists|j: int| 0 <= j < i - from && is_digit_char(#[trigger] m[j]),
            !saw_dot ==> forall|j: int| 0 <= j < i - from ==> #[trigger] m[j] != '.',
            saw_dot ==> 0 <= dot_pos < i - from && m[dot_pos] == '.' && (forall|j: int|
                0 <= j < i - from && j != dot_pos ==> #[trigger] m[j] != '.'),
        decreases to - i,
    {
        let c = s.get_char(i);
        proof {
            assert(m[i - from] == s@[i as int]);
        }
        let cv = c as u32;
        if 48 <= cv && cv <= 57 {
            proof {
                assert(is_digit_char(m[i - from]));
            }
            saw_digit = true;
        } else if c == '.' {
            if saw_dot {
                proof {
                    assert(m[dot_pos] == '.' && m[i - from] == '.' && dot_pos != i - from);
                }
                return false;
            }
            saw_dot = true;
            proof {
                dot_pos = i as int - from as int;
            }
        } else {
            proof {
                assert(!is_digit_char(m[i - from]) && m[i - from] != '.');
            }
            return false;
        }
        i += 1;
    }
    if !saw_digit {
        return false;
    }
    true
}

/// Decide whether the characters of `s` from `from` on form exponent
/// text.
fn exponent_range(s: &str, from: usize) -> (r: bool)
    requires
        from <= s@.len(),
    ensures
        r == is_exponent_text(s@.skip(from as int)),
{
    let ghost x = s@.skip(from as int);
    let n = s.unicode_len();
    let start: usize = if from < n {
        let c = s.get_char(from);
        if c == '+' || c == '-' {
            from + 1
        } else {
            from
        }
    } else {
        from
    };
    proof {
        assert(strip_sign(x) =~= s@.subrange(start as int, n as int));
    }
    if start >= n {
        return false;
    }
    all_digits_range(s, start, n)
}

/// Decide whether `s` satisfies the host numeric grammar. Plain
/// decimal hours must pass this test.
pub fn numeric_text_valid(s: &str) -> (r: bool)
    ensures
        r == is_numeric_text(s@),
{
    let ghost v = s@;
    let n = s.unicode_len();
    let start: usize = if n > 0 {
        let c = s.get_char(0);
        if c == '+' || c == '-' {
            1
        } else {
            0
        }
    } else {
        0
    };
    let ghost b = strip_sign(v);
    proof {
        assert(b =~= v.subrange(start as int, n as int));
    }
    // The keywords.
    if n - start == 3 {
        let c0 = s.get_char(start);
        let c1 = s.get_char(start + 1);
        let c2 = s.get_char(start + 2);
        if (c0 == 'i' || c0 == 'I') && (c1 == 'n' || c1 == 'N') && (c2 == 'f' || c2 == 'F') {
            return true;
        }
        if (c0 == 'n' || c0 == 'N') && (c1 == 'a' || c1 == 'A') && (c2 == 'n' || c2 == 'N') {
            return true;
        }
    }
    if n - start == 8 {
        let c0 = s.get_char(start);
        let c1 = s.get_char(start + 1);
        let c2 = s.get_char(start + 2);
        let c3 = s.get_char(start + 3);
        let c4 = s.get_char(start + 4);
        let c5 = s.get_char(start + 5);
        let c6 = s.get_char(start + 6);
        let c7 = s.get_char(start + 7);
        if (c0 == 'i' || c0 == 'I') && (c1 == 'n' || c1 == 'N') && (c2 == 'f' || c2 == 'F') && (c3
            == 'i' || c3 == 'I') && (c4 == 'n' || c4 == 'N') && (c5 == 'i' || c5 == 'I') && (c6
            == 't' || c6 == 'T') && (c7 == 'y' || c7 == 'Y') {
            return true;
        }
    }
    proof {
        assert(!is_inf_text(b) && !is_nan_text(b) && !is_infinity_text(b));
    }
    // A number: find the first exponent marker after the sign.
    let mut i: usize = start;
    let mut found = false;
    while !found && i < n
        invariant
            start <= i <= n,
            v == s@,
            n == v.len(),
            b == strip_sign(v),
            b == v.subrange(start as int, n as int),
            found ==> is_first_e(b, i - start),
            !found ==> forall|j: int| 0 <= j < i - start ==> !is_e_char(#[trigger] b[j]),
        decreases n - i, (if found {
            0int
        } else {
            1int
        }),
    {
        let c = s.get_char(i);
        proof {
            assert(b[i - start] == v[i as int]);
        }
        if c == 'e' || c == 'E' {
            found = true;
        } else {
            i += 1;
        }
    }
    if found {
        proof {
            lemma_first_e(b, i - start);
        }
        let m_ok = mantissa_range(s, start, i);
        proof {
            assert(s@.subrange(start as int, i as int) =~= b.take(i - start));
        }
        if !m_ok {
            return false;
        }
        let x_ok = exponent_range(s, i + 1);
        proof {
            assert(s@.skip(i + 1) =~= b.skip(i - start + 1));
        }
        x_ok
    } else {
        proof {
            assert(!has_e(b)) by {
                if has_e(b) {
                    let k = choose|k: int| 0 <= k < b.len() && is_e_char(b[k]);
                    assert(!is_e_char(b[k]));
                }
            }
        }
        let m_ok = mantissa_range(s, start, n);
        proof {
            assert(s@.subrange(start as int, n as int) =~= b);
        }
        m_ok
    }
}

} // verus!
