//! Decimal integer text: the grammar accepted by the unsigned and signed
//! integer parsers, the value a digit string denotes, and verified
//! parsing and formatting routines over it.

use vstd::prelude::*;
use vstd::string::StrSliceExecFns;
use vstd::string::StringExecFns;

verus! {

/// A decimal digit character.
pub open spec fn is_digit_char(c: char) -> bool {
    48 <= c as int && c as int <= 57
}

/// The numeric value of one decimal digit character.
pub open spec fn digit_char_val(c: char) -> int {
    c as int - 48
}

/// Every character of `s` is a decimal digit.
pub open spec fn all_digits(s: Seq<char>) -> bool {
    forall|i: int| 0 <= i < s.len() ==> is_digit_char(#[trigger] s[i])
}

/// The non-negative integer denoted by a digit string, most significant
/// digit first. The empty string denotes 0.
pub open spec fn digits_val(s: Seq<char>) -> int
    decreases s.len(),
{
    if s.len() == 0 {
        0
    } else {
        digits_val(s.drop_last()) * 10 + digit_char_val(s.last())
    }
}

/// The digit portion of unsigned integer text: everything after an
/// optional leading `+`.
pub open spec fn u32_digits_part(s: Seq<char>) -> Seq<char> {
    if s.len() > 0 && s[0] == '+' {
        s.skip(1)
    } else {
        s
    }
}

/// `s` is text that denotes a `u32`: an optional `+`, then one or more
/// decimal digits, denoting a value that fits in 32 bits.
pub open spec fn is_u32_text(s: Seq<char>) -> bool {
    let d = u32_digits_part(s);
    d.len() > 0 && all_digits(d) && digits_val(d) <= u32::MAX
}

/// The value denoted by `u32` text.
pub open spec fn u32_text_val(s: Seq<char>) -> int {
    digits_val(u32_digits_part(s))
}

/// The sign of signed integer text: -1 under a leading `-`, else 1.
pub open spec fn i32_sign(s: Seq<char>) -> int {
    if s.len() > 0 && s[0] == '-' {
        -1
    } else {
        1
    }
}

/// The digit portion of signed integer text: everything after an
/// optional leading `+` or `-`.
pub open spec fn i32_digits_part(s: Seq<char>) -> Seq<char> {
    if s.len() > 0 && (s[0] == '+' || s[0] == '-') {
        s.skip(1)
    } else {
        s
    }
}

/// `s` is text that denotes an `i32`: an optional sign, then one or
/// more decimal digits, denoting a value that fits in 32 bits.
pub open spec fn is_i32_text(s: Seq<char>) -> bool {
    let d = i32_digits_part(s);
    d.len() > 0 && all_digits(d) && i32::MIN <= i32_sign(s) * digits_val(d) <= i32::MAX
}

/// The value denoted by `i32` text.
pub open spec fn i32_text_val(s: Seq<char>) -> int {
    i32_sign(s) * digits_val(i32_digits_part(s))
}

/// A digit string's value is non-negative.
proof fn lemma_digits_val_nonneg(s: Seq<char>)
    requires
        all_digits(s),
    ensures
        digits_val(s) >= 0,
    decreases s.len(),
{
    if s.len() > 0 {
        assert(all_digits(s.drop_last()));
        lemma_digits_val_nonneg(s.drop_last());
    }
}

/// Accumulate the digits of `s` from position `start` on, rejecting
/// any non-digit and any value above `limit`.
fn parse_digits(s: &str, start: usize, limit: u64) -> (r: Option<u64>)
    requires
        start as int <= s@.len(),
        limit <= u32::MAX as u64 + 1,
    ensures
        ({
            let d = s@.skip(start as int);
            match r {
                Some(v) => d.len() > 0 && all_digits(d) && v as int == digits_val(d) && v <= limit,
                None => !(d.len() > 0 && all_digits(d) && digits_val(d) <= limit),
            }
        }),
{
    let ghost d = s@.skip(start as int);
    let n = s.unicode_len();
    if start >= n {
        return None;
    }
    let mut i: usize = start;
    let mut acc: u64 = 0;
    let mut over: bool = false;
    while i < n
        invariant
            start <= i <= n,
            n == s@.len(),
            limit <= u32::MAX as u64 + 1,
            d == s@.skip(start as int),
            all_digits(s@.subrange(start as int, i as int)),
            !over ==> acc as int == digits_val(s@.subrange(start as int, i as int)) && acc
                <= limit,
            over ==> digits_val(s@.subrange(start as int, i as int)) > limit,
        decreases n - i,
    {
        let c = s.get_char(i);
        let cv = c as u32;
        if cv < 48 || cv > 57 {
            proof {
                assert(c as int == cv as int);
                assert(!is_digit_char(c));
                assert(d[i - start] == s@[i as int]);
                assert(!is_digit_char(d[i - start]));
                assert(!all_digits(d));
            }
            return None;
        }
        proof {
            let pre = s@.subrange(start as int, i as int);
            let ext = s@.subrange(start as int, i + 1);
            assert(ext.drop_last() =~= pre);
            assert(ext.last() == s@[i as int]);
            assert forall|j: int| 0 <= j < ext.len() implies is_digit_char(#[trigger] ext[j]) by {
                if j < pre.len() {
                    assert(ext[j] == pre[j]);
                } else {
                    assert(ext[j] == s@[i as int]);
                }
            }
        }
        if !over {
            let acc2: u64 = acc * 10 + (cv - 48) as u64;
            if acc2 > limit {
                over = true;
            } else {
                acc = acc2;
            }
        }
        i += 1;
    }
    proof {
        assert(s@.subrange(start as int, i as int) =~= d);
    }
    if over {
        None
    } else {
        Some(acc)
    }
}

/// Parse decimal digits with an optional leading `+` as a `u32`.
///
/// Succeeds exactly on `u32` text and then returns the denoted value.
pub fn parse_u32(s: &str) -> (r: Option<u32>)
    ensures
        r is Some <==> is_u32_text(s@),
        r is Some ==> r->0 as int == u32_text_val(s@),
{
    let n = s.unicode_len();
    let start: usize = if n > 0 && s.get_char(0) == '+' {
        1
    } else {
        0
    };
    proof {
        assert(u32_digits_part(s@) =~= s@.skip(start as int));
    }
    match parse_digits(s, start, u32::MAX as u64) {
        Some(v) => Some(v as u32),
        None => None,
    }
}

/// Parse decimal digits with an optional leading `+` or `-` as an
/// `i32`.
///
/// Succeeds exactly on `i32` text and then returns the denoted value.
pub fn parse_i32(s: &str) -> (r: Option<i32>)
    ensures
        r is Some <==> is_i32_text(s@),
        r is Some ==> r->0 as int == i32_text_val(s@),
{
    let n = s.unicode_len();
    let mut neg = false;
    let mut start: usize = 0;
    if n > 0 {
        let c0 = s.get_char(0);
        if c0 == '+' {
            start = 1;
        } else if c0 == '-' {
            start = 1;
            neg = true;
        }
    }
    proof {
        assert(i32_digits_part(s@) =~= s@.skip(start as int));
        if s@.len() > 0 && s@[0] == '-' {
            assert(neg);
        } else {
            assert(!neg);
        }
    }
    let limit: u64 = if neg {
        2147483648
    } else {
        2147483647
    };
    let ghost d = i32_digits_part(s@);
    match parse_digits(s, start, limit) {
        Some(v) => {
            proof {
                lemma_digits_val_nonneg(d);
            }
            if neg {
                if v == 2147483648 {
                    Some(i32::MIN)
                } else {
                    Some(-(v as i32))
                }
            } else {
                Some(v as i32)
            }
        },
        None => {
            proof {
                if is_i32_text(s@) {
                    lemma_digits_val_nonneg(d);
                }
            }
            None
        },
    }
}

/// The decimal digit character for a value in 0 ..= 9.
pub open spec fn digit_char(d: int) -> char {
    if d == 0 {
        '0'
    } else if d == 1 {
        '1'
    } else if d == 2 {
        '2'
    } else if d == 3 {
        '3'
    } else if d == 4 {
        '4'
    } else if d == 5 {
        '5'
    } else if d == 6 {
        '6'
    } else if d == 7 {
        '7'
    } else if d == 8 {
        '8'
    } else {
        '9'
    }
}

/// The canonical decimal text of a non-negative integer: no sign, no
/// leading zero except for 0 itself.
pub open spec fn dec_text(v: nat) -> Seq<char>
    decreases v,
{
    if v < 10 {
        seq![digit_char(v as int)]
    } else {
        dec_text(v / 10).push(digit_char((v % 10) as int))
    }
}

/// Canonical decimal text consists of digits, is never empty, and
/// denotes the value it was formed from.
pub proof fn lemma_dec_text(v: nat)
    ensures
        dec_text(v).len() > 0,
        all_digits(dec_text(v)),
        digits_val(dec_text(v)) == v,
    decreases v,
{
    if v < 10 {
        let t = dec_text(v);
        assert(t.drop_last() =~= Seq::<char>::empty());
        assert(digits_val(Seq::<char>::empty()) == 0);
        assert(digits_val(t) == digit_char_val(t.last()));
    } else {
        lemma_dec_text(v / 10);
        let t = dec_text(v);
        let pre = dec_text(v / 10);
        assert(t.drop_last() =~= pre);
        assert(t.last() == digit_char((v % 10) as int));
        vstd::arithmetic::div_mod::lemma_fundamental_div_mod(v as int, 10);
        assert forall|j: int| 0 <= j < t.len() implies is_digit_char(#[trigger] t[j]) by {
            if j < pre.len() {
                assert(t[j] == pre[j]);
            }
        }
    }
}

/// The canonical decimal text of a `u32` is valid `u32` text for the
/// same value.
pub proof fn lemma_dec_text_u32(v: u32)
    ensures
        is_u32_text(dec_text(v as nat)),
        u32_text_val(dec_text(v as nat)) == v,
{
    lemma_dec_text(v as nat);
    let t = dec_text(v as nat);
    assert(is_digit_char(t[0]));
    assert(t[0] != '+');
    assert(u32_digits_part(t) == t);
}

/// Format a `u32` as its canonical decimal text.
pub fn u32_to_decimal(v: u32) -> (r: String)
    ensures
        r@ == dec_text(v as nat),
    decreases v,
{
    if v < 10 {
        let s = digit_str(v);
        s.to_owned()
    } else {
        let mut r = u32_to_decimal(v / 10);
        let d = digit_str(v % 10);
        r.append(d);
        proof {
            assert(r@ =~= dec_text(v as nat));
        }
        r
    }
}

/// The one-character string for a digit value in 0 ..= 9.
fn digit_str(v: u32) -> (r: &'static str)
    requires
        v < 10,
    ensures
        r@ == seq![digit_char(v as int)],
{
    proof {
        reveal_strlit("0");
        reveal_strlit("1");
        reveal_strlit("2");
        reveal_strlit("3");
        reveal_strlit("4");
        reveal_strlit("5");
        reveal_strlit("6");
        reveal_strlit("7");
        reveal_strlit("8");
        reveal_strlit("9");
    }
    let r = match v {
        0 => "0",
        1 => "1",
        2 => "2",
        3 => "3",
        4 => "4",
        5 => "5",
        6 => "6",
        7 => "7",
        8 => "8",
        _ => "9",
    };
    proof {
        assert(r@ =~= seq![digit_char(v as int)]);
    }
    r
}

} // verus!
