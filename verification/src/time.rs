//! The time-of-day filter value. Raw text holds either plain decimal
//! hours, or an hour and a minute separated by the encoded colon
//! `%3A`; the separator is detected on the encoded text itself.

use vstd::prelude::*;
use vstd::string::StrSliceExecFns;

use crate::error::ParseError;
use crate::num::dec_text;
use crate::num::i32_text_val;
use crate::num::is_i32_text;
use crate::num::is_digit_char;
use crate::num::lemma_dec_text;
use crate::num::parse_i32;
use crate::numeric::is_numeric_text;
use crate::numeric::numeric_text_valid;

verus! {

/// A time of day, as parsed: either plain decimal hours, kept as the
/// accepted raw text, or an hour and minute pair, standing for
/// `hour + minute / 60` hours. Neither part is clamped to a range:
/// out-of-range values pass through uninterpreted.
#[derive(Debug, PartialEq)]
pub enum Time {
    /// Plain decimal hours: raw text the host numeric grammar accepts.
    Hours(String),
    /// An integer hour and an integer minute.
    HourMinute(i32, i32),
}

/// What a `Time` holds: the accepted decimal text, or the hour and
/// minute pair.
pub enum TimeView {
    Hours(Seq<char>),
    HourMinute(int, int),
}

impl View for Time {
    type V = TimeView;

    open spec fn view(&self) -> TimeView {
        match self {
            Time::Hours(s) => TimeView::Hours(s@),
            Time::HourMinute(h, m) => TimeView::HourMinute(*h as int, *m as int),
        }
    }
}

impl Clone for Time {
    /// Cloning a time keeps what it holds.
    fn clone(&self) -> (res: Self)
        ensures
            res@ == self@,
    {
        match self {
            Time::Hours(s) => Time::Hours(s.clone()),
            Time::HourMinute(h, m) => Time::HourMinute(*h, *m),
        }
    }
}

/// The encoded colon `%3A` stands at position `i` of `s`.
pub open spec fn marker_at(s: Seq<char>, i: int) -> bool {
    0 <= i && i + 3 <= s.len() && s[i] == '%' && s[i + 1] == '3' && s[i + 2] == 'A'
}

/// `s` holds the encoded colon somewhere.
pub open spec fn has_marker(s: Seq<char>) -> bool {
    exists|i: int| marker_at(s, i)
}

/// `i` is the position of the first encoded colon of `s`.
pub open spec fn is_first_marker(s: Seq<char>, i: int) -> bool {
    marker_at(s, i) && (forall|j: int| 0 <= j < i ==> !marker_at(s, j))
}

/// The position of the first encoded colon of `s`; meaningful only
/// when `s` has one.
pub open spec fn first_marker(s: Seq<char>) -> int {
    choose|i: int| is_first_marker(s, i)
}

/// At most one position is the first marker, so a found first marker
/// is the first marker.
pub proof fn lemma_first_marker(s: Seq<char>, i: int)
    requires
        is_first_marker(s, i),
    ensures
        first_marker(s) == i,
        has_marker(s),
{
    assert(has_marker(s)) by {
        assert(marker_at(s, i));
    }
    let j = first_marker(s);
    assert(is_first_marker(s, j)) by {
        assert(is_first_marker(s, i));
    }
    if j < i {
        assert(!marker_at(s, j));
    }
    if i < j {
        assert(!marker_at(s, i));
    }
}

/// A non-negative hour and minute, written in decimal around the
/// encoded colon, are recognized as a pair and valued exactly:
/// together with the parser's contract, parsing such text yields
/// exactly that hour and minute.
pub proof fn lemma_hour_minute_text(h: i32, m: i32)
    requires
        0 <= h,
        0 <= m,
    ensures
        ({
            let w = dec_text(h as nat) + seq!['%', '3', 'A'] + dec_text(m as nat);
            &&& has_marker(w)
            &&& first_marker(w) == dec_text(h as nat).len()
            &&& w.take(first_marker(w)) == dec_text(h as nat)
            &&& w.skip(first_marker(w) + 3) == dec_text(m as nat)
            &&& is_i32_text(dec_text(h as nat)) && i32_text_val(dec_text(h as nat)) == h
            &&& is_i32_text(dec_text(m as nat)) && i32_text_val(dec_text(m as nat)) == m
        }),
{
    let dh = dec_text(h as nat);
    let dm = dec_text(m as nat);
    lemma_dec_text(h as nat);
    lemma_dec_text(m as nat);
    let w = dh + seq!['%', '3', 'A'] + dm;
    let i = dh.len() as int;
    assert(w[i] == '%' && w[i + 1] == '3' && w[i + 2] == 'A');
    assert(marker_at(w, i));
    assert forall|j: int| 0 <= j < i implies !marker_at(w, j) by {
        assert(w[j] == dh[j]);
        assert(is_digit_char(dh[j]));
    }
    lemma_first_marker(w, i);
    assert(w.take(i) =~= dh);
    assert(w.skip(i + 3) =~= dm);
    assert(is_digit_char(dh[0]) && is_digit_char(dm[0]));
    assert(crate::num::i32_digits_part(dh) == dh);
    assert(crate::num::i32_digits_part(dm) == dm);
    assert(crate::num::i32_sign(dh) == 1 && crate::num::i32_sign(dm) == 1);
}

impl Time {
    /// Parse a raw time value. With no encoded colon, the whole text
    /// must satisfy the host numeric grammar and is kept verbatim as
    /// decimal hours; with one, the text before the first encoded
    /// colon must be an integer hour and the text after it an integer
    /// minute.
    pub fn from_form_value(form_value: &str) -> (r: Result<Time, ParseError>)
        ensures
            !has_marker(form_value@) ==> (r is Ok <==> is_numeric_text(form_value@)),
            !has_marker(form_value@) && r is Ok ==> r->Ok_0@ == TimeView::Hours(form_value@),
            has_marker(form_value@) ==> (r is Ok <==> is_i32_text(
                form_value@.take(first_marker(form_value@)),
            ) && is_i32_text(form_value@.skip(first_marker(form_value@) + 3))),
            has_marker(form_value@) && r is Ok ==> r->Ok_0@ == TimeView::HourMinute(
                i32_text_val(form_value@.take(first_marker(form_value@))),
                i32_text_val(form_value@.skip(first_marker(form_value@) + 3)),
            ),
            r is Err ==> r->Err_0 is InvalidTime && r->Err_0.raw() == form_value@,
    {
        let ghost v = form_value@;
        let n = form_value.unicode_len();
        let mut i: usize = 0;
        let mut found = false;
        while !found && i + 2 < n
            invariant
                n == v.len(),
                v == form_value@,
                i + 2 <= n || i == 0,
                found ==> is_first_marker(v, i as int),
                !found ==> forall|j: int| 0 <= j < i ==> !marker_at(v, j),
            decreases n - i, (if found {
                0int
            } else {
                1int
            }),
        {
            if form_value.get_char(i) == '%' && form_value.get_char(i + 1) == '3'
                && form_value.get_char(i + 2) == 'A' {
                found = true;
            } else {
                i += 1;
            }
        }
        if !found {
            proof {
                assert(!has_marker(v)) by {
                    if has_marker(v) {
                        let k = choose|k: int| marker_at(v, k);
                        assert(!marker_at(v, k));
                    }
                }
            }
            if numeric_text_valid(form_value) {
                Ok(Time::Hours(form_value.to_owned()))
            } else {
                Err(ParseError::InvalidTime(form_value.to_owned()))
            }
        } else {
            proof {
                lemma_first_marker(v, i as int);
            }
            let hour_part = form_value.substring_char(0, i);
            let minute_part = form_value.substring_char(i + 3, n);
            proof {
                assert(hour_part@ =~= v.take(i as int));
                assert(minute_part@ =~= v.skip(i + 3));
            }
            match parse_i32(hour_part) {
                Some(hour) => match parse_i32(minute_part) {
                    Some(minute) => Ok(Time::HourMinute(hour, minute)),
                    None => Err(ParseError::InvalidTime(form_value.to_owned())),
                },
                None => Err(ParseError::InvalidTime(form_value.to_owned())),
            }
        }
    }
}

} // verus!
