//! Typed filter values parsed from raw, still-percent-encoded query
//! text: the identifier code and the runway-length comparison, with
//! the comparison's match evaluation against runways.
//!
//! Operator tokens are detected on the encoded text itself (`%3C`,
//! `%3E`, `%3D`); nothing here decodes the input first.

use vstd::prelude::*;
use vstd::string::StrSliceExecFns;
use vstd::string::StringExecFns;

use crate::airport::Runway;
use crate::error::ParseError;
use crate::num::dec_text;
use crate::num::is_u32_text;
use crate::num::lemma_dec_text_u32;
use crate::num::parse_u32;
use crate::num::u32_text_val;
use crate::num::u32_to_decimal;

verus! {

/// An airport identifier code, wrapped verbatim; never built from
/// empty text by the parser.
#[derive(Debug, Clone, PartialEq)]
pub struct ICAO(pub String);

impl View for ICAO {
    type V = Seq<char>;

    open spec fn view(&self) -> Seq<char> {
        self.0@
    }
}

impl ICAO {
    /// Read the underlying identifier text.
    pub fn as_str(&self) -> (r: &str)
        ensures
            r@ == self@,
    {
        self.0.as_str()
    }

    /// Parse a raw identifier value: any non-empty text is wrapped
    /// verbatim; empty text is rejected.
    pub fn from_form_value(form_value: &str) -> (r: Result<ICAO, ParseError>)
        ensures
            r is Ok <==> form_value@.len() > 0,
            r is Ok ==> r->Ok_0@ == form_value@,
            r is Err ==> r->Err_0 is EmptyIdentifier && r->Err_0.raw() == form_value@,
    {
        if !form_value.is_empty() {
            Ok(ICAO(form_value.to_owned()))
        } else {
            Err(ParseError::EmptyIdentifier(form_value.to_owned()))
        }
    }
}

/// The relation a runway-length comparison demands between a runway's
/// length and the stored value.
#[derive(Debug, Clone, Copy, PartialEq, Eq, Structural)]
pub enum LengthOrder {
    Less,
    Equal,
    Greater,
}

/// The three-way comparison of two lengths.
pub open spec fn length_cmp(a: u32, b: u32) -> LengthOrder {
    if a < b {
        LengthOrder::Less
    } else if a == b {
        LengthOrder::Equal
    } else {
        LengthOrder::Greater
    }
}

/// The operator token a wire value must start with, one per order:
/// `%3C` for less-than, `%3E` for greater-than, `%3D` for equal-to.
pub open spec fn wire_token(order: LengthOrder) -> Seq<char> {
    match order {
        LengthOrder::Less => seq!['%', '3', 'C'],
        LengthOrder::Greater => seq!['%', '3', 'E'],
        LengthOrder::Equal => seq!['%', '3', 'D'],
    }
}

/// The order encoded by the first three characters of `s`, if they
/// form a recognized operator token.
pub open spec fn wire_order(s: Seq<char>) -> Option<LengthOrder> {
    if s.len() >= 3 && s[0] == '%' && s[1] == '3' {
        if s[2] == 'C' {
            Some(LengthOrder::Less)
        } else if s[2] == 'E' {
            Some(LengthOrder::Greater)
        } else if s[2] == 'D' {
            Some(LengthOrder::Equal)
        } else {
            None
        }
    } else {
        None
    }
}

/// `s` is a complete wire-format comparison: at least four characters,
/// a recognized operator token, and a `u32` length after it.
pub open spec fn comparison_wire_ok(s: Seq<char>) -> bool {
    s.len() >= 4 && wire_order(s) is Some && is_u32_text(s.skip(3))
}

/// The comparison a valid wire value denotes.
pub open spec fn comparison_of_wire(s: Seq<char>) -> RunwayLength
    recommends
        comparison_wire_ok(s),
{
    RunwayLength { order: wire_order(s)->0, value: u32_text_val(s.skip(3)) as u32 }
}

/// A runway-length comparison directive: match a runway whose length
/// stands in `order` to `value`.
#[derive(Debug, Clone, Copy, PartialEq, Eq, Structural)]
pub struct RunwayLength {
    pub order: LengthOrder,
    pub value: u32,
}

impl RunwayLength {
    /// Parse a raw runway-length comparison. The first three
    /// characters must be a recognized operator token and the rest a
    /// non-negative integer; anything shorter than four characters or
    /// with an unrecognized token is malformed.
    pub fn from_form_value(form_value: &str) -> (r: Result<RunwayLength, ParseError>)
        ensures
            r is Ok <==> comparison_wire_ok(form_value@),
            r is Ok ==> r->Ok_0 == comparison_of_wire(form_value@),
            r is Err ==> r->Err_0.raw() == form_value@,
            r is Err ==> (r->Err_0 is MalformedComparison <==> (form_value@.len() < 4
                || wire_order(form_value@) is None)),
            r is Err ==> (r->Err_0 is InvalidLength <==> (form_value@.len() >= 4 && wire_order(
                form_value@,
            ) is Some && !is_u32_text(form_value@.skip(3)))),
    {
        let n = form_value.unicode_len();
        if n < 4 {
            return Err(ParseError::MalformedComparison(form_value.to_owned()));
        }
        let c0 = form_value.get_char(0);
        let c1 = form_value.get_char(1);
        let c2 = form_value.get_char(2);
        let order = if c0 == '%' && c1 == '3' && c2 == 'C' {
            LengthOrder::Less
        } else if c0 == '%' && c1 == '3' && c2 == 'E' {
            LengthOrder::Greater
        } else if c0 == '%' && c1 == '3' && c2 == 'D' {
            LengthOrder::Equal
        } else {
            return Err(ParseError::MalformedComparison(form_value.to_owned()));
        };
        let rest = form_value.substring_char(3, n);
        proof {
            assert(rest@ =~= form_value@.skip(3));
        }
        match parse_u32(rest) {
            Some(value) => Ok(RunwayLength { order, value }),
            None => Err(ParseError::InvalidLength(form_value.to_owned())),
        }
    }

    /// The wire text this comparison serializes to: its operator token
    /// followed by the canonical decimal text of its value.
    pub open spec fn wire_text(self) -> Seq<char> {
        wire_token(self.order) + dec_text(self.value as nat)
    }

    /// Serialize this comparison back to its wire text.
    pub fn to_wire(&self) -> (r: String)
        ensures
            r@ == self.wire_text(),
    {
        proof {
            reveal_strlit("%3C");
            reveal_strlit("%3E");
            reveal_strlit("%3D");
        }
        let mut s = match self.order {
            LengthOrder::Less => "%3C".to_owned(),
            LengthOrder::Greater => "%3E".to_owned(),
            LengthOrder::Equal => "%3D".to_owned(),
        };
        proof {
            assert(s@ =~= wire_token(self.order));
        }
        let d = u32_to_decimal(self.value);
        s.append(d.as_str());
        s
    }

    /// Whether this comparison matches one runway: its length is known
    /// and stands in the stored relation to the stored value.
    pub open spec fn is_match_spec(self, runway: Runway) -> bool {
        match runway.length {
            Some(len) => length_cmp(len, self.value) == self.order,
            None => false,
        }
    }

    /// Evaluate this comparison against one runway. A runway of
    /// unknown length never matches.
    pub fn is_match(&self, runway: &Runway) -> (r: bool)
        ensures
            r == self.is_match_spec(*runway),
    {
        match runway.length {
            Some(len) => {
                let c = if len < self.value {
                    LengthOrder::Less
                } else if len == self.value {
                    LengthOrder::Equal
                } else {
                    LengthOrder::Greater
                };
                c == self.order
            },
            None => false,
        }
    }

    /// Whether this comparison matches some runway of the sequence.
    pub open spec fn seq_any_match(self, rs: Seq<Runway>) -> bool {
        exists|i: int| 0 <= i < rs.len() && #[trigger] self.is_match_spec(rs[i])
    }

    /// Whether this comparison matches any runway of an optional list;
    /// an absent list matches nothing.
    pub open spec fn any_match_spec(self, runways: Option<Seq<Runway>>) -> bool {
        match runways {
            Some(rs) => self.seq_any_match(rs),
            None => false,
        }
    }

    /// Evaluate this comparison against a record's optional runway
    /// list: true exactly when the list is present and some runway in
    /// it matches.
    pub fn any_match(&self, runways: &Option<Vec<Runway>>) -> (r: bool)
        ensures
            r == self.any_match_spec(view_runways(*runways)),
    {
        match runways {
            Some(rs) => {
                let mut i: usize = 0;
                while i < rs.len()
                    invariant
                        i <= rs@.len(),
                        view_runways(*runways) == Some(rs@),
                        forall|j: int| 0 <= j < i ==> !self.is_match_spec(rs@[j]),
                    decreases rs@.len() - i,
                {
                    if self.is_match(&rs[i]) {
                        proof {
                            assert(self.seq_any_match(rs@)) by {
                                assert((i as int) < rs@.len() && self.is_match_spec(
                                    rs@[i as int],
                                ));
                            }
                        }
                        return true;
                    }
                    i += 1;
                }
                false
            },
            None => false,
        }
    }
}

/// The runway sequence a record's optional runway list holds.
pub open spec fn view_runways(runways: Option<Vec<Runway>>) -> Option<Seq<Runway>> {
    match runways {
        Some(v) => Some(v@),
        None => None,
    }
}

/// An absent runway list never matches, and neither does an empty one,
/// whatever the comparison.
pub proof fn lemma_any_match_vacuous(filter: RunwayLength)
    ensures
        !filter.any_match_spec(None),
        !filter.any_match_spec(Some(Seq::<Runway>::empty())),
{
}

/// Round trip: every representable comparison, serialized to its wire
/// text and parsed back, yields itself.
#[verifier::rlimit(100)]
pub proof fn lemma_wire_round_trip(filter: RunwayLength)
    ensures
        comparison_wire_ok(filter.wire_text()),
        comparison_of_wire(filter.wire_text()) == filter,
{
    let w = filter.wire_text();
    let t = wire_token(filter.order);
    let d = dec_text(filter.value as nat);
    lemma_dec_text_u32(filter.value);
    assert(w.skip(3) =~= d);
    assert(is_u32_text(w.skip(3)));
    assert(u32_text_val(w.skip(3)) == filter.value);
    assert(d.len() > 0);
    assert(w.len() >= 4);
    assert(w[0] == t[0] && w[1] == t[1] && w[2] == t[2]);
    match filter.order {
        LengthOrder::Less => {
            assert(w[0] == '%' && w[1] == '3' && w[2] == 'C');
        },
        LengthOrder::Greater => {
            assert(w[0] == '%' && w[1] == '3' && w[2] == 'E');
        },
        LengthOrder::Equal => {
            assert(w[0] == '%' && w[1] == '3' && w[2] == 'D');
        },
    }
    assert(wire_order(w) == Some(filter.order));
    assert(comparison_of_wire(w).value == filter.value);
}

} // verus!
