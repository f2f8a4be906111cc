//! What an invocation decides from the two flag values: the direction flag
//! must be exactly `inc` or `dec`, and the optional amount flag is an
//! unsigned percentage defaulting to 5.

use crate::adjust::AdjustDirection;
use crate::text::{parse_u32, parsed_u32};
use vstd::prelude::*;

verus! {

/// The bytes of the literal `inc`.
pub open spec fn inc_text() -> Seq<u8> {
    seq![105u8, 110u8, 99u8]
}

/// The bytes of the literal `dec`.
pub open spec fn dec_text() -> Seq<u8> {
    seq![100u8, 101u8, 99u8]
}

/// The direction named by a flag value: exactly `inc` or `dec`,
/// case-sensitive, nothing else.
pub open spec fn direction_of(s: Seq<u8>) -> Option<AdjustDirection> {
    if s == inc_text() {
        Some(AdjustDirection::Inc)
    } else if s == dec_text() {
        Some(AdjustDirection::Dec)
    } else {
        None
    }
}

/// What the program does with the parsed flag values.
#[derive(Debug, Clone, Copy, PartialEq, Eq, Structural)]
pub enum Invocation {
    /// Missing or invalid direction flag: print the usage text, touch
    /// nothing.
    Usage,
    /// The amount flag is present but not an unsigned decimal number: halt
    /// with a parse error.
    BadAmount,
    /// Perform the adjustment.
    Adjust { dir: AdjustDirection, amount: u32 },
}

pub open spec fn view_of_opt(o: Option<&[u8]>) -> Option<Seq<u8>> {
    match o {
        Some(s) => Some(s@),
        None => None,
    }
}

/// The decision taken for the direction and amount flag values: an absent
/// or unrecognised direction asks for usage text (the amount is then never
/// looked at), an absent amount defaults to 5 percent, and a malformed
/// amount is a fatal parse error.
pub open spec fn invocation_of(dir_text: Option<Seq<u8>>, amount_text: Option<Seq<u8>>) -> Invocation {
    match dir_text {
        None => Invocation::Usage,
        Some(d) => match direction_of(d) {
            None => Invocation::Usage,
            Some(dir) => match amount_text {
                None => Invocation::Adjust { dir, amount: 5u32 },
                Some(a) => match parsed_u32(a) {
                    Some(amount) => Invocation::Adjust { dir, amount },
                    None => Invocation::BadAmount,
                },
            },
        },
    }
}

/// The direction named by a flag value, or `None` for anything that is not
/// exactly `inc` or `dec`.
pub fn parse_direction(s: &[u8]) -> (r: Option<AdjustDirection>)
    ensures
        r == direction_of(s@),
{
    if s.len() == 3 {
        if s[0] == 105 && s[1] == 110 && s[2] == 99 {
            proof {
                assert(s@ =~= inc_text());
            }
            return Some(AdjustDirection::Inc);
        }
        if s[0] == 100 && s[1] == 101 && s[2] == 99 {
            proof {
                assert(s@ =~= dec_text());
            }
            return Some(AdjustDirection::Dec);
        }
    }
    None
}

/// Decides what one program run does, from the raw values of the direction
/// and amount flags.
pub fn plan_invocation(dir_text: Option<&[u8]>, amount_text: Option<&[u8]>) -> (r: Invocation)
    ensures
        r == invocation_of(view_of_opt(dir_text), view_of_opt(amount_text)),
{
    match dir_text {
        None => Invocation::Usage,
        Some(d) => match parse_direction(d) {
            None => Invocation::Usage,
            Some(dir) => match amount_text {
                None => Invocation::Adjust { dir, amount: 5 },
                Some(a) => match parse_u32(a) {
                    Some(amount) => Invocation::Adjust { dir, amount },
                    None => Invocation::BadAmount,
                },
            },
        },
    }
}

/// Omitting the amount flag decides exactly as passing it the text `5`
/// does, whatever the direction flag holds.
pub proof fn lemma_default_amount(dir_text: Option<Seq<u8>>)
    ensures
        invocation_of(dir_text, None) == invocation_of(dir_text, Some(seq![53u8])),
{
    let a = seq![53u8];
    assert(!crate::text::is_space_spec(53));
    assert(crate::text::trimmed_spec(a) == a);
    assert(crate::text::body_of_unsigned(a) == a);
    assert(crate::text::all_digits(a));
    assert(a.drop_last() =~= Seq::<u8>::empty());
    assert(crate::text::digits_value(Seq::<u8>::empty()) == 0);
    assert(a.last() == 53);
    assert(crate::text::digits_value(a) == 5);
    assert(parsed_u32(a) == Some(5u32));
}

} // verus!
