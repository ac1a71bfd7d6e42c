//! Identity metadata drawn from outside the library: fresh random
//! identifiers and the current wall-clock time. The values depend on the
//! process environment, so beyond the fixed shape each carries — the
//! version and variant bits of an identifier, the layout of a timestamp —
//! nothing is promised of them; everything proved about the library holds
//! for every outcome.

use vstd::prelude::*;

verus! {

/// The bits every identifier the library mints has: in the 128-bit form,
/// the version nibble holds four and the variant bits hold the standard
/// two-bit pattern. Everything else is random.
pub open spec fn v4_bits(u: u128) -> bool {
    (u >> 76) & 0xf == 4 && (u >> 62) & 3 == 2
}

/// The shape every timestamp the library mints has: eleven characters,
/// dashes after the two-digit day, month and year, decimal digits
/// everywhere else.
pub open spec fn stamp_shaped(s: Seq<char>) -> bool {
    &&& s.len() == 11
    &&& s[2] == '-' && s[5] == '-' && s[8] == '-'
    &&& forall|i: int|
        0 <= i < 11 && i != 2 && i != 5 && i != 8 ==> '0' <= #[trigger] s[i] && s[i] <= '9'
}

/// Relies on uuid::Uuid::new_v4, with Uuid::as_u128 converting the result:
/// a freshly drawn random 128-bit identifier. new_v4 masks the version
/// nibble to four and the variant bits to the standard pattern; the other
/// 122 bits are random, so nothing more is promised.
#[verifier::external_body]
pub(crate) fn fresh_id() -> (r: u128)
    ensures
        v4_bits(r),
{
    uuid::Uuid::new_v4().as_u128()
}

/// Relies on chrono::Local::now and DateTime::format: the current local
/// time rendered as "%d-%m-%y-%H" — day, month, two-digit year and hour,
/// each zero-padded to exactly two digits and joined by dashes, so the text
/// always has the shape `stamp_shaped` describes. The time itself is
/// whatever the clock reads, so nothing more is promised.
#[verifier::external_body]
pub(crate) fn now_stamp() -> (r: String)
    ensures
        stamp_shaped(r@),
{
    chrono::Local::now().format("%d-%m-%y-%H").to_string()
}

} // verus!
