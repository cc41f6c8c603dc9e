//! Human-readable byte quantities, scaled to binary units (B, KiB, MiB, ...)
//! by the byte_unit crate.

use byte_unit::Byte;
use vstd::prelude::*;

verus! {

/// The display text of `n` bytes scaled to the appropriate binary unit: the
/// largest of B, KiB, MiB, GiB, ... for which the magnitude is at least one.
pub uninterp spec fn byte_display(n: nat) -> Seq<char>;

/// Relies on byte_unit::Byte::get_appropriate_unit(true) and the Display of
/// the AdjustedByte it returns: both are pure functions of the byte count
/// alone, choosing the largest binary unit that keeps the magnitude >= 1.
#[verifier::external_body]
pub(crate) fn format_bytes(n: u128) -> (r: String)
    ensures
        r@ == byte_display(n as nat),
{
    Byte::from_bytes(n).get_appropriate_unit(true).to_string()
}

} // verus!
