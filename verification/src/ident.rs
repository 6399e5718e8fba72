//! Bus identifier handling: masking raw log identifiers to their valid
//! bit-width and classifying them as standard- or extended-width addresses.

use vstd::prelude::*;

verus! {

/// Widest valid identifier: 29 bits.
pub const ID_MASK: u32 = 0x1FFF_FFFF;

/// Identifiers below this bound use the standard (11-bit) address width;
/// the rest use the extended width.
pub const STANDARD_BOUND: u32 = 0x800;

/// Strips flag bits that some log encodings store above the identifier's
/// valid 29-bit width.
pub fn mask_identifier(raw: u32) -> (id: u32)
    ensures
        id == raw & ID_MASK,
        id <= ID_MASK,
{
    proof {
        assert(raw & ID_MASK <= ID_MASK) by (bit_vector);
    }
    raw & ID_MASK
}

/// True iff the identifier needs the extended address width, derived from
/// the value alone.
pub fn is_extended(id: u32) -> (ext: bool)
    ensures
        ext == (id >= STANDARD_BOUND),
{
    id >= STANDARD_BOUND
}

} // verus!
