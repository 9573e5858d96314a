//! A volume image held in memory: reading is taking a range of its bytes.

use vstd::prelude::*;
use vstd::slice::slice_subrange;

verus! {

/// The `len` bytes of `image` that start at `offset`, where the image holds
/// all of them.
pub open spec fn range_of(image: Seq<u8>, offset: int, len: int) -> Option<Seq<u8>> {
    if 0 <= offset && 0 <= len && offset + len <= image.len() {
        Some(image.subrange(offset, offset + len))
    } else {
        None
    }
}

/// Reads `len` bytes at `offset`. The read fails where any of them lies
/// beyond the end of the image.
pub fn read_at(image: &[u8], offset: u64, len: u64) -> (r: Option<&[u8]>)
    ensures
        match r {
            Some(bytes) => range_of(image@, offset as int, len as int) == Some(bytes@),
            None => range_of(image@, offset as int, len as int) is None,
        },
{
    let size: u64 = image.len() as u64;
    if offset > size || len > size - offset {
        None
    } else {
        Some(slice_subrange(image, offset as usize, (offset + len) as usize))
    }
}

} // verus!
