use vstd::prelude::*;

use crate::arena::Arena;
use crate::arena::BoundaryError;
use crate::arena::MemoryBlock;
use crate::codec::encode_string;

verus! {

/// The guest half of the logging bridge: places `message` in a fresh
/// length-delimited buffer and hands its block back, for the caller to
/// pass to the host-supplied logging sink. The guest never frees a buffer
/// given to the sink: ownership of diagnostic buffers is host-defined.
pub fn log(arena: &mut Arena, message: &[u8]) -> (r: Result<MemoryBlock, BoundaryError>)
    requires
        old(arena).wf(),
    ensures
        final(arena).wf(),
        r is Err <==> old(arena).exhausted(),
        r is Err ==> r == Err::<MemoryBlock, BoundaryError>(BoundaryError::OutOfMemory)
            && *final(arena) == *old(arena),
        r is Ok ==> ({
            let b = r->Ok_0;
            &&& !old(arena).is_live(b.address)
            &&& final(arena).is_live(b.address)
            &&& final(arena).bytes_at(b.address) == message@
            &&& b.length == message@.len()
            &&& forall|a: u64|
                a != b.address ==> final(arena).is_live(a) == old(arena).is_live(a)
            &&& forall|a: u64|
                a != b.address && old(arena).is_live(a) ==> final(arena).bytes_at(a) == old(
                    arena,
                ).bytes_at(a)
        }),
{
    encode_string(arena, message, false)
}

} // verus!
