use vstd::prelude::*;
use crate::parameters::MAX_KISS_FRAME_SIZE;
use crate::tnc::{escape_seq, flat, TncFrameBuffer};

verus! {

/// An escaped sequence holds a `FESC` that is not followed by `TFEND` or `TFESC`.
#[derive(Debug, Clone, Copy, PartialEq, Eq, Structural)]
pub struct InvalidEscapedByteError;

/// Escapes and joins the slices into one buffer.
pub fn make_tnc_frame(data: &[&[u8]]) -> (r: TncFrameBuffer)
    requires
        escape_seq(flat(data@)).len() <= MAX_KISS_FRAME_SIZE,
    ensures
        r.wf(),
        r@ == escape_seq(flat(data@)),
{
    TncFrameBuffer::escaping_new_from_slices(data)
}

} // verus!
