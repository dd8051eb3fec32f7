use vstd::prelude::*;
use crate::parameters::MAX_KISS_FRAME_SIZE;
use crate::tnc::{
    escape_seq,
    unescape_seq,
    lemma_escape_round_trip,
    TncFrameBuffer,
    Message,
    CMD_RETURN,
    CMD_SETHARDWARE,
    FEND,
};
use crate::tnc::tnc_frame_encoder::InvalidEscapedByteError;

verus! {

/// An unrecognised KISS command.
#[derive(Debug, Clone, Copy, PartialEq, Eq, Structural)]
pub struct InvalidTncCommandError;

/// Why a KISS frame could not be decoded.
#[derive(Debug, Clone, Copy, PartialEq, Eq, Structural)]
pub enum TncDecodeError {
    /// The frame holds no header byte, or its header names no KISS command.
    Command(InvalidTncCommandError),
    /// The frame holds a `FESC` not followed by `TFEND` or `TFESC`.
    Escape(InvalidEscapedByteError),
}

/// Whether a header byte names a KISS command: the return byte, or a low nibble that is
/// one of the seven port commands.
pub open spec fn valid_header(h: u8) -> bool {
    h == CMD_RETURN || (h & 0x0Fu8) <= CMD_SETHARDWARE
}

/// The contents of a frame: without its delimiters when it both opens and closes with
/// `FEND`, the whole of it otherwise.
pub open spec fn kiss_body(f: Seq<u8>) -> Seq<u8> {
    if f.len() >= 2 && f[0] == FEND && f.last() == FEND {
        f.subrange(1, f.len() - 1)
    } else {
        f
    }
}

/// What decoding a KISS frame gives: its header byte, taken as it is, and its
/// un-escaped payload. A frame without a header byte, or whose header names no command,
/// is a command error, checked before the payload.
pub open spec fn decode_frame_spec(f: Seq<u8>) -> Result<(u8, Seq<u8>), TncDecodeError> {
    let b = kiss_body(f);
    if b.len() == 0 || !valid_header(b[0]) {
        Err(TncDecodeError::Command(InvalidTncCommandError))
    } else {
        match unescape_seq(b.skip(1)) {
            Some(p) => Ok((b[0], p)),
            None => Err(TncDecodeError::Escape(InvalidEscapedByteError)),
        }
    }
}

/// Decodes a KISS frame (`FEND`, header byte, escaped payload, `FEND`; the delimiters
/// may both be absent) into its header byte and its un-escaped payload.
pub fn decode_tnc_frame(frame: &[u8]) -> (r: Result<(u8, TncFrameBuffer), TncDecodeError>)
    requires
        frame@.len() <= MAX_KISS_FRAME_SIZE,
    ensures
        match decode_frame_spec(frame@) {
            Ok((h, p)) => r is Ok && r->Ok_0.0 == h && r->Ok_0.1.wf() && r->Ok_0.1@ == p,
            Err(e) => r is Err && r->Err_0 == e,
        },
{
    let len = frame.len();
    let framed = len >= 2 && frame[0] == FEND && frame[len - 1] == FEND;
    let start: usize = if framed {
        1
    } else {
        0
    };
    let end: usize = if framed {
        len - 1
    } else {
        len
    };
    let ghost body = kiss_body(frame@);
    assert(body =~= frame@.subrange(start as int, end as int));
    if start >= end {
        return Err(TncDecodeError::Command(InvalidTncCommandError));
    }
    let header = frame[start];
    assert(body[0] == header);
    if !(header == CMD_RETURN || (header & 0x0F) <= CMD_SETHARDWARE) {
        return Err(TncDecodeError::Command(InvalidTncCommandError));
    }
    let ghost rest = body.skip(1);
    let mut buffer = TncFrameBuffer::empty_new();
    let mut i: usize = start + 1;
    while i < end
        invariant
            len == frame@.len() <= MAX_KISS_FRAME_SIZE,
            start < i <= end <= len,
            body == frame@.subrange(start as int, end as int),
            rest == body.skip(1),
            buffer.wf(),
            buffer@ == rest.take(i - start - 1),
            buffer.current_len == i - start - 1,
        decreases end - i,
    {
        buffer.raw_add_byte(frame[i]);
        i += 1;
        assert(buffer@ =~= rest.take(i - start - 1));
    }
    assert(rest.take(end - start - 1) =~= rest);
    match buffer.raw_all() {
        Err(e) => Err(TncDecodeError::Escape(e)),
        Ok(()) => Ok((header, buffer)),
    }
}

/// Decoding a full frame gives back its header byte and data.
pub proof fn lemma_frame_round_trip(h: u8, d: Seq<u8>)
    requires
        valid_header(h),
    ensures
        decode_frame_spec(seq![FEND, h] + escape_seq(d) + seq![FEND]) == Ok::<
            (u8, Seq<u8>),
            TncDecodeError,
        >((h, d)),
{
    let f = seq![FEND, h] + escape_seq(d) + seq![FEND];
    lemma_escape_round_trip(d);
    assert(kiss_body(f) =~= seq![h] + escape_seq(d));
    assert(kiss_body(f).skip(1) =~= escape_seq(d));
}

/// Decoding a header byte followed by escaped data, without delimiters, gives back the
/// header byte and data.
pub proof fn lemma_unframed_round_trip(h: u8, d: Seq<u8>)
    requires
        valid_header(h),
    ensures
        decode_frame_spec(seq![h] + escape_seq(d)) == Ok::<(u8, Seq<u8>), TncDecodeError>((h, d)),
{
    let f = seq![h] + escape_seq(d);
    lemma_escape_round_trip(d);
    if f.len() >= 2 {
        assert(f.last() == escape_seq(d)[escape_seq(d).len() - 1]);
    }
    assert(kiss_body(f) =~= f);
    assert(f.skip(1) =~= escape_seq(d));
}

/// Decoding the frame of a message gives back its header byte and payload.
pub proof fn lemma_message_round_trip(m: Message, port: u8)
    requires
        port < 16,
    ensures
        decode_frame_spec(
            seq![FEND, (port << 4u8) | m.command()] + escape_seq(m.payload()) + seq![FEND],
        ) == Ok::<(u8, Seq<u8>), TncDecodeError>(((port << 4u8) | m.command(), m.payload())),
{
    let low = m.command();
    let header = (port << 4u8) | low;
    assert(header == 0xFFu8 || header & 0x0Fu8 <= 6u8) by (bit_vector)
        requires
            port < 16,
            low <= 6 || low == 0xFF,
            header == (port << 4u8) | low,
    ;
    lemma_frame_round_trip(header, m.payload());
}

} // verus!
