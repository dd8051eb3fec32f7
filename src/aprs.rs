use vstd::prelude::*;
use crate::qpacket::push_all;

verus! {

/// Opening and closing flag of a frame.
pub const APRS_FLAG: u8 = 0x7E;

/// Control field of an unnumbered-information frame.
pub const APRS_CTRL_FIELD: u8 = 0x03;

/// Protocol identifier: no layer 3.
pub const APRS_PRTCL_ID: u8 = 0xF0;

/// Largest information field, in bytes.
pub const APRS_INFO_FIELD_MAX: usize = 256;

/// Size of the frame check sequence.
pub const APRS_FCS_SIZE: usize = 2;

/// Largest frame: flag, destination, source, path, control, protocol id, information
/// field, check sequence and closing flag.
pub const UI_FRAME_MAX: usize = 1 + 6 + 9 + 15 + 1 + 1 + APRS_INFO_FIELD_MAX + APRS_FCS_SIZE + 1;

/// Destination address, `APZNEX`.
pub open spec fn dst_addr() -> Seq<u8> {
    seq![0x41u8, 0x50, 0x5A, 0x4E, 0x45, 0x58]
}

/// Source address with SSID, `KD9TFA-11`.
pub open spec fn src_addr() -> Seq<u8> {
    seq![0x4Bu8, 0x44, 0x39, 0x54, 0x46, 0x41, 0x2D, 0x31, 0x31]
}

/// Digipeater path, `WIDE1-1,WIDE2-1`.
pub open spec fn path() -> Seq<u8> {
    seq![0x57u8, 0x49, 0x44, 0x45, 0x31, 0x2D, 0x31, 0x2C, 0x57, 0x49, 0x44, 0x45, 0x32, 0x2D, 0x31]
}

/// The CRC-16/IBM-3740 checksum of `data` (polynomial 0x1021, initial value 0xFFFF,
/// no reflection, no final xor).
pub uninterp spec fn crc16_ibm3740(data: Seq<u8>) -> u16;

/// Relies on `crc::Crc::<u16, crc::NoTable>::checksum` with `crc::CRC_16_IBM_3740`: the
/// checksum of the bytes under that algorithm.
#[verifier::external_body]
fn crc16_checksum(bytes: &[u8]) -> (r: u16)
    ensures
        r == crc16_ibm3740(bytes@),
{
    crc::Crc::<u16, crc::NoTable>::new(&crc::CRC_16_IBM_3740).checksum(bytes)
}

/// A 16-bit value, most significant byte first.
pub open spec fn be_bytes(v: u16) -> Seq<u8> {
    seq![(v / 256) as u8, (v % 256) as u8]
}

/// The frame check sequence of `frame`: its CRC-16/IBM-3740, high byte first.
pub fn build_fcs(frame: &[u8]) -> (r: [u8; 2])
    ensures
        r@ == be_bytes(crc16_ibm3740(frame@)),
{
    let crc = crc16_checksum(frame);
    let r: [u8; 2] = [(crc / 256) as u8, (crc % 256) as u8];
    assert(r@ =~= be_bytes(crc16_ibm3740(frame@)));
    r
}

/// The bytes a frame's check sequence covers: addresses, path, control, protocol id and
/// information field.
pub open spec fn frame_body(info: Seq<u8>) -> Seq<u8> {
    dst_addr() + src_addr() + path() + seq![APRS_CTRL_FIELD, APRS_PRTCL_ID] + info
}

/// A whole frame: flag, body, check sequence, flag.
pub open spec fn ax25_frame(info: Seq<u8>, fcs: Seq<u8>) -> Seq<u8> {
    seq![APRS_FLAG] + frame_body(info) + fcs + seq![APRS_FLAG]
}

/// An information field longer than [`APRS_INFO_FIELD_MAX`].
#[derive(Debug, Clone, Copy, PartialEq, Eq, Structural)]
pub struct InfoFieldOverflow;

/// An information field with its frame check sequence.
pub struct AX25Block {
    pub information_field: Vec<u8>,
    pub frame_check_sequence: [u8; 2],
}

/// The body bytes of a frame: addresses, path, control, protocol id and information.
fn frame_body_bytes(info: &[u8]) -> (r: Vec<u8>)
    ensures
        r@ == frame_body(info@),
{
    let dst: [u8; 6] = [0x41, 0x50, 0x5A, 0x4E, 0x45, 0x58];
    let src: [u8; 9] = [0x4B, 0x44, 0x39, 0x54, 0x46, 0x41, 0x2D, 0x31, 0x31];
    let digis: [u8; 15] = [
        0x57, 0x49, 0x44, 0x45, 0x31, 0x2D, 0x31, 0x2C, 0x57, 0x49, 0x44, 0x45, 0x32, 0x2D, 0x31,
    ];
    assert(dst@ =~= dst_addr());
    assert(src@ =~= src_addr());
    assert(digis@ =~= path());
    let mut r: Vec<u8> = Vec::new();
    push_all(&mut r, dst.as_slice());
    push_all(&mut r, src.as_slice());
    push_all(&mut r, digis.as_slice());
    r.push(APRS_CTRL_FIELD);
    r.push(APRS_PRTCL_ID);
    push_all(&mut r, info);
    assert(r@ =~= frame_body(info@));
    r
}

impl AX25Block {
    /// A block for the information field, with the check sequence computed over the
    /// frame body; fails when the field is too long.
    pub fn new(info: &[u8]) -> (r: Result<AX25Block, InfoFieldOverflow>)
        ensures
            info@.len() <= APRS_INFO_FIELD_MAX <==> r is Ok,
            r is Ok ==> r->Ok_0.information_field@ == info@,
            r is Ok ==> r->Ok_0.frame_check_sequence@ == be_bytes(crc16_ibm3740(frame_body(info@))),
    {
        if info.len() > APRS_INFO_FIELD_MAX {
            return Err(InfoFieldOverflow);
        }
        let body = frame_body_bytes(info);
        let fcs = build_fcs(body.as_slice());
        let mut field: Vec<u8> = Vec::new();
        push_all(&mut field, info);
        Ok(AX25Block { information_field: field, frame_check_sequence: fcs })
    }

    /// The frame on the wire: flag, destination, source, path, control, protocol id,
    /// information field, check sequence, flag.
    pub fn to_frame(&self) -> (r: Vec<u8>)
        ensures
            r@ == ax25_frame(self.information_field@, self.frame_check_sequence@),
    {
        let mut frame: Vec<u8> = Vec::new();
        frame.push(APRS_FLAG);
        let body = frame_body_bytes(self.information_field.as_slice());
        push_all(&mut frame, body.as_slice());
        push_all(&mut frame, self.frame_check_sequence.as_slice());
        frame.push(APRS_FLAG);
        assert(frame@ =~= ax25_frame(self.information_field@, self.frame_check_sequence@));
        frame
    }
}

/// Builds the AX.25 UI frame carrying `info`, with its check sequence; fails when the
/// information field is longer than [`APRS_INFO_FIELD_MAX`].
pub fn build_aprs_frame(info: &[u8]) -> (r: Result<Vec<u8>, InfoFieldOverflow>)
    ensures
        info@.len() <= APRS_INFO_FIELD_MAX <==> r is Ok,
        r is Ok ==> r->Ok_0@ == ax25_frame(info@, be_bytes(crc16_ibm3740(frame_body(info@)))),
        r is Ok ==> r->Ok_0@.len() <= UI_FRAME_MAX,
{
    match AX25Block::new(info) {
        Ok(block) => Ok(block.to_frame()),
        Err(e) => Err(e),
    }
}

} // verus!
