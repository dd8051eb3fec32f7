use libapollo::tnc::tnc_frame_decoder::{decode_tnc_frame, InvalidTncCommandError, TncDecodeError};
use libapollo::tnc::tnc_frame_encoder::make_tnc_frame;
use libapollo::tnc::{escaped_len, Message, TncFrameBuffer, CMD_DATAFRAME, CMD_TXDELAY, FEND, FESC, TFEND, TFESC};

const _DATA: &[u8] = &[11u8, FEND, 0u8, FESC, FESC, FESC, 124u8, 11u8];
const _EXPECTED_ESCAPED_DATA: [u8; 12] =
    [11u8, FESC, TFEND, 0u8, FESC, TFESC, FESC, TFESC, FESC, TFESC, 124u8, 11u8];

fn contents(buffer: &TncFrameBuffer) -> Vec<u8> {
    buffer.data[0..buffer.current_len].to_vec()
}

#[test]
pub fn test_tnc_encode() {
    const _LABEL: &[u8] = &[CMD_DATAFRAME];
    let data_frame = make_tnc_frame(&[_LABEL, _DATA]);
    assert_eq!(data_frame.data[_LABEL.len()..data_frame.current_len], _EXPECTED_ESCAPED_DATA);
}

#[test]
pub fn test_tnc_escape() {
    let data_frame = TncFrameBuffer::raw_new(_DATA);
    let mut cycled_data_frame = data_frame.clone();

    cycled_data_frame.escape_all();
    cycled_data_frame.raw_all().unwrap();

    assert_eq!(
        data_frame.data[0..data_frame.current_len],
        cycled_data_frame.data[0..cycled_data_frame.current_len]
    );
}

#[test]
pub fn test_tnc_is_escaped() {
    let escaped_buffer: TncFrameBuffer = TncFrameBuffer::raw_new(&_EXPECTED_ESCAPED_DATA);
    let unescaped_buffer: TncFrameBuffer = TncFrameBuffer::raw_new(&[0x11, FEND, 0x00, FEND, 0x41]);
    assert!(escaped_buffer.is_escaped());
    assert!(!unescaped_buffer.is_escaped());
}

#[test]
pub fn test_message_header() {
    let _message = Message::SetTXDelay(24u8);
    assert_eq!(_message.header_byte(0), CMD_TXDELAY | 0b00000000u8);
    assert_eq!(_message.header_byte(1), CMD_TXDELAY | 0b00010000u8);
    assert_eq!(_message.header_byte(15), CMD_TXDELAY | 0b11110000u8);
}

#[test]
fn header_bytes_of_all_messages() {
    let data = [1u8, 2];
    assert_eq!(Message::SendDataFrame(&data).header_byte(3), 0x30);
    assert_eq!(Message::SetP(1).header_byte(0), 0x02);
    assert_eq!(Message::SetSlotTime(1).header_byte(0), 0x03);
    assert_eq!(Message::SetTXTail(1).header_byte(2), 0x24);
    assert_eq!(Message::SetFullDuplex(1).header_byte(0), 0x05);
    assert_eq!(Message::SetHardware(1).header_byte(0), 0x06);
    assert_eq!(Message::Return.header_byte(5), 0xFF);
}

#[test]
fn kiss_escape_examples() {
    let first = TncFrameBuffer::escaping_new(&[0x94, 0xC0, 0x11, 0xDB]);
    assert_eq!(contents(&first), vec![0x94, 0xDB, 0xDC, 0x11, 0xDB, 0xDD]);
    let second = TncFrameBuffer::escaping_new(&[0x94, 0xC0, 0x11, 0xDB, 0x00, 0xDB, 0xDB, 0xC0, 0xDC]);
    assert_eq!(
        contents(&second),
        vec![0x94, 0xDB, 0xDC, 0x11, 0xDB, 0xDD, 0x00, 0xDB, 0xDD, 0xDB, 0xDD, 0xDB, 0xDC, 0xDC]
    );
}

#[test]
fn escape_round_trip_every_byte() {
    let all: Vec<u8> = (0u8..=63).chain(0xC0..=0xDF).collect();
    let mut buffer = TncFrameBuffer::escaping_new(&all);
    assert!(buffer.is_escaped());
    buffer.raw_all().unwrap();
    assert_eq!(contents(&buffer), all);
}

#[test]
fn escape_bytes_and_pairs() {
    assert_eq!(TncFrameBuffer::escape_byte(FEND), [Some(FESC), Some(TFEND)]);
    assert_eq!(TncFrameBuffer::escape_byte(FESC), [Some(FESC), Some(TFESC)]);
    assert_eq!(TncFrameBuffer::escape_byte(0x41), [Some(0x41), None]);
    let pairs = TncFrameBuffer::escape_bytes([0x01, FEND]);
    assert_eq!(pairs, [[Some(0x01), None], [Some(FESC), Some(TFEND)]]);
}

#[test]
fn raw_buffers_keep_bytes() {
    let mut buffer = TncFrameBuffer::empty_new();
    buffer.raw_add_byte(FEND);
    buffer.raw_add_bytes(&[1, 2]);
    buffer.raw_add_slices(&[&[3], &[FESC, 4]]);
    assert_eq!(contents(&buffer), vec![FEND, 1, 2, 3, FESC, 4]);
    let from_slices = TncFrameBuffer::raw_new_from_slices(&[&[9, 8], &[7]]);
    assert_eq!(contents(&from_slices), vec![9, 8, 7]);
    let mut escaped = TncFrameBuffer::escaping_new_from_slices(&[&[FEND], &[5]]);
    assert_eq!(contents(&escaped), vec![FESC, TFEND, 5]);
    escaped.escaping_add_slices(&[&[FESC]]);
    escaped.escaping_add_byte(6);
    assert_eq!(contents(&escaped), vec![FESC, TFEND, 5, FESC, TFESC, 6]);
}

#[test]
fn invalid_escape_is_rejected() {
    let mut dangling = TncFrameBuffer::raw_new(&[1, FESC]);
    assert!(!dangling.is_escaped());
    assert!(dangling.raw_all().is_err());
    let mut wrong = TncFrameBuffer::raw_new(&[FESC, 0x00]);
    assert!(wrong.raw_all().is_err());
}

#[test]
fn full_frame_round_trip() {
    let payload = [0x10u8, FEND, FESC, 0x20];
    let frame = TncFrameBuffer::new_full_tnc_frame(0x10, &payload);
    assert_eq!(contents(&frame), vec![FEND, 0x10, 0x10, FESC, TFEND, FESC, TFESC, 0x20, FEND]);
    assert!(frame.is_escaped());
    let (header, decoded) = decode_tnc_frame(&contents(&frame)).unwrap();
    assert_eq!(header, 0x10);
    assert_eq!(contents(&decoded), payload.to_vec());
}

#[test]
fn decode_errors() {
    assert_eq!(decode_tnc_frame(&[]).err(), Some(TncDecodeError::Command(InvalidTncCommandError)));
    assert_eq!(decode_tnc_frame(&[FEND, FEND]).err(), Some(TncDecodeError::Command(InvalidTncCommandError)));
    assert!(matches!(decode_tnc_frame(&[FEND, 0x07, 0x01, FEND]), Err(TncDecodeError::Command(_))));
    assert!(matches!(decode_tnc_frame(&[FEND, 0x00, FESC, 0x01, FEND]), Err(TncDecodeError::Escape(_))));
    let (header, decoded) = decode_tnc_frame(&[FEND, 0xFF, FEND]).unwrap();
    assert_eq!(header, 0xFF);
    assert_eq!(decoded.current_len, 0);
    // Without a closing FEND the first byte is the header, taken as it is.
    let (header, decoded) = decode_tnc_frame(&[FEND, 0x00, 0x01]).unwrap();
    assert_eq!(header, FEND);
    assert_eq!(contents(&decoded), vec![0x00, 0x01]);
    assert_eq!(decode_tnc_frame(&[0xDB, 0xDC]).err(), Some(TncDecodeError::Command(InvalidTncCommandError)));
    assert!(matches!(decode_tnc_frame(&[0x0B, FESC, 0x00]), Err(TncDecodeError::Command(_))));
}

#[test]
fn empty_input_escapes_to_empty() {
    let mut empty = TncFrameBuffer::escaping_new(&[]);
    assert_eq!(empty.current_len, 0);
    assert!(empty.is_escaped());
    empty.escape_all();
    assert_eq!(empty.current_len, 0);
    empty.raw_all().unwrap();
    assert_eq!(empty.current_len, 0);
}

#[test]
fn escaped_length() {
    assert_eq!(escaped_len(&[]), Some(0));
    assert_eq!(escaped_len(_DATA), Some(12));
    assert_eq!(escaped_len(&[FEND, FEND, 1]), Some(5));
}

#[test]
fn message_frames_round_trip() {
    let frame = Message::SetTXDelay(FEND).to_frame(1);
    assert_eq!(contents(&frame), vec![FEND, 0x11, FESC, TFEND, FEND]);
    let (header, payload) = decode_tnc_frame(&contents(&frame)).unwrap();
    assert_eq!(header, 0x11);
    assert_eq!(contents(&payload), vec![FEND]);

    let data = [0x41u8, FESC, 0x42];
    let data_frame = Message::SendDataFrame(&data).to_frame(2);
    assert_eq!(contents(&data_frame), vec![FEND, 0x20, 0x41, FESC, TFESC, 0x42, FEND]);
    let (header, payload) = decode_tnc_frame(&contents(&data_frame)).unwrap();
    assert_eq!(header, 0x20);
    assert_eq!(contents(&payload), data.to_vec());

    let ret = Message::Return.to_frame(0);
    assert_eq!(contents(&ret), vec![FEND, 0xFF, FEND]);
}

#[test]
fn port_twelve_data_frame_escapes_header() {
    let data = [0x01u8];
    let frame = Message::SendDataFrame(&data).to_frame(12);
    assert_eq!(contents(&frame), vec![FEND, 0xC0, 0x01, FEND]);
    let (header, payload) = decode_tnc_frame(&contents(&frame)).unwrap();
    assert_eq!(header, 0xC0);
    assert_eq!(contents(&payload), vec![0x01]);
}

#[test]
fn unframed_frames_decode() {
    let frame = make_tnc_frame(&[&[CMD_DATAFRAME], _DATA]);
    let (header, payload) = decode_tnc_frame(&contents(&frame)).unwrap();
    assert_eq!(header, CMD_DATAFRAME);
    assert_eq!(contents(&payload), _DATA.to_vec());
}

#[test]
fn buffer_tails() {
    let fresh = TncFrameBuffer::raw_new(&[1, 2, 3]);
    assert!(fresh.data[3..].iter().all(|b| *b == 0));
    let mut buffer = TncFrameBuffer::raw_new(&[9, 9, 9, 9]);
    buffer.current_len = 1;
    buffer.raw_add_byte(5);
    assert_eq!(buffer.data[0..4], [9, 5, 9, 9]);
    buffer.escaping_add_bytes(&[FEND]);
    assert_eq!(buffer.data[0..5], [9, 5, FESC, TFEND, 0]);
}

#[test]
fn unframed_header_fend_decodes() {
    let (header, payload) = decode_tnc_frame(&[0xC0, 0x01]).unwrap();
    assert_eq!(header, 0xC0);
    assert_eq!(contents(&payload), vec![0x01]);
}
