use libapollo::aprs::{build_aprs_frame, build_fcs, AX25Block, UI_FRAME_MAX};

fn body(info: &[u8]) -> Vec<u8> {
    let mut b = Vec::new();
    b.extend_from_slice(b"APZNEX");
    b.extend_from_slice(b"KD9TFA-11");
    b.extend_from_slice(b"WIDE1-1,WIDE2-1");
    b.push(0x03);
    b.push(0xF0);
    b.extend_from_slice(info);
    b
}

#[test]
fn fcs_matches_published_check_value() {
    // CRC-16/IBM-3740 of the ASCII digits "123456789" is 0x29B1.
    assert_eq!(build_fcs(b"123456789"), [0x29, 0xB1]);
    assert_eq!(build_fcs(&[]), [0xFF, 0xFF]);
}

#[test]
fn empty_info_frame_fcs() {
    let frame = build_aprs_frame(&[]).unwrap();
    let expected = crc::Crc::<u16, crc::NoTable>::new(&crc::CRC_16_IBM_3740).checksum(&body(&[]));
    let n = frame.len();
    assert_eq!(frame[0], 0x7E);
    assert_eq!(frame[n - 1], 0x7E);
    assert_eq!(frame[1..n - 3], body(&[])[..]);
    assert_eq!(frame[n - 3..n - 1], expected.to_be_bytes());
}

#[test]
fn frame_with_info() {
    let info = b"!4903.50N/07201.75W-";
    let block = AX25Block::new(info).unwrap();
    assert_eq!(block.information_field, info.to_vec());
    let frame = block.to_frame();
    assert_eq!(frame, build_aprs_frame(info).unwrap());
    assert_eq!(frame[1..frame.len() - 3], body(info)[..]);
    assert_eq!(block.frame_check_sequence, build_fcs(&body(info)));
}

#[test]
fn info_field_overflow() {
    let longest = vec![0x41u8; 256];
    let frame = build_aprs_frame(&longest).unwrap();
    assert_eq!(frame.len(), UI_FRAME_MAX);
    assert!(build_aprs_frame(&vec![0x41u8; 257]).is_err());
    assert!(AX25Block::new(&vec![0u8; 300]).is_err());
}
