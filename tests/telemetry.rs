use libapollo::parameters::{BARE_MESSAGE_LENGTH_BYTES, TOTAL_MESSAGE_LENGTH_BYTES};
use libapollo::telemetry::{
    construct_blocks, construct_packet, decode_packet, encode_packet, find_packet_similarities,
    make_packet_skeleton, make_packet_skeleton_nofec, readings_from_packet, reconstruct_packet, values_from_packet, Block, BlockData,
    BlockStack,
};
use libapollo::{generate_packet, generate_packet_no_fec};

fn sample_readings() -> [[u8; 4]; 6] {
    [
        411240910u32.to_be_bytes(),
        1337.69f32.to_be_bytes(),
        420.69f32.to_be_bytes(),
        420.1337f32.to_be_bytes(),
        69.1337f32.to_be_bytes(),
        69.420f32.to_be_bytes(),
    ]
}

#[test]
fn make_packet() {
    let _status = 411240910u32.to_be_bytes();
    let _altitude = 1337.69f32.to_be_bytes();
    let _voltage = 420.69f32.to_be_bytes();
    let _temperature = 420.1337f32.to_be_bytes();
    let _latitude = 69.1337f32.to_be_bytes();
    let _longitude = 69.420f32.to_be_bytes();

    let _blocks = construct_blocks(&[_status, _altitude, _voltage, _temperature, _latitude, _longitude]);

    let _packet = construct_packet(_blocks);
    encode_packet(&_packet);
}

#[test]
fn test_decode_packet() {
    let _packet = make_packet_skeleton(true);
    let mut _torture_packet = _packet.clone();
    for i in 0..18 {
        _torture_packet[i] = 0x00;
    }
    assert_eq!(
        decode_packet(_torture_packet, &[0u8]).unwrap(),
        _packet[0..BARE_MESSAGE_LENGTH_BYTES],
        "\ndecoded packets were not the same:\nright   : {:02x?}\ncorrupted: {:02x?}",
        &_packet[0..BARE_MESSAGE_LENGTH_BYTES],
        _torture_packet
    );
}

#[test]
fn packet_layout_bytes() {
    let readings = sample_readings();
    let bare = generate_packet_no_fec(readings);
    assert_eq!(bare.len(), BARE_MESSAGE_LENGTH_BYTES);
    assert_eq!(bare[0..10], [0xE4, 0x1B, b'K', b'D', b'9', b'T', b'F', b'A', 0xF0, 0xF0]);
    for j in 0..6 {
        let base = 10 + 7 * j;
        assert_eq!(bare[base], 128 + j as u8);
        assert_eq!(bare[base + 1..base + 5], readings[j]);
        assert_eq!(bare[base + 5..base + 7], [0xF0, 0xF0]);
    }
    assert_eq!(bare[52..62], [b'K', b'D', b'9', b'T', b'F', b'A', 0xE4, 0x1B, 0xF0, 0xF0]);
}

#[test]
fn static_block_data() {
    static HEADER: [u8; 3] = [7, 8, 9];
    let data = BlockData::StaticData(Some(&HEADER));
    assert_eq!(data.len(), 3);
    assert!(!data.which_type());
    assert_eq!(data.get_data(), &[7, 8, 9]);
    let block = Block { label: 200, data, do_transmit_label: false };
    assert_eq!(block.len(), 5);
    let dynamic = BlockData::DynData(Some([1, 2, 3, 4]));
    assert!(dynamic.which_type());
    assert_eq!(BlockData::DynData(None).len(), 0);
    let stack: BlockStack = construct_blocks(&sample_readings());
    assert_eq!(stack.len(), 6);
}

#[test]
fn full_packet_carries_parity() {
    let readings = sample_readings();
    let bare = generate_packet_no_fec(readings);
    let full = generate_packet(readings);
    assert_eq!(full.len(), TOTAL_MESSAGE_LENGTH_BYTES);
    assert_eq!(full[0..BARE_MESSAGE_LENGTH_BYTES], bare);
    assert_ne!(full[BARE_MESSAGE_LENGTH_BYTES..], [0u8; 10]);
    assert_eq!(encode_packet(&bare), full);
}

#[test]
fn rs_round_trip() {
    let readings = sample_readings();
    let full = generate_packet(readings);
    assert_eq!(decode_packet(full, &[]).unwrap(), generate_packet_no_fec(readings));
}

#[test]
fn structural_corruption_is_repaired() {
    let readings = sample_readings();
    let full = generate_packet(readings);
    let (mask, _) = find_packet_similarities();
    let mut corrupted = full;
    let mut count = 0;
    for i in 0..BARE_MESSAGE_LENGTH_BYTES {
        if mask[i] == 0 {
            corrupted[i] ^= 0x5A;
            count += 1;
        }
    }
    assert!(count >= 20);
    assert_eq!(decode_packet(corrupted, &[]).unwrap(), generate_packet_no_fec(readings));
}

#[test]
fn payload_errors_within_capacity_are_corrected() {
    let readings = sample_readings();
    let full = generate_packet(readings);
    let mut corrupted = full;
    corrupted[11] ^= 0xFF;
    corrupted[19] ^= 0x01;
    corrupted[33] ^= 0x80;
    assert_eq!(decode_packet(corrupted, &[]).unwrap(), generate_packet_no_fec(readings));
}

#[test]
fn too_many_payload_errors_is_uncorrectable() {
    let full = generate_packet(sample_readings());
    let mut corrupted = full;
    for i in 0..6 {
        for k in 0..4 {
            corrupted[11 + 7 * i + k] ^= 0xA5;
        }
    }
    assert!(decode_packet(corrupted, &[]).is_err());
}

#[test]
fn skeleton_mask_marks_payload() {
    let (mask, skeleton) = find_packet_similarities();
    assert_eq!(skeleton, make_packet_skeleton_nofec(false));
    for i in 0..BARE_MESSAGE_LENGTH_BYTES {
        let payload = i >= 10 && i < 52 && (1..=4).contains(&((i - 10) % 7));
        assert_eq!(mask[i], if payload { 0xFF } else { 0 });
    }
    let max = make_packet_skeleton_nofec(true);
    assert_eq!(max[11..15], [0xFF; 4]);
    assert_eq!(make_packet_skeleton(false)[0..BARE_MESSAGE_LENGTH_BYTES], skeleton);
}

#[test]
fn values_read_back() {
    let readings = sample_readings();
    let bare = generate_packet_no_fec(readings);
    assert_eq!(values_from_packet(bare), readings);
    assert_eq!(f32::from_be_bytes(values_from_packet(bare)[1]), 1337.69f32);
}

#[test]
fn reconstruction_resets_structure_only() {
    let full = generate_packet(sample_readings());
    let mut received = [0x33u8; 72];
    received[11] = 0x44;
    let rebuilt = reconstruct_packet(&received);
    assert_eq!(rebuilt[0..10], full[0..10]);
    assert_eq!(rebuilt[10], 128);
    assert_eq!(rebuilt[11], 0x44);
    assert_eq!(rebuilt[12..15], [0x33; 3]);
    assert_eq!(rebuilt[15..18], [0xF0, 0xF0, 129]);
    assert_eq!(rebuilt[52..62], full[52..62]);
    assert_eq!(rebuilt[62..72], [0x33; 10]);
}

#[test]
fn erasure_list_does_not_disturb_decoding() {
    let readings = sample_readings();
    let mut corrupted = generate_packet(readings);
    corrupted[65] ^= 0x11;
    assert_eq!(decode_packet(corrupted, &[65, 65]).unwrap(), generate_packet_no_fec(readings));
}

#[test]
fn structured_readings() {
    let mut readings = sample_readings();
    let blocks = libapollo::figures::make_status_data(
        411_499_498,
        -872_426_919,
        [[true, false, false, true, false, true, false, false], [false; 8]],
    );
    readings[4] = blocks[0];
    readings[5] = blocks[1];
    let parsed = readings_from_packet(generate_packet_no_fec(readings));
    assert_eq!(parsed.status, 411240910u32.to_be_bytes());
    assert_eq!(f32::from_be_bytes(parsed.altitude), 1337.69f32);
    assert_eq!(parsed.voltage, readings[2]);
    assert_eq!(parsed.temperature, readings[3]);
    assert!((parsed.latitude - 411_499_498).abs() < 1000);
    assert!((parsed.longitude + 872_426_919).abs() < 1000);
    assert_eq!(parsed.flags[0], [true, false, false, true, false, true, false, false]);
    assert_eq!(parsed.flags[1], [false; 8]);
}
