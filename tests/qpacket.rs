use libapollo::parameters::{
    calculate_block_starts_ends, delimiter_bytes, start_header_data, BlockType,
    BLOCK_DELIMITER, BLOCK_DELIMITER_SIZE,
};
use libapollo::qpacket::{
    block_cfg_stack, block_ident_stack, build_layout, cfg_stack_to_ident_stack, construct_bare_packet,
    BlockCfg, BlockIdent, QPacketBlock,
};

fn check_packet_formation(packet: &[u8]) {
    let start = start_header_data();
    let mut packet_head = [0u8; 10];
    let mut i: usize = 0;
    packet_head[0..start.len()].copy_from_slice(&start);
    i += start.len();
    packet_head[i..i + BLOCK_DELIMITER_SIZE].copy_from_slice(&BLOCK_DELIMITER.to_be_bytes());
    assert_eq!(packet[0..i + BLOCK_DELIMITER_SIZE], packet_head);

    for block in block_ident_stack() {
        assert_eq!(packet[block.position.0], block.label);
        for x in 0..BLOCK_DELIMITER.to_be_bytes().len() {
            let delimiter_bytes: [u8; BLOCK_DELIMITER_SIZE] = BLOCK_DELIMITER.to_be_bytes();
            assert_eq!(packet[(block.position.1 - BLOCK_DELIMITER_SIZE) + x], delimiter_bytes[x]);
        }
    }
}

#[test]
pub fn check_blank_packet_formation() {
    let bare_qpacket = construct_bare_packet(&block_ident_stack());
    check_packet_formation(&bare_qpacket);
}

#[test]
fn layout_table_is_contiguous() {
    let cfg = block_cfg_stack();
    let table = cfg_stack_to_ident_stack(&cfg);
    assert_eq!(table.len(), 6);
    assert_eq!(table[0].position.0, 10);
    for (i, entry) in table.iter().enumerate() {
        assert_eq!(entry.label, 128 + i as u8);
        assert_eq!(entry.len(), 7);
        assert_eq!(entry.total_len(), 7);
        assert_eq!(entry.data_len(), 4);
        if i + 1 < table.len() {
            assert_eq!(table[i + 1].position.0, entry.position.1);
        }
    }
    assert_eq!(table[5].position.1, 52);
}

#[test]
fn layout_with_unlabelled_and_short_blocks() {
    let cfg = [
        BlockCfg { block_type: BlockType::I16, do_transmit_label: false },
        BlockCfg { block_type: BlockType::NONE, do_transmit_label: true },
        BlockCfg { block_type: BlockType::I32, do_transmit_label: true },
    ];
    let table = cfg_stack_to_ident_stack(&cfg);
    assert_eq!(table[0].position, (10, 14));
    assert_eq!(table[1].position, (14, 17));
    assert_eq!(table[2].position, (17, 24));
    assert_eq!(table[2].label, 130);
    let packet = construct_bare_packet(&table);
    assert_eq!(packet.len(), 10 + 14 + 10);
    assert_eq!(packet[10..24], [0, 0, 0xF0, 0xF0, 129, 0xF0, 0xF0, 130, 0, 0, 0, 0, 0xF0, 0xF0]);
}

#[test]
fn blank_ident_is_empty() {
    let blank = BlockIdent::new();
    assert_eq!(blank.position, (0, 0));
    assert_eq!(blank.len(), 0);
    assert_eq!(blank.data_len(), 0);
}

#[test]
fn qpacket_block_bytes() {
    let ident: &'static BlockIdent = Box::leak(Box::new(BlockIdent {
        block_type: BlockType::U32,
        label: 131,
        do_transmit_label: true,
        position: (31, 38),
    }));
    let data = [1u8, 2, 3, 4];
    let block = QPacketBlock::new(ident, &data);
    assert_eq!(block.len(), 7);
    let bytes: [u8; 7] = block.as_bytes::<7>();
    assert_eq!(bytes, [131, 1, 2, 3, 4, 0xF0, 0xF0]);
    let padded: [u8; 10] = block.as_bytes::<10>();
    assert_eq!(padded, [131, 1, 2, 3, 4, 0xF0, 0xF0, 0, 0, 0]);
}

#[test]
fn block_starts_and_ends() {
    let idents = calculate_block_starts_ends([4, 4, 4, 4, 4, 2], [BlockType::I32; 6]);
    assert_eq!(idents[0].beginning_location, 11);
    assert_eq!(idents[0].end_location, 15);
    assert_eq!(idents[1].beginning_location, 18);
    assert_eq!(idents[5].end_location, 11 + 5 * 7 + 2);
    assert_eq!(delimiter_bytes(), [0xF0, 0xF0]);
    assert_eq!(BlockType::I16.len(), 2);
    assert_eq!(BlockType::F32.len(), 4);
}

#[test]
fn layout_mismatch_is_rejected() {
    let table = build_layout(&block_cfg_stack()).unwrap();
    assert_eq!(table.len(), 6);
    assert_eq!(table[5].position.1, 52);
    let short = [BlockCfg { block_type: BlockType::I32, do_transmit_label: true }];
    assert!(build_layout(&short).is_err());
    assert!(build_layout(&[]).is_err());
}

#[test]
fn block_positions_near_the_limit() {
    let idents = calculate_block_starts_ends([usize::MAX - 40, 0, 0, 0, 0, 0], [BlockType::BYTES; 6]);
    assert_eq!(idents[0].end_location, usize::MAX - 29);
    assert_eq!(idents[5].beginning_location, usize::MAX - 14);
    assert_eq!(idents[5].end_location, usize::MAX - 14);
}
