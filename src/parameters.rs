use vstd::prelude::*;

verus! {

/// Number of ASCII bytes in the station callsign.
pub const CALLSIGN_LEN: usize = 6;

/// Two-byte delimiter that ends every block of a packet.
pub const BLOCK_DELIMITER: u16 = 0xF0F0;

/// Size of [`BLOCK_DELIMITER`] on the wire.
pub const BLOCK_DELIMITER_SIZE: usize = 2;

/// 16-bit sentinel that envelops the callsign in the packet headers.
pub const START_END_HEADER: u16 = 0x1BE4;

/// Length of the start header and of the end header.
pub const HEADER_LEN: usize = 8;

/// Size of a block label on the wire.
pub const BLOCK_LABEL_SIZE: usize = 1;

/// Label of the first data block; block `i` carries `FIRST_BLOCK_LABEL + i`.
pub const FIRST_BLOCK_LABEL: u8 = 128;

/// Offset of the first data block: the start header and its delimiter.
pub const PACKET_BEGINNING_OFFSET: usize = 10;

/// Number of data blocks carried by a telemetry packet.
pub const BLOCK_STACK_DATA_COUNT: usize = 6;

/// Length of a bare message (without parity), in bytes.
pub const BARE_MESSAGE_LENGTH_BYTES: usize = 62;

/// Number of Reed-Solomon parity bytes appended to a bare message.
pub const FEC_EXTRA_BYTES: usize = 10;

/// Length of a full message (bare message followed by its parity), in bytes.
pub const TOTAL_MESSAGE_LENGTH_BYTES: usize = 72;

/// Capacity of a KISS frame buffer, in bytes.
pub const MAX_KISS_FRAME_SIZE: usize = 128;

/// A packet without its parity bytes.
pub type BareMessage = [u8; BARE_MESSAGE_LENGTH_BYTES];

/// A packet followed by its parity bytes.
pub type TotalMessage = [u8; TOTAL_MESSAGE_LENGTH_BYTES];

/// A packed 24-bit unsigned integer, least significant byte first.
pub type U24Arr = [u8; 3];

/// The station callsign, `KD9TFA`, as ASCII bytes.
pub open spec fn callsign() -> Seq<u8> {
    seq![0x4Bu8, 0x44u8, 0x39u8, 0x54u8, 0x46u8, 0x41u8]
}

/// The block delimiter as it appears on the wire.
pub open spec fn delimiter() -> Seq<u8> {
    seq![0xF0u8, 0xF0u8]
}

/// The start header: the little-endian sentinel followed by the callsign.
pub open spec fn start_header() -> Seq<u8> {
    seq![0xE4u8, 0x1Bu8] + callsign()
}

/// The end header: the callsign followed by the little-endian sentinel.
pub open spec fn end_header() -> Seq<u8> {
    callsign() + seq![0xE4u8, 0x1Bu8]
}

/// Bytes of the start header.
pub fn start_header_data() -> (r: [u8; HEADER_LEN])
    ensures
        r@ == start_header(),
{
    let r: [u8; HEADER_LEN] = [0xE4, 0x1B, 0x4B, 0x44, 0x39, 0x54, 0x46, 0x41];
    assert(r@ =~= start_header());
    r
}

/// Bytes of the end header.
pub fn end_header_data() -> (r: [u8; HEADER_LEN])
    ensures
        r@ == end_header(),
{
    let r: [u8; HEADER_LEN] = [0x4B, 0x44, 0x39, 0x54, 0x46, 0x41, 0xE4, 0x1B];
    assert(r@ =~= end_header());
    r
}

/// Bytes of the block delimiter, most significant first.
pub fn delimiter_bytes() -> (r: [u8; BLOCK_DELIMITER_SIZE])
    ensures
        r@ == delimiter(),
{
    let r: [u8; BLOCK_DELIMITER_SIZE] = [0xF0, 0xF0];
    assert(r@ =~= delimiter());
    r
}

/// The kind of value a data block carries.
#[derive(Clone, Copy, PartialEq, Eq, Debug, Structural)]
pub enum BlockType {
    F32,
    I32,
    U32,
    I16,
    BYTES,
    NONE,
}

/// Number of data bytes a block of type `t` carries.
pub open spec fn type_len(t: BlockType) -> nat {
    match t {
        BlockType::F32 => 4,
        BlockType::I32 => 4,
        BlockType::U32 => 4,
        BlockType::I16 => 2,
        BlockType::BYTES => 4,
        BlockType::NONE => 0,
    }
}

impl BlockType {
    /// Number of data bytes a block of this type carries.
    pub fn len(&self) -> (r: usize)
        ensures
            r == type_len(*self),
    {
        match self {
            BlockType::F32 => 4,
            BlockType::I32 => 4,
            BlockType::U32 => 4,
            BlockType::I16 => 2,
            BlockType::BYTES => 4,
            BlockType::NONE => 0,
        }
    }
}

/// Where the data of a block lies in a packet whose blocks all transmit their label:
/// `beginning_location..end_location` holds the `size` data bytes.
#[derive(Clone, Copy)]
pub struct BlockIdent {
    pub size: usize,
    pub block_type: BlockType,
    pub beginning_location: usize,
    pub end_location: usize,
}

impl BlockIdent {
    /// A placeholder entry: four bytes of no type at position zero.
    pub fn new() -> (r: Self)
        ensures
            r.size == 4,
            r.block_type == BlockType::NONE,
            r.beginning_location == 0,
            r.end_location == 0,
    {
        BlockIdent { size: 4, block_type: BlockType::NONE, beginning_location: 0, end_location: 0 }
    }
}

/// Sum of the first `n` data sizes.
pub open spec fn size_prefix_sum(sizes: Seq<usize>, n: nat) -> nat
    decreases n,
{
    if n == 0 || n > sizes.len() {
        0
    } else {
        size_prefix_sum(sizes, (n - 1) as nat) + sizes[n - 1] as nat
    }
}

/// Start of the data of block `i`: past the start header, its delimiter, the label of
/// block `i`, and for each earlier block its data, delimiter and the next label.
pub open spec fn data_begin(sizes: Seq<usize>, i: nat) -> nat {
    (PACKET_BEGINNING_OFFSET + BLOCK_LABEL_SIZE + size_prefix_sum(sizes, i) + i * (
    BLOCK_DELIMITER_SIZE + BLOCK_LABEL_SIZE)) as nat
}

proof fn lemma_prefix_sum_monotone(sizes: Seq<usize>, i: nat, j: nat)
    requires
        i <= j <= sizes.len(),
    ensures
        size_prefix_sum(sizes, i) <= size_prefix_sum(sizes, j),
    decreases j - i,
{
    if i < j {
        lemma_prefix_sum_monotone(sizes, i, (j - 1) as nat);
    }
}

/// Computes, for each block, where its data lies in the packet: each block is its
/// label, its `blockconfigs[i]` data bytes and a delimiter, after the start header and
/// its delimiter.
pub fn calculate_block_starts_ends(
    blockconfigs: [usize; BLOCK_STACK_DATA_COUNT],
    blocktypes: [BlockType; BLOCK_STACK_DATA_COUNT],
) -> (r: [BlockIdent; BLOCK_STACK_DATA_COUNT])
    requires
        data_begin(blockconfigs@, 5) + blockconfigs[5] <= usize::MAX,
    ensures
        forall|i: int|
            0 <= i < BLOCK_STACK_DATA_COUNT ==> {
                &&& (#[trigger] r[i]).size == blockconfigs[i]
                &&& r[i].block_type == blocktypes[i]
                &&& r[i].beginning_location == data_begin(blockconfigs@, i as nat)
                &&& r[i].end_location == r[i].beginning_location + blockconfigs[i]
            },
        r[0].beginning_location == PACKET_BEGINNING_OFFSET + BLOCK_LABEL_SIZE,
        forall|i: int|
            0 <= i < BLOCK_STACK_DATA_COUNT - 1 ==> #[trigger] r[i + 1].beginning_location
                == r[i].end_location + BLOCK_DELIMITER_SIZE + BLOCK_LABEL_SIZE,
{
    let mut stack: [BlockIdent; BLOCK_STACK_DATA_COUNT] = [BlockIdent::new();
        BLOCK_STACK_DATA_COUNT];
    let mut begin: usize = PACKET_BEGINNING_OFFSET + BLOCK_LABEL_SIZE;
    let mut i: usize = 0;
    while i < BLOCK_STACK_DATA_COUNT
        invariant
            0 <= i <= BLOCK_STACK_DATA_COUNT,
            data_begin(blockconfigs@, 5) + blockconfigs[5] <= usize::MAX,
            i < BLOCK_STACK_DATA_COUNT ==> begin == data_begin(blockconfigs@, i as nat),
            forall|j: int|
                0 <= j < i ==> {
                    &&& (#[trigger] stack[j]).size == blockconfigs[j]
                    &&& stack[j].block_type == blocktypes[j]
                    &&& stack[j].beginning_location == data_begin(blockconfigs@, j as nat)
                    &&& stack[j].end_location == stack[j].beginning_location + blockconfigs[j]
                },
        decreases BLOCK_STACK_DATA_COUNT - i,
    {
        proof {
            if i < 5 {
                lemma_prefix_sum_monotone(blockconfigs@, (i + 1) as nat, 5);
            }
        }
        let end = begin + blockconfigs[i];
        stack[i] = BlockIdent {
            size: blockconfigs[i],
            block_type: blocktypes[i],
            beginning_location: begin,
            end_location: end,
        };
        if i + 1 < BLOCK_STACK_DATA_COUNT {
            begin = end + BLOCK_DELIMITER_SIZE + BLOCK_LABEL_SIZE;
        }
        i += 1;
    }
    stack
}

} // verus!
