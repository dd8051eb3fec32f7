use vstd::prelude::*;
use crate::parameters::{
    BareMessage,
    TotalMessage,
    delimiter,
    start_header,
    end_header,
    delimiter_bytes,
    start_header_data,
    end_header_data,
    BLOCK_STACK_DATA_COUNT,
    BARE_MESSAGE_LENGTH_BYTES,
    TOTAL_MESSAGE_LENGTH_BYTES,
    FEC_EXTRA_BYTES,
    FIRST_BLOCK_LABEL,
};
use crate::qpacket::{framed, push_all, telemetry_cfg, ident_of, cfg_offset, block_ident_stack, BlockIdent, skeleton_of, idents_wire, ident_wire};
use crate::parameters::type_len;
use crate::easypacket::{generate_packet, generate_packet_no_fec};
use crate::figures::{unpack_status_blocks, unpacked_status_spec, StatusBoolsArray};

verus! {

/// The data a block carries: four bytes built at run time, or a constant slice.
#[derive(Clone, Copy)]
pub enum BlockData {
    DynData(Option<[u8; 4]>),
    StaticData(Option<&'static [u8]>),
}

impl BlockData {
    /// The bytes held, empty when there are none.
    pub open spec fn bytes(self) -> Seq<u8> {
        match self {
            BlockData::DynData(Some(a)) => a@,
            BlockData::StaticData(Some(s)) => s@,
            _ => Seq::empty(),
        }
    }

    /// Whether bytes are held.
    pub open spec fn is_present(self) -> bool {
        match self {
            BlockData::DynData(d) => d is Some,
            BlockData::StaticData(d) => d is Some,
        }
    }

    /// Returns the length of the data contained.
    pub fn len(&self) -> (r: usize)
        ensures
            r == self.bytes().len(),
    {
        match self {
            BlockData::DynData(Some(_)) => 4,
            BlockData::StaticData(Some(s)) => s.len(),
            _ => 0,
        }
    }

    /// Returns `true` for [`BlockData::DynData`], `false` for [`BlockData::StaticData`].
    pub fn which_type(&self) -> (r: bool)
        ensures
            r == (*self is DynData),
    {
        match self {
            BlockData::DynData(_) => true,
            BlockData::StaticData(_) => false,
        }
    }

    /// Returns the contained data, whichever the variant.
    pub fn get_data(&self) -> (r: &[u8])
        requires
            self.is_present(),
        ensures
            r@ == self.bytes(),
    {
        match self {
            BlockData::DynData(Some(a)) => a.as_slice(),
            BlockData::StaticData(Some(s)) => s,
            _ => {
                assert(false);
                &[]
            },
        }
    }
}

/// A labelled unit of a packet's payload.
#[derive(Clone, Copy)]
pub struct Block {
    pub label: u8,
    pub data: BlockData,
    pub do_transmit_label: bool,
}

/// A block as it goes on the wire: label (if sent), data, delimiter.
pub open spec fn block_wire(b: Block) -> Seq<u8> {
    framed(b.label, b.do_transmit_label, b.data.bytes())
}

impl Block {
    /// Number of bytes the block takes in a packet: label (if sent), data, delimiter.
    pub fn len(&self) -> (r: usize)
        requires
            self.data.bytes().len() + 3 <= usize::MAX,
        ensures
            r == block_wire(*self).len(),
    {
        let label: usize = if self.do_transmit_label {
            1
        } else {
            0
        };
        label + self.data.len() + 2
    }
}

/// The wire forms of a sequence of blocks, one after the other.
pub open spec fn blocks_wire(bs: Seq<Block>) -> Seq<u8>
    decreases bs.len(),
{
    if bs.len() == 0 {
        Seq::empty()
    } else {
        blocks_wire(bs.drop_last()) + block_wire(bs.last())
    }
}

/// A packet: start header, delimiter, the blocks, end header, delimiter.
pub open spec fn packet_of(bs: Seq<Block>) -> Seq<u8> {
    start_header() + delimiter() + blocks_wire(bs) + end_header() + delimiter()
}

/// The telemetry readings: four bytes for each data block.
pub type BlockStackData = [[u8; 4]; BLOCK_STACK_DATA_COUNT];

/// The data blocks of a packet.
#[derive(Clone, Copy)]
pub struct BlockStack {
    pub blocks: [Block; BLOCK_STACK_DATA_COUNT],
}

impl BlockStack {
    /// Number of blocks.
    pub fn len(&self) -> (r: usize)
        ensures
            r == self.blocks@.len(),
    {
        BLOCK_STACK_DATA_COUNT
    }
}

/// Data block `j` of the telemetry packet holding reading `d[j]`.
pub open spec fn block_of(d: Seq<[u8; 4]>, j: int) -> Block {
    Block {
        label: (FIRST_BLOCK_LABEL + j) as u8,
        data: BlockData::DynData(Some(d[j])),
        do_transmit_label: true,
    }
}

/// The data blocks of the telemetry packet holding readings `d`.
pub open spec fn blocks_of_data(d: Seq<[u8; 4]>) -> Seq<Block> {
    Seq::new(BLOCK_STACK_DATA_COUNT as nat, |j: int| block_of(d, j))
}

/// The bare telemetry packet holding readings `d`.
pub open spec fn bare_packet_spec(d: Seq<[u8; 4]>) -> Seq<u8> {
    packet_of(blocks_of_data(d))
}

/// The layout table of the telemetry packet.
pub open spec fn telemetry_table() -> Seq<BlockIdent> {
    Seq::new(BLOCK_STACK_DATA_COUNT as nat, |j: int| ident_of(telemetry_cfg(), j))
}

/// Whether byte `p` of a bare telemetry packet carries reading data: it lies in the data
/// range of some block of the layout table.
pub open spec fn payload_slot(p: int) -> bool {
    exists|j: int|
        0 <= j < BLOCK_STACK_DATA_COUNT && data_start(j) <= p < data_start(j) + type_len(
            #[trigger] telemetry_table()[j].block_type,
        )
}

/// The byte that the layout table's data-free packet holds at `p`: at a position that
/// carries no reading data, every bare telemetry packet holds it (header, label or
/// delimiter).
pub open spec fn fixed_byte(p: int) -> u8 {
    skeleton_of(telemetry_table())[p]
}

/// `payload_slot` with the positions worked out.
pub(crate) open spec fn payload_at(p: int) -> bool {
    10 <= p < 52 && 1 <= (p - 10) % 7 <= 4
}

/// `fixed_byte` with the positions worked out.
pub(crate) open spec fn fixed_at(p: int) -> u8 {
    if p < 8 {
        start_header()[p]
    } else if p < 10 {
        0xF0
    } else if p < 52 {
        if (p - 10) % 7 == 0 {
            (FIRST_BLOCK_LABEL + (p - 10) / 7) as u8
        } else {
            0xF0
        }
    } else if p < 60 {
        end_header()[p - 52]
    } else {
        0xF0
    }
}

proof fn lemma_table_entry(j: int)
    requires
        0 <= j < BLOCK_STACK_DATA_COUNT,
    ensures
        telemetry_table()[j].do_transmit_label,
        type_len(telemetry_table()[j].block_type) == 4,
        telemetry_table()[j].label == (FIRST_BLOCK_LABEL + j) as u8,
        data_start(j) == 11 + 7 * j,
        ident_wire(telemetry_table()[j]) == seq![(FIRST_BLOCK_LABEL + j) as u8] + Seq::new(
            4,
            |k: int| 0u8,
        ) + delimiter(),
{
    lemma_telemetry_offsets(j as nat);
    assert(telemetry_cfg()[j].do_transmit_label);
    assert(type_len(telemetry_cfg()[j].block_type) == 4);
}

proof fn lemma_idents_wire(k: int)
    requires
        0 <= k <= BLOCK_STACK_DATA_COUNT,
    ensures
        idents_wire(telemetry_table().take(k)).len() == 7 * k,
        forall|q: int|
            0 <= q < 7 * k ==> #[trigger] idents_wire(telemetry_table().take(k))[q] == ident_wire(
                telemetry_table()[q / 7],
            )[q % 7],
    decreases k,
{
    if k > 0 {
        lemma_idents_wire(k - 1);
        let bs = telemetry_table().take(k);
        assert(bs.drop_last() =~= telemetry_table().take(k - 1));
        lemma_table_entry(k - 1);
        assert forall|q: int| 0 <= q < 7 * k implies #[trigger] idents_wire(bs)[q] == ident_wire(
            telemetry_table()[q / 7],
        )[q % 7] by {
            if q >= 7 * (k - 1) {
                assert(q / 7 == k - 1);
                assert(q % 7 == q - 7 * (k - 1));
            }
        }
    }
}

/// The layout-table forms of the payload positions and fixed bytes agree with the
/// positions worked out.
proof fn lemma_layout_closed_form(p: int)
    requires
        0 <= p < BARE_MESSAGE_LENGTH_BYTES,
    ensures
        payload_slot(p) == payload_at(p),
        !payload_at(p) ==> fixed_byte(p) == fixed_at(p),
{
    if payload_at(p) {
        let j = (p - 10) / 7;
        lemma_table_entry(j);
        assert(data_start(j) <= p < data_start(j) + type_len(telemetry_table()[j].block_type));
    }
    if payload_slot(p) {
        let j = choose|j: int|
            0 <= j < BLOCK_STACK_DATA_COUNT && data_start(j) <= p < data_start(j) + type_len(
                #[trigger] telemetry_table()[j].block_type,
            );
        lemma_table_entry(j);
        assert((p - 10) / 7 == j);
    }
    lemma_idents_wire(BLOCK_STACK_DATA_COUNT as int);
    let t = telemetry_table();
    assert(t.take(BLOCK_STACK_DATA_COUNT as int) =~= t);
    let w = idents_wire(t);
    assert(skeleton_of(t) == start_header() + delimiter() + w + end_header() + delimiter());
    if 10 <= p < 52 && !payload_at(p) {
        assert(skeleton_of(t)[p] == w[p - 10]);
        lemma_table_entry((p - 10) / 7);
    }
}

/// The bare telemetry packet whose reading bytes are all `b`.
pub open spec fn filled_packet_spec(b: u8) -> Seq<u8> {
    Seq::new(
        BARE_MESSAGE_LENGTH_BYTES as nat,
        |p: int|
            if payload_slot(p) {
                b
            } else {
                fixed_byte(p)
            },
    )
}

proof fn lemma_blocks_wire(d: Seq<[u8; 4]>, k: int)
    requires
        d.len() == BLOCK_STACK_DATA_COUNT,
        0 <= k <= BLOCK_STACK_DATA_COUNT,
    ensures
        blocks_wire(blocks_of_data(d).take(k)).len() == 7 * k,
        forall|q: int|
            0 <= q < 7 * k ==> #[trigger] blocks_wire(blocks_of_data(d).take(k))[q] == block_wire(
                block_of(d, q / 7),
            )[q % 7],
    decreases k,
{
    if k > 0 {
        lemma_blocks_wire(d, k - 1);
        let bs = blocks_of_data(d).take(k);
        assert(bs.drop_last() =~= blocks_of_data(d).take(k - 1));
        assert(bs.last() == block_of(d, k - 1));
        assert(block_wire(block_of(d, k - 1)).len() == 7);
        assert forall|q: int| 0 <= q < 7 * k implies #[trigger] blocks_wire(bs)[q] == block_wire(
            block_of(d, q / 7),
        )[q % 7] by {
            if q >= 7 * (k - 1) {
                assert(q / 7 == k - 1);
                assert(q % 7 == q - 7 * (k - 1));
            }
        }
    }
}

/// Byte `p` of the bare telemetry packet holding `d`: a reading byte at a payload
/// position, the fixed byte elsewhere.
pub(crate) proof fn lemma_packet_byte(d: Seq<[u8; 4]>, p: int)
    requires
        d.len() == BLOCK_STACK_DATA_COUNT,
        0 <= p < BARE_MESSAGE_LENGTH_BYTES,
    ensures
        bare_packet_spec(d).len() == BARE_MESSAGE_LENGTH_BYTES,
        bare_packet_spec(d)[p] == if payload_slot(p) {
            d[(p - 10) / 7][(p - 10) % 7 - 1]
        } else {
            fixed_byte(p)
        },
        payload_slot(p) == payload_at(p),
        !payload_at(p) ==> fixed_byte(p) == fixed_at(p),
{
    lemma_layout_closed_form(p);
    lemma_blocks_wire(d, BLOCK_STACK_DATA_COUNT as int);
    let bs = blocks_of_data(d);
    assert(bs.take(BLOCK_STACK_DATA_COUNT as int) =~= bs);
    let w = blocks_wire(bs);
    let pk = bare_packet_spec(d);
    assert(pk == start_header() + delimiter() + w + end_header() + delimiter());
    if 10 <= p < 52 {
        assert(pk[p] == w[p - 10]);
        let j = (p - 10) / 7;
        let o = (p - 10) % 7;
        assert(block_wire(block_of(d, j)) == seq![(FIRST_BLOCK_LABEL + j) as u8] + d[j]@ + delimiter());
    }
}

/// A packet whose readings are all `b` is the filled packet of `b`.
proof fn lemma_filled_packet(d: Seq<[u8; 4]>, b: u8)
    requires
        d.len() == BLOCK_STACK_DATA_COUNT,
        forall|j: int, k: int| 0 <= j < 6 && 0 <= k < 4 ==> #[trigger] d[j][k] == b,
    ensures
        bare_packet_spec(d) == filled_packet_spec(b),
{
    assert forall|p: int| 0 <= p < BARE_MESSAGE_LENGTH_BYTES implies #[trigger] bare_packet_spec(
        d,
    )[p] == filled_packet_spec(b)[p] by {
        lemma_packet_byte(d, p);
    }
    lemma_packet_byte(d, 0);
    assert(bare_packet_spec(d) =~= filled_packet_spec(b));
}

/// Builds the data blocks of the telemetry packet: block `j` is labelled
/// `FIRST_BLOCK_LABEL + j`, sends its label and carries reading `j`.
pub fn construct_blocks(data: &BlockStackData) -> (r: BlockStack)
    ensures
        r.blocks@ == blocks_of_data(data@),
{
    let blank = Block { label: 0, data: BlockData::DynData(None), do_transmit_label: false };
    let mut blocks: [Block; BLOCK_STACK_DATA_COUNT] = [blank; BLOCK_STACK_DATA_COUNT];
    let mut i: usize = 0;
    while i < BLOCK_STACK_DATA_COUNT
        invariant
            0 <= i <= BLOCK_STACK_DATA_COUNT,
            forall|j: int| 0 <= j < i ==> #[trigger] blocks[j] == block_of(data@, j),
        decreases BLOCK_STACK_DATA_COUNT - i,
    {
        blocks[i] = Block {
            label: FIRST_BLOCK_LABEL + i as u8,
            data: BlockData::DynData(Some(data[i])),
            do_transmit_label: true,
        };
        i += 1;
    }
    assert(blocks@ =~= blocks_of_data(data@));
    BlockStack { blocks }
}

/// Copies a vector of bare-message length into a bare message.
fn to_bare_message(v: &Vec<u8>) -> (r: BareMessage)
    requires
        v@.len() == BARE_MESSAGE_LENGTH_BYTES,
    ensures
        r@ == v@,
{
    let mut r: BareMessage = [0u8; BARE_MESSAGE_LENGTH_BYTES];
    let mut i: usize = 0;
    while i < BARE_MESSAGE_LENGTH_BYTES
        invariant
            v@.len() == BARE_MESSAGE_LENGTH_BYTES,
            0 <= i <= BARE_MESSAGE_LENGTH_BYTES,
            forall|j: int| 0 <= j < i ==> r[j] == v@[j],
        decreases BARE_MESSAGE_LENGTH_BYTES - i,
    {
        r[i] = v[i];
        i += 1;
    }
    assert(r@ =~= v@);
    r
}

/// Assembles a bare packet: start header, delimiter, then each block's label (if
/// sent), data and delimiter, then end header and delimiter.
pub fn construct_packet(blockstack: BlockStack) -> (r: BareMessage)
    requires
        blocks_wire(blockstack.blocks@).len() + 20 == BARE_MESSAGE_LENGTH_BYTES,
    ensures
        r@ == packet_of(blockstack.blocks@),
{
    let mut packet: Vec<u8> = Vec::new();
    let start = start_header_data();
    let end = end_header_data();
    let delim = delimiter_bytes();
    push_all(&mut packet, start.as_slice());
    push_all(&mut packet, delim.as_slice());
    let ghost bs = blockstack.blocks@;
    let mut i: usize = 0;
    while i < blockstack.len()
        invariant
            bs == blockstack.blocks@,
            0 <= i <= bs.len(),
            delim@ == delimiter(),
            packet@ == start_header() + delimiter() + blocks_wire(bs.take(i as int)),
        decreases bs.len() - i,
    {
        let block = blockstack.blocks[i];
        if block.do_transmit_label {
            packet.push(block.label);
        }
        match block.data {
            BlockData::DynData(Some(a)) => push_all(&mut packet, a.as_slice()),
            BlockData::StaticData(Some(s)) => push_all(&mut packet, s),
            _ => {},
        }
        push_all(&mut packet, delim.as_slice());
        proof {
            let next = bs.take(i + 1);
            assert(next.drop_last() =~= bs.take(i as int));
            assert(next.last() == block);
            assert(packet@ =~= start_header() + delimiter() + blocks_wire(next));
        }
        i += 1;
    }
    assert(bs.take(bs.len() as int) =~= bs);
    push_all(&mut packet, end.as_slice());
    push_all(&mut packet, delim.as_slice());
    to_bare_message(&packet)
}

/// The decoder's error, carried through opaquely.
#[verifier::external_type_specification]
#[verifier::external_body]
pub struct ExDecoderError(reed_solomon::DecoderError);

/// The parity bytes that Reed-Solomon encoding with `ecc_len` parity bytes appends to `data`.
pub uninterp spec fn rs_parity(ecc_len: nat, data: Seq<u8>) -> Seq<u8>;

/// The data part that Reed-Solomon decoding with `ecc_len` parity bytes (and no erasure
/// positions) recovers from `msg`, or `None` when it cannot correct `msg`.
pub uninterp spec fn rs_decoded(ecc_len: nat, msg: Seq<u8>) -> Option<Seq<u8>>;

/// Relies on `reed_solomon::Encoder::encode`: the result is the data followed by
/// `ecc_len` parity bytes, and (as the crate's `Decoder::is_corrupted` example shows) such
/// an unaltered codeword has zero syndromes, so `Decoder::correct` with no erasures
/// returns its data part unchanged.
#[verifier::external_body]
fn rs_encode(ecc_len: usize, data: &[u8]) -> (r: Vec<u8>)
    requires
        data@.len() + ecc_len < 256,
    ensures
        r@ == data@ + rs_parity(ecc_len as nat, data@),
        r@.len() == data@.len() + ecc_len,
        rs_decoded(ecc_len as nat, r@) == Some(data@),
{
    reed_solomon::Encoder::new(ecc_len).encode(data)[..].to_vec()
}

/// Relies on `reed_solomon::Decoder::correct`, called without erasure positions: it
/// returns the data part (all but the last `ecc_len` bytes) of the corrected message, or
/// an error when it cannot correct it. It asserts that the message is shorter than 256
/// bytes and builds polynomials of up to `2 * ecc_len + 1` coefficients in 256-entry
/// arrays. Without erasures the error positions it locates are distinct, so its Forney
/// step never divides by zero.
#[verifier::external_body]
fn rs_correct(ecc_len: usize, msg: &[u8]) -> (r: Result<Vec<u8>, reed_solomon::DecoderError>)
    requires
        ecc_len <= msg@.len() < 256,
        2 * ecc_len + 1 <= 256,
    ensures
        r is Ok <==> rs_decoded(ecc_len as nat, msg@) is Some,
        r is Ok ==> rs_decoded(ecc_len as nat, msg@) == Some(r->Ok_0@),
        r is Ok ==> r->Ok_0@.len() == msg@.len() - ecc_len,
{
    match reed_solomon::Decoder::new(ecc_len).correct(msg, None) {
        Ok(buffer) => Ok(buffer.data().to_vec()),
        Err(e) => Err(e),
    }
}

/// The full telemetry packet: the bare packet followed by its parity bytes.
pub open spec fn full_packet_spec(bare: Seq<u8>) -> Seq<u8> {
    bare + rs_parity(FEC_EXTRA_BYTES as nat, bare)
}

/// Encodes a bare packet: the packet followed by its Reed-Solomon parity bytes.
pub fn encode_packet(bare_packet: &BareMessage) -> (r: TotalMessage)
    ensures
        r@ == full_packet_spec(bare_packet@),
        rs_decoded(FEC_EXTRA_BYTES as nat, r@) == Some(bare_packet@),
{
    let encoded = rs_encode(FEC_EXTRA_BYTES, bare_packet.as_slice());
    let mut r: TotalMessage = [0u8; TOTAL_MESSAGE_LENGTH_BYTES];
    let mut i: usize = 0;
    while i < TOTAL_MESSAGE_LENGTH_BYTES
        invariant
            encoded@.len() == TOTAL_MESSAGE_LENGTH_BYTES,
            0 <= i <= TOTAL_MESSAGE_LENGTH_BYTES,
            forall|j: int| 0 <= j < i ==> r[j] == encoded@[j],
        decreases TOTAL_MESSAGE_LENGTH_BYTES - i,
    {
        r[i] = encoded[i];
        i += 1;
    }
    assert(r@ =~= encoded@);
    r
}

/// The skeleton mask of the telemetry layout: zero at the positions whose byte does
/// not depend on the readings, `0xFF` at the reading bytes.
pub open spec fn mask_spec() -> Seq<u8> {
    Seq::new(
        BARE_MESSAGE_LENGTH_BYTES as nat,
        |p: int|
            if payload_slot(p) {
                0xFFu8
            } else {
                0u8
            },
    )
}

/// A received message with every structurally invariant byte of its bare part replaced
/// by the skeleton's byte; the other bytes and the parity bytes are kept.
pub open spec fn reconstruct_spec(received: Seq<u8>) -> Seq<u8> {
    Seq::new(
        received.len(),
        |i: int|
            if i < BARE_MESSAGE_LENGTH_BYTES && mask_spec()[i] == 0 {
                filled_packet_spec(0)[i]
            } else {
                received[i]
            },
    )
}

/// What decoding a received message gives: Reed-Solomon correction of its
/// reconstruction.
pub open spec fn decode_spec(received: Seq<u8>) -> Option<Seq<u8>> {
    rs_decoded(FEC_EXTRA_BYTES as nat, reconstruct_spec(received))
}

/// Readings whose bytes are all `byte`.
fn filled_block_data(byte: u8) -> (r: BlockStackData)
    ensures
        forall|j: int, k: int| 0 <= j < 6 && 0 <= k < 4 ==> #[trigger] r[j][k] == byte,
{
    let row: [u8; 4] = [byte, byte, byte, byte];
    [row, row, row, row, row, row]
}

/// Generates a full packet (with parity) whose reading bytes are all `0xFF` if
/// `all_ones` holds and all zero otherwise.
pub fn make_packet_skeleton(all_ones: bool) -> (r: TotalMessage)
    ensures
        r@ == full_packet_spec(filled_packet_spec(if all_ones { 0xFFu8 } else { 0u8 })),
        decode_spec(r@) == Some(filled_packet_spec(if all_ones { 0xFFu8 } else { 0u8 })),
{
    let data = filled_block_data(if all_ones { 0xFF } else { 0 });
    proof {
        lemma_filled_packet(data@, if all_ones { 0xFFu8 } else { 0u8 });
    }
    generate_packet(data)
}

/// Generates a bare packet whose reading bytes are all `0xFF` if `all_ones` holds and all
/// zero otherwise.
pub fn make_packet_skeleton_nofec(all_ones: bool) -> (r: BareMessage)
    ensures
        r@ == filled_packet_spec(if all_ones { 0xFFu8 } else { 0u8 }),
{
    let data = filled_block_data(if all_ones { 0xFF } else { 0 });
    proof {
        lemma_filled_packet(data@, if all_ones { 0xFFu8 } else { 0u8 });
    }
    generate_packet_no_fec(data)
}

/// Computes the skeleton mask and the skeleton (the all-zero packet) of the telemetry
/// layout: the mask is `(skel ^ max) & !(skel ^ min)` over the all-zero and all-`0xFF`
/// packets, so it is zero exactly where the byte does not depend on the readings.
pub fn find_packet_similarities() -> (r: (BareMessage, BareMessage))
    ensures
        r.0@ == mask_spec(),
        r.1@ == filled_packet_spec(0),
{
    let zeros = filled_block_data(0);
    proof {
        lemma_filled_packet(zeros@, 0);
        lemma_packet_byte(zeros@, 0);
    }
    let bare_packet = construct_packet(construct_blocks(&zeros));
    let max_example_packet = make_packet_skeleton_nofec(true);
    let min_example_packet = make_packet_skeleton_nofec(false);
    let mut packet_bitmask: BareMessage = [0u8; BARE_MESSAGE_LENGTH_BYTES];
    let mut i: usize = 0;
    while i < BARE_MESSAGE_LENGTH_BYTES
        invariant
            0 <= i <= BARE_MESSAGE_LENGTH_BYTES,
            bare_packet@ == filled_packet_spec(0),
            max_example_packet@ == filled_packet_spec(0xFF),
            min_example_packet@ == filled_packet_spec(0),
            forall|j: int| 0 <= j < i ==> packet_bitmask[j] == mask_spec()[j],
        decreases BARE_MESSAGE_LENGTH_BYTES - i,
    {
        let b = bare_packet[i];
        let hi = max_example_packet[i];
        let lo = min_example_packet[i];
        let mask_max: u8 = b ^ hi;
        let mask_min: u8 = b ^ lo;
        packet_bitmask[i] = mask_max & !mask_min;
        assert(b == lo);
        assert(b == hi ==> (b ^ hi) & !(b ^ lo) == 0) by (bit_vector)
            requires
                b == lo,
        ;
        assert(b == 0 && hi == 0xFF ==> (b ^ hi) & !(b ^ lo) == 0xFF) by (bit_vector)
            requires
                b == lo,
        ;
        i += 1;
    }
    assert(packet_bitmask@ =~= mask_spec());
    (packet_bitmask, bare_packet)
}

/// The error of a packet that Reed-Solomon decoding cannot correct, even after
/// skeleton repair and the given erasures.
#[derive(Debug, Clone, Copy)]
pub struct DecodeUncorrectable;

/// Resets every structurally invariant byte of a received full packet (where the
/// skeleton mask is zero) to the skeleton's byte; reading bytes and parity bytes are kept.
pub fn reconstruct_packet(packet: &TotalMessage) -> (r: TotalMessage)
    ensures
        r@ == reconstruct_spec(packet@),
{
    let (packet_bitmask, bare_packet) = find_packet_similarities();
    let mut reconstructed: TotalMessage = [0u8; TOTAL_MESSAGE_LENGTH_BYTES];
    let mut i: usize = 0;
    while i < TOTAL_MESSAGE_LENGTH_BYTES
        invariant
            0 <= i <= TOTAL_MESSAGE_LENGTH_BYTES,
            packet_bitmask@ == mask_spec(),
            bare_packet@ == filled_packet_spec(0),
            forall|j: int| 0 <= j < i ==> reconstructed[j] == reconstruct_spec(packet@)[j],
        decreases TOTAL_MESSAGE_LENGTH_BYTES - i,
    {
        if i < BARE_MESSAGE_LENGTH_BYTES && packet_bitmask[i] == 0 {
            reconstructed[i] = bare_packet[i];
        } else {
            reconstructed[i] = packet[i];
        }
        i += 1;
    }
    assert(reconstructed@ =~= reconstruct_spec(packet@));
    reconstructed
}

/// Decodes a received full packet: every structurally invariant byte is first reset to
/// the skeleton's byte, then Reed-Solomon correction runs and the corrected bare packet
/// is returned. Known erasure positions are not handed to the decoder: the outside
/// decoder's erasure path can divide by zero on a message it cannot correct. An erased
/// structural byte is restored from the skeleton all the same; an erased reading byte is
/// corrected as an ordinary error, within the decoder's capacity.
pub fn decode_packet(packet: TotalMessage, _known_erasures: &[u8]) -> (r: Result<
    BareMessage,
    DecodeUncorrectable,
>)
    ensures
        match decode_spec(packet@) {
            Some(v) => r is Ok && r->Ok_0@ == v,
            None => r is Err,
        },
{
    let reconstructed = reconstruct_packet(&packet);
    match rs_correct(FEC_EXTRA_BYTES, reconstructed.as_slice()) {
        Ok(data) => Ok(to_bare_message(&data)),
        Err(_) => Err(DecodeUncorrectable),
    }
}

/// Start of the data of block `j` of the telemetry layout: past its label when the
/// label is sent.
pub open spec fn data_start(j: int) -> int {
    ident_of(telemetry_cfg(), j).position.0 + if ident_of(telemetry_cfg(), j).do_transmit_label {
        1int
    } else {
        0int
    }
}

proof fn lemma_telemetry_offsets(j: nat)
    requires
        j <= 6,
    ensures
        cfg_offset(telemetry_cfg(), j) == 10 + 7 * j,
    decreases j,
{
    if j > 0 {
        lemma_telemetry_offsets((j - 1) as nat);
    }
}

/// Reads the readings back out of a bare packet: reading `j` is the data of block `j`
/// of the layout table, just past its label.
pub fn values_from_packet(packet: BareMessage) -> (r: BlockStackData)
    ensures
        forall|j: int, k: int|
            0 <= j < 6 && 0 <= k < 4 ==> #[trigger] r[j][k] == packet[data_start(j) + k],
        forall|d: BlockStackData| #[trigger] bare_packet_spec(d@) == packet@ ==> r@ == d@,
{
    let idents = block_ident_stack();
    let mut out: BlockStackData = [[0u8; 4]; BLOCK_STACK_DATA_COUNT];
    let mut j: usize = 0;
    while j < BLOCK_STACK_DATA_COUNT
        invariant
            0 <= j <= BLOCK_STACK_DATA_COUNT,
            idents@.len() == 6,
            forall|i: int| 0 <= i < 6 ==> #[trigger] idents@[i] == ident_of(telemetry_cfg(), i),
            forall|i: int, k: int|
                0 <= i < j && 0 <= k < 4 ==> #[trigger] out[i][k] == packet[data_start(i) + k],
        decreases BLOCK_STACK_DATA_COUNT - j,
    {
        proof {
            lemma_telemetry_offsets(j as nat);
        }
        let begin = idents[j].position.0 + 1;
        let reading: [u8; 4] = [packet[begin], packet[begin + 1], packet[begin + 2], packet[begin + 3]];
        out[j] = reading;
        j += 1;
    }
    assert forall|d: BlockStackData| #[trigger] bare_packet_spec(d@) == packet@ implies out@ == d@ by {
        assert forall|i: int| 0 <= i < 6 implies out@[i] == d@[i] by {
            lemma_telemetry_offsets(i as nat);
            assert forall|k: int| 0 <= k < 4 implies out[i][k] == d[i][k] by {
                lemma_packet_byte(d@, 10 + 7 * i + 1 + k);
            }
            assert(out[i]@ =~= d[i]@);
        }
        assert(out@ =~= d@);
    }
    out
}

/// The readings of a telemetry packet: the status word, altitude, voltage and
/// temperature as their four bytes, and the two status blocks split into latitude and
/// longitude (units of 1e-7 degree) and their flag vectors.
#[derive(Clone, Copy)]
pub struct PacketReadings {
    pub status: [u8; 4],
    pub altitude: [u8; 4],
    pub voltage: [u8; 4],
    pub temperature: [u8; 4],
    pub latitude: i64,
    pub longitude: i64,
    pub flags: [StatusBoolsArray; 2],
}

/// The four data bytes of block `j` of a bare telemetry packet.
pub open spec fn block_bytes(packet: Seq<u8>, j: int) -> Seq<u8> {
    packet.subrange(data_start(j), data_start(j) + 4)
}

/// Reads the structured readings out of a bare packet: the first four blocks as they
/// are, the last two as status blocks.
pub fn readings_from_packet(packet: BareMessage) -> (r: PacketReadings)
    ensures
        r.status@ == block_bytes(packet@, 0),
        r.altitude@ == block_bytes(packet@, 1),
        r.voltage@ == block_bytes(packet@, 2),
        r.temperature@ == block_bytes(packet@, 3),
        (r.latitude as int, r.longitude as int, r.flags[0]@, r.flags[1]@) == unpacked_status_spec(
            block_bytes(packet@, 4),
            block_bytes(packet@, 5),
        ),
{
    let raw = values_from_packet(packet);
    proof {
        assert forall|j: int| 0 <= j < 6 implies #[trigger] raw[j]@ == block_bytes(packet@, j) by {
            lemma_telemetry_offsets(j as nat);
            assert(raw[j]@ =~= block_bytes(packet@, j));
        }
    }
    let (latitude, longitude, flags) = unpack_status_blocks([raw[4], raw[5]]);
    PacketReadings {
        status: raw[0],
        altitude: raw[1],
        voltage: raw[2],
        temperature: raw[3],
        latitude,
        longitude,
        flags,
    }
}

/// Every bare telemetry packet has the bare length, opens with the start header, and
/// holds the two-byte delimiter just before the end of each block of the layout table
/// and at its very end.
pub proof fn lemma_packet_shape(d: BlockStackData)
    ensures
        bare_packet_spec(d@).len() == BARE_MESSAGE_LENGTH_BYTES,
        bare_packet_spec(d@).subrange(0, 8) == start_header(),
        forall|j: int|
            0 <= j < 6 ==> #[trigger] bare_packet_spec(d@).subrange(
                ident_of(telemetry_cfg(), j).position.1 - 2,
                ident_of(telemetry_cfg(), j).position.1 as int,
            ) == delimiter(),
        bare_packet_spec(d@).subrange(60, 62) == delimiter(),
{
    let pk = bare_packet_spec(d@);
    lemma_packet_byte(d@, 0);
    assert forall|p: int| 0 <= p < 8 implies pk[p] == start_header()[p] by {
        lemma_packet_byte(d@, p);
    }
    assert(pk.subrange(0, 8) =~= start_header());
    assert forall|j: int| 0 <= j < 6 implies #[trigger] pk.subrange(
        ident_of(telemetry_cfg(), j).position.1 - 2,
        ident_of(telemetry_cfg(), j).position.1 as int,
    ) == delimiter() by {
        lemma_telemetry_offsets((j + 1) as nat);
        lemma_packet_byte(d@, 15 + 7 * j);
        lemma_packet_byte(d@, 16 + 7 * j);
        assert(pk.subrange(15 + 7 * j, 17 + 7 * j) =~= delimiter());
    }
    lemma_packet_byte(d@, 60);
    lemma_packet_byte(d@, 61);
    assert(pk.subrange(60, 62) =~= delimiter());
}

} // verus!
