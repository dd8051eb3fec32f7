use vstd::prelude::*;
use crate::parameters::{
    BlockType,
    type_len,
    delimiter,
    start_header,
    end_header,
    delimiter_bytes,
    start_header_data,
    end_header_data,
    FIRST_BLOCK_LABEL,
    PACKET_BEGINNING_OFFSET,
    BARE_MESSAGE_LENGTH_BYTES,
    HEADER_LEN,
    BLOCK_DELIMITER_SIZE,
};

verus! {

/// A block on the wire: its label when transmitted, its data, then the delimiter.
pub open spec fn framed(label: u8, do_transmit_label: bool, data: Seq<u8>) -> Seq<u8> {
    (if do_transmit_label {
        seq![label]
    } else {
        Seq::empty()
    }) + data + delimiter()
}

/// How one block of a layout is configured.
#[derive(Clone, Copy)]
pub struct BlockCfg {
    pub block_type: BlockType,
    pub do_transmit_label: bool,
}

/// Wire size of a configured block: label (if transmitted), data and delimiter.
pub open spec fn cfg_size(c: BlockCfg) -> nat {
    (if c.do_transmit_label {
        1nat
    } else {
        0nat
    }) + type_len(c.block_type) + 2
}

/// Offset of block `i` of the layout: the start header and its delimiter, then the
/// sizes of the blocks before it.
pub open spec fn cfg_offset(cfg: Seq<BlockCfg>, i: nat) -> nat
    decreases i,
{
    if i == 0 || i > cfg.len() {
        PACKET_BEGINNING_OFFSET as nat
    } else {
        cfg_offset(cfg, (i - 1) as nat) + cfg_size(cfg[i - 1])
    }
}

/// A block of a layout table: its type, label, whether the label is sent, and the
/// half-open byte range `position.0..position.1` that it takes in a bare packet.
#[derive(Clone, Copy)]
pub struct BlockIdent {
    pub block_type: BlockType,
    pub label: u8,
    pub do_transmit_label: bool,
    pub position: (usize, usize),
}

/// Entry `i` of the layout table of `cfg`.
pub open spec fn ident_of(cfg: Seq<BlockCfg>, i: int) -> BlockIdent {
    BlockIdent {
        block_type: cfg[i].block_type,
        label: (FIRST_BLOCK_LABEL + i) as u8,
        do_transmit_label: cfg[i].do_transmit_label,
        position: (cfg_offset(cfg, i as nat) as usize, cfg_offset(cfg, (i + 1) as nat) as usize),
    }
}

/// Wire size of a block of a layout table.
pub open spec fn ident_size(b: BlockIdent) -> nat {
    (if b.do_transmit_label {
        1nat
    } else {
        0nat
    }) + type_len(b.block_type) + 2
}

impl BlockIdent {
    /// An entry of no type, unlabelled, covering nothing.
    pub fn new() -> (r: Self)
        ensures
            r.block_type == BlockType::NONE,
            r.label == 0,
            !r.do_transmit_label,
            r.position == (0usize, 0usize),
    {
        BlockIdent { block_type: BlockType::NONE, label: 0, do_transmit_label: false, position: (0, 0) }
    }

    /// Number of data bytes of the block.
    pub fn data_len(&self) -> (r: usize)
        ensures
            r == type_len(self.block_type),
    {
        self.block_type.len()
    }

    /// Number of bytes the block takes in the packet.
    pub fn total_len(&self) -> (r: usize)
        requires
            self.position.0 <= self.position.1,
        ensures
            r == self.position.1 - self.position.0,
    {
        self.position.1 - self.position.0
    }

    /// Number of bytes the block takes in the packet.
    pub fn len(&self) -> (r: usize)
        requires
            self.position.0 <= self.position.1,
        ensures
            r == self.position.1 - self.position.0,
    {
        self.total_len()
    }
}

proof fn lemma_cfg_offset_bound(cfg: Seq<BlockCfg>, i: nat)
    ensures
        cfg_offset(cfg, i) <= PACKET_BEGINNING_OFFSET + 7 * i,
    decreases i,
{
    if i > 0 && i <= cfg.len() {
        lemma_cfg_offset_bound(cfg, (i - 1) as nat);
    }
}

/// Folds a block configuration into its layout table: block `i` gets label
/// `FIRST_BLOCK_LABEL + i` and the byte range that follows block `i - 1`.
pub fn cfg_stack_to_ident_stack(cfg_stack: &[BlockCfg]) -> (r: Vec<BlockIdent>)
    requires
        cfg_stack@.len() <= 128,
    ensures
        r@.len() == cfg_stack@.len(),
        forall|i: int| 0 <= i < r@.len() ==> #[trigger] r@[i] == ident_of(cfg_stack@, i),
        forall|i: int|
            0 <= i < r@.len() ==> (#[trigger] r@[i]).position.1 - r@[i].position.0 == cfg_size(
                cfg_stack@[i],
            ),
        forall|i: int|
            0 <= i < r@.len() - 1 ==> #[trigger] r@[i + 1].position.0 == r@[i].position.1,
        r@.len() > 0 ==> r@[0].position.0 == PACKET_BEGINNING_OFFSET,
{
    let mut output: Vec<BlockIdent> = Vec::new();
    let mut i: usize = 0;
    let mut current: usize = PACKET_BEGINNING_OFFSET;
    while i < cfg_stack.len()
        invariant
            cfg_stack@.len() <= 128,
            0 <= i <= cfg_stack@.len(),
            output@.len() == i,
            current == cfg_offset(cfg_stack@, i as nat),
            forall|j: int| 0 <= j < i ==> #[trigger] output@[j] == ident_of(cfg_stack@, j),
        decreases cfg_stack@.len() - i,
    {
        proof {
            lemma_cfg_offset_bound(cfg_stack@, i as nat);
        }
        let c = cfg_stack[i];
        let label_size: usize = if c.do_transmit_label {
            1
        } else {
            0
        };
        let size: usize = label_size + c.block_type.len() + 2;
        let end: usize = current + size;
        output.push(
            BlockIdent {
                block_type: c.block_type,
                label: FIRST_BLOCK_LABEL + i as u8,
                do_transmit_label: c.do_transmit_label,
                position: (current, end),
            },
        );
        current = end;
        i += 1;
    }
    assert forall|i: int| 0 <= i < output@.len() implies (#[trigger] output@[i]).position.1
        - output@[i].position.0 == cfg_size(cfg_stack@[i]) by {
        lemma_cfg_offset_bound(cfg_stack@, i as nat);
        lemma_cfg_offset_bound(cfg_stack@, (i + 1) as nat);
    }
    output
}

/// A configuration whose blocks do not fill the bare message exactly.
#[derive(Debug, Clone, Copy, PartialEq, Eq, Structural)]
pub struct LayoutMismatch;

/// Whether the blocks of `cfg` fill the space between the start header's delimiter and
/// the end header exactly.
pub open spec fn layout_fits(cfg: Seq<BlockCfg>) -> bool {
    cfg.len() <= 128 && cfg_offset(cfg, cfg.len()) + HEADER_LEN + BLOCK_DELIMITER_SIZE
        == BARE_MESSAGE_LENGTH_BYTES
}

/// Builds the layout table of a configuration, rejecting one whose blocks do not fill
/// the bare message exactly (or that has more blocks than labels).
pub fn build_layout(cfg_stack: &[BlockCfg]) -> (r: Result<Vec<BlockIdent>, LayoutMismatch>)
    ensures
        r is Ok <==> layout_fits(cfg_stack@),
        r is Ok ==> r->Ok_0@.len() == cfg_stack@.len() && forall|i: int|
            0 <= i < cfg_stack@.len() ==> #[trigger] r->Ok_0@[i] == ident_of(cfg_stack@, i),
{
    if cfg_stack.len() > 128 {
        return Err(LayoutMismatch);
    }
    let table = cfg_stack_to_ident_stack(cfg_stack);
    let end: usize = if table.len() == 0 {
        PACKET_BEGINNING_OFFSET
    } else {
        table[table.len() - 1].position.1
    };
    proof {
        lemma_cfg_offset_bound(cfg_stack@, cfg_stack@.len());
    }
    if end + HEADER_LEN + BLOCK_DELIMITER_SIZE == BARE_MESSAGE_LENGTH_BYTES {
        Ok(table)
    } else {
        Err(LayoutMismatch)
    }
}

/// The configuration of the telemetry packet: six four-byte blocks, all labelled
/// (status word, altitude, voltage, temperature, latitude block, longitude block).
pub open spec fn telemetry_cfg() -> Seq<BlockCfg> {
    seq![
        BlockCfg { block_type: BlockType::U32, do_transmit_label: true },
        BlockCfg { block_type: BlockType::F32, do_transmit_label: true },
        BlockCfg { block_type: BlockType::F32, do_transmit_label: true },
        BlockCfg { block_type: BlockType::F32, do_transmit_label: true },
        BlockCfg { block_type: BlockType::BYTES, do_transmit_label: true },
        BlockCfg { block_type: BlockType::BYTES, do_transmit_label: true },
    ]
}

/// The configuration of the telemetry packet.
pub fn block_cfg_stack() -> (r: Vec<BlockCfg>)
    ensures
        r@ == telemetry_cfg(),
{
    let r = vec![
        BlockCfg { block_type: BlockType::U32, do_transmit_label: true },
        BlockCfg { block_type: BlockType::F32, do_transmit_label: true },
        BlockCfg { block_type: BlockType::F32, do_transmit_label: true },
        BlockCfg { block_type: BlockType::F32, do_transmit_label: true },
        BlockCfg { block_type: BlockType::BYTES, do_transmit_label: true },
        BlockCfg { block_type: BlockType::BYTES, do_transmit_label: true },
    ];
    assert(r@ =~= telemetry_cfg());
    r
}

/// The telemetry configuration fills the bare message exactly.
pub proof fn lemma_telemetry_layout_fits()
    ensures
        layout_fits(telemetry_cfg()),
{
    reveal_with_fuel(cfg_offset, 7);
}

/// The layout table of the telemetry packet.
pub fn block_ident_stack() -> (r: Vec<BlockIdent>)
    ensures
        r@.len() == telemetry_cfg().len(),
        forall|i: int| 0 <= i < r@.len() ==> #[trigger] r@[i] == ident_of(telemetry_cfg(), i),
{
    let cfg = block_cfg_stack();
    cfg_stack_to_ident_stack(cfg.as_slice())
}

/// A block of a layout table paired with its data.
pub struct QPacketBlock<'a> {
    pub identity: BlockIdent,
    pub data: &'a [u8],
}

impl<'a> QPacketBlock<'a> {
    /// Pairs a layout entry with its data.
    pub fn new(ident: &'static BlockIdent, data: &'a [u8]) -> (r: Self)
        ensures
            r.identity == *ident,
            r.data@ == data@,
    {
        QPacketBlock { identity: *ident, data: data }
    }

    /// Number of bytes the block takes in the packet.
    pub fn len(&self) -> (r: usize)
        requires
            self.identity.position.0 <= self.identity.position.1,
        ensures
            r == self.identity.position.1 - self.identity.position.0,
    {
        self.identity.total_len()
    }

    /// The block as it goes on the wire (label if transmitted, data, delimiter) at the
    /// start of a zeroed array of `LEN` bytes.
    pub fn as_bytes<const LEN: usize>(&self) -> (r: [u8; LEN])
        requires
            self.data@.len() == type_len(self.identity.block_type),
            LEN >= ident_size(self.identity),
        ensures
            r@.subrange(0, ident_size(self.identity) as int) == framed(
                self.identity.label,
                self.identity.do_transmit_label,
                self.data@,
            ),
            forall|j: int| ident_size(self.identity) <= j < LEN ==> r[j] == 0,
    {
        let mut output: [u8; LEN] = [0u8; LEN];
        let ghost wire = framed(self.identity.label, self.identity.do_transmit_label, self.data@);
        let mut i: usize = 0;
        if self.identity.do_transmit_label {
            output[0] = self.identity.label;
            i = 1;
        }
        let head: usize = i;
        let mut x: usize = 0;
        while x < self.data.len()
            invariant
                self.data@.len() == type_len(self.identity.block_type),
                LEN >= ident_size(self.identity),
                forall|j: int| i <= j < LEN ==> output[j] == 0,
                wire == framed(self.identity.label, self.identity.do_transmit_label, self.data@),
                head == (if self.identity.do_transmit_label { 1int } else { 0int }),
                0 <= x <= self.data@.len(),
                i == head + x,
                forall|j: int| 0 <= j < i ==> output[j] == wire[j],
            decreases self.data@.len() - x,
        {
            output[i] = self.data[x];
            i += 1;
            x += 1;
        }
        let delim = delimiter_bytes();
        output[i] = delim[0];
        output[i + 1] = delim[1];
        assert(output@.subrange(0, ident_size(self.identity) as int) =~= wire);
        output
    }
}

/// The data-free wire form of a layout entry: label (if sent), zero bytes, delimiter.
pub open spec fn ident_wire(b: BlockIdent) -> Seq<u8> {
    framed(b.label, b.do_transmit_label, Seq::new(type_len(b.block_type), |k: int| 0u8))
}

/// The data-free wire forms of a sequence of layout entries, one after the other.
pub open spec fn idents_wire(bs: Seq<BlockIdent>) -> Seq<u8>
    decreases bs.len(),
{
    if bs.len() == 0 {
        Seq::empty()
    } else {
        idents_wire(bs.drop_last()) + ident_wire(bs.last())
    }
}

/// The packet a layout gives when all data bytes are zero.
pub open spec fn skeleton_of(bs: Seq<BlockIdent>) -> Seq<u8> {
    start_header() + delimiter() + idents_wire(bs) + end_header() + delimiter()
}

/// Appends `bytes` to `out`.
pub(crate) fn push_all(out: &mut Vec<u8>, bytes: &[u8])
    ensures
        final(out)@ == old(out)@ + bytes@,
{
    let mut i: usize = 0;
    while i < bytes.len()
        invariant
            0 <= i <= bytes@.len(),
            out@ == old(out)@ + bytes@.take(i as int),
        decreases bytes@.len() - i,
    {
        out.push(bytes[i]);
        i += 1;
        assert(out@ =~= old(out)@ + bytes@.take(i as int));
    }
    assert(bytes@.take(bytes@.len() as int) =~= bytes@);
}

/// Builds the packet of a layout with every data byte zero: start header, delimiter,
/// each block's label (if sent), zeroed data and delimiter, then end header and delimiter.
pub fn construct_bare_packet(blockstack: &[BlockIdent]) -> (r: Vec<u8>)
    ensures
        r@ == skeleton_of(blockstack@),
{
    let mut output: Vec<u8> = Vec::new();
    let start = start_header_data();
    let end = end_header_data();
    let delim = delimiter_bytes();
    push_all(&mut output, start.as_slice());
    push_all(&mut output, delim.as_slice());
    let mut i: usize = 0;
    while i < blockstack.len()
        invariant
            0 <= i <= blockstack@.len(),
            delim@ == delimiter(),
            output@ == start_header() + delimiter() + idents_wire(blockstack@.take(i as int)),
        decreases blockstack@.len() - i,
    {
        let block = blockstack[i];
        let ghost before = output@;
        if block.do_transmit_label {
            output.push(block.label);
        }
        let n = block.block_type.len();
        let mut k: usize = 0;
        while k < n
            invariant
                0 <= k <= n,
                n == type_len(block.block_type),
                output@ == before + (if block.do_transmit_label {
                    seq![block.label]
                } else {
                    Seq::<u8>::empty()
                }) + Seq::new(k as nat, |j: int| 0u8),
            decreases n - k,
        {
            output.push(0u8);
            k += 1;
            assert(output@ =~= before + (if block.do_transmit_label {
                seq![block.label]
            } else {
                Seq::<u8>::empty()
            }) + Seq::new(k as nat, |j: int| 0u8));
        }
        push_all(&mut output, delim.as_slice());
        proof {
            let next = blockstack@.take(i + 1);
            assert(next.drop_last() =~= blockstack@.take(i as int));
            assert(next.last() == block);
            assert(output@ =~= start_header() + delimiter() + idents_wire(next));
        }
        i += 1;
    }
    assert(blockstack@.take(blockstack@.len() as int) =~= blockstack@);
    push_all(&mut output, end.as_slice());
    push_all(&mut output, delim.as_slice());
    output
}

} // verus!
