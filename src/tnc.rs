use vstd::prelude::*;
use crate::parameters::MAX_KISS_FRAME_SIZE;

/// Building escaped frames.
pub mod tnc_frame_encoder;

/// Decoding frames.
pub mod tnc_frame_decoder;

use tnc_frame_encoder::InvalidEscapedByteError;

verus! {

/// Frame end.
pub const FEND: u8 = 0xC0;

/// Transposed frame end.
pub const TFEND: u8 = 0xDC;

/// Frame escape.
pub const FESC: u8 = 0xDB;

/// Transposed frame escape.
pub const TFESC: u8 = 0xDD;

pub const CMD_DATAFRAME: u8 = 0;
pub const CMD_TXDELAY: u8 = 1;
pub const CMD_P: u8 = 2;
pub const CMD_SLOTTIME: u8 = 3;
pub const CMD_TXTAIL: u8 = 4;
pub const CMD_FULLDUPLEX: u8 = 5;
pub const CMD_SETHARDWARE: u8 = 6;
pub const CMD_RETURN: u8 = 0xFF;

/// A TNC message. Data is stored raw and escaped when it goes out.
pub enum Message<'a> {
    SendDataFrame(&'a [u8]),
    SetTXDelay(u8),
    SetP(u8),
    SetSlotTime(u8),
    SetTXTail(u8),
    /// Any nonzero value means full duplex.
    SetFullDuplex(u8),
    SetHardware(u8),
    Return,
}

impl<'a> Message<'a> {
    /// The KISS command code of the message.
    pub open spec fn command(&self) -> u8 {
        match self {
            Message::SendDataFrame(_) => CMD_DATAFRAME,
            Message::SetTXDelay(_) => CMD_TXDELAY,
            Message::SetP(_) => CMD_P,
            Message::SetSlotTime(_) => CMD_SLOTTIME,
            Message::SetTXTail(_) => CMD_TXTAIL,
            Message::SetFullDuplex(_) => CMD_FULLDUPLEX,
            Message::SetHardware(_) => CMD_SETHARDWARE,
            Message::Return => CMD_RETURN,
        }
    }

    /// The one-byte header of the message: the port in the high nibble and the command
    /// in the low nibble (the return command fills the whole byte).
    pub fn header_byte(&self, port: u8) -> (r: u8)
        requires
            port < 16,
        ensures
            r == (port << 4u8) | self.command(),
    {
        let high_nibble: u8 = port << 4u8;
        let low_nibble: u8 = match self {
            Message::SendDataFrame(_) => CMD_DATAFRAME,
            Message::SetTXDelay(_) => CMD_TXDELAY,
            Message::SetP(_) => CMD_P,
            Message::SetSlotTime(_) => CMD_SLOTTIME,
            Message::SetTXTail(_) => CMD_TXTAIL,
            Message::SetFullDuplex(_) => CMD_FULLDUPLEX,
            Message::SetHardware(_) => CMD_SETHARDWARE,
            Message::Return => CMD_RETURN,
        };
        high_nibble | low_nibble
    }
}

impl<'a> Message<'a> {
    /// The bytes the message carries: the data of a data frame, the parameter byte of an
    /// option, nothing for the return command.
    pub open spec fn payload(&self) -> Seq<u8> {
        match self {
            Message::SendDataFrame(d) => d@,
            Message::SetTXDelay(v) => seq![*v],
            Message::SetP(v) => seq![*v],
            Message::SetSlotTime(v) => seq![*v],
            Message::SetTXTail(v) => seq![*v],
            Message::SetFullDuplex(v) => seq![*v],
            Message::SetHardware(v) => seq![*v],
            Message::Return => Seq::empty(),
        }
    }

    /// The KISS frame of the message on a port: `FEND`, the header byte, the escaped
    /// payload, `FEND`.
    pub fn to_frame(&self, port: u8) -> (r: TncFrameBuffer)
        requires
            port < 16,
            escape_seq(self.payload()).len() + 3 <= MAX_KISS_FRAME_SIZE,
        ensures
            r.wf(),
            r@ == seq![FEND, (port << 4u8) | self.command()] + escape_seq(self.payload()) + seq![
                FEND,
            ],
    {
        let header = self.header_byte(port);
        let mut payload: Vec<u8> = Vec::new();
        match self {
            Message::SendDataFrame(d) => {
                let mut i: usize = 0;
                while i < d.len()
                    invariant
                        0 <= i <= d@.len(),
                        payload@ == d@.take(i as int),
                    decreases d@.len() - i,
                {
                    payload.push(d[i]);
                    i += 1;
                    assert(payload@ =~= d@.take(i as int));
                }
                assert(d@.take(d@.len() as int) =~= d@);
            },
            Message::SetTXDelay(v) => payload.push(*v),
            Message::SetP(v) => payload.push(*v),
            Message::SetSlotTime(v) => payload.push(*v),
            Message::SetTXTail(v) => payload.push(*v),
            Message::SetFullDuplex(v) => payload.push(*v),
            Message::SetHardware(v) => payload.push(*v),
            Message::Return => {},
        }
        assert(payload@ =~= self.payload());
        TncFrameBuffer::new_full_tnc_frame(header, payload.as_slice())
    }
}

/// The escaped form of one byte.
pub open spec fn escape_one(b: u8) -> Seq<u8> {
    if b == FEND {
        seq![FESC, TFEND]
    } else if b == FESC {
        seq![FESC, TFESC]
    } else {
        seq![b]
    }
}

/// The escaped form of a byte sequence: each byte escaped in turn.
pub open spec fn escape_seq(s: Seq<u8>) -> Seq<u8>
    decreases s.len(),
{
    if s.len() == 0 {
        Seq::empty()
    } else {
        escape_seq(s.drop_last()) + escape_one(s.last())
    }
}

/// The bytes an escaped sequence stands for, or `None` when a `FESC` is not followed by
/// `TFEND` or `TFESC`.
pub open spec fn unescape_seq(s: Seq<u8>) -> Option<Seq<u8>>
    decreases s.len(),
{
    if s.len() == 0 {
        Some(Seq::empty())
    } else if s[0] == FESC {
        if s.len() >= 2 && (s[1] == TFEND || s[1] == TFESC) {
            match unescape_seq(s.skip(2)) {
                Some(t) => Some(seq![if s[1] == TFEND { FEND } else { FESC }] + t),
                None => None,
            }
        } else {
            None
        }
    } else {
        match unescape_seq(s.skip(1)) {
            Some(t) => Some(seq![s[0]] + t),
            None => None,
        }
    }
}

/// Whether a buffer is fully escaped: every `FESC` is followed by `TFEND` or `TFESC`,
/// and no `FEND` stands anywhere but at the first or last position.
pub open spec fn is_escaped_seq(s: Seq<u8>) -> bool {
    &&& forall|i: int|
        0 <= i < s.len() && #[trigger] s[i] == FESC ==> i + 1 < s.len() && (s[i + 1] == TFEND
            || s[i + 1] == TFESC)
    &&& forall|i: int| 0 < i < s.len() - 1 ==> #[trigger] s[i] != FEND
}

/// The bytes of a sequence of slices, one after the other.
pub open spec fn flat(ss: Seq<&[u8]>) -> Seq<u8>
    decreases ss.len(),
{
    if ss.len() == 0 {
        Seq::empty()
    } else {
        flat(ss.drop_last()) + ss.last()@
    }
}

/// Escaping distributes over concatenation.
pub proof fn lemma_escape_concat(a: Seq<u8>, b: Seq<u8>)
    ensures
        escape_seq(a + b) == escape_seq(a) + escape_seq(b),
    decreases b.len(),
{
    if b.len() == 0 {
        assert(a + b =~= a);
        assert(escape_seq(a) + escape_seq(b) =~= escape_seq(a));
    } else {
        lemma_escape_concat(a, b.drop_last());
        assert((a + b).drop_last() =~= a + b.drop_last());
        assert((a + b).last() == b.last());
        assert(escape_seq(a + b) =~= escape_seq(a) + escape_seq(b));
    }
}

proof fn lemma_unescape_append(a: Seq<u8>, b: u8)
    requires
        unescape_seq(a) is Some,
    ensures
        unescape_seq(a + escape_one(b)) == Some(unescape_seq(a)->Some_0.push(b)),
    decreases a.len(),
{
    let e = escape_one(b);
    let ae = a + e;
    if a.len() == 0 {
        assert(ae =~= e);
        assert(unescape_seq(Seq::<u8>::empty()) == Some(Seq::<u8>::empty()));
        if b == FEND || b == FESC {
            assert(e.skip(2) =~= Seq::<u8>::empty());
            assert(unescape_seq(e) == Some(seq![b] + Seq::<u8>::empty()));
        } else {
            assert(e.skip(1) =~= Seq::<u8>::empty());
            assert(unescape_seq(e) == Some(seq![b] + Seq::<u8>::empty()));
        }
        assert(seq![b] + Seq::<u8>::empty() =~= Seq::<u8>::empty().push(b));
        assert(unescape_seq(a)->Some_0 == Seq::<u8>::empty());
    } else if a[0] == FESC {
        assert(a.len() >= 2 && (a[1] == TFEND || a[1] == TFESC));
        lemma_unescape_append(a.skip(2), b);
        assert(ae.skip(2) =~= a.skip(2) + e);
        assert(ae[0] == FESC && ae[1] == a[1]);
        let c = if a[1] == TFEND { FEND } else { FESC };
        let t = unescape_seq(a.skip(2))->Some_0;
        assert(unescape_seq(a) == Some(seq![c] + t));
        assert(unescape_seq(ae) == Some(seq![c] + t.push(b)));
        assert(seq![c] + t.push(b) =~= (seq![c] + t).push(b));
    } else {
        lemma_unescape_append(a.skip(1), b);
        assert(ae.skip(1) =~= a.skip(1) + e);
        assert(ae[0] == a[0]);
        let t = unescape_seq(a.skip(1))->Some_0;
        assert(unescape_seq(a) == Some(seq![a[0]] + t));
        assert(unescape_seq(ae) == Some(seq![a[0]] + t.push(b)));
        assert(seq![a[0]] + t.push(b) =~= (seq![a[0]] + t).push(b));
    }
}

/// Unescaping an escaped sequence gives the sequence back, and an escaped sequence is
/// fully escaped.
pub proof fn lemma_escape_round_trip(s: Seq<u8>)
    ensures
        unescape_seq(escape_seq(s)) == Some(s),
        is_escaped_seq(escape_seq(s)),
        escape_seq(s).len() > 0 ==> escape_seq(s).last() != FESC,
        forall|i: int| 0 <= i < escape_seq(s).len() ==> #[trigger] escape_seq(s)[i] != FEND,
    decreases s.len(),
{
    if s.len() == 0 {
        assert(unescape_seq(Seq::<u8>::empty()) == Some(Seq::<u8>::empty()));
        assert(s =~= Seq::<u8>::empty());
    } else {
        let p = s.drop_last();
        lemma_escape_round_trip(p);
        lemma_unescape_append(escape_seq(p), s.last());
        assert(p.push(s.last()) =~= s);
        let e = escape_seq(s);
        let ep = escape_seq(p);
        let one = escape_one(s.last());
        assert(e == ep + one);
        assert forall|i: int| 0 <= i < e.len() && #[trigger] e[i] == FESC implies i + 1 < e.len()
            && (e[i + 1] == TFEND || e[i + 1] == TFESC) by {
            if i < ep.len() {
                assert(ep[i] == FESC);
            }
        }
        assert forall|i: int| 0 <= i < e.len() implies #[trigger] e[i] != FEND by {
            if i < ep.len() {
                assert(e[i] == ep[i]);
            }
        }
    }
}

/// Number of bytes `bytes` takes once escaped, or `None` when that does not fit a `usize`.
pub fn escaped_len(bytes: &[u8]) -> (r: Option<usize>)
    ensures
        match r {
            Some(n) => n == escape_seq(bytes@).len(),
            None => escape_seq(bytes@).len() > usize::MAX,
        },
{
    let mut n: usize = 0;
    let mut i: usize = 0;
    while i < bytes.len()
        invariant
            0 <= i <= bytes@.len(),
            n == escape_seq(bytes@.take(i as int)).len(),
        decreases bytes@.len() - i,
    {
        let ghost next = bytes@.take(i + 1);
        proof {
            assert(next.drop_last() =~= bytes@.take(i as int));
            lemma_escape_concat(next, bytes@.skip(i + 1));
            assert(next + bytes@.skip(i + 1) =~= bytes@);
        }
        let step: usize = if bytes[i] == FEND || bytes[i] == FESC {
            2
        } else {
            1
        };
        match n.checked_add(step) {
            Some(m) => n = m,
            None => return None,
        }
        i += 1;
    }
    assert(bytes@.take(bytes@.len() as int) =~= bytes@);
    Some(n)
}

/// The two-slot escaped form of one byte: the second slot is empty when the byte
/// needs no escaping.
pub open spec fn escape_pair(b: u8) -> [Option<u8>; 2] {
    if b == FEND {
        [Some(FESC), Some(TFEND)]
    } else if b == FESC {
        [Some(FESC), Some(TFESC)]
    } else {
        [Some(b), None]
    }
}

/// A buffer of up to [`MAX_KISS_FRAME_SIZE`] bytes, of which the first `current_len`
/// are in use.
#[derive(Clone, Copy)]
pub struct TncFrameBuffer {
    pub data: [u8; MAX_KISS_FRAME_SIZE],
    pub current_len: usize,
}

impl View for TncFrameBuffer {
    type V = Seq<u8>;

    open spec fn view(&self) -> Seq<u8> {
        self.data@.take(self.current_len as int)
    }
}

impl TncFrameBuffer {
    /// The length in use does not exceed the capacity.
    pub open spec fn wf(&self) -> bool {
        self.current_len <= MAX_KISS_FRAME_SIZE
    }

    /// Every byte past the length in use is the one `before` held there.
    pub open spec fn keeps_tail(&self, before: TncFrameBuffer) -> bool {
        forall|j: int| self.current_len <= j < MAX_KISS_FRAME_SIZE ==> self.data[j] == before.data[j]
    }

    /// Every byte past the length in use is zero.
    pub open spec fn zero_tail(&self) -> bool {
        forall|j: int| self.current_len <= j < MAX_KISS_FRAME_SIZE ==> self.data[j] == 0
    }

    /// Creates an empty buffer.
    pub fn empty_new() -> (r: Self)
        ensures
            forall|j: int| 0 <= j < MAX_KISS_FRAME_SIZE ==> r.data[j] == 0,
            r.wf(),
            r.current_len == 0,
            r@ == Seq::<u8>::empty(),
    {
        let r = TncFrameBuffer { data: [0u8; MAX_KISS_FRAME_SIZE], current_len: 0 };
        assert(r@ =~= Seq::<u8>::empty());
        r
    }

    /// Adds a byte as it is.
    pub fn raw_add_byte(&mut self, byte: u8)
        requires
            old(self).wf(),
            old(self).current_len < MAX_KISS_FRAME_SIZE,
        ensures
            final(self).keeps_tail(*old(self)),
            final(self).wf(),
            final(self).current_len == old(self).current_len + 1,
            final(self)@ == old(self)@.push(byte),
    {
        let len = self.current_len;
        self.data[len] = byte;
        self.current_len = len + 1;
        assert(self@ =~= old(self)@.push(byte));
    }

    /// Adds a byte slice as it is.
    pub fn raw_add_bytes(&mut self, bytes: &[u8])
        requires
            old(self).wf(),
            old(self).current_len + bytes@.len() <= MAX_KISS_FRAME_SIZE,
        ensures
            final(self).current_len == old(self).current_len + bytes@.len(),
            final(self).keeps_tail(*old(self)),
            final(self).wf(),
            final(self)@ == old(self)@ + bytes@,
    {
        let mut i: usize = 0;
        while i < bytes.len()
            invariant
                self.keeps_tail(*old(self)),
                0 <= i <= bytes@.len(),
                self.wf(),
                old(self).current_len + bytes@.len() <= MAX_KISS_FRAME_SIZE,
                self@ == old(self)@ + bytes@.take(i as int),
                self.current_len == old(self).current_len + i,
            decreases bytes@.len() - i,
        {
            self.raw_add_byte(bytes[i]);
            i += 1;
            assert(self@ =~= old(self)@ + bytes@.take(i as int));
        }
        assert(bytes@.take(bytes@.len() as int) =~= bytes@);
    }

    /// Adds a sequence of byte slices as they are.
    pub fn raw_add_slices(&mut self, slices: &[&[u8]])
        requires
            old(self).wf(),
            old(self).current_len + flat(slices@).len() <= MAX_KISS_FRAME_SIZE,
        ensures
            final(self).current_len == old(self).current_len + flat(slices@).len(),
            final(self).keeps_tail(*old(self)),
            final(self).wf(),
            final(self)@ == old(self)@ + flat(slices@),
    {
        let mut i: usize = 0;
        while i < slices.len()
            invariant
                self.keeps_tail(*old(self)),
                0 <= i <= slices@.len(),
                self.wf(),
                old(self).current_len + flat(slices@).len() <= MAX_KISS_FRAME_SIZE,
                self@ == old(self)@ + flat(slices@.take(i as int)),
                self.current_len == old(self).current_len + flat(slices@.take(i as int)).len(),
            decreases slices@.len() - i,
        {
            proof {
                lemma_flat_prefix_len(slices@, i as int + 1);
                let next = slices@.take(i + 1);
                assert(next.drop_last() =~= slices@.take(i as int));
            }
            self.raw_add_bytes(slices[i]);
            i += 1;
            assert(self@ =~= old(self)@ + flat(slices@.take(i as int)));
        }
        assert(slices@.take(slices@.len() as int) =~= slices@);
    }

    /// Creates a buffer holding the data as it is.
    pub fn raw_new(data: &[u8]) -> (r: Self)
        requires
            data@.len() <= MAX_KISS_FRAME_SIZE,
        ensures
            r.zero_tail(),
            r.wf(),
            r@ == data@,
    {
        let mut framebuffer = TncFrameBuffer::empty_new();
        framebuffer.raw_add_bytes(data);
        assert(framebuffer@ =~= data@);
        framebuffer
    }

    /// Creates a buffer holding the slices as they are, one after the other.
    pub fn raw_new_from_slices(slices: &[&[u8]]) -> (r: Self)
        requires
            flat(slices@).len() <= MAX_KISS_FRAME_SIZE,
        ensures
            r.zero_tail(),
            r.wf(),
            r@ == flat(slices@),
    {
        let mut framebuffer = TncFrameBuffer::empty_new();
        framebuffer.raw_add_slices(slices);
        assert(framebuffer@ =~= flat(slices@));
        framebuffer
    }

    /// Escapes a single byte into two slots; the second is empty when the byte needs no
    /// escaping.
    pub fn escape_byte(byte: u8) -> (r: [Option<u8>; 2])
        ensures
            r == escape_pair(byte),
    {
        if byte == FEND {
            [Some(FESC), Some(TFEND)]
        } else if byte == FESC {
            [Some(FESC), Some(TFESC)]
        } else {
            [Some(byte), None]
        }
    }

    /// Escapes each byte of an array.
    pub fn escape_bytes<const S: usize>(bytes: [u8; S]) -> (r: [[Option<u8>; 2]; S])
        ensures
            forall|i: int| 0 <= i < S ==> #[trigger] r[i] == escape_pair(bytes[i]),
    {
        let mut output_array: [[Option<u8>; 2]; S] = [[None, None]; S];
        let mut i: usize = 0;
        while i < S
            invariant
                0 <= i <= S,
                forall|j: int| 0 <= j < i ==> #[trigger] output_array[j] == escape_pair(bytes[j]),
            decreases S - i,
        {
            output_array[i] = Self::escape_byte(bytes[i]);
            i += 1;
        }
        output_array
    }

    /// Adds a byte, escaping it if needed.
    pub fn escaping_add_byte(&mut self, byte: u8)
        requires
            old(self).wf(),
            old(self).current_len + escape_one(byte).len() <= MAX_KISS_FRAME_SIZE,
        ensures
            final(self).current_len == old(self).current_len + escape_one(byte).len(),
            final(self).keeps_tail(*old(self)),
            final(self).wf(),
            final(self)@ == old(self)@ + escape_one(byte),
    {
        let pair = Self::escape_byte(byte);
        assert(pair[0] is Some);
        assert(pair[1] is Some ==> escape_one(byte).len() == 2);
        if let Some(first) = pair[0] {
            self.raw_add_byte(first);
        }
        if let Some(second) = pair[1] {
            self.raw_add_byte(second);
        }
        assert(self@ =~= old(self)@ + escape_one(byte));
    }

    /// Adds a byte slice, escaping each byte if needed.
    pub fn escaping_add_bytes(&mut self, bytes: &[u8])
        requires
            old(self).wf(),
            old(self).current_len + escape_seq(bytes@).len() <= MAX_KISS_FRAME_SIZE,
        ensures
            final(self).keeps_tail(*old(self)),
            final(self).wf(),
            final(self).current_len == old(self).current_len + escape_seq(bytes@).len(),
            final(self)@ == old(self)@ + escape_seq(bytes@),
    {
        let mut i: usize = 0;
        while i < bytes.len()
            invariant
                self.keeps_tail(*old(self)),
                0 <= i <= bytes@.len(),
                self.wf(),
                old(self).current_len + escape_seq(bytes@).len() <= MAX_KISS_FRAME_SIZE,
                self@ == old(self)@ + escape_seq(bytes@.take(i as int)),
                self.current_len == old(self).current_len + escape_seq(bytes@.take(i as int)).len(),
            decreases bytes@.len() - i,
        {
            proof {
                let next = bytes@.take(i + 1);
                assert(next.drop_last() =~= bytes@.take(i as int));
                lemma_escape_concat(next, bytes@.skip(i + 1));
                assert(next + bytes@.skip(i + 1) =~= bytes@);
            }
            self.escaping_add_byte(bytes[i]);
            i += 1;
            assert(self@ =~= old(self)@ + escape_seq(bytes@.take(i as int)));
        }
        assert(bytes@.take(bytes@.len() as int) =~= bytes@);
    }

    /// Adds a sequence of byte slices, escaping each byte if needed.
    pub fn escaping_add_slices(&mut self, slices: &[&[u8]])
        requires
            old(self).wf(),
            old(self).current_len + escape_seq(flat(slices@)).len() <= MAX_KISS_FRAME_SIZE,
        ensures
            final(self).current_len == old(self).current_len + escape_seq(flat(slices@)).len(),
            final(self).keeps_tail(*old(self)),
            final(self).wf(),
            final(self)@ == old(self)@ + escape_seq(flat(slices@)),
    {
        let mut i: usize = 0;
        while i < slices.len()
            invariant
                self.keeps_tail(*old(self)),
                0 <= i <= slices@.len(),
                self.wf(),
                old(self).current_len + escape_seq(flat(slices@)).len() <= MAX_KISS_FRAME_SIZE,
                self@ == old(self)@ + escape_seq(flat(slices@.take(i as int))),
                self.current_len == old(self).current_len + escape_seq(
                    flat(slices@.take(i as int)),
                ).len(),
            decreases slices@.len() - i,
        {
            proof {
                let next = slices@.take(i + 1);
                assert(next.drop_last() =~= slices@.take(i as int));
                lemma_escape_concat(flat(slices@.take(i as int)), slices@[i as int]@);
                lemma_flat_split(slices@, i as int + 1);
                lemma_escape_concat(flat(next), flat(slices@.skip(i + 1)));
            }
            self.escaping_add_bytes(slices[i]);
            i += 1;
            assert(self@ =~= old(self)@ + escape_seq(flat(slices@.take(i as int))));
        }
        assert(slices@.take(slices@.len() as int) =~= slices@);
    }

    /// Creates a buffer holding the escaped data.
    pub fn escaping_new(data: &[u8]) -> (r: Self)
        requires
            escape_seq(data@).len() <= MAX_KISS_FRAME_SIZE,
        ensures
            r.zero_tail(),
            r.wf(),
            r@ == escape_seq(data@),
    {
        let mut framebuffer = TncFrameBuffer::empty_new();
        framebuffer.escaping_add_bytes(data);
        assert(framebuffer@ =~= escape_seq(data@));
        framebuffer
    }

    /// Creates a buffer holding the escaped slices, one after the other.
    pub fn escaping_new_from_slices(slices: &[&[u8]]) -> (r: Self)
        requires
            escape_seq(flat(slices@)).len() <= MAX_KISS_FRAME_SIZE,
        ensures
            r.zero_tail(),
            r.wf(),
            r@ == escape_seq(flat(slices@)),
    {
        let mut framebuffer = TncFrameBuffer::empty_new();
        framebuffer.escaping_add_slices(slices);
        assert(framebuffer@ =~= escape_seq(flat(slices@)));
        framebuffer
    }

    /// Escapes every byte of the buffer in place.
    pub fn escape_all(&mut self)
        requires
            old(self).wf(),
            escape_seq(old(self)@).len() <= MAX_KISS_FRAME_SIZE,
        ensures
            final(self).keeps_tail(*old(self)),
            final(self).wf(),
            final(self)@ == escape_seq(old(self)@),
    {
        let src: TncFrameBuffer = *self;
        self.current_len = 0;
        assert(self@ =~= Seq::<u8>::empty());
        assert(src@.take(0) =~= Seq::<u8>::empty());
        let mut i: usize = 0;
        while i < src.current_len
            invariant
                self.keeps_tail(src),
                src == *old(self),
                src.wf(),
                0 <= i <= src.current_len,
                self.wf(),
                escape_seq(src@).len() <= MAX_KISS_FRAME_SIZE,
                self@ == escape_seq(src@.take(i as int)),
                self.current_len == escape_seq(src@.take(i as int)).len(),
            decreases src.current_len - i,
        {
            proof {
                let next = src@.take(i + 1);
                assert(next.drop_last() =~= src@.take(i as int));
                assert(next.last() == src.data[i as int]);
                lemma_escape_concat(next, src@.skip(i + 1));
                assert(next + src@.skip(i + 1) =~= src@);
            }
            self.escaping_add_byte(src.data[i]);
            i += 1;
            assert(self@ =~= escape_seq(src@.take(i as int)));
        }
        assert(src@.take(src.current_len as int) =~= src@);
    }

    /// Un-escapes every byte of the buffer in place; fails when a `FESC` is not followed
    /// by `TFEND` or `TFESC`, leaving the buffer's contents unspecified.
    pub fn raw_all(&mut self) -> (r: Result<(), InvalidEscapedByteError>)
        requires
            old(self).wf(),
        ensures
            final(self).wf(),
            match unescape_seq(old(self)@) {
                Some(t) => r is Ok && final(self)@ == t,
                None => r is Err,
            },
    {
        let src: TncFrameBuffer = *self;
        self.current_len = 0;
        assert(self@ =~= Seq::<u8>::empty());
        assert(src@.skip(0) =~= src@);
        assert(unescape_seq(src@) == prepend(self@, unescape_seq(src@.skip(0)))) by {
            match unescape_seq(src@) {
                Some(t) => {
                    assert(Seq::<u8>::empty() + t =~= t);
                },
                None => {},
            }
        }
        let mut i: usize = 0;
        while i < src.current_len
            invariant
                src == *old(self),
                src.wf(),
                0 <= i <= src.current_len,
                self.wf(),
                self.current_len <= i,
                unescape_seq(src@) == prepend(self@, unescape_seq(src@.skip(i as int))),
            decreases src.current_len - i,
        {
            let ghost rest = src@.skip(i as int);
            let b = src.data[i];
            assert(rest[0] == b);
            if b == FESC {
                if i + 1 >= src.current_len {
                    return Err(InvalidEscapedByteError);
                }
                let n = src.data[i + 1];
                assert(rest[1] == n);
                if n != TFEND && n != TFESC {
                    return Err(InvalidEscapedByteError);
                }
                let c: u8 = if n == TFEND {
                    FEND
                } else {
                    FESC
                };
                let ghost before = self@;
                self.raw_add_byte(c);
                proof {
                    assert(rest.skip(2) =~= src@.skip(i + 2));
                    match unescape_seq(rest.skip(2)) {
                        Some(t) => {
                            assert(before + (seq![c] + t) =~= before.push(c) + t);
                        },
                        None => {},
                    }
                }
                i += 2;
            } else {
                let ghost before = self@;
                self.raw_add_byte(b);
                proof {
                    assert(rest.skip(1) =~= src@.skip(i + 1));
                    match unescape_seq(rest.skip(1)) {
                        Some(t) => {
                            assert(before + (seq![b] + t) =~= before.push(b) + t);
                        },
                        None => {},
                    }
                }
                i += 1;
            }
        }
        assert(src@.skip(i as int) =~= Seq::<u8>::empty());
        assert(self@ + Seq::<u8>::empty() =~= self@);
        Ok(())
    }

    /// Checks whether the buffer is fully escaped: every `FESC` is followed by `TFEND`
    /// or `TFESC`, and no `FEND` stands anywhere but first or last.
    pub fn is_escaped(&self) -> (r: bool)
        requires
            self.wf(),
        ensures
            r == is_escaped_seq(self@),
    {
        let ghost s = self@;
        let mut position: usize = 0;
        while position < self.current_len
            invariant
                self.wf(),
                s == self@,
                0 <= position <= self.current_len,
                forall|i: int|
                    0 <= i < position && #[trigger] s[i] == FESC ==> i + 1 < s.len() && (s[i + 1]
                        == TFEND || s[i + 1] == TFESC),
                forall|i: int| 0 < i < position && i < s.len() - 1 ==> #[trigger] s[i] != FEND,
            decreases self.current_len - position,
        {
            let b = self.data[position];
            assert(s[position as int] == b);
            if b == FESC {
                if position + 1 >= self.current_len {
                    return false;
                }
                let n = self.data[position + 1];
                assert(s[position + 1] == n);
                if n != TFESC && n != TFEND {
                    return false;
                }
            } else if b == FEND && position > 0 && position + 1 < self.current_len {
                return false;
            }
            position += 1;
        }
        true
    }

    /// Creates a full KISS frame: `FEND`, the header byte as it is, the escaped data,
    /// `FEND`.
    pub fn new_full_tnc_frame(label: u8, data: &[u8]) -> (r: Self)
        requires
            escape_seq(data@).len() + 3 <= MAX_KISS_FRAME_SIZE,
        ensures
            r.wf(),
            r.zero_tail(),
            r@ == seq![FEND, label] + escape_seq(data@) + seq![FEND],
    {
        let mut framebuffer = TncFrameBuffer::empty_new();
        framebuffer.raw_add_byte(FEND);
        framebuffer.raw_add_byte(label);
        framebuffer.escaping_add_bytes(data);
        framebuffer.raw_add_byte(FEND);
        assert(framebuffer@ =~= seq![FEND, label] + escape_seq(data@) + seq![FEND]);
        framebuffer
    }
}

/// `out` followed by what `rest` holds, or `None` when it holds nothing.
pub open spec fn prepend(out: Seq<u8>, rest: Option<Seq<u8>>) -> Option<Seq<u8>> {
    match rest {
        Some(t) => Some(out + t),
        None => None,
    }
}

proof fn lemma_flat_prefix_len(ss: Seq<&[u8]>, k: int)
    requires
        0 <= k <= ss.len(),
    ensures
        flat(ss.take(k)).len() <= flat(ss).len(),
    decreases ss.len() - k,
{
    lemma_flat_split(ss, k);
}

proof fn lemma_flat_split(ss: Seq<&[u8]>, k: int)
    requires
        0 <= k <= ss.len(),
    ensures
        flat(ss) == flat(ss.take(k)) + flat(ss.skip(k)),
    decreases ss.len(),
{
    if k == ss.len() {
        assert(ss.take(k) =~= ss);
        assert(ss.skip(k) =~= Seq::<&[u8]>::empty());
        assert(flat(ss) + Seq::<u8>::empty() =~= flat(ss));
    } else {
        let p = ss.drop_last();
        lemma_flat_split(p, k);
        assert(p.take(k) =~= ss.take(k));
        assert(ss.skip(k).drop_last() =~= p.skip(k));
        assert(ss.skip(k).last() == ss.last());
        assert(flat(ss) =~= flat(ss.take(k)) + flat(ss.skip(k)));
    }
}


} // verus!
