use vstd::prelude::*;
use vstd::arithmetic::div_mod::{
    lemma_div_denominator,
    lemma_div_is_ordered,
    lemma_fundamental_div_mod,
};
use vstd::arithmetic::power2::{pow2, lemma_pow2_unfold, lemma2_to64};
use vstd::bits::{lemma_u8_shl_is_mul, lemma_u8_pow2_no_overflow};
use crate::parameters::U24Arr;

verus! {

/// One for `true`, zero for `false`.
pub open spec fn bit_of(b: bool) -> u8 {
    if b {
        1
    } else {
        0
    }
}

/// The byte whose bit `i` is set exactly when `b[i]` holds (for the first eight entries).
pub open spec fn packed_bits(b: Seq<bool>) -> u8
    decreases b.len(),
{
    if b.len() == 0 {
        0
    } else {
        packed_bits(b.drop_last()) | (bit_of(b.last()) << ((b.len() - 1) as u8))
    }
}

/// The sum of `2^i` over the positions `i` where `b[i]` holds.
pub open spec fn packed_sum(b: Seq<bool>) -> nat
    decreases b.len(),
{
    if b.len() == 0 {
        0
    } else {
        packed_sum(b.drop_last()) + (if b.last() {
            pow2((b.len() - 1) as nat)
        } else {
            0
        })
    }
}

/// Whether bit `i` (least significant first) of `p` is set.
pub open spec fn bit_set(p: u8, i: int) -> bool {
    (p >> (i as u8)) & 1 == 1
}

/// The eight flags held by the bits of `p`, least significant first.
pub open spec fn unpacked(p: u8) -> Seq<bool> {
    Seq::new(8, |i: int| bit_set(p, i))
}

/// Packs up to eight bools into a byte: the first bool is the least significant bit.
pub fn pack_bools_to_byte<const S: usize>(bools: [bool; S]) -> (r: u8)
    requires
        S <= 8,
    ensures
        r == packed_bits(bools@),
        r as nat == packed_sum(bools@),
{
    let mut i: usize = 0;
    let mut packed: u8 = 0;
    proof {
        lemma2_to64();
    }
    while i < S
        invariant
            S <= 8,
            0 <= i <= S,
            packed == packed_bits(bools@.take(i as int)),
            packed as nat == packed_sum(bools@.take(i as int)),
            (packed as nat) < pow2(i as nat),
        decreases S - i,
    {
        let bit: u8 = if bools[i] {
            1
        } else {
            0
        };
        proof {
            let next = bools@.take(i + 1);
            assert(next.drop_last() =~= bools@.take(i as int));
            assert(next.last() == bools[i as int]);
        }
        proof {
            let s = i as u8;
            lemma_u8_pow2_no_overflow(i as nat);
            lemma_u8_shl_is_mul(1u8, s);
            lemma_u8_shl_is_mul(bit, s);
            lemma_pow2_unfold((i + 1) as nat);
            assert(packed < (1u8 << s));
            assert((packed | (bit << s)) == packed + (bit << s)) by (bit_vector)
                requires
                    s < 8,
                    bit <= 1,
                    packed < (1u8 << s),
            ;
        }
        packed = packed | (bit << (i as u8));
        i += 1;
    }
    assert(bools@.take(S as int) =~= bools@);
    packed
}

/// Unpacks a byte into eight bools, the least significant bit first.
pub fn unpack_bools(packed_bools: u8) -> (r: [bool; 8])
    ensures
        r@ == unpacked(packed_bools),
{
    let mut bools: [bool; 8] = [false; 8];
    let mut i: usize = 0;
    while i < 8
        invariant
            0 <= i <= 8,
            forall|j: int| 0 <= j < i ==> bools[j] == bit_set(packed_bools, j),
        decreases 8 - i,
    {
        let shift: u8 = i as u8;
        let x: u8 = (packed_bools & (1u8 << shift)) >> shift;
        assert(x == (packed_bools >> shift) & 1 && (x == 0 || x == 1)) by (bit_vector)
            requires
                x == (packed_bools & (1u8 << shift)) >> shift,
                shift < 8,
        ;
        bools[i] = x != 0;
        i += 1;
    }
    assert(bools@ =~= unpacked(packed_bools));
    bools
}

/// Unpacking a packed array of eight bools gives back the same bools.
pub proof fn lemma_pack_unpack_round_trip(b: [bool; 8])
    ensures
        unpacked(packed_bits(b@)) == b@,
{
    let s = b@;
    let s7 = s.drop_last();
    let s6 = s7.drop_last();
    let s5 = s6.drop_last();
    let s4 = s5.drop_last();
    let s3 = s4.drop_last();
    let s2 = s3.drop_last();
    let s1 = s2.drop_last();
    let s0 = s1.drop_last();
    assert(s0.len() == 0);
    let v0 = bit_of(s[0]);
    let v1 = bit_of(s[1]);
    let v2 = bit_of(s[2]);
    let v3 = bit_of(s[3]);
    let v4 = bit_of(s[4]);
    let v5 = bit_of(s[5]);
    let v6 = bit_of(s[6]);
    let v7 = bit_of(s[7]);
    assert(packed_bits(s0) == 0);
    assert(packed_bits(s1) == packed_bits(s0) | (v0 << 0u8));
    assert(packed_bits(s2) == packed_bits(s1) | (v1 << 1u8));
    assert(packed_bits(s3) == packed_bits(s2) | (v2 << 2u8));
    assert(packed_bits(s4) == packed_bits(s3) | (v3 << 3u8));
    assert(packed_bits(s5) == packed_bits(s4) | (v4 << 4u8));
    assert(packed_bits(s6) == packed_bits(s5) | (v5 << 5u8));
    assert(packed_bits(s7) == packed_bits(s6) | (v6 << 6u8));
    assert(packed_bits(s) == packed_bits(s7) | (v7 << 7u8));
    let p = packed_bits(s);
    assert(p == 0u8 | (v0 << 0u8) | (v1 << 1u8) | (v2 << 2u8) | (v3 << 3u8) | (v4 << 4u8) | (v5
        << 5u8) | (v6 << 6u8) | (v7 << 7u8));
    assert({
        &&& ((p >> 0u8) & 1 == 1) == (v0 == 1)
        &&& ((p >> 1u8) & 1 == 1) == (v1 == 1)
        &&& ((p >> 2u8) & 1 == 1) == (v2 == 1)
        &&& ((p >> 3u8) & 1 == 1) == (v3 == 1)
        &&& ((p >> 4u8) & 1 == 1) == (v4 == 1)
        &&& ((p >> 5u8) & 1 == 1) == (v5 == 1)
        &&& ((p >> 6u8) & 1 == 1) == (v6 == 1)
        &&& ((p >> 7u8) & 1 == 1) == (v7 == 1)
    }) by (bit_vector)
        requires
            v0 <= 1 && v1 <= 1 && v2 <= 1 && v3 <= 1 && v4 <= 1 && v5 <= 1 && v6 <= 1 && v7 <= 1,
            p == 0u8 | (v0 << 0u8) | (v1 << 1u8) | (v2 << 2u8) | (v3 << 3u8) | (v4 << 4u8) | (v5
                << 5u8) | (v6 << 6u8) | (v7 << 7u8),
    ;
    assert(unpacked(p) =~= s);
}

/// An array of eight status flags, least significant bit first.
pub type StatusBoolsArray = [bool; 8];

/// Altitude bucket: the number of whole 2 km steps, clamped to fifteen.
pub open spec fn altitude_bucket(altitude: u16) -> u8 {
    if altitude / 2000 > 15 {
        15
    } else {
        (altitude / 2000) as u8
    }
}

/// Status flags carried beside the latitude.
pub struct StatusFlagsLat {
    pub lat_sign: bool,
    pub long_sign: bool,
    pub voltage_sign: bool,
    pub gps_lock: bool,
    pub altitude_regime: [bool; 4],
}

impl StatusFlagsLat {
    /// The eight flags in bit order.
    pub open spec fn flags(self) -> Seq<bool> {
        seq![self.lat_sign, self.long_sign, self.voltage_sign, self.gps_lock]
            + self.altitude_regime@
    }

    /// Builds the flags; the altitude (in metres) is kept as its 2 km bucket, clamped to
    /// fifteen, in the four high flags.
    pub fn new(
        lat_sign: bool,
        long_sign: bool,
        voltage_sign: bool,
        gps_lock: bool,
        altitude: u16,
    ) -> (r: StatusFlagsLat)
        ensures
            r.flags() == seq![lat_sign, long_sign, voltage_sign, gps_lock] + unpacked(
                altitude_bucket(altitude),
            ).take(4),
    {
        let intermediate: u16 = altitude / 2000;
        let converted_altitude: u8 = if intermediate > 15 {
            15
        } else {
            intermediate as u8
        };
        let altitude_bools = unpack_bools(converted_altitude);
        let r = StatusFlagsLat {
            lat_sign: lat_sign,
            long_sign: long_sign,
            voltage_sign: voltage_sign,
            gps_lock: gps_lock,
            altitude_regime: [altitude_bools[0], altitude_bools[1], altitude_bools[2], altitude_bools[3]],
        };
        assert(r.altitude_regime@ =~= unpacked(altitude_bucket(altitude)).take(4));
        assert(r.flags() =~= seq![lat_sign, long_sign, voltage_sign, gps_lock] + unpacked(
            altitude_bucket(altitude),
        ).take(4));
        r
    }

    /// The status byte: flag `i` in bit `i`.
    pub fn into_byte(self) -> (r: u8)
        ensures
            r == packed_bits(self.flags()),
    {
        let bools: [bool; 8] = [
            self.lat_sign,
            self.long_sign,
            self.voltage_sign,
            self.gps_lock,
            self.altitude_regime[0],
            self.altitude_regime[1],
            self.altitude_regime[2],
            self.altitude_regime[3],
        ];
        assert(bools@ =~= self.flags());
        pack_bools_to_byte(bools)
    }
}

impl From<StatusFlagsLat> for u8 {
    /// The status byte of the flags.
    fn from(flags: StatusFlagsLat) -> (r: u8) {
        flags.into_byte()
    }
}

impl vstd::std_specs::convert::FromSpecImpl<StatusFlagsLat> for u8 {
    open spec fn obeys_from_spec() -> bool {
        true
    }

    open spec fn from_spec(flags: StatusFlagsLat) -> u8 {
        packed_bits(flags.flags())
    }
}

/// Number of coordinate units in one degree: coordinates are fixed-point values in
/// units of 1e-7 degree.
pub const UNITS_PER_DEGREE: i64 = 10_000_000;

/// Largest value a U24 holds.
pub const U24_MAX: u32 = 0xFF_FFFF;

/// The value of a little-endian U24.
pub open spec fn u24_value(b: Seq<u8>) -> nat {
    (b[0] + 256 * b[1] + 65536 * b[2]) as nat
}

/// The little-endian bytes of a value below 2^24.
pub open spec fn u24_bytes(v: nat) -> Seq<u8> {
    seq![(v % 256) as u8, ((v / 256) % 256) as u8, (v / 65536) as u8]
}

proof fn lemma_u24_round_trip(v: nat)
    requires
        v <= U24_MAX,
    ensures
        u24_value(u24_bytes(v)) == v,
{
    lemma_fundamental_div_mod(v as int, 256);
    lemma_fundamental_div_mod(v as int / 256, 256);
    lemma_div_denominator(v as int, 256, 256);
}

/// An affine map between the coordinate interval `[input_min, input_max]` (in units
/// of 1e-7 degree) and the integer interval `[output_min, output_max]` of U24 values.
#[derive(Clone, Copy)]
pub struct CoordinateMap {
    pub input_min: i64,
    pub input_max: i64,
    pub output_min: u32,
    pub output_max: u32,
}

impl CoordinateMap {
    /// Both intervals are non-empty, the output lies in the U24 range, and the input
    /// span stays small enough for exact 64-bit arithmetic.
    pub open spec fn wf(self) -> bool {
        &&& self.input_min < self.input_max
        &&& self.input_max - self.input_min <= 0x2_0000_0000
        &&& -0x100_0000_0000 <= self.input_min
        &&& self.input_max <= 0x100_0000_0000
        &&& self.output_min < self.output_max <= U24_MAX
    }

    pub open spec fn in_span(self) -> int {
        self.input_max - self.input_min
    }

    pub open spec fn out_span(self) -> int {
        self.output_max - self.output_min
    }

    /// `(x - a) * (d - c) / (b - a) + c`, rounded to the nearest integer (halves up).
    pub open spec fn map_spec(self, x: int) -> int {
        self.output_min + (2 * (x - self.input_min) * self.out_span() + self.in_span()) / (2
            * self.in_span())
    }

    /// `(u - c) * (b - a) / (d - c) + a`, rounded to the nearest unit (halves up).
    pub open spec fn demap_spec(self, u: int) -> int {
        self.input_min + (2 * (u - self.output_min) * self.in_span() + self.out_span()) / (2
            * self.out_span())
    }

    proof fn lemma_map_in_range(self, x: int)
        requires
            self.wf(),
            self.input_min <= x <= self.input_max,
        ensures
            self.output_min <= self.map_spec(x) <= self.output_max,
    {
        let q = self.in_span();
        let r = self.out_span();
        assert(0 <= 2 * (x - self.input_min) * r + q <= 2 * q * r + q) by (nonlinear_arith)
            requires
                0 <= x - self.input_min <= q,
                0 < r,
                0 < q,
        ;
        lemma_div_is_ordered(2 * (x - self.input_min) * r + q, 2 * q * r + q, 2 * q);
        lemma_fundamental_div_mod(2 * q * r + q, 2 * q);
        assert((2 * q * r + q) / (2 * q) == r) by (nonlinear_arith)
            requires
                0 < q,
                2 * q * r + q == 2 * q * ((2 * q * r + q) / (2 * q)) + (2 * q * r + q) % (2
                    * q),
                0 <= (2 * q * r + q) % (2 * q) < 2 * q,
        ;
    }

    proof fn lemma_demap_in_range(self, u: int)
        requires
            self.wf(),
            self.output_min <= u <= self.output_max,
        ensures
            self.input_min <= self.demap_spec(u) <= self.input_max,
    {
        let q = self.in_span();
        let r = self.out_span();
        assert(0 <= 2 * (u - self.output_min) * q + r <= 2 * r * q + r) by (nonlinear_arith)
            requires
                0 <= u - self.output_min <= r,
                0 < r,
                0 < q,
        ;
        lemma_div_is_ordered(2 * (u - self.output_min) * q + r, 2 * r * q + r, 2 * r);
        lemma_fundamental_div_mod(2 * r * q + r, 2 * r);
        assert((2 * r * q + r) / (2 * r) == q) by (nonlinear_arith)
            requires
                0 < r,
                2 * r * q + r == 2 * r * ((2 * r * q + r) / (2 * r)) + (2 * r * q + r) % (2
                    * r),
                0 <= (2 * r * q + r) % (2 * r) < 2 * r,
        ;
    }

    /// Maps a coordinate to the nearest U24 step.
    pub fn map(&self, x: i64) -> (r: U24Arr)
        requires
            self.wf(),
            self.input_min <= x <= self.input_max,
        ensures
            r@ == u24_bytes(self.map_spec(x as int) as nat),
            u24_value(r@) == self.map_spec(x as int),
            self.output_min <= self.map_spec(x as int) <= self.output_max,
    {
        proof {
            self.lemma_map_in_range(x as int);
        }
        let q: u64 = (self.input_max - self.input_min) as u64;
        let r: u64 = (self.output_max - self.output_min) as u64;
        let dx: u64 = (x - self.input_min) as u64;
        assert(dx * r <= 0x2_0000_0000 * 0xFF_FFFF) by (nonlinear_arith)
            requires
                dx <= 0x2_0000_0000,
                r <= 0xFF_FFFF,
        ;
        let n: u64 = 2 * (dx * r) + q;
        assert(n == 2 * (x - self.input_min) * self.out_span() + self.in_span()) by (nonlinear_arith)
            requires
                n == 2 * (dx * r) + q,
                dx == x - self.input_min,
                r == self.out_span(),
                q == self.in_span(),
        ;
        let steps: u64 = n / (2 * q);
        let v: u32 = self.output_min + steps as u32;
        proof {
            lemma_u24_round_trip(v as nat);
        }
        [(v % 256) as u8, ((v / 256) % 256) as u8, (v / 65536) as u8]
    }

    /// Maps a U24 value back to a coordinate.
    pub fn demap(&self, value: U24Arr) -> (r: i64)
        requires
            self.wf(),
            self.output_min <= u24_value(value@) <= self.output_max,
        ensures
            r == self.demap_spec(u24_value(value@) as int),
            self.input_min <= r <= self.input_max,
    {
        let u: u32 = value[0] as u32 + 256 * value[1] as u32 + 65536 * value[2] as u32;
        proof {
            self.lemma_demap_in_range(u as int);
        }
        let q: u64 = (self.input_max - self.input_min) as u64;
        let r: u64 = (self.output_max - self.output_min) as u64;
        let du: u64 = (u - self.output_min) as u64;
        assert(du * q <= 0xFF_FFFF * 0x2_0000_0000) by (nonlinear_arith)
            requires
                du <= 0xFF_FFFF,
                q <= 0x2_0000_0000,
        ;
        let n: u64 = 2 * (du * q) + r;
        assert(n == 2 * (u - self.output_min) * self.in_span() + self.out_span()) by (nonlinear_arith)
            requires
                n == 2 * (du * q) + r,
                du == u - self.output_min,
                r == self.out_span(),
                q == self.in_span(),
        ;
        let steps: u64 = n / (2 * r);
        self.input_min + steps as i64
    }

    /// For every input, mapping and then demapping lands within half a step plus half
    /// a unit: `2 (d - c) |demap(map(x)) - x| <= (b - a) + (d - c)`.
    pub proof fn lemma_map_accuracy(self, x: int)
        requires
            self.wf(),
            self.input_min <= x <= self.input_max,
        ensures
            -(self.in_span() + self.out_span()) < 2 * self.out_span() * (self.demap_spec(
                self.map_spec(x),
            ) - x) <= self.in_span() + self.out_span(),
    {
        let q = self.in_span();
        let r = self.out_span();
        let a = self.input_min;
        let n1 = 2 * (x - a) * r + q;
        let m = n1 / (2 * q);
        lemma_fundamental_div_mod(n1, 2 * q);
        let e1 = n1 % (2 * q);
        let n2 = 2 * m * q + r;
        assert(self.map_spec(x) - self.output_min == m);
        lemma_fundamental_div_mod(n2, 2 * r);
        let k = n2 / (2 * r);
        let e2 = n2 % (2 * r);
        assert(self.demap_spec(self.map_spec(x)) == a + k);
        assert(2 * r * (a + k - x) == q + r - e1 - e2) by (nonlinear_arith)
            requires
                n1 == 2 * (x - a) * r + q,
                n1 == 2 * q * m + e1,
                n2 == 2 * m * q + r,
                n2 == 2 * r * k + e2,
        ;
    }
}

/// The default latitude map: `[-90, 90]` degrees onto the whole U24 range.
pub fn latitude_map() -> (r: CoordinateMap)
    ensures
        r == latitude_map_spec(),
        r.wf(),
{
    CoordinateMap { input_min: -900_000_000, input_max: 900_000_000, output_min: 0, output_max: U24_MAX }
}

/// The default longitude map: `[-180, 180]` degrees onto the whole U24 range.
pub fn longitude_map() -> (r: CoordinateMap)
    ensures
        r == longitude_map_spec(),
        r.wf(),
{
    CoordinateMap {
        input_min: -1_800_000_000i64,
        input_max: 1_800_000_000,
        output_min: 0,
        output_max: U24_MAX,
    }
}

pub open spec fn latitude_map_spec() -> CoordinateMap {
    CoordinateMap { input_min: -900_000_000i64, input_max: 900_000_000i64, output_min: 0u32, output_max: 0xFF_FFFFu32 }
}

pub open spec fn longitude_map_spec() -> CoordinateMap {
    CoordinateMap {
        input_min: -1_800_000_000i64,
        input_max: 1_800_000_000,
        output_min: 0,
        output_max: 0xFF_FFFF,
    }
}

/// With the default maps, a coordinate comes back within 1e-4 degree (1000 units):
/// the actual bound is 108 units.
pub proof fn lemma_default_maps_accuracy(lat: int, lon: int)
    requires
        -900_000_000 <= lat <= 900_000_000,
        -1_800_000_000 <= lon <= 1_800_000_000,
    ensures
        -1000 < latitude_map_spec().demap_spec(latitude_map_spec().map_spec(lat)) - lat < 1000,
        -1000 < longitude_map_spec().demap_spec(longitude_map_spec().map_spec(lon)) - lon < 1000,
{
    let la = latitude_map_spec();
    let lo = longitude_map_spec();
    la.lemma_map_accuracy(lat);
    lo.lemma_map_accuracy(lon);
    let d1 = la.demap_spec(la.map_spec(lat)) - lat;
    let d2 = lo.demap_spec(lo.map_spec(lon)) - lon;
    assert(-1000 < d1 < 1000) by (nonlinear_arith)
        requires
            -(1_800_000_000 + 0xFF_FFFF) < 2 * 0xFF_FFFF * d1 <= 1_800_000_000 + 0xFF_FFFF,
    ;
    assert(-1000 < d2 < 1000) by (nonlinear_arith)
        requires
            -(3_600_000_000 + 0xFF_FFFF) < 2 * 0xFF_FFFF * d2 <= 3_600_000_000 + 0xFF_FFFF,
    ;
}

/// The two status blocks: the latitude's U24 then the first status byte, and the
/// longitude's U24 then the second status byte.
pub open spec fn status_blocks_spec(lat: int, lon: int, flags0: Seq<bool>, flags1: Seq<bool>) -> (
    Seq<u8>,
    Seq<u8>,
) {
    (
        u24_bytes(latitude_map_spec().map_spec(lat) as nat).push(packed_bits(flags0)),
        u24_bytes(longitude_map_spec().map_spec(lon) as nat).push(packed_bits(flags1)),
    )
}

/// Latitude, longitude and both flag vectors read back from two status blocks.
pub open spec fn unpacked_status_spec(b0: Seq<u8>, b1: Seq<u8>) -> (int, int, Seq<bool>, Seq<bool>) {
    (
        latitude_map_spec().demap_spec(u24_value(b0) as int),
        longitude_map_spec().demap_spec(u24_value(b1) as int),
        unpacked(b0[3]),
        unpacked(b1[3]),
    )
}

/// Packs a latitude, a longitude (units of 1e-7 degree) and two flag vectors into the
/// two 4-byte status blocks.
pub fn make_status_data(lat: i64, lon: i64, status_flags: [StatusBoolsArray; 2]) -> (r: [[u8; 4];
    2])
    requires
        -900_000_000 <= lat <= 900_000_000,
        -1_800_000_000 <= lon <= 1_800_000_000,
    ensures
        (r[0]@, r[1]@) == status_blocks_spec(
            lat as int,
            lon as int,
            status_flags[0]@,
            status_flags[1]@,
        ),
{
    let lat_bytes = latitude_map().map(lat);
    let lon_bytes = longitude_map().map(lon);
    let status0 = pack_bools_to_byte(status_flags[0]);
    let status1 = pack_bools_to_byte(status_flags[1]);
    let r: [[u8; 4]; 2] = [
        [lat_bytes[0], lat_bytes[1], lat_bytes[2], status0],
        [lon_bytes[0], lon_bytes[1], lon_bytes[2], status1],
    ];
    assert(r[0]@ =~= u24_bytes(latitude_map_spec().map_spec(lat as int) as nat).push(status0));
    assert(r[1]@ =~= u24_bytes(longitude_map_spec().map_spec(lon as int) as nat).push(status1));
    r
}

/// Splits two status blocks into the latitude, the longitude (units of 1e-7 degree)
/// and the two flag vectors.
pub fn unpack_status_blocks(blocks: [[u8; 4]; 2]) -> (r: (i64, i64, [StatusBoolsArray; 2]))
    ensures
        (r.0 as int, r.1 as int, r.2[0]@, r.2[1]@) == unpacked_status_spec(blocks[0]@, blocks[1]@),
{
    let b0 = blocks[0];
    let b1 = blocks[1];
    let lat = latitude_map().demap([b0[0], b0[1], b0[2]]);
    let lon = longitude_map().demap([b1[0], b1[1], b1[2]]);
    let f0 = unpack_bools(b0[3]);
    let f1 = unpack_bools(b1[3]);
    (lat, lon, [f0, f1])
}

/// Unpacking the status blocks made from a position and two flag vectors gives the
/// flags back exactly and each coordinate within 1e-4 degree (1000 units).
pub proof fn lemma_status_round_trip(lat: int, lon: int, flags: [StatusBoolsArray; 2])
    requires
        -900_000_000 <= lat <= 900_000_000,
        -1_800_000_000 <= lon <= 1_800_000_000,
    ensures
        ({
            let (b0, b1) = status_blocks_spec(lat, lon, flags[0]@, flags[1]@);
            let (la, lo, f0, f1) = unpacked_status_spec(b0, b1);
            &&& -1000 < la - lat < 1000
            &&& -1000 < lo - lon < 1000
            &&& f0 == flags[0]@
            &&& f1 == flags[1]@
        }),
{
    let (b0, b1) = status_blocks_spec(lat, lon, flags[0]@, flags[1]@);
    latitude_map_spec().lemma_map_in_range(lat);
    longitude_map_spec().lemma_map_in_range(lon);
    let m0 = latitude_map_spec().map_spec(lat) as nat;
    let m1 = longitude_map_spec().map_spec(lon) as nat;
    lemma_u24_round_trip(m0);
    lemma_u24_round_trip(m1);
    assert(u24_value(b0) == u24_value(u24_bytes(m0)));
    assert(u24_value(b1) == u24_value(u24_bytes(m1)));
    lemma_default_maps_accuracy(lat, lon);
    lemma_pack_unpack_round_trip(flags[0]);
    lemma_pack_unpack_round_trip(flags[1]);
}

} // verus!
