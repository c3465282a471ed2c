//! The bit-packed view of a 20-byte LAS point data record format 0.
//!
//! A record stores, in little-endian order: x, y, z (`i32` each), the
//! intensity (`u16`), one packed byte of four sub-fields (return number,
//! number of returns, scan direction flag, edge of flight line), the
//! classification byte, the scan angle rank (`i8`), the user data byte and
//! the point source id (`u16`).

use vstd::prelude::*;

verus! {

/// Size in bytes of a packed point data record format 0.
pub const POINT0_SIZE: usize = 20;

/// A LAS point data record format 0, with the packed byte of sub-fields
/// kept unpacked in separate fields.
#[derive(Clone, Copy, Debug, PartialEq, Eq, Structural)]
pub struct Point0 {
    pub x: i32,
    pub y: i32,
    pub z: i32,
    pub intensity: u16,
    /// Sub-field of the packed byte: bits 0 to 2.
    pub return_number: u8,
    /// Sub-field of the packed byte: bits 3 to 5.
    pub number_of_returns_of_given_pulse: u8,
    /// Sub-field of the packed byte: bit 6.
    pub scan_direction_flag: bool,
    /// Sub-field of the packed byte: bit 7.
    pub edge_of_flight_line: bool,
    pub classification: u8,
    pub scan_angle_rank: i8,
    pub user_data: u8,
    pub point_source_id: u16,
}

/// 1 for true, 0 for false, as the packed byte stores a flag.
pub open spec fn flag_bit(b: bool) -> u8 {
    if b {
        1u8
    } else {
        0u8
    }
}

/// The packed byte built from the four sub-field values.
pub open spec fn spec_pack_bit_fields(rn: u8, nr: u8, sd: u8, ef: u8) -> u8 {
    ((ef & 0x1) << 7) | ((sd & 0x1) << 6) | ((nr & 0x7) << 3) | (rn & 0x7)
}

/// The low byte of a 16-bit little-endian value.
pub open spec fn spec_u16_lo(v: u16) -> u8 {
    (v & 0xff) as u8
}

/// The high byte of a 16-bit little-endian value.
pub open spec fn spec_u16_hi(v: u16) -> u8 {
    ((v >> 8) & 0xff) as u8
}

/// The 16-bit value read from two little-endian bytes.
pub open spec fn spec_u16_from_le(b0: u8, b1: u8) -> u16 {
    (b0 as u16) | ((b1 as u16) << 8)
}

/// Byte `i` (0 = least significant) of a 32-bit little-endian value.
pub open spec fn spec_u32_byte(v: u32, i: u32) -> u8 {
    ((v >> (8 * i)) & 0xff) as u8
}

/// The 32-bit value read from four little-endian bytes.
pub open spec fn spec_u32_from_le(b0: u8, b1: u8, b2: u8, b3: u8) -> u32 {
    (b0 as u32) | ((b1 as u32) << 8) | ((b2 as u32) << 16) | ((b3 as u32) << 24)
}

impl Point0 {
    /// The four packed sub-fields hold values that fit their bit widths.
    pub open spec fn wf(self) -> bool {
        self.return_number <= 7 && self.number_of_returns_of_given_pulse <= 7
    }

    /// The packed byte of this record's four sub-fields.
    pub open spec fn spec_bit_fields(self) -> u8 {
        spec_pack_bit_fields(
            self.return_number,
            self.number_of_returns_of_given_pulse,
            flag_bit(self.scan_direction_flag),
            flag_bit(self.edge_of_flight_line),
        )
    }

    /// The 20 bytes of this record in the little-endian wire layout.
    pub open spec fn spec_bytes(self) -> Seq<u8> {
        seq![
            spec_u32_byte(self.x as u32, 0),
            spec_u32_byte(self.x as u32, 1),
            spec_u32_byte(self.x as u32, 2),
            spec_u32_byte(self.x as u32, 3),
            spec_u32_byte(self.y as u32, 0),
            spec_u32_byte(self.y as u32, 1),
            spec_u32_byte(self.y as u32, 2),
            spec_u32_byte(self.y as u32, 3),
            spec_u32_byte(self.z as u32, 0),
            spec_u32_byte(self.z as u32, 1),
            spec_u32_byte(self.z as u32, 2),
            spec_u32_byte(self.z as u32, 3),
            spec_u16_lo(self.intensity),
            spec_u16_hi(self.intensity),
            self.spec_bit_fields(),
            self.classification,
            self.scan_angle_rank as u8,
            self.user_data,
            spec_u16_lo(self.point_source_id),
            spec_u16_hi(self.point_source_id),
        ]
    }
}

/// The record read back from 20 wire bytes.
pub open spec fn spec_point_from_bytes(s: Seq<u8>) -> Point0 {
    Point0 {
        x: spec_u32_from_le(s[0], s[1], s[2], s[3]) as i32,
        y: spec_u32_from_le(s[4], s[5], s[6], s[7]) as i32,
        z: spec_u32_from_le(s[8], s[9], s[10], s[11]) as i32,
        intensity: spec_u16_from_le(s[12], s[13]),
        return_number: s[14] & 0x7,
        number_of_returns_of_given_pulse: (s[14] >> 3) & 0x7,
        scan_direction_flag: ((s[14] >> 6) & 0x1) != 0,
        edge_of_flight_line: ((s[14] >> 7) & 0x1) != 0,
        classification: s[15],
        scan_angle_rank: s[16] as i8,
        user_data: s[17],
        point_source_id: spec_u16_from_le(s[18], s[19]),
    }
}

impl Point0 {
    /// The all-zero record, the state a codec starts from.
    pub open spec fn default_spec() -> Point0 {
        Point0 {
            x: 0i32,
            y: 0i32,
            z: 0i32,
            intensity: 0u16,
            return_number: 0u8,
            number_of_returns_of_given_pulse: 0u8,
            scan_direction_flag: false,
            edge_of_flight_line: false,
            classification: 0u8,
            scan_angle_rank: 0i8,
            user_data: 0u8,
            point_source_id: 0u16,
        }
    }
}

impl Default for Point0 {
    /// The all-zero record, the state a codec starts from.
    fn default() -> (r: Point0)
        ensures
            r == Point0::default_spec(),
    {
        Point0 {
            x: 0,
            y: 0,
            z: 0,
            intensity: 0,
            return_number: 0,
            number_of_returns_of_given_pulse: 0,
            scan_direction_flag: false,
            edge_of_flight_line: false,
            classification: 0,
            scan_angle_rank: 0,
            user_data: 0,
            point_source_id: 0,
        }
    }
}

impl Point0 {
    /// Splits one packed byte into the four sub-fields, overwriting them.
    pub fn populate_bit_fields_from(&mut self, byte: u8)
        ensures
            final(self).return_number == byte & 0x7,
            final(self).number_of_returns_of_given_pulse == (byte >> 3) & 0x7,
            final(self).scan_direction_flag == (((byte >> 6) & 0x1) != 0),
            final(self).edge_of_flight_line == (((byte >> 7) & 0x1) != 0),
            final(self).wf(),
            final(self).spec_bit_fields() == byte,
            *final(self) == (Point0 {
                return_number: final(self).return_number,
                number_of_returns_of_given_pulse: final(self).number_of_returns_of_given_pulse,
                scan_direction_flag: final(self).scan_direction_flag,
                edge_of_flight_line: final(self).edge_of_flight_line,
                ..*old(self)
            }),
    {
        self.return_number = byte & 0x7;
        self.number_of_returns_of_given_pulse = (byte >> 3) & 0x7;
        self.scan_direction_flag = ((byte >> 6) & 0x1) != 0;
        self.edge_of_flight_line = ((byte >> 7) & 0x1) != 0;
        proof {
            lemma_bit_fields_pack_unpack(byte);
        }
    }

    /// Packs the four sub-fields back into one byte.
    pub fn bit_fields_to_byte(&self) -> (r: u8)
        ensures
            r == self.spec_bit_fields(),
    {
        let a: u8 = self.return_number;
        let b: u8 = self.number_of_returns_of_given_pulse;
        let c: u8 = if self.scan_direction_flag {
            1
        } else {
            0
        };
        let d: u8 = if self.edge_of_flight_line {
            1
        } else {
            0
        };
        ((d & 0x1) << 7) | ((c & 0x1) << 6) | ((b & 0x7) << 3) | (a & 0x7)
    }

    /// Reads a record from the first 20 bytes of `input`.
    pub fn unpack_from(input: &[u8]) -> (r: Point0)
        requires
            input@.len() >= 20,
        ensures
            r == spec_point_from_bytes(input@),
            r.wf(),
    {
        let mut point: Point0 = Point0::default();
        point.x = i32_from_le(input[0], input[1], input[2], input[3]);
        point.y = i32_from_le(input[4], input[5], input[6], input[7]);
        point.z = i32_from_le(input[8], input[9], input[10], input[11]);
        point.intensity = u16_from_le(input[12], input[13]);
        point.populate_bit_fields_from(input[14]);
        point.classification = input[15];
        point.scan_angle_rank = i8_from_byte(input[16]);
        point.user_data = input[17];
        point.point_source_id = u16_from_le(input[18], input[19]);
        point
    }

    /// Writes the 20 wire bytes over the front of `output`, leaving the
    /// rest of the buffer as it was.
    pub fn pack_into(&self, output: &mut Vec<u8>)
        requires
            old(output)@.len() >= 20,
        ensures
            final(output)@.len() == old(output)@.len(),
            final(output)@.subrange(0, 20) == self.spec_bytes(),
            final(output)@.skip(20) == old(output)@.skip(20),
    {
        let bytes: [u8; 20] = self.to_byte_array();
        let mut i: usize = 0;
        while i < 20
            invariant
                i <= 20,
                output@.len() == old(output)@.len() >= 20,
                bytes@ == self.spec_bytes(),
                forall|j: int| 0 <= j < i ==> output@[j] == self.spec_bytes()[j],
                forall|j: int| i <= j < output@.len() ==> output@[j] == old(output)@[j],
            decreases 20 - i,
        {
            output[i] = bytes[i];
            i += 1;
        }
        proof {
            assert(final(output)@.subrange(0, 20) =~= self.spec_bytes());
            assert(final(output)@.skip(20) =~= old(output)@.skip(20));
        }
    }

    /// Appends the 20 wire bytes of this record to `dst`.
    pub fn write_to(&self, dst: &mut Vec<u8>)
        ensures
            final(dst)@ == old(dst)@ + self.spec_bytes(),
    {
        let bytes: [u8; 20] = self.to_byte_array();
        let mut i: usize = 0;
        while i < 20
            invariant
                i <= 20,
                bytes@ == self.spec_bytes(),
                dst@ == old(dst)@ + self.spec_bytes().subrange(0, i as int),
            decreases 20 - i,
        {
            dst.push(bytes[i]);
            proof {
                assert(old(dst)@ + self.spec_bytes().subrange(0, i as int) + seq![
                    self.spec_bytes()[i as int],
                ] =~= old(dst)@ + self.spec_bytes().subrange(0, i as int + 1));
            }
            i += 1;
        }
        proof {
            assert(old(dst)@ + self.spec_bytes().subrange(0, 20) =~= old(dst)@
                + self.spec_bytes());
        }
    }

    /// The 20 wire bytes of this record, as an array.
    pub fn to_byte_array(&self) -> (r: [u8; 20])
        ensures
            r@ == self.spec_bytes(),
    {
        let xu: u32 = i32_to_u32(self.x);
        let yu: u32 = i32_to_u32(self.y);
        let zu: u32 = i32_to_u32(self.z);
        let r: [u8; 20] = [
            u32_byte(xu, 0),
            u32_byte(xu, 1),
            u32_byte(xu, 2),
            u32_byte(xu, 3),
            u32_byte(yu, 0),
            u32_byte(yu, 1),
            u32_byte(yu, 2),
            u32_byte(yu, 3),
            u32_byte(zu, 0),
            u32_byte(zu, 1),
            u32_byte(zu, 2),
            u32_byte(zu, 3),
            u16_lo(self.intensity),
            u16_hi(self.intensity),
            self.bit_fields_to_byte(),
            self.classification,
            i8_to_byte(self.scan_angle_rank),
            self.user_data,
            u16_lo(self.point_source_id),
            u16_hi(self.point_source_id),
        ];
        proof {
            assert(r@ =~= self.spec_bytes());
        }
        r
    }
}

/// A record with packed sub-fields in range survives the trip through its
/// wire bytes unchanged.
pub proof fn lemma_point_bytes_round_trip(p: Point0)
    requires
        p.wf(),
    ensures
        spec_point_from_bytes(p.spec_bytes()) == p,
{
    let s = p.spec_bytes();
    lemma_u32_le_round_trip(p.x as u32);
    lemma_u32_le_round_trip(p.y as u32);
    lemma_u32_le_round_trip(p.z as u32);
    assert(spec_u32_from_le(s[0], s[1], s[2], s[3]) == p.x as u32);
    let xv = p.x;
    let yv = p.y;
    let zv = p.z;
    let sar = p.scan_angle_rank;
    assert((xv as u32) as i32 == xv) by (bit_vector);
    assert((yv as u32) as i32 == yv) by (bit_vector);
    assert((zv as u32) as i32 == zv) by (bit_vector);
    lemma_u16_le_round_trip(p.intensity);
    lemma_u16_le_round_trip(p.point_source_id);
    lemma_bit_fields_unpack_pack(
        p.return_number,
        p.number_of_returns_of_given_pulse,
        flag_bit(p.scan_direction_flag),
        flag_bit(p.edge_of_flight_line),
    );
    assert(((sar as u8) as i8) == sar) by (bit_vector);
    assert(spec_point_from_bytes(s) == p);
}

/// Unpacking a byte into the four sub-fields and packing them again gives
/// the byte back, for every byte.
pub proof fn lemma_bit_fields_pack_unpack(b: u8)
    ensures
        spec_pack_bit_fields(b & 0x7, (b >> 3) & 0x7, (b >> 6) & 0x1, (b >> 7) & 0x1) == b,
        flag_bit(((b >> 6) & 0x1) != 0) == (b >> 6) & 0x1,
        flag_bit(((b >> 7) & 0x1) != 0) == (b >> 7) & 0x1,
        b & 0x7 <= 7,
        (b >> 3) & 0x7 <= 7,
{
    assert(b & 0x7 <= 7 && (b >> 3) & 0x7 <= 7) by (bit_vector);
    assert((((((b >> 7) & 0x1) & 0x1) << 7) | ((((b >> 6) & 0x1) & 0x1) << 6) | ((((b >> 3) & 0x7)
        & 0x7) << 3) | ((b & 0x7) & 0x7)) == b) by (bit_vector);
    assert((b >> 6) & 0x1 == 0 || (b >> 6) & 0x1 == 1) by (bit_vector);
    assert((b >> 7) & 0x1 == 0 || (b >> 7) & 0x1 == 1) by (bit_vector);
}

/// Packing in-range sub-fields and unpacking the byte gives each
/// sub-field back.
pub proof fn lemma_bit_fields_unpack_pack(rn: u8, nr: u8, sd: u8, ef: u8)
    requires
        rn <= 7,
        nr <= 7,
        sd <= 1,
        ef <= 1,
    ensures
        spec_pack_bit_fields(rn, nr, sd, ef) & 0x7 == rn,
        (spec_pack_bit_fields(rn, nr, sd, ef) >> 3) & 0x7 == nr,
        (spec_pack_bit_fields(rn, nr, sd, ef) >> 6) & 0x1 == sd,
        (spec_pack_bit_fields(rn, nr, sd, ef) >> 7) & 0x1 == ef,
{
    let b = spec_pack_bit_fields(rn, nr, sd, ef);
    assert(rn <= 7 && nr <= 7 && sd <= 1 && ef <= 1 ==> ((((ef & 0x1) << 7) | ((sd & 0x1) << 6) | (
    (nr & 0x7) << 3) | (rn & 0x7)) & 0x7 == rn) && (((((ef & 0x1) << 7) | ((sd & 0x1) << 6) | ((nr
        & 0x7) << 3) | (rn & 0x7)) >> 3) & 0x7 == nr) && (((((ef & 0x1) << 7) | ((sd & 0x1) << 6)
        | ((nr & 0x7) << 3) | (rn & 0x7)) >> 6) & 0x1 == sd) && (((((ef & 0x1) << 7) | ((sd & 0x1)
        << 6) | ((nr & 0x7) << 3) | (rn & 0x7)) >> 7) & 0x1 == ef)) by (bit_vector);
}

/// The four little-endian bytes of a 32-bit value read back as the value.
pub proof fn lemma_u32_le_round_trip(v: u32)
    ensures
        spec_u32_from_le(
            spec_u32_byte(v, 0),
            spec_u32_byte(v, 1),
            spec_u32_byte(v, 2),
            spec_u32_byte(v, 3),
        ) == v,
{
    assert(((((v >> 0) & 0xff) as u8) as u32) | (((((v >> 8) & 0xff) as u8) as u32) << 8) | (((((v
        >> 16) & 0xff) as u8) as u32) << 16) | (((((v >> 24) & 0xff) as u8) as u32) << 24)
        == v) by (bit_vector);
}

/// The two little-endian bytes of a 16-bit value read back as the value.
pub proof fn lemma_u16_le_round_trip(v: u16)
    ensures
        spec_u16_from_le(spec_u16_lo(v), spec_u16_hi(v)) == v,
{
    assert((((v & 0xff) as u8) as u16) | (((((v >> 8) & 0xff) as u8) as u16) << 8) == v)
        by (bit_vector);
}

/// The 16-bit value read from two little-endian bytes.
fn u16_from_le(b0: u8, b1: u8) -> (r: u16)
    ensures
        r == spec_u16_from_le(b0, b1),
{
    (b0 as u16) | ((b1 as u16) << 8u16)
}

/// The 32-bit signed value read from four little-endian bytes.
fn i32_from_le(b0: u8, b1: u8, b2: u8, b3: u8) -> (r: i32)
    ensures
        r == spec_u32_from_le(b0, b1, b2, b3) as i32,
{
    let v: u32 = (b0 as u32) | ((b1 as u32) << 8u32) | ((b2 as u32) << 16u32) | ((b3 as u32)
        << 24u32);
    #[verifier::truncate] (v as i32)
}

/// The two's-complement bits of a 32-bit signed value.
fn i32_to_u32(v: i32) -> (r: u32)
    ensures
        r == v as u32,
{
    #[verifier::truncate] (v as u32)
}

/// Byte `i` (0 = least significant) of a 32-bit value.
fn u32_byte(v: u32, i: u32) -> (r: u8)
    requires
        i < 4,
    ensures
        r == spec_u32_byte(v, i),
{
    #[verifier::truncate] (((v >> (8u32 * i)) & 0xff) as u8)
}

/// The low byte of a 16-bit value.
fn u16_lo(v: u16) -> (r: u8)
    ensures
        r == spec_u16_lo(v),
{
    #[verifier::truncate] ((v & 0xff) as u8)
}

/// The high byte of a 16-bit value.
fn u16_hi(v: u16) -> (r: u8)
    ensures
        r == spec_u16_hi(v),
{
    #[verifier::truncate] (((v >> 8u16) & 0xff) as u8)
}

/// The signed byte with the same bits as `b`.
fn i8_from_byte(b: u8) -> (r: i8)
    ensures
        r == b as i8,
{
    #[verifier::truncate] (b as i8)
}

/// The unsigned byte with the same bits as `v`.
fn i8_to_byte(v: i8) -> (r: u8)
    ensures
        r == v as u8,
{
    #[verifier::truncate] (v as u8)
}

} // verus!
