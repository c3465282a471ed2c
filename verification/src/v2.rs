//! The version 2 Point10 codec: the change bitmap comes first on the
//! wire (its intensity and packed-byte flag bits are swapped against
//! version 1), the coordinate predictors are streaming medians and a
//! height table keyed by return-geometry buckets, and the intensity is
//! tracked per bucket rather than per point.
//!
//! Wire order per point after the first: the 6-bit change bitmap, each
//! changed field, then the x residual, the y residual (context from
//! dx's `k`), and the absolute z (context from the averaged `k`).  On
//! decode the packed byte is reconstructed first so the buckets `m`
//! and `l` come from the new return geometry.

use vstd::prelude::*;
use vstd::pervasive::VecAdditionalExecFns;
use crate::compressors::IntegerCompressor;
use crate::compressors::IntegerCompressorBuilder;
use crate::compressors::spec_c1;
use crate::compressors::spec_corrector_coded;
use crate::compressors::spec_k_bits;
use crate::compressors::spec_wrapped_corr;
use crate::encoders::Coded;
use crate::utils::spec_median_add_high;
use crate::utils::spec_median_add_values;
use crate::utils::spec_number_return_level;
use crate::utils::spec_wrap32;
use crate::decoders::ArithmeticDecoder;
use crate::decompressors::IntegerDecompressor;
use crate::decompressors::IntegerDecompressorBuilder;
use crate::encoders::ArithmeticEncoder;
use crate::models::ArithmeticModel;
use crate::models::ArithmeticModelBuilder;
use crate::point0::POINT0_SIZE;
use crate::point0::Point0;
use crate::utils::StreamingMedian;
use crate::utils::i32_wrapping_diff;
use crate::utils::i32_wrapping_sum;
use crate::utils::number_return_level;
use crate::utils::number_return_map;
use crate::utils::spec_number_return_map;
use crate::utils::u32_zero_bit;

verus! {

/// The version 2 change bitmap: bit 5 the packed byte, bit 4 the
/// intensity (against its bucket, not the last point), bit 3
/// classification, bit 2 scan angle rank, bit 1 user data, bit 0
/// point source id; always below 64.
pub open spec fn spec_changed_values_v2(current: Point0, last: Point0, last_intensity: u16) -> int {
    (if last.return_number != current.return_number || last.number_of_returns_of_given_pulse
        != current.number_of_returns_of_given_pulse || last.scan_direction_flag
        != current.scan_direction_flag || last.edge_of_flight_line != current.edge_of_flight_line {
        32int
    } else {
        0int
    }) + (if last_intensity != current.intensity {
        16int
    } else {
        0int
    }) + (if last.classification != current.classification {
        8int
    } else {
        0int
    }) + (if last.scan_angle_rank != current.scan_angle_rank {
        4int
    } else {
        0int
    }) + (if last.user_data != current.user_data {
        2int
    } else {
        0int
    }) + (if last.point_source_id != current.point_source_id {
        1int
    } else {
        0int
    })
}

/// How flag bits place a six-term sum: each test of the packed value
/// reads off exactly one term.
proof fn lemma_changed_value_bits(v: i32, b5: i32, b4: i32, b3: i32, b2: i32, b1: i32, b0: i32)
    requires
        0 <= b5 <= 1,
        0 <= b4 <= 1,
        0 <= b3 <= 1,
        0 <= b2 <= 1,
        0 <= b1 <= 1,
        0 <= b0 <= 1,
        v == 32 * b5 + 16 * b4 + 8 * b3 + 4 * b2 + 2 * b1 + b0,
    ensures
        (v & 32 != 0) == (b5 == 1),
        (v & 16 != 0) == (b4 == 1),
        (v & 8 != 0) == (b3 == 1),
        (v & 4 != 0) == (b2 == 1),
        (v & 2 != 0) == (b1 == 1),
        (v & 1 != 0) == (b0 == 1),
{
    assert((0 <= b5 && b5 <= 1 && 0 <= b4 && b4 <= 1 && 0 <= b3 && b3 <= 1 && 0 <= b2 && b2 <= 1
        && 0 <= b1 && b1 <= 1 && 0 <= b0 && b0 <= 1 && v == 32 * b5 + 16 * b4 + 8 * b3 + 4 * b2 + 2
        * b1 + b0) ==> (((v & 32 != 0) == (b5 == 1)) && ((v & 16 != 0) == (b4 == 1)) && ((v & 8
        != 0) == (b3 == 1)) && ((v & 4 != 0) == (b2 == 1)) && ((v & 2 != 0) == (b1 == 1)) && ((v
        & 1 != 0) == (b0 == 1)))) by (bit_vector);
}

/// The change bitmap of one point against the codec state.  Only valid
/// for version 2: compared to version 1, the flag bits of the
/// intensity and of the packed byte are swapped, the packed byte is
/// compared sub-field by sub-field, and the intensity is compared
/// against its return-geometry bucket.
pub struct Point10ChangedValues {
    pub value: i32,
}

impl Point10ChangedValues {
    /// Computes the bitmap for `current` against the previous point
    /// and the bucket's last intensity.
    pub fn from_points(current: &Point0, last: &Point0, last_intensity: u16) -> (r:
        Point10ChangedValues)
        ensures
            r.value as int == spec_changed_values_v2(*current, *last, last_intensity),
            0 <= r.value < 64,
    {
        let b5: i32 = if (last.return_number != current.return_number) || (
        last.number_of_returns_of_given_pulse != current.number_of_returns_of_given_pulse) || (
        last.scan_direction_flag != current.scan_direction_flag) || (last.edge_of_flight_line
            != current.edge_of_flight_line) {
            1
        } else {
            0
        };
        let b4: i32 = if last_intensity != current.intensity {
            1
        } else {
            0
        };
        let b3: i32 = if last.classification != current.classification {
            1
        } else {
            0
        };
        let b2: i32 = if last.scan_angle_rank != current.scan_angle_rank {
            1
        } else {
            0
        };
        let b1: i32 = if last.user_data != current.user_data {
            1
        } else {
            0
        };
        let b0: i32 = if last.point_source_id != current.point_source_id {
            1
        } else {
            0
        };
        Point10ChangedValues { value: 32 * b5 + 16 * b4 + 8 * b3 + 4 * b2 + 2 * b1 + b0 }
    }

    /// Bit 5: some sub-field of the packed byte differs.
    pub fn bit_fields_changed(&self) -> (r: bool)
        ensures
            r == ((self.value & 32) != 0),
    {
        (self.value & 32) != 0
    }

    /// Bit 4: the intensity differs from its bucket's last value.
    pub fn intensity_changed(&self) -> (r: bool)
        ensures
            r == ((self.value & 16) != 0),
    {
        (self.value & 16) != 0
    }

    /// Bit 3: the classification byte differs.
    pub fn classification_changed(&self) -> (r: bool)
        ensures
            r == ((self.value & 8) != 0),
    {
        (self.value & 8) != 0
    }

    /// Bit 2: the scan angle rank differs.
    pub fn scan_angle_rank_changed(&self) -> (r: bool)
        ensures
            r == ((self.value & 4) != 0),
    {
        (self.value & 4) != 0
    }

    /// Bit 1: the user data byte differs.
    pub fn user_data_changed(&self) -> (r: bool)
        ensures
            r == ((self.value & 2) != 0),
    {
        (self.value & 2) != 0
    }

    /// Bit 0: the point source id differs.
    pub fn point_source_id_changed(&self) -> (r: bool)
        ensures
            r == ((self.value & 1) != 0),
    {
        (self.value & 1) != 0
    }
}

/// The symbol coded for a changed scan angle rank: the difference as a
/// wrap-around unsigned byte.
pub fn scan_angle_rank_symbol(current: i8, last: i8) -> (r: u8)
    ensures
        r as int == (current - last) % 256,
{
    let d: i32 = current as i32 - last as i32;
    proof {
        if d >= 0 {
            vstd::arithmetic::div_mod::lemma_small_mod(d as nat, 256);
        } else {
            vstd::arithmetic::div_mod::lemma_mod_add_multiples_vanish(d as int, 256);
            vstd::arithmetic::div_mod::lemma_small_mod((d + 256) as nat, 256);
        }
    }
    if d >= 0 {
        d as u8
    } else {
        (d + 256) as u8
    }
}

/// The bucket the current point's intensity is tracked in.
pub open spec fn spec_m_v2(p: Point0) -> int {
    spec_number_return_map(
        p.number_of_returns_of_given_pulse as int,
        p.return_number as int,
    )
}

/// The height level the current point's z is tracked in.
pub open spec fn spec_l_v2(p: Point0) -> int {
    spec_number_return_level(
        p.number_of_returns_of_given_pulse as int,
        p.return_number as int,
    )
}

/// The intensity the change bitmap and the intensity coder predict
/// from: the current bucket's last value.
pub open spec fn spec_last_int_v2(s: LasPoint0Compressor, p: Point0) -> u16 {
    s.common.last_intensity@[spec_m_v2(p)]
}

/// The corrector the x residual is coded with: the residual against
/// the bucket's streaming median, over the full 32-bit range.
pub open spec fn spec_corr_x_v2(s: LasPoint0Compressor, p: Point0) -> int {
    spec_wrapped_corr(
        s.common.last_x_diff_median@[spec_m_v2(p)].values@[2] as int,
        spec_wrap32(p.x - s.last_point.x),
        0,
        i32::MIN as int,
        i32::MAX as int,
    )
}

/// The corrector the y residual is coded with.
pub open spec fn spec_corr_y_v2(s: LasPoint0Compressor, p: Point0) -> int {
    spec_wrapped_corr(
        s.common.last_y_diff_median@[spec_m_v2(p)].values@[2] as int,
        spec_wrap32(p.y - s.last_point.y),
        0,
        i32::MIN as int,
        i32::MAX as int,
    )
}

/// The corrector the absolute z is coded with: against the level's
/// last height.
pub open spec fn spec_corr_z_v2(s: LasPoint0Compressor, p: Point0) -> int {
    spec_wrapped_corr(
        s.common.last_height@[spec_l_v2(p)] as int,
        p.z as int,
        0,
        i32::MIN as int,
        i32::MAX as int,
    )
}

/// The width of the x corrector: it drives the y and z contexts.
pub open spec fn spec_k_x_v2(s: LasPoint0Compressor, p: Point0) -> int {
    spec_k_bits(spec_c1(spec_corr_x_v2(s, p)))
}

/// The width of the y corrector.
pub open spec fn spec_k_y_v2(s: LasPoint0Compressor, p: Point0) -> int {
    spec_k_bits(spec_c1(spec_corr_y_v2(s, p)))
}

/// The width of the z corrector.
pub open spec fn spec_k_z_v2(s: LasPoint0Compressor, p: Point0) -> int {
    spec_k_bits(spec_c1(spec_corr_z_v2(s, p)))
}

/// The y coder's context: one for single-return pulses, plus dx's
/// corrector width with its lowest bit cleared, capped at 20.
pub open spec fn spec_dy_context_v2(n: u8, kx: int) -> u32 {
    ((if n == 1 {
        1int
    } else {
        0int
    }) + (if kx < 20 {
        ((kx as u32) & 0xfffffffeu32) as int
    } else {
        20int
    })) as u32
}

/// The z coder's context: like the y context, capped at 18, from the
/// averaged corrector width.
pub open spec fn spec_z_context_v2(n: u8, kavg: int) -> u32 {
    ((if n == 1 {
        1int
    } else {
        0int
    }) + (if kavg < 18 {
        ((kavg as u32) & 0xfffffffeu32) as int
    } else {
        18int
    })) as u32
}

/// Everything one point adds to a version 2 stream, in wire order:
/// the change bitmap first, then each changed field, then the x, y
/// and z correctors under the point's return-geometry buckets.
pub open spec fn spec_coded_v2(s: LasPoint0Compressor, p: Point0) -> Seq<Coded> {
    seq![
        Coded::Symbol(spec_changed_values_v2(p, s.last_point, spec_last_int_v2(s, p)) as u32),
    ] + spec_coded_fields_a_v2(s.last_point, p, spec_last_int_v2(s, p)) + spec_coded_fields_b_v2(
        s.last_point,
        p,
    ) + spec_corrector_coded(spec_corr_x_v2(s, p), 32) + spec_corrector_coded(
        spec_corr_y_v2(s, p),
        32,
    ) + spec_corrector_coded(spec_corr_z_v2(s, p), 32)
}

/// The entries of the first three fields: the packed byte, the
/// intensity against its bucket, classification.
pub open spec fn spec_coded_fields_a_v2(last: Point0, p: Point0, last_int: u16) -> Seq<Coded> {
    (if last.return_number != p.return_number || last.number_of_returns_of_given_pulse
        != p.number_of_returns_of_given_pulse || last.scan_direction_flag != p.scan_direction_flag
        || last.edge_of_flight_line != p.edge_of_flight_line {
        seq![Coded::Symbol(p.spec_bit_fields() as u32)]
    } else {
        Seq::<Coded>::empty()
    }) + (if last_int != p.intensity {
        spec_corrector_coded(
            spec_wrapped_corr(last_int as int, p.intensity as int, 65536, -32768, 32767),
            16,
        )
    } else {
        Seq::<Coded>::empty()
    }) + (if last.classification != p.classification {
        seq![Coded::Symbol(p.classification as u32)]
    } else {
        Seq::<Coded>::empty()
    })
}

/// The entries of the last three fields: scan angle rank as a
/// wrap-around byte symbol, user data, point source id.
pub open spec fn spec_coded_fields_b_v2(last: Point0, p: Point0) -> Seq<Coded> {
    (if last.scan_angle_rank != p.scan_angle_rank {
        seq![
            Coded::Symbol((((p.scan_angle_rank - last.scan_angle_rank) % 256)) as u32),
        ]
    } else {
        Seq::<Coded>::empty()
    }) + (if last.user_data != p.user_data {
        seq![Coded::Symbol(p.user_data as u32)]
    } else {
        Seq::<Coded>::empty()
    }) + (if last.point_source_id != p.point_source_id {
        spec_corrector_coded(
            spec_wrapped_corr(
                last.point_source_id as int,
                p.point_source_id as int,
                65536,
                -32768,
                32767,
            ),
            16,
        )
    } else {
        Seq::<Coded>::empty()
    })
}

/// State shared by the version 2 compressor and decompressor: the
/// per-bucket intensity and coordinate-median tables, the per-level
/// height table, and the eagerly allocated field models.
pub struct Common {
    pub last_intensity: [u16; 16],
    pub last_x_diff_median: Vec<StreamingMedian>,
    pub last_y_diff_median: Vec<StreamingMedian>,
    pub last_height: [i32; 8],
    pub changed_values: ArithmeticModel,
    pub scan_angle_rank: Vec<ArithmeticModel>,
    pub bit_byte: Vec<ArithmeticModel>,
    pub classification: Vec<ArithmeticModel>,
    pub user_data: Vec<ArithmeticModel>,
}

/// Every model of a table is in shape with a 256-symbol alphabet.
pub open spec fn models_wf(models: Seq<ArithmeticModel>, len: int) -> bool {
    &&& models.len() == len
    &&& forall|i: int|
        0 <= i < len ==> (#[trigger] models[i]).wf() && models[i].symbols == 256
}

impl Common {
    /// The tables have their fixed sizes and every model is in shape.
    pub open spec fn wf(self) -> bool {
        &&& self.last_x_diff_median@.len() == 16
        &&& self.last_y_diff_median@.len() == 16
        &&& self.changed_values.wf() && self.changed_values.symbols == 64
        &&& models_wf(self.scan_angle_rank@, 2)
        &&& models_wf(self.bit_byte@, 256)
        &&& models_wf(self.classification@, 256)
        &&& models_wf(self.user_data@, 256)
    }

    /// Fresh shared state: all-zero tables, zero median windows, and
    /// every model in its start state.
    pub fn new() -> (r: Common)
        ensures
            r.wf(),
            r.last_intensity@ =~= Seq::new(16, |i: int| 0u16),
            r.last_height@ =~= Seq::new(8, |i: int| 0i32),
            forall|i: int|
                0 <= i < 16 ==> (#[trigger] r.last_x_diff_median@[i]).values@ =~= seq![
                    0i32,
                    0i32,
                    0i32,
                    0i32,
                    0i32,
                ] && r.last_x_diff_median@[i].high,
            forall|i: int|
                0 <= i < 16 ==> (#[trigger] r.last_y_diff_median@[i]).values@ =~= seq![
                    0i32,
                    0i32,
                    0i32,
                    0i32,
                    0i32,
                ] && r.last_y_diff_median@[i].high,
    {
        Common {
            last_intensity: [0, 0, 0, 0, 0, 0, 0, 0, 0, 0, 0, 0, 0, 0, 0, 0],
            last_x_diff_median: median_table(),
            last_y_diff_median: median_table(),
            last_height: [0, 0, 0, 0, 0, 0, 0, 0],
            changed_values: ArithmeticModelBuilder::new(64).build(),
            scan_angle_rank: model_table(2),
            bit_byte: model_table(256),
            classification: model_table(256),
            user_data: model_table(256),
        }
    }
}

/// A table of `len` freshly initialized 256-symbol models.
fn model_table(len: usize) -> (r: Vec<ArithmeticModel>)
    ensures
        models_wf(r@, len as int),
{
    let mut v: Vec<ArithmeticModel> = Vec::new();
    let mut i: usize = 0;
    while i < len
        invariant
            i <= len,
            v@.len() == i,
            forall|j: int| 0 <= j < i ==> (#[trigger] v@[j]).wf() && v@[j].symbols == 256,
        decreases len - i,
    {
        v.push(ArithmeticModelBuilder::new(256).build());
        i += 1;
    }
    v
}

/// A table of 16 zeroed streaming-median windows.
fn median_table() -> (r: Vec<StreamingMedian>)
    ensures
        r@.len() == 16,
        forall|i: int|
            0 <= i < 16 ==> (#[trigger] r@[i]).values@ =~= seq![0i32, 0i32, 0i32, 0i32, 0i32]
                && r@[i].high,
{
    let mut v: Vec<StreamingMedian> = Vec::new();
    let mut i: usize = 0;
    while i < 16
        invariant
            i <= 16,
            v@.len() == i,
            forall|j: int|
                0 <= j < i ==> (#[trigger] v@[j]).values@ =~= seq![0i32, 0i32, 0i32, 0i32, 0i32]
                    && v@[j].high,
        decreases 16 - i,
    {
        v.push(StreamingMedian::new());
        i += 1;
    }
    v
}

/// The version 2 per-point compressor.
pub struct LasPoint0Compressor {
    pub last_point: Point0,
    pub ic_intensity: IntegerCompressor,
    pub ic_point_source_id: IntegerCompressor,
    pub ic_dx: IntegerCompressor,
    pub ic_dy: IntegerCompressor,
    pub ic_z: IntegerCompressor,
    pub common: Common,
}

impl LasPoint0Compressor {
    /// The coders carry their version 2 widths and context counts,
    /// the shared state is in shape, and the last point's packed
    /// sub-fields are in range.
    pub open spec fn wf(self) -> bool {
        &&& self.last_point.wf()
        &&& self.ic_intensity.wf() && self.ic_intensity.bits == 16 && self.ic_intensity.contexts
            == 4
        &&& self.ic_point_source_id.wf() && self.ic_point_source_id.bits == 16
            && self.ic_point_source_id.contexts == 1
        &&& self.ic_dx.wf() && self.ic_dx.bits == 32 && self.ic_dx.contexts == 2
        &&& self.ic_dy.wf() && self.ic_dy.bits == 32 && self.ic_dy.contexts == 22
        &&& self.ic_z.wf() && self.ic_z.bits == 32 && self.ic_z.contexts == 20
        &&& self.common.wf()
    }

    /// A fresh compressor with zeroed state.
    pub fn new() -> (r: LasPoint0Compressor)
        ensures
            r.wf(),
            r.last_point == Point0::default_spec(),
            forall|i: int| 0 <= i < 16 ==> r.common.last_intensity@[i] == 0,
            forall|i: int| 0 <= i < 8 ==> r.common.last_height@[i] == 0,
            forall|i: int|
                0 <= i < 16 ==> (#[trigger] r.common.last_x_diff_median@[i]).values@ =~= seq![
                    0i32,
                    0i32,
                    0i32,
                    0i32,
                    0i32,
                ] && r.common.last_x_diff_median@[i].high,
            forall|i: int|
                0 <= i < 16 ==> (#[trigger] r.common.last_y_diff_median@[i]).values@ =~= seq![
                    0i32,
                    0i32,
                    0i32,
                    0i32,
                    0i32,
                ] && r.common.last_y_diff_median@[i].high,
    {
        LasPoint0Compressor {
            last_point: Point0::default(),
            ic_intensity: IntegerCompressorBuilder::new().bits(16).contexts(4).build_initialized(),
            ic_point_source_id: IntegerCompressorBuilder::new().bits(16).build_initialized(),
            ic_dx: IntegerCompressorBuilder::new().bits(32).contexts(2).build_initialized(),
            ic_dy: IntegerCompressorBuilder::new().bits(32).contexts(22).build_initialized(),
            ic_z: IntegerCompressorBuilder::new().bits(32).contexts(20).build_initialized(),
            common: Common::new(),
        }
    }

    /// Writes the raw first point to `dst` (exactly its 20 wire bytes,
    /// no coder symbols) and seeds the codec state with it.
    pub fn init_first_point(&mut self, dst: &mut Vec<u8>, first_point: &Point0)
        requires
            old(self).wf(),
            first_point.wf(),
        ensures
            final(self).wf(),
            final(dst)@ == old(dst)@ + first_point.spec_bytes(),
            final(self).last_point == *first_point,
    {
        first_point.write_to(dst);
        self.last_point = *first_point;
    }

    /// Unpacks the raw first point from `buf` and writes it to `dst`.
    pub fn compress_first(&mut self, dst: &mut Vec<u8>, buf: &[u8])
        requires
            old(self).wf(),
            buf@.len() >= 20,
        ensures
            final(self).wf(),
            final(self).last_point == crate::point0::spec_point_from_bytes(buf@),
            final(dst)@ == old(dst)@ + crate::point0::spec_point_from_bytes(buf@).spec_bytes(),
    {
        let current: Point0 = Point0::unpack_from(buf);
        self.init_first_point(dst, &current);
    }

    /// Encodes one point against the codec state: the change bitmap
    /// first, then each changed field, then x, y and z under their
    /// return-geometry buckets.
    #[verifier::rlimit(100)]
    #[verifier::spinoff_prover]
    pub fn compress_field_with(&mut self, encoder: &mut ArithmeticEncoder, current_point: &Point0)
        requires
            old(self).wf(),
            old(encoder).wf(),
            current_point.wf(),
        ensures
            final(self).wf(),
            final(encoder).wf(),
            final(self).last_point == *current_point,
            final(self).common.last_intensity@ =~= old(self).common.last_intensity@.update(
                spec_m_v2(*current_point),
                current_point.intensity,
            ),
            final(encoder).coded@ == old(encoder).coded@ + spec_coded_v2(
                *old(self),
                *current_point,
            ),
            final(self).ic_dx.k == spec_k_x_v2(*old(self), *current_point),
            final(self).ic_dy.k == spec_k_y_v2(*old(self), *current_point),
            final(self).ic_z.k == spec_k_z_v2(*old(self), *current_point),
            final(self).ic_dx.context_log@ == old(self).ic_dx.context_log@.push(
                if current_point.number_of_returns_of_given_pulse == 1 {
                    1u32
                } else {
                    0u32
                },
            ),
            final(self).ic_dy.context_log@ == old(self).ic_dy.context_log@.push(
                spec_dy_context_v2(
                    current_point.number_of_returns_of_given_pulse,
                    spec_k_x_v2(*old(self), *current_point),
                ),
            ),
            final(self).ic_z.context_log@ == old(self).ic_z.context_log@.push(
                spec_z_context_v2(
                    current_point.number_of_returns_of_given_pulse,
                    (spec_k_x_v2(*old(self), *current_point) + spec_k_y_v2(
                        *old(self),
                        *current_point,
                    )) / 2,
                ),
            ),
            final(self).ic_intensity.context_log@ == (if spec_last_int_v2(
                *old(self),
                *current_point,
            ) != current_point.intensity {
                old(self).ic_intensity.context_log@.push(
                    (if spec_m_v2(*current_point) < 3 {
                        spec_m_v2(*current_point)
                    } else {
                        3
                    }) as u32,
                )
            } else {
                old(self).ic_intensity.context_log@
            }),
            final(self).ic_point_source_id.context_log@ == (if old(self).last_point.point_source_id
                != current_point.point_source_id {
                old(self).ic_point_source_id.context_log@.push(0)
            } else {
                old(self).ic_point_source_id.context_log@
            }),
            final(self).common.last_height@ =~= old(self).common.last_height@.update(
                spec_l_v2(*current_point),
                current_point.z,
            ),
            final(self).common.last_x_diff_median@.len() == 16,
            final(self).common.last_y_diff_median@.len() == 16,
            forall|i: int|
                0 <= i < 16 && i != spec_m_v2(*current_point) ==> final(self).common.last_x_diff_median@[i] == old(self).common.last_x_diff_median@[i]
                    && final(self).common.last_y_diff_median@[i] == old(self).common.last_y_diff_median@[i],
            final(self).common.last_x_diff_median@[spec_m_v2(*current_point)].values@
                == spec_median_add_values(
                old(self).common.last_x_diff_median@[spec_m_v2(*current_point)].values@,
                old(self).common.last_x_diff_median@[spec_m_v2(*current_point)].high,
                spec_wrap32(current_point.x - old(self).last_point.x) as i32,
            ),
            final(self).common.last_y_diff_median@[spec_m_v2(*current_point)].values@
                == spec_median_add_values(
                old(self).common.last_y_diff_median@[spec_m_v2(*current_point)].values@,
                old(self).common.last_y_diff_median@[spec_m_v2(*current_point)].high,
                spec_wrap32(current_point.y - old(self).last_point.y) as i32,
            ),
    {
        let ghost t0 = encoder.coded@;
        proof {
            vstd::arithmetic::power2::lemma2_to64();
        }
        let r: u8 = current_point.return_number;
        let n: u8 = current_point.number_of_returns_of_given_pulse;
        let m: u8 = number_return_map(n, r);
        let l: u8 = number_return_level(n, r);
        let last_int: u16 = self.common.last_intensity[m as usize];
        let changed_values: Point10ChangedValues = Point10ChangedValues::from_points(
            current_point,
            &self.last_point,
            last_int,
        );
        proof {
            lemma_changed_value_bits(
                changed_values.value,
                if old(self).last_point.return_number != current_point.return_number || old(self).last_point.number_of_returns_of_given_pulse
                    != current_point.number_of_returns_of_given_pulse || old(self).last_point.scan_direction_flag != current_point.scan_direction_flag || old(self).last_point.edge_of_flight_line != current_point.edge_of_flight_line {
                    1
                } else {
                    0
                },
                if last_int != current_point.intensity {
                    1
                } else {
                    0
                },
                if old(self).last_point.classification != current_point.classification {
                    1
                } else {
                    0
                },
                if old(self).last_point.scan_angle_rank != current_point.scan_angle_rank {
                    1
                } else {
                    0
                },
                if old(self).last_point.user_data != current_point.user_data {
                    1
                } else {
                    0
                },
                if old(self).last_point.point_source_id != current_point.point_source_id {
                    1
                } else {
                    0
                },
            );
        }
        // the change bitmap leads the wire so the decoder can rebuild
        // the packed byte before deriving its buckets
        encoder.encode_symbol(&mut self.common.changed_values, changed_values.value as u32);
        self.compress_changed_fields_a(encoder, current_point, &changed_values, m, last_int);
        self.compress_changed_fields_b(encoder, current_point, &changed_values);
        proof {
            assert(encoder.coded@ =~= t0 + (seq![
                Coded::Symbol(
                    spec_changed_values_v2(
                        *current_point,
                        old(self).last_point,
                        spec_last_int_v2(*old(self), *current_point),
                    ) as u32,
                ),
            ] + spec_coded_fields_a_v2(
                old(self).last_point,
                *current_point,
                spec_last_int_v2(*old(self), *current_point),
            ) + spec_coded_fields_b_v2(old(self).last_point, *current_point)));
        }
        // x under the bucket's median predictor
        let mut sm: StreamingMedian = StreamingMedian::new();
        self.common.last_x_diff_median.set_and_swap(m as usize, &mut sm);
        let median: i32 = sm.get();
        let diff: i32 = i32_wrapping_diff(current_point.x, self.last_point.x);
        self.ic_dx.compress(
            encoder,
            median,
            diff,
            if n == 1 {
                1
            } else {
                0
            },
        );
        sm.add(diff);
        self.common.last_x_diff_median.set_and_swap(m as usize, &mut sm);
        proof {
            assert(self.common.last_x_diff_median@ =~= old(self).common.last_x_diff_median@.update(
                m as int,
                self.common.last_x_diff_median@[m as int],
            ));
            assert(encoder.coded@ =~= t0 + (seq![
                Coded::Symbol(
                    spec_changed_values_v2(
                        *current_point,
                        old(self).last_point,
                        spec_last_int_v2(*old(self), *current_point),
                    ) as u32,
                ),
            ] + spec_coded_fields_a_v2(
                old(self).last_point,
                *current_point,
                spec_last_int_v2(*old(self), *current_point),
            ) + spec_coded_fields_b_v2(old(self).last_point, *current_point)
                + spec_corrector_coded(spec_corr_x_v2(*old(self), *current_point), 32)));
        }
        // y: dx's corrector width switches the context
        let k_bits: u32 = self.ic_dx.k();
        let mut sm: StreamingMedian = StreamingMedian::new();
        self.common.last_y_diff_median.set_and_swap(m as usize, &mut sm);
        let median: i32 = sm.get();
        let diff: i32 = i32_wrapping_diff(current_point.y, self.last_point.y);
        let context: u32 = (if n == 1 {
            1u32
        } else {
            0u32
        }) + (if k_bits < 20 {
            u32_zero_bit(k_bits)
        } else {
            20
        });
        self.ic_dy.compress(encoder, median, diff, context);
        sm.add(diff);
        self.common.last_y_diff_median.set_and_swap(m as usize, &mut sm);
        proof {
            assert(self.common.last_y_diff_median@ =~= old(self).common.last_y_diff_median@.update(
                m as int,
                self.common.last_y_diff_median@[m as int],
            ));
        }
        // z against the level's last height, context from the average
        let k_bits: u32 = (self.ic_dx.k() + self.ic_dy.k()) / 2;
        let context: u32 = (if n == 1 {
            1u32
        } else {
            0u32
        }) + (if k_bits < 18 {
            u32_zero_bit(k_bits)
        } else {
            18
        });
        self.ic_z.compress(encoder, self.common.last_height[l as usize], current_point.z, context);
        self.common.last_height[l as usize] = current_point.z;
        proof {
            assert(encoder.coded@ =~= t0 + spec_coded_v2(*old(self), *current_point));
            assert(self.common.last_intensity@ =~= old(self).common.last_intensity@.update(
                spec_m_v2(*current_point),
                current_point.intensity,
            ));
            assert(self.common.last_height@ =~= old(self).common.last_height@.update(
                spec_l_v2(*current_point),
                current_point.z,
            ));
        }
        self.last_point = *current_point;
    }


    /// Encodes the first three changed fields named by the bitmap:
    /// the packed byte, the intensity against its bucket,
    /// classification.  Coordinate state and coders are untouched.
    #[verifier::rlimit(100)]
    #[verifier::spinoff_prover]
    fn compress_changed_fields_a(
        &mut self,
        encoder: &mut ArithmeticEncoder,
        current_point: &Point0,
        changed_values: &Point10ChangedValues,
        m: u8,
        last_int: u16,
    )
        requires
            old(self).wf(),
            old(encoder).wf(),
            m < 16,
            m as int == spec_m_v2(*current_point),
            last_int == old(self).common.last_intensity@[m as int],
            changed_values.value as int == spec_changed_values_v2(
                *current_point,
                old(self).last_point,
                last_int,
            ),
        ensures
            final(self).wf(),
            final(encoder).wf(),
            final(encoder).coded@ == old(encoder).coded@ + spec_coded_fields_a_v2(
                old(self).last_point,
                *current_point,
                last_int,
            ),
            final(self).last_point == old(self).last_point,
            final(self).ic_dx == old(self).ic_dx,
            final(self).ic_dy == old(self).ic_dy,
            final(self).ic_z == old(self).ic_z,
            final(self).ic_point_source_id == old(self).ic_point_source_id,
            final(self).common.last_x_diff_median@ == old(self).common.last_x_diff_median@,
            final(self).common.last_y_diff_median@ == old(self).common.last_y_diff_median@,
            final(self).common.last_height@ == old(self).common.last_height@,
            final(self).common.last_intensity@ =~= old(self).common.last_intensity@.update(
                m as int,
                current_point.intensity,
            ),
            final(self).ic_intensity.context_log@ == (if last_int != current_point.intensity {
                old(self).ic_intensity.context_log@.push(
                    if m < 3 {
                        m as u32
                    } else {
                        3u32
                    },
                )
            } else {
                old(self).ic_intensity.context_log@
            }),
    {
        let ghost t0 = encoder.coded@;
        let ghost mut acc = Seq::<Coded>::empty();
        proof {
            vstd::arithmetic::power2::lemma2_to64();
            lemma_changed_value_bits(
                changed_values.value,
                if old(self).last_point.return_number != current_point.return_number || old(self).last_point.number_of_returns_of_given_pulse
                    != current_point.number_of_returns_of_given_pulse || old(self).last_point.scan_direction_flag != current_point.scan_direction_flag || old(self).last_point.edge_of_flight_line != current_point.edge_of_flight_line {
                    1
                } else {
                    0
                },
                if last_int != current_point.intensity {
                    1
                } else {
                    0
                },
                if old(self).last_point.classification != current_point.classification {
                    1
                } else {
                    0
                },
                if old(self).last_point.scan_angle_rank != current_point.scan_angle_rank {
                    1
                } else {
                    0
                },
                if old(self).last_point.user_data != current_point.user_data {
                    1
                } else {
                    0
                },
                if old(self).last_point.point_source_id != current_point.point_source_id {
                    1
                } else {
                    0
                },
            );
        }
        if changed_values.bit_fields_changed() {
            let idx: usize = self.last_point.bit_fields_to_byte() as usize;
            let mut mdl: ArithmeticModel = ArithmeticModelBuilder::new(2).build();
            self.common.bit_byte.set_and_swap(idx, &mut mdl);
            encoder.encode_symbol(&mut mdl, current_point.bit_fields_to_byte() as u32);
            self.common.bit_byte.set_and_swap(idx, &mut mdl);
            proof {
                assert(self.common.bit_byte@ =~= old(self).common.bit_byte@.update(
                    idx as int,
                    self.common.bit_byte@[idx as int],
                ));
            }
        }
        proof {
            acc = acc + (if old(self).last_point.return_number != current_point.return_number
                || old(self).last_point.number_of_returns_of_given_pulse
                != current_point.number_of_returns_of_given_pulse
                || old(self).last_point.scan_direction_flag != current_point.scan_direction_flag
                || old(self).last_point.edge_of_flight_line != current_point.edge_of_flight_line {
                seq![Coded::Symbol(current_point.spec_bit_fields() as u32)]
            } else {
                Seq::<Coded>::empty()
            });
            assert(encoder.coded@ =~= t0 + acc);
        }
        if changed_values.intensity_changed() {
            self.ic_intensity.compress(
                encoder,
                last_int as i32,
                current_point.intensity as i32,
                if m < 3 {
                    m as u32
                } else {
                    3
                },
            );
            self.common.last_intensity[m as usize] = current_point.intensity;
        }
        proof {
            acc = acc + (if last_int != current_point.intensity {
                spec_corrector_coded(
                    spec_wrapped_corr(
                        last_int as int,
                        current_point.intensity as int,
                        65536,
                        -32768,
                        32767,
                    ),
                    16,
                )
            } else {
                Seq::<Coded>::empty()
            });
            assert(encoder.coded@ =~= t0 + acc);
        }
        if changed_values.classification_changed() {
            let idx: usize = self.last_point.classification as usize;
            let mut mdl: ArithmeticModel = ArithmeticModelBuilder::new(2).build();
            self.common.classification.set_and_swap(idx, &mut mdl);
            encoder.encode_symbol(&mut mdl, current_point.classification as u32);
            self.common.classification.set_and_swap(idx, &mut mdl);
            proof {
                assert(self.common.classification@ =~= old(self).common.classification@.update(
                    idx as int,
                    self.common.classification@[idx as int],
                ));
            }
        }
        proof {
            acc = acc + (if old(self).last_point.classification != current_point.classification {
                seq![Coded::Symbol(current_point.classification as u32)]
            } else {
                Seq::<Coded>::empty()
            });
            assert(encoder.coded@ =~= t0 + acc);
        }
        proof {
            assert(acc =~= spec_coded_fields_a_v2(
                old(self).last_point,
                *current_point,
                last_int,
            ));
        }
    }

    /// Encodes the last three changed fields named by the bitmap:
    /// scan angle rank as a wrap-around byte symbol, user data, point
    /// source id.  Coordinate state and coders are untouched.
    #[verifier::rlimit(100)]
    #[verifier::spinoff_prover]
    fn compress_changed_fields_b(
        &mut self,
        encoder: &mut ArithmeticEncoder,
        current_point: &Point0,
        changed_values: &Point10ChangedValues,
    )
        requires
            old(self).wf(),
            old(encoder).wf(),
            exists|li: u16|
                changed_values.value as int == spec_changed_values_v2(
                    *current_point,
                    old(self).last_point,
                    li,
                ),
        ensures
            final(self).wf(),
            final(encoder).wf(),
            final(encoder).coded@ == old(encoder).coded@ + spec_coded_fields_b_v2(
                old(self).last_point,
                *current_point,
            ),
            final(self).last_point == old(self).last_point,
            final(self).ic_dx == old(self).ic_dx,
            final(self).ic_dy == old(self).ic_dy,
            final(self).ic_z == old(self).ic_z,
            final(self).ic_intensity == old(self).ic_intensity,
            final(self).common.last_x_diff_median@ == old(self).common.last_x_diff_median@,
            final(self).common.last_y_diff_median@ == old(self).common.last_y_diff_median@,
            final(self).common.last_height@ == old(self).common.last_height@,
            final(self).common.last_intensity@ == old(self).common.last_intensity@,
            final(self).ic_point_source_id.context_log@ == (if old(self).last_point.point_source_id
                != current_point.point_source_id {
                old(self).ic_point_source_id.context_log@.push(0)
            } else {
                old(self).ic_point_source_id.context_log@
            }),
    {
        let ghost t0 = encoder.coded@;
        let ghost mut acc = Seq::<Coded>::empty();
        proof {
            vstd::arithmetic::power2::lemma2_to64();
            let li = choose|li: u16|
                changed_values.value as int == spec_changed_values_v2(
                    *current_point,
                    old(self).last_point,
                    li,
                );
            lemma_changed_value_bits(
                changed_values.value,
                if old(self).last_point.return_number != current_point.return_number || old(self).last_point.number_of_returns_of_given_pulse
                    != current_point.number_of_returns_of_given_pulse || old(self).last_point.scan_direction_flag != current_point.scan_direction_flag || old(self).last_point.edge_of_flight_line != current_point.edge_of_flight_line {
                    1
                } else {
                    0
                },
                if li != current_point.intensity {
                    1
                } else {
                    0
                },
                if old(self).last_point.classification != current_point.classification {
                    1
                } else {
                    0
                },
                if old(self).last_point.scan_angle_rank != current_point.scan_angle_rank {
                    1
                } else {
                    0
                },
                if old(self).last_point.user_data != current_point.user_data {
                    1
                } else {
                    0
                },
                if old(self).last_point.point_source_id != current_point.point_source_id {
                    1
                } else {
                    0
                },
            );
        }
        if changed_values.scan_angle_rank_changed() {
            let idx: usize = if current_point.scan_direction_flag {
                1
            } else {
                0
            };
            let sym: u8 = scan_angle_rank_symbol(
                current_point.scan_angle_rank,
                self.last_point.scan_angle_rank,
            );
            let mut mdl: ArithmeticModel = ArithmeticModelBuilder::new(2).build();
            self.common.scan_angle_rank.set_and_swap(idx, &mut mdl);
            encoder.encode_symbol(&mut mdl, sym as u32);
            self.common.scan_angle_rank.set_and_swap(idx, &mut mdl);
            proof {
                assert(self.common.scan_angle_rank@ =~= old(self).common.scan_angle_rank@.update(
                    idx as int,
                    self.common.scan_angle_rank@[idx as int],
                ));
            }
        }
        proof {
            acc = acc + (if old(self).last_point.scan_angle_rank != current_point.scan_angle_rank {
                seq![
                    Coded::Symbol(
                        (((current_point.scan_angle_rank - old(self).last_point.scan_angle_rank)
                            % 256)) as u32,
                    ),
                ]
            } else {
                Seq::<Coded>::empty()
            });
            assert(encoder.coded@ =~= t0 + acc);
        }
        if changed_values.user_data_changed() {
            let idx: usize = self.last_point.user_data as usize;
            let mut mdl: ArithmeticModel = ArithmeticModelBuilder::new(2).build();
            self.common.user_data.set_and_swap(idx, &mut mdl);
            encoder.encode_symbol(&mut mdl, current_point.user_data as u32);
            self.common.user_data.set_and_swap(idx, &mut mdl);
            proof {
                assert(self.common.user_data@ =~= old(self).common.user_data@.update(
                    idx as int,
                    self.common.user_data@[idx as int],
                ));
            }
        }
        proof {
            acc = acc + (if old(self).last_point.user_data != current_point.user_data {
                seq![Coded::Symbol(current_point.user_data as u32)]
            } else {
                Seq::<Coded>::empty()
            });
            assert(encoder.coded@ =~= t0 + acc);
        }
        if changed_values.point_source_id_changed() {
            self.ic_point_source_id.compress(
                encoder,
                self.last_point.point_source_id as i32,
                current_point.point_source_id as i32,
                0,
            );
        }
        proof {
            acc = acc + (if old(self).last_point.point_source_id
                != current_point.point_source_id {
                spec_corrector_coded(
                    spec_wrapped_corr(
                        old(self).last_point.point_source_id as int,
                        current_point.point_source_id as int,
                        65536,
                        -32768,
                        32767,
                    ),
                    16,
                )
            } else {
                Seq::<Coded>::empty()
            });
            assert(encoder.coded@ =~= t0 + acc);
        }
        proof {
            assert(acc =~= spec_coded_fields_b_v2(old(self).last_point, *current_point));
        }
    }

    /// Unpacks one point from `buf` and encodes it.
    pub fn compress_with(&mut self, encoder: &mut ArithmeticEncoder, buf: &[u8])
        requires
            old(self).wf(),
            old(encoder).wf(),
            buf@.len() >= 20,
        ensures
            final(self).wf(),
            final(encoder).wf(),
            final(self).last_point == crate::point0::spec_point_from_bytes(buf@),
    {
        let current: Point0 = Point0::unpack_from(buf);
        self.compress_field_with(encoder, &current);
    }

    /// The raw first point's size on the wire.
    pub fn size_of_field(&self) -> (r: usize)
        ensures
            r == POINT0_SIZE,
    {
        POINT0_SIZE
    }
}

/// The version 2 per-point decompressor.
pub struct LasPoint0Decompressor {
    pub last_point: Point0,
    pub ic_intensity: IntegerDecompressor,
    pub ic_point_source_id: IntegerDecompressor,
    pub ic_dx: IntegerDecompressor,
    pub ic_dy: IntegerDecompressor,
    pub ic_z: IntegerDecompressor,
    pub common: Common,
}

impl LasPoint0Decompressor {
    /// Besides the coders' shapes: the last point's intensity always
    /// equals its own bucket's entry, because unchanged intensities
    /// are copied out of the bucket table.
    pub open spec fn wf(self) -> bool {
        &&& self.last_point.wf()
        &&& self.ic_intensity.wf() && self.ic_intensity.bits == 16 && self.ic_intensity.contexts
            == 4
        &&& self.ic_point_source_id.wf() && self.ic_point_source_id.bits == 16
            && self.ic_point_source_id.contexts == 1
        &&& self.ic_dx.wf() && self.ic_dx.bits == 32 && self.ic_dx.contexts == 2
        &&& self.ic_dy.wf() && self.ic_dy.bits == 32 && self.ic_dy.contexts == 22
        &&& self.ic_z.wf() && self.ic_z.bits == 32 && self.ic_z.contexts == 20
        &&& self.common.wf()
        &&& self.last_point.intensity == self.common.last_intensity@[spec_number_return_map(
            self.last_point.number_of_returns_of_given_pulse as int,
            self.last_point.return_number as int,
        )]
    }

    /// A fresh decompressor with zeroed state.
    pub fn new() -> (r: LasPoint0Decompressor)
        ensures
            r.wf(),
            r.last_point == Point0::default_spec(),
            forall|i: int| 0 <= i < 16 ==> r.common.last_intensity@[i] == 0,
            forall|i: int| 0 <= i < 8 ==> r.common.last_height@[i] == 0,
            forall|i: int|
                0 <= i < 16 ==> (#[trigger] r.common.last_x_diff_median@[i]).values@ =~= seq![
                    0i32,
                    0i32,
                    0i32,
                    0i32,
                    0i32,
                ] && r.common.last_x_diff_median@[i].high,
            forall|i: int|
                0 <= i < 16 ==> (#[trigger] r.common.last_y_diff_median@[i]).values@ =~= seq![
                    0i32,
                    0i32,
                    0i32,
                    0i32,
                    0i32,
                ] && r.common.last_y_diff_median@[i].high,
    {
        let r = LasPoint0Decompressor {
            last_point: Point0::default(),
            ic_intensity: IntegerDecompressorBuilder::new().bits(16).contexts(
                4,
            ).build_initialized(),
            ic_point_source_id: IntegerDecompressorBuilder::new().bits(16).build_initialized(),
            ic_dx: IntegerDecompressorBuilder::new().bits(32).contexts(2).build_initialized(),
            ic_dy: IntegerDecompressorBuilder::new().bits(32).contexts(22).build_initialized(),
            ic_z: IntegerDecompressorBuilder::new().bits(32).contexts(20).build_initialized(),
            common: Common::new(),
        };
        r
    }

    /// Reads the raw first point from the front of `src` and seeds the
    /// codec state with it.  The stored intensity is forced to zero:
    /// version 2 tracks intensity per bucket.
    pub fn init_first_point(&mut self, src: &[u8]) -> (first_point: Point0)
        requires
            old(self).wf(),
            src@.len() >= 20,
            forall|i: int| 0 <= i < 16 ==> old(self).common.last_intensity@[i] == 0,
        ensures
            final(self).wf(),
            first_point == crate::point0::spec_point_from_bytes(src@),
            final(self).last_point == (Point0 { intensity: 0u16, ..first_point }),
    {
        let first_point: Point0 = Point0::unpack_from(src);
        self.last_point = first_point;
        // but set intensity to 0
        self.last_point.intensity = 0;
        first_point
    }

    /// Reads the raw first point; the stream is at its start.
    pub fn decompress_first(&mut self, src: &[u8]) -> (first_point: Point0)
        requires
            old(self).wf(),
            src@.len() >= 20,
            forall|i: int| 0 <= i < 16 ==> old(self).common.last_intensity@[i] == 0,
        ensures
            final(self).wf(),
            first_point == crate::point0::spec_point_from_bytes(src@),
            final(self).last_point == (Point0 { intensity: 0u16, ..first_point }),
    {
        self.init_first_point(src)
    }


    /// Decodes the changed classification, scan angle rank, user data
    /// and point source id named by the bitmap.  Coordinates, the
    /// packed sub-fields, the intensity and every bucket table are
    /// untouched.
    #[verifier::rlimit(100)]
    #[verifier::spinoff_prover]
    fn decompress_changed_fields(
        &mut self,
        decoder: &mut ArithmeticDecoder,
        changed_value: u32,
    )
        requires
            old(self).wf(),
            old(decoder).wf(),
        ensures
            final(self).wf(),
            final(decoder).wf(),
            final(decoder).coded@.len() >= old(decoder).coded@.len(),
            final(decoder).coded@.subrange(0, old(decoder).coded@.len() as int) == old(decoder).coded@,
            forall|j: int|
                0 <= j < old(decoder).coded@.len() ==> final(decoder).coded@[j] == old(
                    decoder,
                ).coded@[j],
            final(self).last_point.x == old(self).last_point.x,
            final(self).last_point.y == old(self).last_point.y,
            final(self).last_point.z == old(self).last_point.z,
            final(self).last_point.intensity == old(self).last_point.intensity,
            final(self).last_point.return_number == old(self).last_point.return_number,
            final(self).last_point.number_of_returns_of_given_pulse == old(self).last_point.number_of_returns_of_given_pulse,
            final(self).last_point.scan_direction_flag == old(self).last_point.scan_direction_flag,
            final(self).last_point.edge_of_flight_line == old(self).last_point.edge_of_flight_line,
            final(self).common.last_intensity@ == old(self).common.last_intensity@,
            final(self).common.last_x_diff_median@ == old(self).common.last_x_diff_median@,
            final(self).common.last_y_diff_median@ == old(self).common.last_y_diff_median@,
            final(self).common.last_height@ == old(self).common.last_height@,
            final(self).ic_dx == old(self).ic_dx,
            final(self).ic_dy == old(self).ic_dy,
            final(self).ic_z == old(self).ic_z,
            final(self).ic_intensity == old(self).ic_intensity,
            (changed_value & 8) == 0 ==> final(self).last_point.classification == old(self).last_point.classification,
            (changed_value & 4) == 0 ==> final(self).last_point.scan_angle_rank == old(self).last_point.scan_angle_rank,
            (changed_value & 2) == 0 ==> final(self).last_point.user_data == old(self).last_point.user_data,
            (changed_value & 1) == 0 ==> final(self).last_point.point_source_id == old(self).last_point.point_source_id,
    {
        let ghost oldlen = old(decoder).coded@.len() as int;
        proof {
            vstd::arithmetic::power2::lemma2_to64();
        }
        if (changed_value & 8) != 0 {
            let idx: usize = self.last_point.classification as usize;
            let mut mdl: ArithmeticModel = ArithmeticModelBuilder::new(2).build();
            self.common.classification.set_and_swap(idx, &mut mdl);
            let sym: u32 = decoder.decode_symbol(&mut mdl);
            self.common.classification.set_and_swap(idx, &mut mdl);
            proof {
                assert(self.common.classification@ =~= old(self).common.classification@.update(
                    idx as int,
                    self.common.classification@[idx as int],
                ));
            }
            self.last_point.classification = sym as u8;
        }
        proof {
            assert(decoder.coded@.subrange(0, oldlen) =~= old(decoder).coded@);
        }
        if (changed_value & 4) != 0 {
            let idx: usize = if self.last_point.scan_direction_flag {
                1
            } else {
                0
            };
            let mut mdl: ArithmeticModel = ArithmeticModelBuilder::new(2).build();
            self.common.scan_angle_rank.set_and_swap(idx, &mut mdl);
            let sym: u32 = decoder.decode_symbol(&mut mdl);
            self.common.scan_angle_rank.set_and_swap(idx, &mut mdl);
            proof {
                assert(self.common.scan_angle_rank@ =~= old(self).common.scan_angle_rank@.update(
                    idx as int,
                    self.common.scan_angle_rank@[idx as int],
                ));
            }
            let s: u8 = (sym as u8).wrapping_add(
                #[verifier::truncate] (self.last_point.scan_angle_rank as u8),
            );
            self.last_point.scan_angle_rank = #[verifier::truncate] (s as i8);
        }
        proof {
            assert(decoder.coded@.subrange(0, oldlen) =~= old(decoder).coded@);
        }
        if (changed_value & 2) != 0 {
            let idx: usize = self.last_point.user_data as usize;
            let mut mdl: ArithmeticModel = ArithmeticModelBuilder::new(2).build();
            self.common.user_data.set_and_swap(idx, &mut mdl);
            let sym: u32 = decoder.decode_symbol(&mut mdl);
            self.common.user_data.set_and_swap(idx, &mut mdl);
            proof {
                assert(self.common.user_data@ =~= old(self).common.user_data@.update(
                    idx as int,
                    self.common.user_data@[idx as int],
                ));
            }
            self.last_point.user_data = sym as u8;
        }
        proof {
            assert(decoder.coded@.subrange(0, oldlen) =~= old(decoder).coded@);
        }
        if (changed_value & 1) != 0 {
            let v: i32 = self.ic_point_source_id.decompress(
                decoder,
                self.last_point.point_source_id as i32,
                0,
            );
            self.last_point.point_source_id = #[verifier::truncate] (v as u16);
        }
        proof {
            assert(decoder.coded@.subrange(0, oldlen) =~= old(decoder).coded@);
            assert forall|j: int| 0 <= j < oldlen implies decoder.coded@[j] == old(
                decoder,
            ).coded@[j] by {
                assert(decoder.coded@.subrange(0, oldlen)[j] == decoder.coded@[j]);
            }
        }
    }

    /// Decodes one point: the change bitmap, then each changed field
    /// (the packed byte first, so the buckets come from the new return
    /// geometry), then x, y and z.  The decoded intensity always comes
    /// from its bucket: unchanged intensities are copied out of the
    /// bucket table no matter what the previous point carried.
    #[verifier::rlimit(100)]
    #[verifier::spinoff_prover]
    pub fn decompress_field_with(&mut self, decoder: &mut ArithmeticDecoder) -> (current: Point0)
        requires
            old(self).wf(),
            old(decoder).wf(),
        ensures
            final(self).wf(),
            final(decoder).wf(),
            current == final(self).last_point,
            final(self).last_point.intensity == final(self).common.last_intensity@[spec_m_v2(
                final(self).last_point,
            )],
            final(decoder).coded@.len() > old(decoder).coded@.len(),
            final(decoder).coded@.subrange(0, old(decoder).coded@.len() as int) == old(decoder).coded@,
            (final(decoder).coded@[old(decoder).coded@.len() as int] matches Coded::Symbol(cv)
                && cv < 64 && ((cv & 32) == 0 ==> final(self).last_point.return_number == old(self).last_point.return_number && final(self).last_point.number_of_returns_of_given_pulse
                == old(self).last_point.number_of_returns_of_given_pulse && final(self).last_point.scan_direction_flag == old(self).last_point.scan_direction_flag && final(self).last_point.edge_of_flight_line == old(self).last_point.edge_of_flight_line) && ((cv
                & 32) != 0 ==> final(decoder).coded@.len() > old(decoder).coded@.len() + 1 && (
            final(decoder).coded@[old(decoder).coded@.len() as int + 1] matches Coded::Symbol(b)
                && final(self).last_point.return_number == (b as u8) & 0x7 && final(self).last_point.number_of_returns_of_given_pulse == ((b as u8) >> 3) & 0x7 && final(self).last_point.scan_direction_flag == ((((b as u8) >> 6) & 0x1) != 0) && final(self).last_point.edge_of_flight_line == ((((b as u8) >> 7) & 0x1) != 0))) && ((cv & 16)
                == 0 ==> final(self).last_point.intensity == old(self).common.last_intensity@[
            spec_m_v2(final(self).last_point)] && final(self).common.last_intensity@ == old(self).common.last_intensity@) && ((cv & 16) != 0 ==> final(self).common.last_intensity@
                =~= old(self).common.last_intensity@.update(
                spec_m_v2(final(self).last_point),
                final(self).last_point.intensity,
            )) && ((cv & 8) == 0 ==> final(self).last_point.classification == old(self).last_point.classification) && ((cv & 4) == 0 ==> final(self).last_point.scan_angle_rank
                == old(self).last_point.scan_angle_rank) && ((cv & 2) == 0 ==> final(self).last_point.user_data == old(self).last_point.user_data) && ((cv & 1) == 0 ==> final(self).last_point.point_source_id == old(self).last_point.point_source_id)),
            final(self).common.last_height@ =~= old(self).common.last_height@.update(
                spec_l_v2(final(self).last_point),
                final(self).last_point.z,
            ),
            final(self).common.last_x_diff_median@.len() == 16,
            final(self).common.last_y_diff_median@.len() == 16,
            forall|i: int|
                0 <= i < 16 && i != spec_m_v2(final(self).last_point) ==> final(self).common.last_x_diff_median@[i] == old(self).common.last_x_diff_median@[i]
                    && final(self).common.last_y_diff_median@[i] == old(self).common.last_y_diff_median@[i],
            final(self).common.last_x_diff_median@[spec_m_v2(final(self).last_point)].values@
                == spec_median_add_values(
                old(self).common.last_x_diff_median@[spec_m_v2(final(self).last_point)].values@,
                old(self).common.last_x_diff_median@[spec_m_v2(final(self).last_point)].high,
                spec_wrap32(final(self).last_point.x - old(self).last_point.x) as i32,
            ),
            final(self).common.last_y_diff_median@[spec_m_v2(final(self).last_point)].values@
                == spec_median_add_values(
                old(self).common.last_y_diff_median@[spec_m_v2(final(self).last_point)].values@,
                old(self).common.last_y_diff_median@[spec_m_v2(final(self).last_point)].high,
                spec_wrap32(final(self).last_point.y - old(self).last_point.y) as i32,
            ),
    {
        let ghost oldlen = old(decoder).coded@.len() as int;
        let ghost mut bsym: u32 = 0;
        proof {
            vstd::arithmetic::power2::lemma2_to64();
        }
        let changed_value: u32 = decoder.decode_symbol(&mut self.common.changed_values);
        proof {
            assert(decoder.coded@.subrange(0, oldlen) =~= old(decoder).coded@);
            assert(decoder.coded@[oldlen] == Coded::Symbol(changed_value));
            let cvv = changed_value;
            assert(cvv == 0 ==> (cvv & 32) == 0 && (cvv & 16) == 0 && (cvv & 8) == 0 && (cvv & 4)
                == 0 && (cvv & 2) == 0 && (cvv & 1) == 0) by (bit_vector);
        }
        let r: u8;
        let n: u8;
        let m: u8;
        let l: u8;
        if changed_value != 0 {
            // some field other than x, y and z changed
            if (changed_value & 32) != 0 {
                let idx: usize = self.last_point.bit_fields_to_byte() as usize;
                let mut mdl: ArithmeticModel = ArithmeticModelBuilder::new(2).build();
                self.common.bit_byte.set_and_swap(idx, &mut mdl);
                let sym: u32 = decoder.decode_symbol(&mut mdl);
                self.common.bit_byte.set_and_swap(idx, &mut mdl);
                proof {
                    assert(self.common.bit_byte@ =~= old(self).common.bit_byte@.update(
                        idx as int,
                        self.common.bit_byte@[idx as int],
                    ));
                }
                self.last_point.populate_bit_fields_from(sym as u8);
                proof {
                    bsym = sym;
                    assert(decoder.coded@.subrange(0, oldlen) =~= old(decoder).coded@);
                    assert(decoder.coded@[oldlen] == Coded::Symbol(changed_value));
                    assert(decoder.coded@[oldlen + 1] == Coded::Symbol(bsym));
                }
            }
            r = self.last_point.return_number;
            n = self.last_point.number_of_returns_of_given_pulse;
            m = number_return_map(n, r);
            l = number_return_level(n, r);
            if (changed_value & 16) != 0 {
                let v: i32 = self.ic_intensity.decompress(
                    decoder,
                    self.common.last_intensity[m as usize] as i32,
                    if m < 3 {
                        m as u32
                    } else {
                        3
                    },
                );
                self.last_point.intensity = #[verifier::truncate] (v as u16);
                self.common.last_intensity[m as usize] = self.last_point.intensity;
            } else {
                self.last_point.intensity = self.common.last_intensity[m as usize];
            }
            proof {
                assert(decoder.coded@.subrange(0, oldlen) =~= old(decoder).coded@);
                assert(decoder.coded@[oldlen] == Coded::Symbol(changed_value));
                if (changed_value & 32) != 0 {
                    assert(decoder.coded@[oldlen + 1] == Coded::Symbol(bsym));
                }
            }
            self.decompress_changed_fields(decoder, changed_value);
            proof {
                assert(decoder.coded@.subrange(0, oldlen) =~= old(decoder).coded@);
                assert(decoder.coded@[oldlen] == Coded::Symbol(changed_value));
                if (changed_value & 32) != 0 {
                    assert(decoder.coded@[oldlen + 1] == Coded::Symbol(bsym));
                }
            }
        } else {
            r = self.last_point.return_number;
            n = self.last_point.number_of_returns_of_given_pulse;
            m = number_return_map(n, r);
            l = number_return_level(n, r);
        }
        // x under the bucket's median predictor
        let mut sm: StreamingMedian = StreamingMedian::new();
        self.common.last_x_diff_median.set_and_swap(m as usize, &mut sm);
        let median: i32 = sm.get();
        let diff: i32 = self.ic_dx.decompress(
            decoder,
            median,
            if n == 1 {
                1
            } else {
                0
            },
        );
        self.last_point.x = i32_wrapping_sum(self.last_point.x, diff);
        sm.add(diff);
        self.common.last_x_diff_median.set_and_swap(m as usize, &mut sm);
        proof {
            assert(decoder.coded@.subrange(0, oldlen) =~= old(decoder).coded@);
            assert(decoder.coded@[oldlen] == Coded::Symbol(changed_value));
            if (changed_value & 32) != 0 {
                assert(oldlen + 1 < decoder.coded@.len());
                assert(decoder.coded@[oldlen + 1] == Coded::Symbol(bsym));
            }
            assert(self.common.last_x_diff_median@ =~= old(self).common.last_x_diff_median@.update(
                m as int,
                self.common.last_x_diff_median@[m as int],
            ));
            assert(spec_wrap32(self.last_point.x - old(self).last_point.x) == diff as int);
        }
        // y: dx's corrector width switches the context
        let k_bits: u32 = self.ic_dx.k();
        let mut sm: StreamingMedian = StreamingMedian::new();
        self.common.last_y_diff_median.set_and_swap(m as usize, &mut sm);
        let median: i32 = sm.get();
        let context: u32 = (if n == 1 {
            1u32
        } else {
            0u32
        }) + (if k_bits < 20 {
            u32_zero_bit(k_bits)
        } else {
            20
        });
        let diff: i32 = self.ic_dy.decompress(decoder, median, context);
        self.last_point.y = i32_wrapping_sum(self.last_point.y, diff);
        sm.add(diff);
        self.common.last_y_diff_median.set_and_swap(m as usize, &mut sm);
        proof {
            assert(decoder.coded@.subrange(0, oldlen) =~= old(decoder).coded@);
            assert(decoder.coded@[oldlen] == Coded::Symbol(changed_value));
            if (changed_value & 32) != 0 {
                assert(decoder.coded@[oldlen + 1] == Coded::Symbol(bsym));
            }
            assert(self.common.last_y_diff_median@ =~= old(self).common.last_y_diff_median@.update(
                m as int,
                self.common.last_y_diff_median@[m as int],
            ));
            assert(spec_wrap32(self.last_point.y - old(self).last_point.y) == diff as int);
        }
        // z against the level's last height, context from the average
        let k_bits: u32 = (self.ic_dx.k() + self.ic_dy.k()) / 2;
        let context: u32 = (if n == 1 {
            1u32
        } else {
            0u32
        }) + (if k_bits < 18 {
            u32_zero_bit(k_bits)
        } else {
            18
        });
        self.last_point.z = self.ic_z.decompress(
            decoder,
            self.common.last_height[l as usize],
            context,
        );
        self.common.last_height[l as usize] = self.last_point.z;
        proof {
            assert(decoder.coded@.subrange(0, oldlen) =~= old(decoder).coded@);
            assert(decoder.coded@[oldlen] == Coded::Symbol(changed_value));
            if (changed_value & 32) != 0 {
                assert(decoder.coded@[oldlen + 1] == Coded::Symbol(bsym));
            }
            assert(self.common.last_height@ =~= old(self).common.last_height@.update(
                spec_l_v2(self.last_point),
                self.last_point.z,
            ));
        }
        self.last_point
    }

    /// The raw first point's size on the wire.
    pub fn size_of_field(&self) -> (r: usize)
        ensures
            r == POINT0_SIZE,
    {
        POINT0_SIZE
    }
}

} // verus!
