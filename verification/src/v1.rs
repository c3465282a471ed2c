//! The version 1 Point10 codec: a change bitmap over the non-coordinate
//! fields, a median-of-three predictor over the last three coordinate
//! residuals, and contexts derived from the residual coders' bit
//! counts.
//!
//! Wire order per point after the first: the x residual against the
//! median of the window, the y residual (context from dx's `k`), the
//! absolute z (context from the averaged `k`), the 6-bit change
//! bitmap, then each changed field.  The dependence of each context on
//! the previous coder's `k` is part of the wire format and must not be
//! reordered.

use vstd::prelude::*;
use vstd::pervasive::VecAdditionalExecFns;
use crate::compressors::DEFAULT_COMPRESS_CONTEXTS;
use crate::compressors::IntegerCompressor;
use crate::compressors::IntegerCompressorBuilder;
use crate::compressors::spec_c1;
use crate::compressors::spec_corrector_coded;
use crate::compressors::spec_k_bits;
use crate::compressors::spec_wrapped_corr;
use crate::encoders::Coded;
use crate::decoders::ArithmeticDecoder;
use crate::decompressors::DEFAULT_DECOMPRESS_CONTEXTS;
use crate::decompressors::IntegerDecompressor;
use crate::decompressors::IntegerDecompressorBuilder;
use crate::decompressors::lemma_corr_trace_extend;
use crate::decompressors::spec_corr_from_trace;
use crate::decompressors::spec_corrector_applied;
use crate::decompressors::spec_group_len;
use crate::encoders::ArithmeticEncoder;
use crate::models::ArithmeticModel;
use crate::models::ArithmeticModelBuilder;
use crate::point0::POINT0_SIZE;
use crate::point0::Point0;
use crate::utils::i32_wrapping_diff;
use crate::utils::i32_wrapping_sum;
use crate::utils::spec_wrap32;

verus! {

/// The middle of three values as the five-comparison decision tree
/// picks it; on ties, the first branch that reaches a middle value
/// wins.
pub open spec fn spec_median3(a: i32, b: i32, c: i32) -> i32 {
    if a < b {
        if b < c {
            b
        } else if a < c {
            c
        } else {
            a
        }
    } else {
        if a < c {
            a
        } else if b < c {
            c
        } else {
            b
        }
    }
}

/// For three distinct values the tree returns the one that is neither
/// the smallest nor the largest: the element at index 1 of a sorted
/// arrangement.
pub proof fn lemma_median3_is_middle(a: i32, b: i32, c: i32)
    requires
        a != b,
        b != c,
        a != c,
    ensures
        spec_median3(a, b, c) == a || spec_median3(a, b, c) == b || spec_median3(a, b, c) == c,
        spec_median3(a, b, c) > a || spec_median3(a, b, c) > b || spec_median3(a, b, c) > c,
        spec_median3(a, b, c) < a || spec_median3(a, b, c) < b || spec_median3(a, b, c) < c,
{
}

/// The median of the three preceding coordinate residuals.
pub fn median_diff(diff_array: &[i32; 3]) -> (r: i32)
    ensures
        r == spec_median3(diff_array@[0], diff_array@[1], diff_array@[2]),
{
    if diff_array[0] < diff_array[1] {
        if diff_array[1] < diff_array[2] {
            diff_array[1]
        } else if diff_array[0] < diff_array[2] {
            diff_array[2]
        } else {
            diff_array[0]
        }
    } else {
        if diff_array[0] < diff_array[2] {
            diff_array[0]
        } else if diff_array[1] < diff_array[2] {
            diff_array[2]
        } else {
            diff_array[1]
        }
    }
}

/// The version 1 change bitmap: bit 5 intensity, bit 4 the packed
/// byte, bit 3 classification, bit 2 scan angle rank, bit 1 user data,
/// bit 0 point source id; always below 64.
pub open spec fn spec_changed_values_v1(current: Point0, last: Point0) -> int {
    (if last.intensity != current.intensity {
        32int
    } else {
        0int
    }) + (if last.spec_bit_fields() != current.spec_bit_fields() {
        16int
    } else {
        0int
    }) + (if last.classification != current.classification {
        8int
    } else {
        0int
    }) + (if last.scan_angle_rank != current.scan_angle_rank {
        4int
    } else {
        0int
    }) + (if last.user_data != current.user_data {
        2int
    } else {
        0int
    }) + (if last.point_source_id != current.point_source_id {
        1int
    } else {
        0int
    })
}

/// The corrector the x residual is coded with: the residual against
/// the median of the window, over the full 32-bit range.
pub open spec fn spec_corr_x_v1(s: LasPoint0Compressor, p: Point0) -> int {
    spec_wrapped_corr(
        spec_median3(s.last_x_diffs@[0], s.last_x_diffs@[1], s.last_x_diffs@[2]) as int,
        spec_wrap32(p.x - s.last_point.x),
        0,
        i32::MIN as int,
        i32::MAX as int,
    )
}

/// The corrector the y residual is coded with.
pub open spec fn spec_corr_y_v1(s: LasPoint0Compressor, p: Point0) -> int {
    spec_wrapped_corr(
        spec_median3(s.last_y_diffs@[0], s.last_y_diffs@[1], s.last_y_diffs@[2]) as int,
        spec_wrap32(p.y - s.last_point.y),
        0,
        i32::MIN as int,
        i32::MAX as int,
    )
}

/// The corrector the absolute z is coded with: against the previous z.
pub open spec fn spec_corr_z_v1(s: LasPoint0Compressor, p: Point0) -> int {
    spec_wrapped_corr(s.last_point.z as int, p.z as int, 0, i32::MIN as int, i32::MAX as int)
}

/// The width of the x corrector: it drives the y and z contexts.
pub open spec fn spec_k_x_v1(s: LasPoint0Compressor, p: Point0) -> int {
    spec_k_bits(spec_c1(spec_corr_x_v1(s, p)))
}

/// The width of the y corrector.
pub open spec fn spec_k_y_v1(s: LasPoint0Compressor, p: Point0) -> int {
    spec_k_bits(spec_c1(spec_corr_y_v1(s, p)))
}

/// The width of the z corrector.
pub open spec fn spec_k_z_v1(s: LasPoint0Compressor, p: Point0) -> int {
    spec_k_bits(spec_c1(spec_corr_z_v1(s, p)))
}

/// Everything one point adds to a version 1 stream, in wire order:
/// the x, y and z correctors, the change bitmap, then each changed
/// field — the intensity and point source id as 16-bit correctors,
/// the packed byte, classification and user data as symbols on their
/// 256-symbol models, the scan angle rank as an 8-bit corrector.
pub open spec fn spec_coded_v1(s: LasPoint0Compressor, p: Point0) -> Seq<Coded> {
    let last = s.last_point;
    spec_corrector_coded(spec_corr_x_v1(s, p), 32) + spec_corrector_coded(
        spec_corr_y_v1(s, p),
        32,
    ) + spec_corrector_coded(spec_corr_z_v1(s, p), 32) + seq![
        Coded::Symbol(spec_changed_values_v1(p, last) as u32),
    ] + spec_coded_fields_v1(last, p)
}

/// The entries the changed non-coordinate fields contribute, in the
/// fixed field order.
pub open spec fn spec_coded_fields_v1(last: Point0, p: Point0) -> Seq<Coded> {
    spec_coded_fields_a_v1(last, p) + spec_coded_fields_b_v1(last, p)
}

/// The entries of the first three fields: intensity, packed byte,
/// classification.
pub open spec fn spec_coded_fields_a_v1(last: Point0, p: Point0) -> Seq<Coded> {
    (if last.intensity != p.intensity {
        spec_corrector_coded(
            spec_wrapped_corr(last.intensity as int, p.intensity as int, 65536, -32768, 32767),
            16,
        )
    } else {
        Seq::<Coded>::empty()
    }) + (if last.spec_bit_fields() != p.spec_bit_fields() {
        seq![Coded::Symbol(p.spec_bit_fields() as u32)]
    } else {
        Seq::<Coded>::empty()
    }) + (if last.classification != p.classification {
        seq![Coded::Symbol(p.classification as u32)]
    } else {
        Seq::<Coded>::empty()
    })
}

/// The entries of the last three fields: scan angle rank, user data,
/// point source id.
pub open spec fn spec_coded_fields_b_v1(last: Point0, p: Point0) -> Seq<Coded> {
    (if last.scan_angle_rank != p.scan_angle_rank {
        spec_corrector_coded(
            spec_wrapped_corr(last.scan_angle_rank as int, p.scan_angle_rank as int, 256, -128, 127),
            8,
        )
    } else {
        Seq::<Coded>::empty()
    }) + (if last.user_data != p.user_data {
        seq![Coded::Symbol(p.user_data as u32)]
    } else {
        Seq::<Coded>::empty()
    }) + (if last.point_source_id != p.point_source_id {
        spec_corrector_coded(
            spec_wrapped_corr(
                last.point_source_id as int,
                p.point_source_id as int,
                65536,
                -32768,
                32767,
            ),
            16,
        )
    } else {
        Seq::<Coded>::empty()
    })
}

/// How flag bits place the six-term bitmap sum: each mask test of the
/// packed value reads off exactly one term.
proof fn lemma_changed_bits_v1(v: u8, b5: u8, b4: u8, b3: u8, b2: u8, b1: u8, b0: u8)
    requires
        b5 <= 1,
        b4 <= 1,
        b3 <= 1,
        b2 <= 1,
        b1 <= 1,
        b0 <= 1,
        v == 32 * b5 + 16 * b4 + 8 * b3 + 4 * b2 + 2 * b1 + b0,
    ensures
        (v & 32 != 0) == (b5 == 1),
        (v & 16 != 0) == (b4 == 1),
        (v & 8 != 0) == (b3 == 1),
        (v & 4 != 0) == (b2 == 1),
        (v & 2 != 0) == (b1 == 1),
        (v & 1 != 0) == (b0 == 1),
        (v != 0) == (b5 == 1 || b4 == 1 || b3 == 1 || b2 == 1 || b1 == 1 || b0 == 1),
{
    assert((b5 <= 1 && b4 <= 1 && b3 <= 1 && b2 <= 1 && b1 <= 1 && b0 <= 1 && v == 32 * b5 + 16
        * b4 + 8 * b3 + 4 * b2 + 2 * b1 + b0) ==> (((v & 32 != 0) == (b5 == 1)) && ((v & 16 != 0)
        == (b4 == 1)) && ((v & 8 != 0) == (b3 == 1)) && ((v & 4 != 0) == (b2 == 1)) && ((v & 2
        != 0) == (b1 == 1)) && ((v & 1 != 0) == (b0 == 1)))) by (bit_vector);
}

/// Computes the version 1 change bitmap for `current` against `last`.
pub fn changed_values_v1(current: &Point0, last: &Point0) -> (r: u8)
    ensures
        r as int == spec_changed_values_v1(*current, *last),
        r < 64,
{
    let b5: u8 = if last.intensity != current.intensity {
        1
    } else {
        0
    };
    let b4: u8 = if last.bit_fields_to_byte() != current.bit_fields_to_byte() {
        1
    } else {
        0
    };
    let b3: u8 = if last.classification != current.classification {
        1
    } else {
        0
    };
    let b2: u8 = if last.scan_angle_rank != current.scan_angle_rank {
        1
    } else {
        0
    };
    let b1: u8 = if last.user_data != current.user_data {
        1
    } else {
        0
    };
    let b0: u8 = if last.point_source_id != current.point_source_id {
        1
    } else {
        0
    };
    proof {
        assert(b5 <= 1 && b4 <= 1 && b3 <= 1 && b2 <= 1 && b1 <= 1 && b0 <= 1 ==> ((b5 << 5) | (b4
            << 4) | (b3 << 3) | (b2 << 2) | (b1 << 1) | b0) == (32 * b5 + 16 * b4 + 8 * b3 + 4 * b2
            + 2 * b1 + b0)) by (bit_vector);
    }
    (b5 << 5) | (b4 << 4) | (b3 << 3) | (b2 << 2) | (b1 << 1) | b0
}

/// The version 1 per-point decompressor.
pub struct LasPoint0Decompressor {
    pub last_point: Point0,
    pub last_x_diffs: [i32; 3],
    pub last_y_diffs: [i32; 3],
    pub last_incr: usize,
    pub ic_dx: IntegerDecompressor,
    pub ic_dy: IntegerDecompressor,
    pub ic_dz: IntegerDecompressor,
    pub ic_intensity: IntegerDecompressor,
    pub ic_scan_angle_rank: IntegerDecompressor,
    pub ic_point_source_id: IntegerDecompressor,
    pub changed_values_model: ArithmeticModel,
    pub bit_byte_models: Vec<Option<ArithmeticModel>>,
    pub classification_models: Vec<Option<ArithmeticModel>>,
    pub user_data_models: Vec<Option<ArithmeticModel>>,
}

/// All lazily created 256-symbol models of a table are in shape.
pub open spec fn lazy_models_wf(models: Seq<Option<ArithmeticModel>>) -> bool {
    &&& models.len() == 256
    &&& forall|i: int|
        0 <= i < 256 ==> (#[trigger] models[i] matches Some(m) ==> m.wf() && m.symbols == 256)
}

impl LasPoint0Decompressor {
    /// The coders carry their version 1 widths and context counts and
    /// every model is in shape.
    pub open spec fn wf(self) -> bool {
        &&& self.last_incr < 3
        &&& self.ic_dx.wf() && self.ic_dx.bits == 32 && self.ic_dx.contexts == 1
        &&& self.ic_dy.wf() && self.ic_dy.bits == 32 && self.ic_dy.contexts == 20
        &&& self.ic_dz.wf() && self.ic_dz.bits == 32 && self.ic_dz.contexts == 20
        &&& self.ic_intensity.wf() && self.ic_intensity.bits == 16 && self.ic_intensity.contexts
            == 1
        &&& self.ic_scan_angle_rank.wf() && self.ic_scan_angle_rank.bits == 8
            && self.ic_scan_angle_rank.contexts == 2
        &&& self.ic_point_source_id.wf() && self.ic_point_source_id.bits == 16
            && self.ic_point_source_id.contexts == 1
        &&& self.changed_values_model.wf() && self.changed_values_model.symbols == 64
        &&& lazy_models_wf(self.bit_byte_models@)
        &&& lazy_models_wf(self.classification_models@)
        &&& lazy_models_wf(self.user_data_models@)
    }

    /// A fresh decompressor: zero state, residual windows cleared,
    /// every lazy model still unallocated.
    pub fn new() -> (r: LasPoint0Decompressor)
        ensures
            r.wf(),
            r.last_point == Point0::default_spec(),
            r.last_x_diffs@ =~= seq![0i32, 0i32, 0i32],
            r.last_y_diffs@ =~= seq![0i32, 0i32, 0i32],
            r.last_incr == 0,
            forall|i: int| 0 <= i < 256 ==> (#[trigger] r.bit_byte_models@[i]) is None,
            forall|i: int| 0 <= i < 256 ==> (#[trigger] r.classification_models@[i]) is None,
            forall|i: int| 0 <= i < 256 ==> (#[trigger] r.user_data_models@[i]) is None,
    {
        LasPoint0Decompressor {
            last_point: Point0::default(),
            last_x_diffs: [0, 0, 0],
            last_y_diffs: [0, 0, 0],
            last_incr: 0,
            ic_dx: IntegerDecompressorBuilder::new().bits(32).build_initialized(),
            ic_dy: IntegerDecompressorBuilder::new().bits(32).contexts(20).build_initialized(),
            ic_dz: IntegerDecompressorBuilder::new().bits(32).contexts(20).build_initialized(),
            ic_intensity: IntegerDecompressorBuilder::new().bits(16).build_initialized(),
            ic_scan_angle_rank: IntegerDecompressorBuilder::new().bits(
                8,
            ).contexts(2).build_initialized(),
            ic_point_source_id: IntegerDecompressorBuilder::new().bits(16).build_initialized(),
            changed_values_model: ArithmeticModelBuilder::new(64).build(),
            bit_byte_models: none_models(),
            classification_models: none_models(),
            user_data_models: none_models(),
        }
    }

    /// The median of the last three decoded x residuals.
    pub fn median_x_diff(&self) -> (r: i32)
        ensures
            r == spec_median3(self.last_x_diffs@[0], self.last_x_diffs@[1], self.last_x_diffs@[2]),
    {
        median_diff(&self.last_x_diffs)
    }

    /// The median of the last three decoded y residuals.
    pub fn median_y_diff(&self) -> (r: i32)
        ensures
            r == spec_median3(self.last_y_diffs@[0], self.last_y_diffs@[1], self.last_y_diffs@[2]),
    {
        median_diff(&self.last_y_diffs)
    }

    /// Reads the raw first point from the front of `src` and seeds the
    /// codec state with it.
    pub fn init_first_point(&mut self, src: &[u8]) -> (first_point: Point0)
        requires
            old(self).wf(),
            src@.len() >= 20,
        ensures
            final(self).wf(),
            first_point == crate::point0::spec_point_from_bytes(src@),
            final(self).last_point == first_point,
            final(self).last_x_diffs@ == old(self).last_x_diffs@,
            final(self).last_y_diffs@ == old(self).last_y_diffs@,
            final(self).last_incr == old(self).last_incr,
    {
        let first_point: Point0 = Point0::unpack_from(src);
        self.last_point = first_point;
        first_point
    }

    /// Reads the raw first point; the stream is at its start.
    pub fn decompress_first(&mut self, src: &[u8]) -> (first_point: Point0)
        requires
            old(self).wf(),
            src@.len() >= 20,
        ensures
            final(self).wf(),
            first_point == crate::point0::spec_point_from_bytes(src@),
            final(self).last_point == first_point,
    {
        self.init_first_point(src)
    }

    /// Decodes one point.  The decoded point becomes the new last
    /// point, its x and y residuals enter the windows, and the write
    /// index advances cyclically.
    #[verifier::rlimit(100)]
    pub fn decompress_field_with(&mut self, decoder: &mut ArithmeticDecoder) -> (current: Point0)
        requires
            old(self).wf(),
            old(decoder).wf(),
        ensures
            final(self).wf(),
            final(decoder).wf(),
            current == final(self).last_point,
            final(decoder).coded@.len() > old(decoder).coded@.len(),
            final(decoder).coded@.subrange(0, old(decoder).coded@.len() as int) == old(decoder).coded@,
            final(self).last_incr == (old(self).last_incr + 1) % 3,
            final(self).last_point.x as int == spec_wrap32(
                old(self).last_point.x + final(self).last_x_diffs@[old(self).last_incr as int],
            ),
            final(self).last_point.y as int == spec_wrap32(
                old(self).last_point.y + final(self).last_y_diffs@[old(self).last_incr as int],
            ),
            forall|i: int|
                0 <= i < 3 && i != old(self).last_incr ==> final(self).last_x_diffs@[i] == old(self).last_x_diffs@[i] && final(self).last_y_diffs@[i] == old(self).last_y_diffs@[i],
            ({
                let tail = final(decoder).coded@.skip(old(decoder).coded@.len() as int);
                let g1 = spec_group_len(tail);
                let g2 = spec_group_len(tail.skip(g1));
                let g3 = spec_group_len(tail.skip(g1 + g2));
                &&& final(self).last_point.x as int == spec_wrap32(
                    old(self).last_point.x + spec_corrector_applied(
                        spec_median3(
                            old(self).last_x_diffs@[0],
                            old(self).last_x_diffs@[1],
                            old(self).last_x_diffs@[2],
                        ) as int,
                        spec_corr_from_trace(tail, i32::MIN as int),
                        0,
                    ) as int,
                )
                &&& final(self).last_point.y as int == spec_wrap32(
                    old(self).last_point.y + spec_corrector_applied(
                        spec_median3(
                            old(self).last_y_diffs@[0],
                            old(self).last_y_diffs@[1],
                            old(self).last_y_diffs@[2],
                        ) as int,
                        spec_corr_from_trace(tail.skip(g1), i32::MIN as int),
                        0,
                    ) as int,
                )
                &&& final(self).last_point.z == spec_corrector_applied(
                    old(self).last_point.z as int,
                    spec_corr_from_trace(tail.skip(g1 + g2), i32::MIN as int),
                    0,
                )
                &&& tail.len() > g1 + g2 + g3
                &&& (tail[g1 + g2 + g3] matches Coded::Symbol(cv) && cv < 64 && ((cv & 32) == 0
                    ==> final(self).last_point.intensity == old(self).last_point.intensity) && ((
                cv & 16) == 0 ==> final(self).last_point.return_number == old(self).last_point.return_number && final(self).last_point.number_of_returns_of_given_pulse
                    == old(self).last_point.number_of_returns_of_given_pulse && final(self).last_point.scan_direction_flag == old(self).last_point.scan_direction_flag
                    && final(self).last_point.edge_of_flight_line == old(self).last_point.edge_of_flight_line) && ((cv & 8) == 0 ==> final(self).last_point.classification == old(self).last_point.classification) && ((cv & 4)
                    == 0 ==> final(self).last_point.scan_angle_rank == old(self).last_point.scan_angle_rank) && ((cv & 2) == 0 ==> final(self).last_point.user_data
                    == old(self).last_point.user_data) && ((cv & 1) == 0 ==> final(self).last_point.point_source_id == old(self).last_point.point_source_id))
            }),
    {
        // x, y, z come first on the wire
        let ghost oldlen = old(decoder).coded@.len() as int;
        proof {
            vstd::arithmetic::power2::lemma2_to64();
        }
        let median_x: i32 = self.median_x_diff();
        let median_y: i32 = self.median_y_diff();
        let x_diff: i32 = self.ic_dx.decompress(decoder, median_x, DEFAULT_DECOMPRESS_CONTEXTS);
        let ghost gx = decoder.coded@.skip(oldlen);
        proof {
            assert(decoder.coded@.subrange(0, oldlen) =~= old(decoder).coded@);
            assert(gx.len() == spec_group_len(gx));
        }
        self.last_point.x = i32_wrapping_sum(self.last_point.x, x_diff);
        // dx's corrector width switches dy's context
        let k_bits: u32 = self.ic_dx.k();
        let y_diff: i32 = self.ic_dy.decompress(
            decoder,
            median_y,
            if k_bits < 19 {
                k_bits
            } else {
                19
            },
        );
        let ghost gy = decoder.coded@.skip(oldlen + gx.len() as int);
        proof {
            assert(decoder.coded@.subrange(0, oldlen) =~= old(decoder).coded@);
            assert(gy.len() == spec_group_len(gy));
        }
        self.last_point.y = i32_wrapping_sum(self.last_point.y, y_diff);
        let k_bits: u32 = (k_bits + self.ic_dy.k()) / 2;
        self.last_point.z = self.ic_dz.decompress(
            decoder,
            self.last_point.z,
            if k_bits < 19 {
                k_bits
            } else {
                19
            },
        );
        let ghost gz = decoder.coded@.skip(oldlen + gx.len() as int + gy.len() as int);
        proof {
            assert(decoder.coded@.subrange(0, oldlen) =~= old(decoder).coded@);
            assert(gz.len() == spec_group_len(gz));
        }
        let changed_value: u32 = decoder.decode_symbol(&mut self.changed_values_model);
        proof {
            assert(decoder.coded@.subrange(0, oldlen) =~= old(decoder).coded@);
            assert(decoder.coded@[oldlen + gx.len() + gy.len() + gz.len()] == Coded::Symbol(
                changed_value,
            ));
            let cvv = changed_value;
            assert(cvv == 0 ==> (cvv & 32) == 0 && (cvv & 16) == 0 && (cvv & 8) == 0 && (cvv & 4)
                == 0 && (cvv & 2) == 0 && (cvv & 1) == 0) by (bit_vector);
        }
        if changed_value != 0 {
            self.decompress_changed_fields_a(decoder, changed_value);
            self.decompress_changed_fields_b(decoder, changed_value, k_bits);
        }
        // record the residuals in the three-slot window
        self.last_x_diffs[self.last_incr] = x_diff;
        self.last_y_diffs[self.last_incr] = y_diff;
        self.last_incr = self.last_incr + 1;
        if self.last_incr > 2 {
            self.last_incr = 0;
        }
        proof {
            assert(decoder.coded@.subrange(0, oldlen) =~= old(decoder).coded@);
            let tail = decoder.coded@.skip(oldlen);
            let rest1 = decoder.coded@.skip(oldlen + gx.len() as int);
            let rest2 = decoder.coded@.skip(oldlen + gx.len() as int + gy.len() as int);
            assert(tail =~= gx + rest1);
            lemma_corr_trace_extend(gx, rest1, i32::MIN as int);
            assert(rest1 =~= gy + rest2);
            lemma_corr_trace_extend(gy, rest2, i32::MIN as int);
            let rest3 = decoder.coded@.skip(
                oldlen + gx.len() as int + gy.len() as int + gz.len() as int,
            );
            assert(rest2 =~= gz + rest3);
            lemma_corr_trace_extend(gz, rest3, i32::MIN as int);
            let g1v = spec_group_len(tail);
            assert(g1v == gx.len());
            assert(tail.skip(g1v) =~= rest1);
            let g2v = spec_group_len(tail.skip(g1v));
            assert(g2v == gy.len());
            assert(tail.skip(g1v + g2v) =~= rest2);
            assert(spec_group_len(tail.skip(g1v + g2v)) == gz.len());
            assert(decoder.coded@[oldlen + gx.len() + gy.len() + gz.len()] == Coded::Symbol(
                changed_value,
            ));
            assert(tail[g1v + g2v + gz.len()] == decoder.coded@[oldlen + gx.len() + gy.len()
                + gz.len()]);
            assert(tail.len() > g1v + g2v + gz.len());
        }
        self.last_point
    }


    /// Decodes the first three changed fields named by the bitmap:
    /// intensity, the packed byte, classification.  The coordinates,
    /// the residual windows and the coordinate coders are untouched.
    #[verifier::rlimit(100)]
    #[verifier::spinoff_prover]
    fn decompress_changed_fields_a(&mut self, decoder: &mut ArithmeticDecoder, changed_value: u32)
        requires
            old(self).wf(),
            old(decoder).wf(),
        ensures
            final(self).wf(),
            final(decoder).wf(),
            final(decoder).coded@.len() >= old(decoder).coded@.len(),
            final(decoder).coded@.subrange(0, old(decoder).coded@.len() as int) == old(decoder).coded@,
            forall|j: int|
                0 <= j < old(decoder).coded@.len() ==> final(decoder).coded@[j] == old(decoder).coded@[j],
            final(self).last_point.x == old(self).last_point.x,
            final(self).last_point.y == old(self).last_point.y,
            final(self).last_point.z == old(self).last_point.z,
            final(self).last_x_diffs@ == old(self).last_x_diffs@,
            final(self).last_y_diffs@ == old(self).last_y_diffs@,
            final(self).last_incr == old(self).last_incr,
            final(self).ic_dx == old(self).ic_dx,
            final(self).ic_dy == old(self).ic_dy,
            final(self).ic_dz == old(self).ic_dz,
            final(self).last_point.scan_angle_rank == old(self).last_point.scan_angle_rank,
            final(self).last_point.user_data == old(self).last_point.user_data,
            final(self).last_point.point_source_id == old(self).last_point.point_source_id,
            (changed_value & 32) == 0 ==> final(self).last_point.intensity == old(self).last_point.intensity,
            (changed_value & 16) == 0 ==> final(self).last_point.return_number == old(self).last_point.return_number
                && final(self).last_point.number_of_returns_of_given_pulse
                == old(self).last_point.number_of_returns_of_given_pulse
                && final(self).last_point.scan_direction_flag == old(self).last_point.scan_direction_flag
                && final(self).last_point.edge_of_flight_line == old(self).last_point.edge_of_flight_line,
            (changed_value & 8) == 0 ==> final(self).last_point.classification == old(self).last_point.classification,
    {
        let ghost oldlen = old(decoder).coded@.len() as int;
        proof {
            vstd::arithmetic::power2::lemma2_to64();
        }
        if (changed_value & 32) != 0 {
            let v: i32 = self.ic_intensity.decompress(
                decoder,
                self.last_point.intensity as i32,
                DEFAULT_DECOMPRESS_CONTEXTS,
            );
            self.last_point.intensity = #[verifier::truncate] (v as u16);
        }
        proof {
            assert(decoder.coded@.subrange(0, oldlen) =~= old(decoder).coded@);
        }
        if (changed_value & 16) != 0 {
            let idx: usize = self.last_point.bit_fields_to_byte() as usize;
            let mut slot: Option<ArithmeticModel> = None;
            self.bit_byte_models.set_and_swap(idx, &mut slot);
            let mut m: ArithmeticModel = match slot {
                Some(m) => m,
                None => ArithmeticModelBuilder::new(256).build(),
            };
            let sym: u32 = decoder.decode_symbol(&mut m);
            self.bit_byte_models.set(idx, Some(m));
            proof {
                assert(lazy_models_wf(self.bit_byte_models@));
            }
            self.last_point.populate_bit_fields_from(sym as u8);
        }
        proof {
            assert(decoder.coded@.subrange(0, oldlen) =~= old(decoder).coded@);
        }
        if (changed_value & 8) != 0 {
            let idx: usize = self.last_point.classification as usize;
            let mut slot: Option<ArithmeticModel> = None;
            self.classification_models.set_and_swap(idx, &mut slot);
            let mut m: ArithmeticModel = match slot {
                Some(m) => m,
                None => ArithmeticModelBuilder::new(256).build(),
            };
            let sym: u32 = decoder.decode_symbol(&mut m);
            self.classification_models.set(idx, Some(m));
            proof {
                assert(lazy_models_wf(self.classification_models@));
            }
            self.last_point.classification = sym as u8;
        }
        proof {
            assert(decoder.coded@.subrange(0, oldlen) =~= old(decoder).coded@);
            assert forall|j: int| 0 <= j < oldlen implies decoder.coded@[j] == old(decoder).coded@[j] by {
                assert(decoder.coded@.subrange(0, oldlen)[j] == decoder.coded@[j]);
            }
        }
    }

    /// Decodes the last three changed fields named by the bitmap:
    /// scan angle rank, user data, point source id.  The coordinates,
    /// the residual windows and the coordinate coders are untouched.
    #[verifier::rlimit(100)]
    #[verifier::spinoff_prover]
    fn decompress_changed_fields_b(
        &mut self,
        decoder: &mut ArithmeticDecoder,
        changed_value: u32,
        k_bits: u32,
    )
        requires
            old(self).wf(),
            old(decoder).wf(),
        ensures
            final(self).wf(),
            final(decoder).wf(),
            final(decoder).coded@.len() >= old(decoder).coded@.len(),
            final(decoder).coded@.subrange(0, old(decoder).coded@.len() as int) == old(decoder).coded@,
            forall|j: int|
                0 <= j < old(decoder).coded@.len() ==> final(decoder).coded@[j] == old(decoder).coded@[j],
            final(self).last_point.x == old(self).last_point.x,
            final(self).last_point.y == old(self).last_point.y,
            final(self).last_point.z == old(self).last_point.z,
            final(self).last_x_diffs@ == old(self).last_x_diffs@,
            final(self).last_y_diffs@ == old(self).last_y_diffs@,
            final(self).last_incr == old(self).last_incr,
            final(self).ic_dx == old(self).ic_dx,
            final(self).ic_dy == old(self).ic_dy,
            final(self).ic_dz == old(self).ic_dz,
            final(self).last_point.intensity == old(self).last_point.intensity,
            final(self).last_point.classification == old(self).last_point.classification,
            final(self).last_point.return_number == old(self).last_point.return_number,
            final(self).last_point.number_of_returns_of_given_pulse == old(self).last_point.number_of_returns_of_given_pulse,
            final(self).last_point.scan_direction_flag == old(self).last_point.scan_direction_flag,
            final(self).last_point.edge_of_flight_line == old(self).last_point.edge_of_flight_line,
            (changed_value & 4) == 0 ==> final(self).last_point.scan_angle_rank == old(self).last_point.scan_angle_rank,
            (changed_value & 2) == 0 ==> final(self).last_point.user_data == old(self).last_point.user_data,
            (changed_value & 1) == 0 ==> final(self).last_point.point_source_id == old(self).last_point.point_source_id,
    {
        let ghost oldlen = old(decoder).coded@.len() as int;
        proof {
            vstd::arithmetic::power2::lemma2_to64();
        }
        if (changed_value & 4) != 0 {
            let v: i32 = self.ic_scan_angle_rank.decompress(
                decoder,
                self.last_point.scan_angle_rank as i32,
                if k_bits < 3 {
                    1
                } else {
                    0
                },
            );
            self.last_point.scan_angle_rank = #[verifier::truncate] (v as i8);
        }
        proof {
            assert(decoder.coded@.subrange(0, oldlen) =~= old(decoder).coded@);
        }
        if (changed_value & 2) != 0 {
            let idx: usize = self.last_point.user_data as usize;
            let mut slot: Option<ArithmeticModel> = None;
            self.user_data_models.set_and_swap(idx, &mut slot);
            let mut m: ArithmeticModel = match slot {
                Some(m) => m,
                None => ArithmeticModelBuilder::new(256).build(),
            };
            let sym: u32 = decoder.decode_symbol(&mut m);
            self.user_data_models.set(idx, Some(m));
            proof {
                assert(lazy_models_wf(self.user_data_models@));
            }
            self.last_point.user_data = sym as u8;
        }
        proof {
            assert(decoder.coded@.subrange(0, oldlen) =~= old(decoder).coded@);
        }
        if (changed_value & 1) != 0 {
            let v: i32 = self.ic_point_source_id.decompress(
                decoder,
                self.last_point.point_source_id as i32,
                DEFAULT_DECOMPRESS_CONTEXTS,
            );
            self.last_point.point_source_id = #[verifier::truncate] (v as u16);
        }
        proof {
            assert(decoder.coded@.subrange(0, oldlen) =~= old(decoder).coded@);
            assert forall|j: int| 0 <= j < oldlen implies decoder.coded@[j] == old(decoder).coded@[j] by {
                assert(decoder.coded@.subrange(0, oldlen)[j] == decoder.coded@[j]);
            }
        }
    }

    /// The raw first point's size on the wire.
    pub fn size_of_field(&self) -> (r: usize)
        ensures
            r == POINT0_SIZE,
    {
        POINT0_SIZE
    }
}

/// The version 1 per-point compressor.
pub struct LasPoint0Compressor {
    pub last_point: Point0,
    pub last_x_diffs: [i32; 3],
    pub last_y_diffs: [i32; 3],
    pub last_incr: usize,
    pub ic_dx: IntegerCompressor,
    pub ic_dy: IntegerCompressor,
    pub ic_dz: IntegerCompressor,
    pub ic_intensity: IntegerCompressor,
    pub ic_scan_angle_rank: IntegerCompressor,
    pub ic_point_source_id: IntegerCompressor,
    pub changed_values_model: ArithmeticModel,
    pub bit_byte_models: Vec<Option<ArithmeticModel>>,
    pub classification_models: Vec<Option<ArithmeticModel>>,
    pub user_data_models: Vec<Option<ArithmeticModel>>,
}

impl LasPoint0Compressor {
    /// The coders carry their version 1 widths and context counts and
    /// every model is in shape.
    pub open spec fn wf(self) -> bool {
        &&& self.last_incr < 3
        &&& self.ic_dx.wf() && self.ic_dx.bits == 32 && self.ic_dx.contexts == 1
        &&& self.ic_dy.wf() && self.ic_dy.bits == 32 && self.ic_dy.contexts == 20
        &&& self.ic_dz.wf() && self.ic_dz.bits == 32 && self.ic_dz.contexts == 20
        &&& self.ic_intensity.wf() && self.ic_intensity.bits == 16 && self.ic_intensity.contexts
            == 1
        &&& self.ic_scan_angle_rank.wf() && self.ic_scan_angle_rank.bits == 8
            && self.ic_scan_angle_rank.contexts == 2
        &&& self.ic_point_source_id.wf() && self.ic_point_source_id.bits == 16
            && self.ic_point_source_id.contexts == 1
        &&& self.changed_values_model.wf() && self.changed_values_model.symbols == 64
        &&& lazy_models_wf(self.bit_byte_models@)
        &&& lazy_models_wf(self.classification_models@)
        &&& lazy_models_wf(self.user_data_models@)
    }

    /// A fresh compressor: zero state, residual windows cleared, every
    /// lazy model still unallocated.
    pub fn new() -> (r: LasPoint0Compressor)
        ensures
            r.wf(),
            r.last_point == Point0::default_spec(),
            r.last_x_diffs@ =~= seq![0i32, 0i32, 0i32],
            r.last_y_diffs@ =~= seq![0i32, 0i32, 0i32],
            r.last_incr == 0,
            forall|i: int| 0 <= i < 256 ==> (#[trigger] r.bit_byte_models@[i]) is None,
            forall|i: int| 0 <= i < 256 ==> (#[trigger] r.classification_models@[i]) is None,
            forall|i: int| 0 <= i < 256 ==> (#[trigger] r.user_data_models@[i]) is None,
            r.ic_dx.context_log@ == Seq::<u32>::empty(),
            r.ic_dy.context_log@ == Seq::<u32>::empty(),
            r.ic_dz.context_log@ == Seq::<u32>::empty(),
    {
        LasPoint0Compressor {
            last_point: Point0::default(),
            last_x_diffs: [0, 0, 0],
            last_y_diffs: [0, 0, 0],
            last_incr: 0,
            ic_dx: IntegerCompressorBuilder::new().bits(32).build_initialized(),
            ic_dy: IntegerCompressorBuilder::new().bits(32).contexts(20).build_initialized(),
            ic_dz: IntegerCompressorBuilder::new().bits(32).contexts(20).build_initialized(),
            ic_intensity: IntegerCompressorBuilder::new().bits(16).build_initialized(),
            ic_scan_angle_rank: IntegerCompressorBuilder::new().bits(
                8,
            ).contexts(2).build_initialized(),
            ic_point_source_id: IntegerCompressorBuilder::new().bits(16).build_initialized(),
            changed_values_model: ArithmeticModelBuilder::new(64).build(),
            bit_byte_models: none_models(),
            classification_models: none_models(),
            user_data_models: none_models(),
        }
    }

    /// Writes the raw first point to `dst` (exactly its 20 wire bytes,
    /// no coder symbols) and seeds the codec state with it.
    pub fn init_first_point(&mut self, dst: &mut Vec<u8>, first_point: &Point0)
        requires
            old(self).wf(),
        ensures
            final(self).wf(),
            final(dst)@ == old(dst)@ + first_point.spec_bytes(),
            final(self).last_point == *first_point,
            final(self).last_x_diffs@ == old(self).last_x_diffs@,
            final(self).last_y_diffs@ == old(self).last_y_diffs@,
            final(self).last_incr == old(self).last_incr,
    {
        first_point.write_to(dst);
        self.last_point = *first_point;
    }

    /// Unpacks the raw first point from `buf` and writes it to `dst`.
    pub fn compress_first(&mut self, dst: &mut Vec<u8>, buf: &[u8])
        requires
            old(self).wf(),
            buf@.len() >= 20,
        ensures
            final(self).wf(),
            final(self).last_point == crate::point0::spec_point_from_bytes(buf@),
            final(dst)@ == old(dst)@ + crate::point0::spec_point_from_bytes(buf@).spec_bytes(),
    {
        let current: Point0 = Point0::unpack_from(buf);
        self.init_first_point(dst, &current);
    }

    /// Encodes one point against the previous one.  The point becomes
    /// the new last point, its x and y residuals enter the windows,
    /// and the write index advances cyclically.
    #[verifier::rlimit(100)]
    pub fn compress_field_with(&mut self, encoder: &mut ArithmeticEncoder, current_point: &Point0)
        requires
            old(self).wf(),
            old(encoder).wf(),
        ensures
            final(self).wf(),
            final(encoder).wf(),
            final(self).last_point == *current_point,
            final(self).last_incr == (old(self).last_incr + 1) % 3,
            final(self).last_x_diffs@[old(self).last_incr as int] as int == spec_wrap32(
                current_point.x - old(self).last_point.x,
            ),
            final(self).last_y_diffs@[old(self).last_incr as int] as int == spec_wrap32(
                current_point.y - old(self).last_point.y,
            ),
            forall|i: int|
                0 <= i < 3 && i != old(self).last_incr ==> final(self).last_x_diffs@[i] == old(self).last_x_diffs@[i] && final(self).last_y_diffs@[i] == old(self).last_y_diffs@[i],
            final(encoder).coded@ == old(encoder).coded@ + spec_coded_v1(
                *old(self),
                *current_point,
            ),
            final(self).ic_dx.k == spec_k_x_v1(*old(self), *current_point),
            final(self).ic_dy.k == spec_k_y_v1(*old(self), *current_point),
            final(self).ic_dz.k == spec_k_z_v1(*old(self), *current_point),
            final(self).ic_dx.context_log@ == old(self).ic_dx.context_log@.push(0),
            final(self).ic_dy.context_log@ == old(self).ic_dy.context_log@.push(
                (if spec_k_x_v1(*old(self), *current_point) < 19 {
                    spec_k_x_v1(*old(self), *current_point)
                } else {
                    19
                }) as u32,
            ),
            final(self).ic_dz.context_log@ == old(self).ic_dz.context_log@.push(
                (if (spec_k_x_v1(*old(self), *current_point) + spec_k_y_v1(
                    *old(self),
                    *current_point,
                )) / 2 < 19 {
                    (spec_k_x_v1(*old(self), *current_point) + spec_k_y_v1(
                        *old(self),
                        *current_point,
                    )) / 2
                } else {
                    19
                }) as u32,
            ),
            final(self).ic_intensity.context_log@ == (if old(self).last_point.intensity
                != current_point.intensity {
                old(self).ic_intensity.context_log@.push(0)
            } else {
                old(self).ic_intensity.context_log@
            }),
            final(self).ic_scan_angle_rank.context_log@ == (if old(self).last_point.scan_angle_rank
                != current_point.scan_angle_rank {
                old(self).ic_scan_angle_rank.context_log@.push(
                    (if (spec_k_x_v1(*old(self), *current_point) + spec_k_y_v1(
                        *old(self),
                        *current_point,
                    )) / 2 < 3 {
                        1u32
                    } else {
                        0u32
                    }),
                )
            } else {
                old(self).ic_scan_angle_rank.context_log@
            }),
            final(self).ic_point_source_id.context_log@ == (if old(self).last_point.point_source_id
                != current_point.point_source_id {
                old(self).ic_point_source_id.context_log@.push(0)
            } else {
                old(self).ic_point_source_id.context_log@
            }),
    {
        let ghost t0 = encoder.coded@;
        proof {
            vstd::arithmetic::power2::lemma2_to64();
        }
        let median_x: i32 = median_diff(&self.last_x_diffs);
        let median_y: i32 = median_diff(&self.last_y_diffs);
        let x_diff: i32 = i32_wrapping_diff(current_point.x, self.last_point.x);
        let y_diff: i32 = i32_wrapping_diff(current_point.y, self.last_point.y);
        self.ic_dx.compress(encoder, median_x, x_diff, DEFAULT_COMPRESS_CONTEXTS);
        // dx's corrector width switches dy's context
        let k_bits: u32 = self.ic_dx.k();
        self.ic_dy.compress(
            encoder,
            median_y,
            y_diff,
            if k_bits < 19 {
                k_bits
            } else {
                19
            },
        );
        let k_bits: u32 = (k_bits + self.ic_dy.k()) / 2;
        self.ic_dz.compress(
            encoder,
            self.last_point.z,
            current_point.z,
            if k_bits < 19 {
                k_bits
            } else {
                19
            },
        );
        proof {
            assert(encoder.coded@ =~= t0 + (spec_corrector_coded(
                spec_corr_x_v1(*old(self), *current_point),
                32,
            ) + spec_corrector_coded(spec_corr_y_v1(*old(self), *current_point), 32)
                + spec_corrector_coded(spec_corr_z_v1(*old(self), *current_point), 32)));
        }
        let changed_values: u8 = changed_values_v1(current_point, &self.last_point);
        encoder.encode_symbol(&mut self.changed_values_model, changed_values as u32);
        if changed_values != 0 {
            self.compress_changed_fields_a(encoder, current_point, changed_values);
            self.compress_changed_fields_b(encoder, current_point, changed_values, k_bits);
        } else {
            proof {
                lemma_changed_bits_v1(
                    changed_values,
                    if old(self).last_point.intensity != current_point.intensity {
                        1
                    } else {
                        0
                    },
                    if old(self).last_point.spec_bit_fields() != current_point.spec_bit_fields() {
                        1
                    } else {
                        0
                    },
                    if old(self).last_point.classification != current_point.classification {
                        1
                    } else {
                        0
                    },
                    if old(self).last_point.scan_angle_rank != current_point.scan_angle_rank {
                        1
                    } else {
                        0
                    },
                    if old(self).last_point.user_data != current_point.user_data {
                        1
                    } else {
                        0
                    },
                    if old(self).last_point.point_source_id != current_point.point_source_id {
                        1
                    } else {
                        0
                    },
                );
            }
        }
        proof {
            assert(encoder.coded@ =~= t0 + spec_coded_v1(*old(self), *current_point));
        }
        self.last_x_diffs[self.last_incr] = x_diff;
        self.last_y_diffs[self.last_incr] = y_diff;
        self.last_incr = self.last_incr + 1;
        if self.last_incr > 2 {
            self.last_incr = 0;
        }
        self.last_point = *current_point;
    }



    /// Encodes the first three changed fields named by the bitmap:
    /// intensity, the packed byte, classification.  Coordinate state
    /// and the coordinate coders are untouched.
    #[verifier::rlimit(100)]
    #[verifier::spinoff_prover]
    fn compress_changed_fields_a(
        &mut self,
        encoder: &mut ArithmeticEncoder,
        current_point: &Point0,
        changed_values: u8,
    )
        requires
            old(self).wf(),
            old(encoder).wf(),
            changed_values as int == spec_changed_values_v1(
                *current_point,
                old(self).last_point,
            ),
        ensures
            final(self).wf(),
            final(encoder).wf(),
            final(encoder).coded@ == old(encoder).coded@ + spec_coded_fields_a_v1(
                old(self).last_point,
                *current_point,
            ),
            final(self).last_point == old(self).last_point,
            final(self).last_x_diffs@ == old(self).last_x_diffs@,
            final(self).last_y_diffs@ == old(self).last_y_diffs@,
            final(self).last_incr == old(self).last_incr,
            final(self).ic_dx == old(self).ic_dx,
            final(self).ic_dy == old(self).ic_dy,
            final(self).ic_dz == old(self).ic_dz,
            final(self).ic_scan_angle_rank == old(self).ic_scan_angle_rank,
            final(self).ic_point_source_id == old(self).ic_point_source_id,
            final(self).ic_intensity.context_log@ == (if old(self).last_point.intensity
                != current_point.intensity {
                old(self).ic_intensity.context_log@.push(0)
            } else {
                old(self).ic_intensity.context_log@
            }),
    {
        let ghost t0 = encoder.coded@;
        let ghost mut acc = Seq::<Coded>::empty();
        proof {
            vstd::arithmetic::power2::lemma2_to64();
            lemma_changed_bits_v1(
                changed_values,
                if old(self).last_point.intensity != current_point.intensity {
                    1
                } else {
                    0
                },
                if old(self).last_point.spec_bit_fields() != current_point.spec_bit_fields() {
                    1
                } else {
                    0
                },
                if old(self).last_point.classification != current_point.classification {
                    1
                } else {
                    0
                },
                if old(self).last_point.scan_angle_rank != current_point.scan_angle_rank {
                    1
                } else {
                    0
                },
                if old(self).last_point.user_data != current_point.user_data {
                    1
                } else {
                    0
                },
                if old(self).last_point.point_source_id != current_point.point_source_id {
                    1
                } else {
                    0
                },
            );
        }
        if (changed_values & 32) != 0 {
            self.ic_intensity.compress(
                encoder,
                self.last_point.intensity as i32,
                current_point.intensity as i32,
                DEFAULT_COMPRESS_CONTEXTS,
            );
        }
        proof {
            acc = acc + (if old(self).last_point.intensity != current_point.intensity {
                spec_corrector_coded(
                    spec_wrapped_corr(
                        old(self).last_point.intensity as int,
                        current_point.intensity as int,
                        65536,
                        -32768,
                        32767,
                    ),
                    16,
                )
            } else {
                Seq::<Coded>::empty()
            });
            assert(encoder.coded@ =~= t0 + acc);
        }
        if (changed_values & 16) != 0 {
            let idx: usize = self.last_point.bit_fields_to_byte() as usize;
            let mut slot: Option<ArithmeticModel> = None;
            self.bit_byte_models.set_and_swap(idx, &mut slot);
            let mut m: ArithmeticModel = match slot {
                Some(m) => m,
                None => ArithmeticModelBuilder::new(256).build(),
            };
            encoder.encode_symbol(&mut m, current_point.bit_fields_to_byte() as u32);
            self.bit_byte_models.set(idx, Some(m));
            proof {
                assert(lazy_models_wf(self.bit_byte_models@));
            }
        }
        proof {
            acc = acc + (if old(self).last_point.spec_bit_fields()
                != current_point.spec_bit_fields() {
                seq![Coded::Symbol(current_point.spec_bit_fields() as u32)]
            } else {
                Seq::<Coded>::empty()
            });
            assert(encoder.coded@ =~= t0 + acc);
        }
        if (changed_values & 8) != 0 {
            let idx: usize = self.last_point.classification as usize;
            let mut slot: Option<ArithmeticModel> = None;
            self.classification_models.set_and_swap(idx, &mut slot);
            let mut m: ArithmeticModel = match slot {
                Some(m) => m,
                None => ArithmeticModelBuilder::new(256).build(),
            };
            encoder.encode_symbol(&mut m, current_point.classification as u32);
            self.classification_models.set(idx, Some(m));
            proof {
                assert(lazy_models_wf(self.classification_models@));
            }
        }
        proof {
            acc = acc + (if old(self).last_point.classification
                != current_point.classification {
                seq![Coded::Symbol(current_point.classification as u32)]
            } else {
                Seq::<Coded>::empty()
            });
            assert(encoder.coded@ =~= t0 + acc);
        }
        proof {
            assert(acc =~= spec_coded_fields_a_v1(old(self).last_point, *current_point));
        }
    }

    /// Encodes the last three changed fields named by the bitmap:
    /// scan angle rank, user data, point source id.  Coordinate state
    /// and the coordinate coders are untouched.
    #[verifier::rlimit(100)]
    #[verifier::spinoff_prover]
    fn compress_changed_fields_b(
        &mut self,
        encoder: &mut ArithmeticEncoder,
        current_point: &Point0,
        changed_values: u8,
        k_bits: u32,
    )
        requires
            old(self).wf(),
            old(encoder).wf(),
            changed_values as int == spec_changed_values_v1(
                *current_point,
                old(self).last_point,
            ),
        ensures
            final(self).wf(),
            final(encoder).wf(),
            final(encoder).coded@ == old(encoder).coded@ + spec_coded_fields_b_v1(
                old(self).last_point,
                *current_point,
            ),
            final(self).last_point == old(self).last_point,
            final(self).last_x_diffs@ == old(self).last_x_diffs@,
            final(self).last_y_diffs@ == old(self).last_y_diffs@,
            final(self).last_incr == old(self).last_incr,
            final(self).ic_dx == old(self).ic_dx,
            final(self).ic_dy == old(self).ic_dy,
            final(self).ic_dz == old(self).ic_dz,
            final(self).ic_intensity == old(self).ic_intensity,
            final(self).ic_scan_angle_rank.context_log@ == (if old(self).last_point.scan_angle_rank
                != current_point.scan_angle_rank {
                old(self).ic_scan_angle_rank.context_log@.push(
                    (if k_bits < 3 {
                        1u32
                    } else {
                        0u32
                    }),
                )
            } else {
                old(self).ic_scan_angle_rank.context_log@
            }),
            final(self).ic_point_source_id.context_log@ == (if old(self).last_point.point_source_id
                != current_point.point_source_id {
                old(self).ic_point_source_id.context_log@.push(0)
            } else {
                old(self).ic_point_source_id.context_log@
            }),
    {
        let ghost t0 = encoder.coded@;
        let ghost mut acc = Seq::<Coded>::empty();
        proof {
            vstd::arithmetic::power2::lemma2_to64();
            lemma_changed_bits_v1(
                changed_values,
                if old(self).last_point.intensity != current_point.intensity {
                    1
                } else {
                    0
                },
                if old(self).last_point.spec_bit_fields() != current_point.spec_bit_fields() {
                    1
                } else {
                    0
                },
                if old(self).last_point.classification != current_point.classification {
                    1
                } else {
                    0
                },
                if old(self).last_point.scan_angle_rank != current_point.scan_angle_rank {
                    1
                } else {
                    0
                },
                if old(self).last_point.user_data != current_point.user_data {
                    1
                } else {
                    0
                },
                if old(self).last_point.point_source_id != current_point.point_source_id {
                    1
                } else {
                    0
                },
            );
        }
        if (changed_values & 4) != 0 {
            self.ic_scan_angle_rank.compress(
                encoder,
                self.last_point.scan_angle_rank as i32,
                current_point.scan_angle_rank as i32,
                if k_bits < 3 {
                    1
                } else {
                    0
                },
            );
        }
        proof {
            acc = acc + (if old(self).last_point.scan_angle_rank
                != current_point.scan_angle_rank {
                spec_corrector_coded(
                    spec_wrapped_corr(
                        old(self).last_point.scan_angle_rank as int,
                        current_point.scan_angle_rank as int,
                        256,
                        -128,
                        127,
                    ),
                    8,
                )
            } else {
                Seq::<Coded>::empty()
            });
            assert(encoder.coded@ =~= t0 + acc);
        }
        if (changed_values & 2) != 0 {
            let idx: usize = self.last_point.user_data as usize;
            let mut slot: Option<ArithmeticModel> = None;
            self.user_data_models.set_and_swap(idx, &mut slot);
            let mut m: ArithmeticModel = match slot {
                Some(m) => m,
                None => ArithmeticModelBuilder::new(256).build(),
            };
            encoder.encode_symbol(&mut m, current_point.user_data as u32);
            self.user_data_models.set(idx, Some(m));
            proof {
                assert(lazy_models_wf(self.user_data_models@));
            }
        }
        proof {
            acc = acc + (if old(self).last_point.user_data != current_point.user_data {
                seq![Coded::Symbol(current_point.user_data as u32)]
            } else {
                Seq::<Coded>::empty()
            });
            assert(encoder.coded@ =~= t0 + acc);
        }
        if (changed_values & 1) != 0 {
            self.ic_point_source_id.compress(
                encoder,
                self.last_point.point_source_id as i32,
                current_point.point_source_id as i32,
                DEFAULT_COMPRESS_CONTEXTS,
            );
        }
        proof {
            acc = acc + (if old(self).last_point.point_source_id
                != current_point.point_source_id {
                spec_corrector_coded(
                    spec_wrapped_corr(
                        old(self).last_point.point_source_id as int,
                        current_point.point_source_id as int,
                        65536,
                        -32768,
                        32767,
                    ),
                    16,
                )
            } else {
                Seq::<Coded>::empty()
            });
            assert(encoder.coded@ =~= t0 + acc);
        }
        proof {
            assert(acc =~= spec_coded_fields_b_v1(old(self).last_point, *current_point));
        }
    }

    /// Unpacks one point from `buf` and encodes it.
    pub fn compress_with(&mut self, encoder: &mut ArithmeticEncoder, buf: &[u8])
        requires
            old(self).wf(),
            old(encoder).wf(),
            buf@.len() >= 20,
        ensures
            final(self).wf(),
            final(encoder).wf(),
            final(self).last_point == crate::point0::spec_point_from_bytes(buf@),
            final(self).last_incr == (old(self).last_incr + 1) % 3,
            final(self).last_x_diffs@[old(self).last_incr as int] as int == spec_wrap32(
                crate::point0::spec_point_from_bytes(buf@).x - old(self).last_point.x,
            ),
            final(self).last_y_diffs@[old(self).last_incr as int] as int == spec_wrap32(
                crate::point0::spec_point_from_bytes(buf@).y - old(self).last_point.y,
            ),
            final(encoder).coded@ == old(encoder).coded@ + spec_coded_v1(
                *old(self),
                crate::point0::spec_point_from_bytes(buf@),
            ),
            final(self).ic_dx.k == spec_k_x_v1(
                *old(self),
                crate::point0::spec_point_from_bytes(buf@),
            ),
            final(self).ic_dy.k == spec_k_y_v1(
                *old(self),
                crate::point0::spec_point_from_bytes(buf@),
            ),
            final(self).ic_dz.k == spec_k_z_v1(
                *old(self),
                crate::point0::spec_point_from_bytes(buf@),
            ),
            final(self).ic_dx.context_log@ == old(self).ic_dx.context_log@.push(0),
            final(self).ic_dy.context_log@ == old(self).ic_dy.context_log@.push(
                (if spec_k_x_v1(*old(self), crate::point0::spec_point_from_bytes(buf@)) < 19 {
                    spec_k_x_v1(*old(self), crate::point0::spec_point_from_bytes(buf@))
                } else {
                    19
                }) as u32,
            ),
    {
        let current: Point0 = Point0::unpack_from(buf);
        self.compress_field_with(encoder, &current);
    }

    /// The raw first point's size on the wire.
    pub fn size_of_field(&self) -> (r: usize)
        ensures
            r == POINT0_SIZE,
    {
        POINT0_SIZE
    }
}

/// A table of 256 not-yet-allocated models.
fn none_models() -> (r: Vec<Option<ArithmeticModel>>)
    ensures
        lazy_models_wf(r@),
        forall|i: int| 0 <= i < 256 ==> (#[trigger] r@[i]) is None,
{
    let mut v: Vec<Option<ArithmeticModel>> = Vec::new();
    let mut i: usize = 0;
    while i < 256
        invariant
            i <= 256,
            v@.len() == i,
            forall|j: int| 0 <= j < i ==> (#[trigger] v@[j]) is None,
        decreases 256 - i,
    {
        v.push(None);
        i += 1;
    }
    v
}

} // verus!
