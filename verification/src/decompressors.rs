//! The integer residual decompressor.
//!
//! Mirrors [`crate::compressors`]: it first decodes `k`, the bit width
//! of the corrector's interval, on the context's model, then the
//! corrector inside that interval, and adds the corrector to the
//! prediction, wrapping into the coder's range.  `k` is exposed
//! because the codecs derive the next field's context from it.

use vstd::prelude::*;
use vstd::arithmetic::power2::pow2;
use vstd::arithmetic::power2::lemma2_to64;
use vstd::arithmetic::power2::lemma2_to64_rest;
use vstd::bits::lemma_u64_shl_is_mul;
use vstd::pervasive::VecAdditionalExecFns;
use crate::decoders::ArithmeticDecoder;
use crate::encoders::Coded;
use crate::models::ArithmeticBitModel;
use crate::models::ArithmeticModel;
use crate::compressors::spec_corrector_symbols;

verus! {

/// The context the callers use when a coder has only one.
pub const DEFAULT_DECOMPRESS_CONTEXTS: u32 = 0;

/// The value carried by the raw-bit entries of a decoded corrector:
/// widths above 19 come split, low sixteen bits first.
#[verifier::opaque]
pub open spec fn spec_raw_value(t: Seq<Coded>, bits: u32) -> u32 {
    if bits > 19 {
        if t.len() >= 2 {
            match (t[0], t[1]) {
                (Coded::RawBits(b0, v0), Coded::RawBits(b1, v1)) => (v1 << 16) | v0,
                _ => 0,
            }
        } else {
            0
        }
    } else {
        if t.len() >= 1 {
            match t[0] {
                Coded::RawBits(b0, v0) => v0,
                _ => 0,
            }
        } else {
            0
        }
    }
}

/// How many ghost-log entries one decoded corrector occupies, read
/// off its leading width entry.
#[verifier::opaque]
pub open spec fn spec_group_len(t: Seq<Coded>) -> int {
    if t.len() >= 1 {
        match t[0] {
            Coded::Symbol(k) => if k == 0 {
                2
            } else if k <= 8 {
                2
            } else if k < 32 {
                if k - 8 > 19 {
                    4
                } else {
                    3
                }
            } else {
                1
            },
            _ => 1,
        }
    } else {
        1
    }
}

/// The corrector a decoded entry group denotes: the inverse of the
/// encoder's translation, applied to the group's symbols.
#[verifier::opaque]
pub open spec fn spec_corr_from_trace(t: Seq<Coded>, corr_min: int) -> int {
    if t.len() >= 1 {
        match t[0] {
            Coded::Symbol(k) => if k == 0 {
                if t.len() >= 2 {
                    match t[1] {
                        Coded::Bit(b) => b as int,
                        _ => 0,
                    }
                } else {
                    0
                }
            } else if k < 32 {
                if t.len() >= 2 {
                    match t[1] {
                        Coded::Symbol(c0) => {
                            let c = if k > 8 {
                                (c0 << ((k - 8) as u32)) | spec_raw_value(
                                    t.skip(2),
                                    (k - 8) as u32,
                                )
                            } else {
                                c0
                            };
                            if c >= pow2((k - 1) as nat) {
                                c + 1
                            } else {
                                c - (pow2(k as nat) - 1)
                            }
                        },
                        _ => 0,
                    }
                } else {
                    0
                }
            } else {
                corr_min
            },
            _ => 0,
        }
    } else {
        0
    }
}

/// A decoded corrector added to the prediction and wrapped once into
/// the coder's range, then truncated to 32 bits as the caller stores
/// it.
pub open spec fn spec_corrector_applied(pred: int, corr: int, corr_range: int) -> i32 {
    let x = pred + corr;
    (if corr_range != 0 {
        if x < 0 {
            x + corr_range
        } else if x >= corr_range {
            x - corr_range
        } else {
            x
        }
    } else {
        x
    }) as i32
}

/// A complete corrector group keeps its reading when more entries
/// follow it: both its length and the corrector it denotes.
pub proof fn lemma_corr_trace_extend(t: Seq<Coded>, ext: Seq<Coded>, corr_min: int)
    requires
        t.len() == spec_group_len(t),
    ensures
        spec_group_len(t + ext) == spec_group_len(t),
        spec_corr_from_trace(t + ext, corr_min) == spec_corr_from_trace(t, corr_min),
{
    reveal(spec_group_len);
    reveal(spec_corr_from_trace);
    reveal(spec_raw_value);
    assert(t.len() >= 1);
    assert((t + ext)[0] == t[0]);
    if t.len() >= 2 {
        assert((t + ext)[1] == t[1]);
    }
    if t.len() >= 3 {
        assert((t + ext).skip(2) =~= t.skip(2) + ext);
        assert((t + ext).skip(2)[0] == t.skip(2)[0]);
        if t.len() >= 4 {
            assert((t + ext).skip(2)[1] == t.skip(2)[1]);
        }
    }
}

/// Decompresses signed integers of a fixed bit width under a chosen
/// number of contexts.
pub struct IntegerDecompressor {
    pub k: u32,
    /// Ghost log of the context chosen for each decoded corrector.
    pub context_log: Ghost<Seq<u32>>,
    pub bits: u32,
    pub contexts: u32,
    pub corr_bits: u32,
    pub corr_range: u32,
    pub corr_min: i32,
    pub corr_max: i32,
    pub m_bits: Vec<ArithmeticModel>,
    pub m_corrector0: ArithmeticBitModel,
    pub m_corrector: Vec<ArithmeticModel>,
}

impl IntegerDecompressor {
    /// The per-context and per-width models are all in shape and the
    /// range constants describe the coder's bit width.
    pub open spec fn wf(self) -> bool {
        &&& 1 <= self.bits <= 32
        &&& self.corr_bits == self.bits
        &&& 1 <= self.contexts <= 64
        &&& (if self.bits == 32 {
            self.corr_range == 0 && self.corr_min == i32::MIN && self.corr_max == i32::MAX
        } else {
            self.corr_range == pow2(self.bits as nat) && self.corr_min == -(self.corr_range
                / 2) && self.corr_max == self.corr_min + self.corr_range - 1
        })
        &&& self.m_bits@.len() == self.contexts
        &&& forall|i: int|
            0 <= i < self.contexts ==> (#[trigger] self.m_bits@[i]).wf() && self.m_bits@[i].symbols
                == self.corr_bits + 1
        &&& self.m_corrector@.len() == self.corr_bits
        &&& forall|j: int|
            0 <= j < self.corr_bits ==> (#[trigger] self.m_corrector@[j]).wf()
                && self.m_corrector@[j].symbols == spec_corrector_symbols(j + 1)
        &&& self.m_corrector0.wf()
        &&& self.k <= 32
    }

    /// The width of the last decoded corrector: the context input for
    /// the field decoded next.
    pub fn k(&self) -> (r: u32)
        ensures
            r == self.k,
    {
        self.k
    }

    /// Decodes the next corrector on the models of `context` and adds
    /// it to the prediction, wrapped into the coder's range.
    pub fn decompress(
        &mut self,
        dec: &mut ArithmeticDecoder,
        pred: i32,
        context: u32,
    ) -> (r: i32)
        requires
            old(self).wf(),
            old(dec).wf(),
            context < old(self).contexts,
        ensures
            final(self).wf(),
            final(dec).wf(),
            final(self).bits == old(self).bits,
            final(self).contexts == old(self).contexts,
            final(self).corr_range == old(self).corr_range,
            final(self).corr_min == old(self).corr_min,
            final(self).corr_max == old(self).corr_max,
            final(self).k <= 32,
            final(self).context_log@ == old(self).context_log@.push(context),
            final(dec).coded@.len() == old(dec).coded@.len() + spec_group_len(
                final(dec).coded@.skip(old(dec).coded@.len() as int),
            ),
            final(dec).coded@.len() > old(dec).coded@.len(),
            final(dec).coded@.subrange(0, old(dec).coded@.len() as int) == old(dec).coded@,
            forall|j: int|
                0 <= j < old(dec).coded@.len() ==> final(dec).coded@[j] == old(dec).coded@[j],
            final(dec).coded@[old(dec).coded@.len() as int] == Coded::Symbol(final(self).k),
            r == spec_corrector_applied(
                pred as int,
                spec_corr_from_trace(
                    final(dec).coded@.skip(old(dec).coded@.len() as int),
                    old(self).corr_min as int,
                ),
                old(self).corr_range as int,
            ),
    {
        let ghost oldlen = old(dec).coded@.len() as int;
        self.context_log = Ghost(self.context_log@.push(context));
        proof {
            reveal(spec_raw_value);
            reveal(spec_group_len);
            reveal(spec_corr_from_trace);
            lemma2_to64();
            lemma2_to64_rest();
        }
        // decode the corrector's bit width on the context's model
        let mut mdl: ArithmeticModel = ArithmeticModel::new(2);
        self.m_bits.set_and_swap(context as usize, &mut mdl);
        let k: u32 = dec.decode_symbol(&mut mdl);
        self.m_bits.set_and_swap(context as usize, &mut mdl);
        proof {
            assert(self.m_bits@ =~= old(self).m_bits@.update(
                context as int,
                self.m_bits@[context as int],
            ));
        }
        self.k = k;
        // decode the corrector inside its interval
        let corr: i64;
        if k > 0 {
            if k < 32 {
                let mut c: u32;
                let mut cm: ArithmeticModel = ArithmeticModel::new(2);
                self.m_corrector.set_and_swap((k - 1) as usize, &mut cm);
                c = dec.decode_symbol(&mut cm);
                self.m_corrector.set_and_swap((k - 1) as usize, &mut cm);
                proof {
                    assert(self.m_corrector@ =~= old(self).m_corrector@.update(
                        k as int - 1,
                        self.m_corrector@[k as int - 1],
                    ));
                }
                let ghost c0v = c;
                if k > 8 {
                    // the bits beyond the high eight were stored raw
                    let k1: u32 = k - 8;
                    let c1: u32 = dec.read_bits(k1);
                    proof {
                        if k1 <= 19 {
                            assert(dec.coded@.skip(oldlen) =~= seq![
                                Coded::Symbol(k),
                                Coded::Symbol(c0v),
                                Coded::RawBits(k1, c1),
                            ]);
                        } else {
                            assert(dec.coded@.skip(oldlen).len() == 4);
                            assert(dec.coded@.subrange(0, oldlen + 2)[oldlen]
                                == dec.coded@[oldlen]);
                            assert(dec.coded@.subrange(0, oldlen + 2)[oldlen + 1]
                                == dec.coded@[oldlen + 1]);
                            assert(dec.coded@.skip(oldlen) =~= seq![
                                Coded::Symbol(k),
                                Coded::Symbol(c0v),
                            ] + dec.coded@.skip(oldlen + 2));
                        }
                        assert(spec_raw_value(dec.coded@.skip(oldlen + 2), k1) == c1);
                        assert(dec.coded@.skip(oldlen).skip(2) =~= dec.coded@.skip(oldlen + 2));
                    }
                    c = (c << k1) | c1;
                } else {
                    proof {
                        assert(dec.coded@.skip(oldlen) =~= seq![
                            Coded::Symbol(k),
                            Coded::Symbol(c0v),
                        ]);
                    }
                }
                let ktop: u64 = 1u64 << k;
                proof {
                    vstd::bits::lemma_u64_pow2_no_overflow(k as nat);
                    lemma_u64_shl_is_mul(1u64, k as u64);
                    vstd::arithmetic::power2::lemma_pow2_pos(k as nat);
                    let kv = k;
                    assert(1 <= kv < 32 ==> 1u64 <= (1u64 << ((kv - 1) as u32)) < (1u64 << kv))
                        by (bit_vector);
                }
                proof {
                    vstd::arithmetic::power2::lemma_pow2_unfold(k as nat);
                }
                let half: u32 = #[verifier::truncate] ((ktop / 2) as u32);
                // translate back from [0, 2^k)
                if c >= half {
                    // the corrector was above the interval's midpoint
                    corr = c as i64 + 1;
                } else {
                    corr = c as i64 - (ktop as i64 - 1);
                }
                proof {
                    assert(corr == spec_corr_from_trace(
                        dec.coded@.skip(oldlen),
                        old(self).corr_min as int,
                    ));
                }
            } else {
                corr = self.corr_min as i64;
                proof {
                    assert(dec.coded@.skip(oldlen) =~= seq![Coded::Symbol(k)]);
                }
            }
        } else {
            let b: u32 = dec.decode_bit(&mut self.m_corrector0);
            corr = b as i64;
            proof {
                assert(dec.coded@.skip(oldlen) =~= seq![Coded::Symbol(k), Coded::Bit(b)]);
            }
        }
        proof {
            assert(dec.coded@.subrange(0, oldlen) =~= old(dec).coded@);
            assert forall|j: int| 0 <= j < oldlen implies dec.coded@[j] == old(dec).coded@[j] by {
                assert(dec.coded@.subrange(0, oldlen)[j] == dec.coded@[j]);
            }
        }
        // add the corrector to the prediction, wrapped into range
        let mut r: i64 = pred as i64 + corr;
        if self.corr_range != 0 {
            if r < 0 {
                r = r + self.corr_range as i64;
            } else if r >= self.corr_range as i64 {
                r = r - self.corr_range as i64;
            }
        }
        #[verifier::truncate] (r as i32)
    }
}

/// Builds [`IntegerDecompressor`]s: pick a bit width and a context
/// count, then initialize.
pub struct IntegerDecompressorBuilder {
    pub bits: u32,
    pub contexts: u32,
}

impl IntegerDecompressorBuilder {
    /// Starts from the defaults: 16 bits, one context.
    pub fn new() -> (r: IntegerDecompressorBuilder)
        ensures
            r.bits == 16,
            r.contexts == 1,
    {
        IntegerDecompressorBuilder { bits: 16, contexts: 1 }
    }

    /// Sets the corrector bit width.
    pub fn bits(self, bits: u32) -> (r: IntegerDecompressorBuilder)
        ensures
            r.bits == bits,
            r.contexts == self.contexts,
    {
        IntegerDecompressorBuilder { bits, ..self }
    }

    /// Sets the number of contexts.
    pub fn contexts(self, contexts: u32) -> (r: IntegerDecompressorBuilder)
        ensures
            r.bits == self.bits,
            r.contexts == contexts,
    {
        IntegerDecompressorBuilder { contexts, ..self }
    }

    /// Builds the decompressor with all its models in their start
    /// state.
    pub fn build_initialized(self) -> (r: IntegerDecompressor)
        requires
            1 <= self.bits <= 32,
            1 <= self.contexts <= 64,
        ensures
            r.wf(),
            r.bits == self.bits,
            r.contexts == self.contexts,
            r.context_log@ == Seq::<u32>::empty(),
    {
        let corr_bits: u32 = self.bits;
        let corr_range: u32;
        let corr_min: i32;
        let corr_max: i32;
        if self.bits == 32 {
            corr_range = 0;
            corr_min = i32::MIN;
            corr_max = i32::MAX;
        } else {
            proof {
                let b = self.bits;
                assert(1 <= b < 32 ==> 2u32 <= (1u32 << b)) by (bit_vector);
                vstd::bits::lemma_u32_pow2_no_overflow(self.bits as nat);
                vstd::bits::lemma_u32_shl_is_mul(1u32, self.bits);
                lemma2_to64();
                if self.bits < 31 {
                    vstd::arithmetic::power2::lemma_pow2_strictly_increases(
                        self.bits as nat,
                        31,
                    );
                }
            }
            corr_range = 1u32 << self.bits;
            corr_min = -((corr_range / 2) as i32);
            corr_max = corr_min + (corr_range - 1) as i32;
        }
        let mut m_bits: Vec<ArithmeticModel> = Vec::new();
        let mut i: usize = 0;
        while i < self.contexts as usize
            invariant
                i <= self.contexts,
                1 <= self.bits <= 32,
                corr_bits == self.bits,
                m_bits@.len() == i,
                forall|j: int|
                    0 <= j < i ==> (#[trigger] m_bits@[j]).wf() && m_bits@[j].symbols == corr_bits
                        + 1,
            decreases self.contexts - i,
        {
            m_bits.push(ArithmeticModel::new(corr_bits + 1));
            i += 1;
        }
        let mut m_corrector: Vec<ArithmeticModel> = Vec::new();
        let mut j: usize = 0;
        while j < corr_bits as usize
            invariant
                j <= corr_bits,
                1 <= corr_bits <= 32,
                m_corrector@.len() == j,
                forall|t: int|
                    0 <= t < j ==> (#[trigger] m_corrector@[t]).wf() && m_corrector@[t].symbols
                        == spec_corrector_symbols(t + 1),
            decreases corr_bits - j,
        {
            let kk: u32 = (j + 1) as u32;
            let symbols: u32 = if kk <= 8 {
                proof {
                    let b = kk;
                    assert(1 <= b <= 8 ==> 2u32 <= (1u32 << b) <= 256) by (bit_vector);
                    vstd::bits::lemma_u32_pow2_no_overflow(kk as nat);
                    vstd::bits::lemma_u32_shl_is_mul(1u32, kk);
                }
                1u32 << kk
            } else {
                256
            };
            m_corrector.push(ArithmeticModel::new(symbols));
            j += 1;
        }
        IntegerDecompressor {
            k: 0,
            context_log: Ghost(Seq::empty()),
            bits: self.bits,
            contexts: self.contexts,
            corr_bits,
            corr_range,
            corr_min,
            corr_max,
            m_bits,
            m_corrector0: ArithmeticBitModel::new(),
            m_corrector,
        }
    }
}

} // verus!
