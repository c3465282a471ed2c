//! The integer residual compressor.
//!
//! A corrector `c = actual - prediction` (wrapped into the coder's
//! range) is coded in two parts: first `k`, the width in bits of the
//! interval the corrector falls into, on a per-context model; then the
//! corrector's position inside that interval, on a per-`k` model, with
//! any bits beyond the high eight stored raw.  `k` is exposed because
//! the codecs derive the next field's context from it.

use vstd::prelude::*;
use vstd::arithmetic::power2::pow2;
use vstd::arithmetic::power2::lemma2_to64;
use vstd::arithmetic::power2::lemma2_to64_rest;
use vstd::bits::lemma_u64_shl_is_mul;
use vstd::pervasive::VecAdditionalExecFns;
use crate::encoders::ArithmeticEncoder;
use crate::encoders::Coded;
use crate::encoders::spec_raw_entries;
use crate::models::ArithmeticBitModel;
use crate::models::ArithmeticModel;

verus! {

/// The context the callers use when a coder has only one.
pub const DEFAULT_COMPRESS_CONTEXTS: u32 = 0;

/// How many low bits remain when a corrector is `c`: zero for the two
/// shortest correctors 0 and 1, else the bit width of `c1`.
pub open spec fn spec_k_bits(n: int) -> int
    decreases n,
{
    if n <= 0 {
        0
    } else {
        1 + spec_k_bits(n / 2)
    }
}

/// The magnitude the bit width is taken of: correctors at most zero
/// count by their negation, positive ones shifted down by one.
pub open spec fn spec_c1(c: int) -> int {
    if c <= 0 {
        -c
    } else {
        c - 1
    }
}

/// A corrector below `pow2(b)` needs at most `b` bits.
pub proof fn lemma_k_bits_le_pow(n: int, b: nat)
    requires
        0 <= n < pow2(b),
    ensures
        spec_k_bits(n) <= b,
    decreases b,
{
    if n >= 1 {
        assert(pow2(b) > 1);
        if b == 0 {
            assert(pow2(0) == 1) by {
                lemma2_to64();
            }
        } else {
            assert(pow2(b) == 2 * pow2((b - 1) as nat)) by {
                vstd::arithmetic::power2::lemma_pow2_unfold(b);
            }
            lemma_k_bits_le_pow(n / 2, (b - 1) as nat);
        }
    }
}

/// A corrector is below the power of two of its own bit width.
pub proof fn lemma_k_bits_upper(n: int)
    requires
        0 <= n,
    ensures
        n < pow2(spec_k_bits(n) as nat),
        spec_k_bits(n) >= 0,
    decreases n,
{
    if n == 0 {
        assert(pow2(0) == 1) by {
            lemma2_to64();
        }
    } else {
        lemma_k_bits_upper(n / 2);
        let kk = spec_k_bits(n / 2);
        assert(pow2((kk + 1) as nat) == 2 * pow2(kk as nat)) by {
            vstd::arithmetic::power2::lemma_pow2_unfold((kk + 1) as nat);
        }
    }
}

/// A corrector translated into its interval `[0, 2^k)`: negatives are
/// shifted up by `2^k - 1`, positives down by one.
pub open spec fn spec_translated(corr: int, k: int) -> int {
    if corr < 0 {
        corr + pow2(k as nat) - 1
    } else {
        corr - 1
    }
}

/// The ghost-log entries one corrector contributes to the stream: its
/// width `k`, then the corrector inside the width-`k` interval — as an
/// adaptive bit for the two shortest correctors, whole on one model up
/// to eight bits, and split into a modeled high byte plus raw low bits
/// beyond that.  Nothing follows the width for full-range correctors.
#[verifier::opaque]
pub open spec fn spec_corrector_coded(corr: int, corr_bits: int) -> Seq<Coded> {
    let k = spec_k_bits(spec_c1(corr));
    seq![Coded::Symbol(k as u32)] + (if k == 0 {
        seq![Coded::Bit(corr as u32)]
    } else if k < 32 {
        let c = spec_translated(corr, k) as u32;
        if k <= 8 {
            seq![Coded::Symbol(c)]
        } else {
            seq![Coded::Symbol(c >> ((k - 8) as u32))] + spec_raw_entries(
                (k - 8) as u32,
                c & (((1u32 << ((k - 8) as u32)) - 1) as u32),
            )
        }
    } else {
        Seq::<Coded>::empty()
    })
}

/// The wrapped corrector the coder emits for `actual` against `pred`.
pub open spec fn spec_wrapped_corr(
    pred: int,
    actual: int,
    corr_range: int,
    corr_min: int,
    corr_max: int,
) -> int {
    let d = actual - pred;
    if corr_range == 0 {
        if d < -0x8000_0000 {
            d + 0x1_0000_0000
        } else if d > 0x7fff_ffff {
            d - 0x1_0000_0000
        } else {
            d
        }
    } else {
        if d < corr_min {
            d + corr_range
        } else if d > corr_max {
            d - corr_range
        } else {
            d
        }
    }
}

/// Compresses signed integers of a fixed bit width under a chosen
/// number of contexts.
pub struct IntegerCompressor {
    pub k: u32,
    /// Ghost log of the context chosen for each coded corrector.
    pub context_log: Ghost<Seq<u32>>,
    pub bits: u32,
    pub contexts: u32,
    pub corr_bits: u32,
    pub corr_range: u32,
    pub corr_min: i32,
    pub corr_max: i32,
    pub m_bits: Vec<ArithmeticModel>,
    pub m_corrector0: ArithmeticBitModel,
    pub m_corrector: Vec<ArithmeticModel>,
}

/// The alphabet size of the corrector model for width `kk`: the full
/// interval up to eight bits, the high eight bits beyond that.
pub open spec fn spec_corrector_symbols(kk: int) -> int {
    if kk <= 8 {
        pow2(kk as nat) as int
    } else {
        256
    }
}

impl IntegerCompressor {
    /// The per-context and per-width models are all in shape and the
    /// range constants describe the coder's bit width.
    pub open spec fn wf(self) -> bool {
        &&& 1 <= self.bits <= 32
        &&& self.corr_bits == self.bits
        &&& 1 <= self.contexts <= 64
        &&& (if self.bits == 32 {
            self.corr_range == 0 && self.corr_min == i32::MIN && self.corr_max == i32::MAX
        } else {
            self.corr_range == pow2(self.bits as nat) && self.corr_min == -(self.corr_range
                / 2) && self.corr_max == self.corr_min + self.corr_range - 1
        })
        &&& self.m_bits@.len() == self.contexts
        &&& forall|i: int|
            0 <= i < self.contexts ==> (#[trigger] self.m_bits@[i]).wf() && self.m_bits@[i].symbols
                == self.corr_bits + 1
        &&& self.m_corrector@.len() == self.corr_bits
        &&& forall|j: int|
            0 <= j < self.corr_bits ==> (#[trigger] self.m_corrector@[j]).wf()
                && self.m_corrector@[j].symbols == spec_corrector_symbols(j + 1)
        &&& self.m_corrector0.wf()
        &&& self.k <= 32
    }

    /// The width of the last coded corrector: the context input for
    /// the field coded next.
    pub fn k(&self) -> (r: u32)
        ensures
            r == self.k,
    {
        self.k
    }

    /// Codes `actual` against the prediction `pred` on the models of
    /// `context`.  For widths below 32, caller and decoder agree that
    /// the difference stays within one wrap of the coder's range.
    #[verifier::rlimit(100)]
    pub fn compress(
        &mut self,
        enc: &mut ArithmeticEncoder,
        pred: i32,
        actual: i32,
        context: u32,
    )
        requires
            old(self).wf(),
            old(enc).wf(),
            context < old(self).contexts,
            old(self).corr_range == 0 || (actual - pred < old(self).corr_range && pred - actual < old(
                self,
            ).corr_range),
        ensures
            final(self).wf(),
            final(enc).wf(),
            final(self).bits == old(self).bits,
            final(self).contexts == old(self).contexts,
            final(self).corr_range == old(self).corr_range,
            final(self).corr_min == old(self).corr_min,
            final(self).corr_max == old(self).corr_max,
            final(self).k == spec_k_bits(
                spec_c1(
                    spec_wrapped_corr(
                        pred as int,
                        actual as int,
                        old(self).corr_range as int,
                        old(self).corr_min as int,
                        old(self).corr_max as int,
                    ),
                ),
            ),
            final(self).k <= 32,
            final(self).context_log@ == old(self).context_log@.push(context),
            final(enc).coded@ == old(enc).coded@ + spec_corrector_coded(
                spec_wrapped_corr(
                    pred as int,
                    actual as int,
                    old(self).corr_range as int,
                    old(self).corr_min as int,
                    old(self).corr_max as int,
                ),
                old(self).corr_bits as int,
            ),
    {
        self.context_log = Ghost(self.context_log@.push(context));
        proof {
            reveal(spec_corrector_coded);
            lemma2_to64();
            lemma2_to64_rest();
        }
        let mut d: i64 = actual as i64 - pred as i64;
        if self.corr_range == 0 {
            if d < -0x8000_0000i64 {
                d = d + 0x1_0000_0000i64;
            } else if d > 0x7fff_ffffi64 {
                d = d - 0x1_0000_0000i64;
            }
        } else {
            if d < self.corr_min as i64 {
                d = d + self.corr_range as i64;
            } else if d > self.corr_max as i64 {
                d = d - self.corr_range as i64;
            }
        }
        let corr: i32 = d as i32;
        let ghost wrapped = spec_wrapped_corr(
            pred as int,
            actual as int,
            self.corr_range as int,
            self.corr_min as int,
            self.corr_max as int,
        );
        assert(corr == wrapped);
        // the width k of the smallest interval holding the corrector
        let c1: u32 = if corr <= 0 {
            (-(corr as i64)) as u32
        } else {
            ((corr as i64) - 1) as u32
        };
        proof {
            lemma_k_bits_le_pow(c1 as int, 32);
        }
        let mut k: u32 = 0;
        let mut c1m: u32 = c1;
        while c1m != 0
            invariant
                k + spec_k_bits(c1m as int) == spec_k_bits(c1 as int),
                spec_k_bits(c1 as int) <= 32,
                k <= 32,
            decreases c1m,
        {
            proof {
                assert(spec_k_bits(c1m as int) == 1 + spec_k_bits((c1m / 2) as int));
                lemma_k_bits_upper(c1m as int);
                lemma_k_bits_upper((c1m / 2) as int);
            }
            c1m = c1m / 2;
            k = k + 1;
        }
        proof {
            if self.corr_range == 0 {
                lemma_k_bits_le_pow(c1 as int, 32);
            } else {
                assert(c1 < pow2(self.bits as nat));
                lemma_k_bits_le_pow(c1 as int, self.bits as nat);
            }
        }
        self.k = k;
        // code the width on the context's model
        let mut mdl: ArithmeticModel = ArithmeticModel::new(2);
        self.m_bits.set_and_swap(context as usize, &mut mdl);
        enc.encode_symbol(&mut mdl, k);
        self.m_bits.set_and_swap(context as usize, &mut mdl);
        proof {
            assert(self.m_bits@ =~= old(self).m_bits@.update(
                context as int,
                self.m_bits@[context as int],
            ));
        }
        if k > 0 {
            // the corrector is neither 0 nor 1
            if k < 32 {
                let ktop: u64 = 1u64 << k;
                proof {
                    lemma_u64_shl_is_mul(1u64, k as u64);
                    lemma_k_bits_upper(c1 as int);
                    vstd::arithmetic::power2::lemma_pow2_pos(k as nat);
                }
                // translate the corrector into [0, 2^k)
                let c: u32 = if corr < 0 {
                    ((corr as i64) + (ktop as i64 - 1)) as u32
                } else {
                    ((corr as i64) - 1) as u32
                };
                let ghost kk = k as int;
                if k <= 8 {
                    // one model codes the whole interval
                    let mut cm: ArithmeticModel = ArithmeticModel::new(2);
                    self.m_corrector.set_and_swap((k - 1) as usize, &mut cm);
                    enc.encode_symbol(&mut cm, c);
                    self.m_corrector.set_and_swap((k - 1) as usize, &mut cm);
                    proof {
                        assert(self.m_corrector@ =~= old(self).m_corrector@.update(
                            kk - 1,
                            self.m_corrector@[kk - 1],
                        ));
                        assert(enc.coded@ =~= old(enc).coded@ + spec_corrector_coded(
                            wrapped,
                            old(self).corr_bits as int,
                        ));
                    }
                } else {
                    // high eight bits on the model, the rest raw
                    let k1: u32 = k - 8;
                    proof {
                        let kv = k1;
                        assert(1 <= kv <= 23 ==> 1u32 <= (1u32 << kv)) by (bit_vector);
                    }
                    let mask: u32 = (1u32 << k1) - 1;
                    let c_low: u32 = c & mask;
                    let c_high: u32 = c >> k1;
                    proof {
                        let cv = c;
                        let kv = k;
                        assert(c < ktop);
                        assert((8 < kv && kv < 32 && (cv as u64) < (1u64 << kv)) ==> ((cv >> ((kv
                            - 8) as u32)) < 256)) by (bit_vector);
                    }
                    let mut cm: ArithmeticModel = ArithmeticModel::new(2);
                    self.m_corrector.set_and_swap((k - 1) as usize, &mut cm);
                    enc.encode_symbol(&mut cm, c_high);
                    self.m_corrector.set_and_swap((k - 1) as usize, &mut cm);
                    proof {
                        assert(self.m_corrector@ =~= old(self).m_corrector@.update(
                            kk - 1,
                            self.m_corrector@[kk - 1],
                        ));
                    }
                    enc.write_bits(k1, c_low);
                    proof {
                        assert(enc.coded@ =~= old(enc).coded@ + spec_corrector_coded(
                            wrapped,
                            old(self).corr_bits as int,
                        ));
                    }
                }
            } else {
                proof {
                    assert(enc.coded@ =~= old(enc).coded@ + spec_corrector_coded(
                        wrapped,
                        old(self).corr_bits as int,
                    ));
                }
            }
        } else {
            // the corrector is 0 or 1: a single adaptive bit
            proof {
                lemma_k_bits_upper((c1 / 2) as int);
                assert(c1 != 0 ==> spec_k_bits(c1 as int) >= 1);
                assert(corr == 0 || corr == 1);
            }
            enc.encode_bit(&mut self.m_corrector0, corr as u32);
            proof {
                assert(enc.coded@ =~= old(enc).coded@ + spec_corrector_coded(
                    wrapped,
                    old(self).corr_bits as int,
                ));
            }
        }
    }
}

/// Builds [`IntegerCompressor`]s: pick a bit width and a context
/// count, then initialize.
pub struct IntegerCompressorBuilder {
    pub bits: u32,
    pub contexts: u32,
}

impl IntegerCompressorBuilder {
    /// Starts from the defaults: 16 bits, one context.
    pub fn new() -> (r: IntegerCompressorBuilder)
        ensures
            r.bits == 16,
            r.contexts == 1,
    {
        IntegerCompressorBuilder { bits: 16, contexts: 1 }
    }

    /// Sets the corrector bit width.
    pub fn bits(self, bits: u32) -> (r: IntegerCompressorBuilder)
        ensures
            r.bits == bits,
            r.contexts == self.contexts,
    {
        IntegerCompressorBuilder { bits, ..self }
    }

    /// Sets the number of contexts.
    pub fn contexts(self, contexts: u32) -> (r: IntegerCompressorBuilder)
        ensures
            r.bits == self.bits,
            r.contexts == contexts,
    {
        IntegerCompressorBuilder { contexts, ..self }
    }

    /// Builds the compressor with all its models in their start state.
    pub fn build_initialized(self) -> (r: IntegerCompressor)
        requires
            1 <= self.bits <= 32,
            1 <= self.contexts <= 64,
        ensures
            r.wf(),
            r.bits == self.bits,
            r.contexts == self.contexts,
            r.context_log@ == Seq::<u32>::empty(),
    {
        let corr_bits: u32 = self.bits;
        let corr_range: u32;
        let corr_min: i32;
        let corr_max: i32;
        if self.bits == 32 {
            corr_range = 0;
            corr_min = i32::MIN;
            corr_max = i32::MAX;
        } else {
            proof {
                let b = self.bits;
                assert(1 <= b < 32 ==> 2u32 <= (1u32 << b)) by (bit_vector);
                vstd::bits::lemma_u32_pow2_no_overflow(self.bits as nat);
                vstd::bits::lemma_u32_shl_is_mul(1u32, self.bits);
                lemma2_to64();
                if self.bits < 31 {
                    vstd::arithmetic::power2::lemma_pow2_strictly_increases(
                        self.bits as nat,
                        31,
                    );
                }
            }
            corr_range = 1u32 << self.bits;
            corr_min = -((corr_range / 2) as i32);
            corr_max = corr_min + (corr_range - 1) as i32;
        }
        let mut m_bits: Vec<ArithmeticModel> = Vec::new();
        let mut i: usize = 0;
        while i < self.contexts as usize
            invariant
                i <= self.contexts,
                1 <= self.bits <= 32,
                corr_bits == self.bits,
                m_bits@.len() == i,
                forall|j: int|
                    0 <= j < i ==> (#[trigger] m_bits@[j]).wf() && m_bits@[j].symbols == corr_bits
                        + 1,
            decreases self.contexts - i,
        {
            m_bits.push(ArithmeticModel::new(corr_bits + 1));
            i += 1;
        }
        let mut m_corrector: Vec<ArithmeticModel> = Vec::new();
        let mut j: usize = 0;
        while j < corr_bits as usize
            invariant
                j <= corr_bits,
                1 <= corr_bits <= 32,
                m_corrector@.len() == j,
                forall|t: int|
                    0 <= t < j ==> (#[trigger] m_corrector@[t]).wf() && m_corrector@[t].symbols
                        == spec_corrector_symbols(t + 1),
            decreases corr_bits - j,
        {
            let kk: u32 = (j + 1) as u32;
            let symbols: u32 = if kk <= 8 {
                proof {
                    let b = kk;
                    assert(1 <= b <= 8 ==> 2u32 <= (1u32 << b) <= 256) by (bit_vector);
                    vstd::bits::lemma_u32_pow2_no_overflow(kk as nat);
                    vstd::bits::lemma_u32_shl_is_mul(1u32, kk);
                }
                1u32 << kk
            } else {
                256
            };
            m_corrector.push(ArithmeticModel::new(symbols));
            j += 1;
        }
        IntegerCompressor {
            k: 0,
            context_log: Ghost(Seq::empty()),
            bits: self.bits,
            contexts: self.contexts,
            corr_bits,
            corr_range,
            corr_min,
            corr_max,
            m_bits,
            m_corrector0: ArithmeticBitModel::new(),
            m_corrector,
        }
    }
}

} // verus!
