//! Adaptive probability models for the arithmetic coder.
//!
//! A general model keeps one frequency count per symbol of a discrete
//! alphabet and a cumulative distribution scaled to 15 bits; a bit model
//! keeps a scaled probability of the zero bit.  Counts adapt as symbols
//! are coded and are halved when a total-count threshold is reached, so
//! the scaled tables always stay in range.

use vstd::prelude::*;
use vstd::arithmetic::div_mod::lemma_fundamental_div_mod;

verus! {

/// Scale shift of a general model's distribution: probabilities live in
/// 15 bits.
pub const DM_LENGTH_SHIFT: u32 = 15;

/// Total-count threshold of a general model; counts are halved above it.
pub const DM_MAX_COUNT: u32 = 32768;

/// Scale shift of a bit model: the zero-bit probability lives in 13 bits.
pub const BM_LENGTH_SHIFT: u32 = 13;

/// Bit-count threshold of a bit model.
pub const BM_MAX_COUNT: u32 = 8192;

/// Sum of the first `n` entries of a count table.
pub open spec fn sum_prefix(s: Seq<u32>, n: int) -> int
    decreases n,
{
    if n <= 0 {
        0
    } else {
        sum_prefix(s, n - 1) + s[n - 1]
    }
}

/// Two tables equal on a prefix have equal prefix sums.
proof fn lemma_sum_prefix_congruent(a: Seq<u32>, b: Seq<u32>, n: int)
    requires
        forall|j: int| 0 <= j < n ==> a[j] == b[j],
    ensures
        sum_prefix(a, n) == sum_prefix(b, n),
    decreases n,
{
    if n > 0 {
        lemma_sum_prefix_congruent(a, b, n - 1);
    }
}

/// Changing one entry changes the prefix sum by the difference.
proof fn lemma_sum_prefix_update(s: Seq<u32>, i: int, v: u32, n: int)
    requires
        0 <= i < n <= s.len(),
    ensures
        sum_prefix(s.update(i, v), n) == sum_prefix(s, n) + v - s[i],
    decreases n,
{
    if i == n - 1 {
        lemma_sum_prefix_congruent(s.update(i, v), s, n - 1);
    } else {
        lemma_sum_prefix_update(s, i, v, n - 1);
    }
}

/// With every counted entry at least one, a longer prefix is larger by
/// at least its extra length.
proof fn lemma_sum_prefix_ge(s: Seq<u32>, k: int, n: int)
    requires
        0 <= k <= n <= s.len(),
        forall|j: int| 0 <= j < n ==> s[j] >= 1,
    ensures
        sum_prefix(s, k) + (n - k) <= sum_prefix(s, n),
    decreases n - k,
{
    if k < n {
        lemma_sum_prefix_ge(s, k + 1, n);
    }
}

/// With every entry at least one, a single entry is at most the total
/// minus the other entries.
proof fn lemma_element_bound(s: Seq<u32>, i: int, n: int)
    requires
        0 <= i < n <= s.len(),
        forall|j: int| 0 <= j < n ==> s[j] >= 1,
    ensures
        s[i] + (n - 1) <= sum_prefix(s, n),
{
    lemma_sum_prefix_ge(s, 0, i);
    lemma_sum_prefix_ge(s, i + 1, n);
}

/// A table of ones sums to its length.
proof fn lemma_sum_prefix_ones(s: Seq<u32>, n: int)
    requires
        0 <= n <= s.len(),
        forall|j: int| 0 <= j < n ==> s[j] == 1,
    ensures
        sum_prefix(s, n) == n,
    decreases n,
{
    if n > 0 {
        lemma_sum_prefix_ones(s, n - 1);
    }
}

/// An adaptive model over `symbols` symbols.  `distribution[k]` is the
/// scaled cumulative frequency of the symbols below `k`; the counts are
/// halved whenever `total_count` would pass [`DM_MAX_COUNT`].
pub struct ArithmeticModel {
    pub symbols: u32,
    pub distribution: Vec<u32>,
    pub symbol_count: Vec<u32>,
    pub total_count: u32,
    pub update_cycle: u32,
    pub symbols_until_update: u32,
    pub last_symbol: u32,
}

impl ArithmeticModel {
    /// The model's tables are sized to its alphabet, every count is
    /// positive, the counts not yet folded into `total_count` are
    /// exactly the symbols seen since the last table rebuild, and the
    /// distribution entries fit the 15-bit probability scale.
    pub open spec fn wf(self) -> bool {
        &&& 2 <= self.symbols <= 2048
        &&& self.last_symbol == self.symbols - 1
        &&& self.distribution@.len() == self.symbols
        &&& self.symbol_count@.len() == self.symbols
        &&& 1 <= self.update_cycle <= 16432
        &&& 1 <= self.symbols_until_update <= self.update_cycle
        &&& 2 <= self.total_count <= DM_MAX_COUNT
        &&& sum_prefix(self.symbol_count@, self.symbols as int) == self.total_count
            + self.update_cycle - self.symbols_until_update
        &&& forall|i: int| 0 <= i < self.symbols ==> #[trigger] self.symbol_count@[i] >= 1
        &&& forall|i: int| 0 <= i < self.symbols ==> #[trigger] self.distribution@[i] < 32768
        &&& forall|i: int|
            0 <= i < self.symbols - 1 ==> #[trigger] self.distribution@[i]
                < self.distribution@[i + 1]
    }

    /// Distribution entries grow strictly, so farther entries are
    /// strictly larger.
    pub proof fn lemma_distribution_increasing(self, i: int, j: int)
        requires
            self.wf(),
            0 <= i < j < self.symbols,
        ensures
            self.distribution@[i] < self.distribution@[j],
        decreases j - i,
    {
        if i + 1 < j {
            self.lemma_distribution_increasing(i + 1, j);
        }
    }

    /// Builds the model in its initial state: every count one, the
    /// distribution rebuilt once, and the first update due after
    /// `(symbols + 6) / 2` coded symbols.
    pub fn new(symbols: u32) -> (r: ArithmeticModel)
        requires
            2 <= symbols <= 2048,
        ensures
            r.wf(),
            r.symbols == symbols,
    {
        let mut m = ArithmeticModel {
            symbols,
            distribution: vec![0u32; symbols as usize],
            symbol_count: vec![1u32; symbols as usize],
            total_count: 0,
            update_cycle: symbols,
            symbols_until_update: symbols,
            last_symbol: symbols - 1,
        };
        proof {
            lemma_sum_prefix_ones(m.symbol_count@, symbols as int);
        }
        m.update();
        m.update_cycle = (m.symbols + 6) / 2;
        m.symbols_until_update = m.update_cycle;
        m
    }

    /// Counts one coded symbol; rebuilds the tables when the update
    /// cycle has elapsed.
    pub fn count_symbol(&mut self, sym: u32)
        requires
            old(self).wf(),
            sym < old(self).symbols,
        ensures
            final(self).wf(),
            final(self).symbols == old(self).symbols,
            final(self).last_symbol == old(self).last_symbol,
    {
        proof {
            lemma_element_bound(self.symbol_count@, sym as int, self.symbols as int);
        }
        let c: u32 = self.symbol_count[sym as usize];
        self.symbol_count[sym as usize] = c + 1;
        proof {
            lemma_sum_prefix_update(
                old(self).symbol_count@,
                sym as int,
                (c + 1) as u32,
                self.symbols as int,
            );
        }
        self.symbols_until_update = self.symbols_until_update - 1;
        if self.symbols_until_update == 0 {
            self.update();
        }
    }

    /// Folds the pending counts into the total, halves every count when
    /// the total passes its threshold, rebuilds the scaled cumulative
    /// distribution, and schedules the next rebuild.
    fn update(&mut self)
        requires
            2 <= old(self).symbols <= 2048,
            old(self).last_symbol == old(self).symbols - 1,
            old(self).distribution@.len() == old(self).symbols,
            old(self).symbol_count@.len() == old(self).symbols,
            1 <= old(self).update_cycle <= 16432,
            old(self).total_count <= DM_MAX_COUNT,
            sum_prefix(old(self).symbol_count@, old(self).symbols as int) == old(
                self,
            ).total_count + old(self).update_cycle,
            forall|i: int|
                0 <= i < old(self).symbols ==> #[trigger] old(self).symbol_count@[i] >= 1,
        ensures
            final(self).wf(),
            final(self).symbols == old(self).symbols,
            final(self).last_symbol == old(self).last_symbol,
            final(self).symbols_until_update == final(self).update_cycle,
    {
        let ghost syms = self.symbols as int;
        proof {
            lemma_sum_prefix_ge(self.symbol_count@, 0, syms);
        }
        self.total_count = self.total_count + self.update_cycle;
        if self.total_count > DM_MAX_COUNT {
            let ghost before = self.symbol_count@;
            let mut total: u32 = 0;
            let mut n: usize = 0;
            while n < self.symbols as usize
                invariant
                    n <= syms,
                    2 <= self.symbols <= 2048,
                    syms == self.symbols as int,
                    self.symbols == old(self).symbols,
                    self.last_symbol == old(self).last_symbol,
                    self.update_cycle == old(self).update_cycle,
                    self.total_count == old(self).total_count + old(self).update_cycle,
                    self.distribution@ == old(self).distribution@,
                    before.len() == syms,
                    self.symbol_count@.len() == syms,
                    forall|j: int| n <= j < syms ==> self.symbol_count@[j] == #[trigger] before[j],
                    forall|j: int| 0 <= j < syms ==> #[trigger] before[j] >= 1,
                    forall|j: int| 0 <= j < n ==> #[trigger] self.symbol_count@[j] >= 1,
                    total == sum_prefix(self.symbol_count@, n as int),
                    2 * total <= sum_prefix(before, n as int) + n,
                    sum_prefix(before, syms) == self.total_count,
                    self.total_count <= 49200 < 2 * (DM_MAX_COUNT - 2048),
                decreases syms - n,
            {
                proof {
                    lemma_sum_prefix_ge(before, n as int + 1, syms);
                    assert(sum_prefix(before, n as int + 1) == sum_prefix(before, n as int)
                        + before[n as int]);
                }
                let c: u32 = self.symbol_count[n];
                let h: u32 = c / 2 + c % 2;
                let ghost mid = self.symbol_count@;
                self.symbol_count[n] = h;
                proof {
                    lemma_sum_prefix_congruent(self.symbol_count@, mid, n as int);
                    assert(sum_prefix(self.symbol_count@, n as int + 1) == sum_prefix(
                        self.symbol_count@,
                        n as int,
                    ) + h);
                }
                total = total + h;
                n += 1;
            }
            proof {
                lemma_sum_prefix_ge(self.symbol_count@, 0, syms);
            }
            self.total_count = total;
        }
        let total: u32 = self.total_count;
        let scale: u32 = 0x8000_0000u32 / total;
        proof {
            lemma_fundamental_div_mod(0x8000_0000int, total as int);
            vstd::arithmetic::div_mod::lemma_mod_division_less_than_divisor(
                0x8000_0000int,
                total as int,
            );
            vstd::arithmetic::div_mod::lemma_div_non_zero(0x8000_0000int, total as int);
            vstd::arithmetic::div_mod::lemma_div_is_ordered_by_denominator(
                0x8000_0000int,
                total as int,
                32768int,
            );
            assert(scale == 0x8000_0000int / (total as int));
            assert((total as int) * (scale as int) == 0x8000_0000int - 0x8000_0000int % (
            total as int));
            assert(0x8000_0000int % (total as int) >= 0);
            assert((scale as int) * (total as int) == (total as int) * (scale as int))
                by (nonlinear_arith);
            assert(scale * total <= 0x8000_0000);
        }
        let mut sum: u32 = 0;
        let mut k: usize = 0;
        while k < self.symbols as usize
            invariant
                k <= syms,
                2 <= self.symbols <= 2048,
                syms == self.symbols as int,
                self.symbols == old(self).symbols,
                self.last_symbol == old(self).last_symbol,
                self.update_cycle == old(self).update_cycle,
                self.total_count == total,
                self.distribution@.len() == syms,
                self.symbol_count@.len() == syms,
                forall|j: int| 0 <= j < syms ==> #[trigger] self.symbol_count@[j] >= 1,
                sum_prefix(self.symbol_count@, syms) == total,
                2 <= total <= 32768,
                scale == 0x8000_0000u32 / total,
                scale * total <= 0x8000_0000,
                65536 <= scale,
                sum == sum_prefix(self.symbol_count@, k as int),
                sum <= total,
                forall|j: int| 0 <= j < k ==> #[trigger] self.distribution@[j] < 32768,
                forall|j: int|
                    0 <= j < k - 1 ==> #[trigger] self.distribution@[j] < self.distribution@[j
                        + 1],
                k >= 1 ==> self.distribution@[k - 1] == (scale as int * sum_prefix(
                    self.symbol_count@,
                    k - 1,
                )) / 65536,
            decreases syms - k,
        {
            proof {
                lemma_sum_prefix_ge(self.symbol_count@, k as int, syms);
                assert(sum + (syms - k) <= total);
                assert(scale * sum <= scale * (total - 1)) by (nonlinear_arith)
                    requires
                        sum <= total - 1,
                        scale >= 1,
                ;
                assert(scale * (total - 1) == scale * total - scale) by (nonlinear_arith);
                lemma_sum_prefix_ge(self.symbol_count@, k as int + 1, syms);
                assert(sum_prefix(self.symbol_count@, k as int + 1) == sum
                    + self.symbol_count@[k as int]);
            }
            let x: u32 = scale * sum;
            proof {
                if k >= 1 {
                    let prev = sum_prefix(self.symbol_count@, k as int - 1);
                    lemma_sum_prefix_ge(self.symbol_count@, 0, k as int - 1);
                    assert(sum == prev + self.symbol_count@[k as int - 1]);
                    assert(sum >= prev + 1);
                    assert(scale * sum >= scale * (prev + 1)) by (nonlinear_arith)
                        requires
                            sum >= prev + 1,
                            scale >= 1,
                            prev >= 0,
                    ;
                    assert(scale * (prev + 1) == scale * prev + scale) by (nonlinear_arith);
                    vstd::arithmetic::div_mod::lemma_div_plus_one(scale as int * prev, 65536int);
                    vstd::arithmetic::div_mod::lemma_div_is_ordered(
                        scale as int * prev + 65536,
                        scale as int * sum,
                        65536int,
                    );
                    assert(x / 65536 > self.distribution@[k - 1]);
                }
            }
            self.distribution[k] = x / 65536;
            sum = sum + self.symbol_count[k];
            k += 1;
        }
        self.update_cycle = (5 * self.update_cycle) / 4;
        proof {
            lemma_fundamental_div_mod((5 * old(self).update_cycle) as int, 4int);
        }
        let max_cycle: u32 = (self.symbols + 6) * 8;
        if self.update_cycle > max_cycle {
            self.update_cycle = max_cycle;
        }
        self.symbols_until_update = self.update_cycle;
    }
}

/// An adaptive model for a binary alphabet: a scaled probability of the
/// zero bit, adapted from running zero and total bit counts.
pub struct ArithmeticBitModel {
    pub bit_0_count: u32,
    pub bit_count: u32,
    pub bit_0_prob: u32,
    pub update_cycle: u32,
    pub bits_until_update: u32,
}

impl ArithmeticBitModel {
    /// Counts stay positive, the zero count never exceeds what the
    /// total will be once the pending bits are folded in, and the
    /// scaled probability fits the 13-bit scale.
    pub open spec fn wf(self) -> bool {
        &&& 1 <= self.bit_0_count
        &&& 2 <= self.bit_count <= BM_MAX_COUNT
        &&& 1 <= self.update_cycle <= 64
        &&& 1 <= self.bits_until_update <= self.update_cycle
        &&& self.bit_0_count + self.bits_until_update + 1 <= self.bit_count + self.update_cycle
        &&& 1 <= self.bit_0_prob <= 8191
    }

    /// The initial state: one zero out of two bits, even probability,
    /// first update after four bits.
    pub fn new() -> (r: ArithmeticBitModel)
        ensures
            r.wf(),
    {
        ArithmeticBitModel {
            bit_0_count: 1,
            bit_count: 2,
            bit_0_prob: 4096,
            update_cycle: 4,
            bits_until_update: 4,
        }
    }

    /// Counts one coded bit; rebuilds the scaled probability when the
    /// update cycle has elapsed.
    pub fn count_bit(&mut self, zero: bool)
        requires
            old(self).wf(),
        ensures
            final(self).wf(),
    {
        if zero {
            self.bit_0_count = self.bit_0_count + 1;
        }
        self.bits_until_update = self.bits_until_update - 1;
        if self.bits_until_update == 0 {
            self.update();
        }
    }

    /// Folds the pending bits into the total, halves the counts when
    /// the total passes its threshold, and recomputes the scaled
    /// zero-bit probability.
    fn update(&mut self)
        requires
            1 <= old(self).bit_0_count,
            2 <= old(self).bit_count <= BM_MAX_COUNT,
            1 <= old(self).update_cycle <= 64,
            old(self).bit_0_count + 1 <= old(self).bit_count + old(self).update_cycle,
        ensures
            final(self).wf(),
    {
        self.bit_count = self.bit_count + self.update_cycle;
        if self.bit_count > BM_MAX_COUNT {
            self.bit_count = (self.bit_count + 1) / 2;
            self.bit_0_count = (self.bit_0_count + 1) / 2;
            if self.bit_0_count == self.bit_count {
                self.bit_count = self.bit_count + 1;
            }
        }
        let scale: u32 = 0x8000_0000u32 / self.bit_count;
        proof {
            lemma_fundamental_div_mod(0x8000_0000int, self.bit_count as int);
            vstd::arithmetic::div_mod::lemma_mod_division_less_than_divisor(
                0x8000_0000int,
                self.bit_count as int,
            );
            vstd::arithmetic::div_mod::lemma_div_is_ordered_by_denominator(
                0x8000_0000int,
                self.bit_count as int,
                8192int,
            );
            assert(0x8000_0000int % (self.bit_count as int) >= 0);
            assert(scale >= 262144);
            assert(self.bit_0_count * scale <= (self.bit_count - 1) * scale) by (nonlinear_arith)
                requires
                    self.bit_0_count <= self.bit_count - 1,
                    scale >= 0,
            ;
            assert((self.bit_count - 1) * scale == self.bit_count * scale - scale)
                by (nonlinear_arith);
            assert(self.bit_0_count * scale >= 1 * scale) by (nonlinear_arith)
                requires
                    self.bit_0_count >= 1,
                    scale >= 0,
            ;
            assert((self.bit_count as int) * (scale as int) == (scale as int) * (
            self.bit_count as int)) by (nonlinear_arith);
            vstd::arithmetic::div_mod::lemma_div_is_ordered(
                0x40000int,
                self.bit_0_count as int * scale as int,
                0x40000int,
            );
            vstd::arithmetic::div_mod::lemma_div_is_ordered(
                self.bit_0_count as int * scale as int,
                0x8000_0000int - 262144,
                0x40000int,
            );
            assert((0x8000_0000int - 262144) / 0x40000int == 8191);
        }
        self.bit_0_prob = (self.bit_0_count * scale) / 0x40000;
        self.update_cycle = (5 * self.update_cycle) / 4;
        if self.update_cycle > 64 {
            self.update_cycle = 64;
        }
        self.bits_until_update = self.update_cycle;
    }
}

/// Builds [`ArithmeticModel`]s of a chosen alphabet size.
pub struct ArithmeticModelBuilder {
    pub symbols: u32,
}

impl ArithmeticModelBuilder {
    /// Remembers the alphabet size.
    pub fn new(symbols: u32) -> (r: ArithmeticModelBuilder)
        requires
            2 <= symbols <= 2048,
        ensures
            r.symbols == symbols,
    {
        ArithmeticModelBuilder { symbols }
    }

    /// Builds the model in its initial state.
    pub fn build(&self) -> (r: ArithmeticModel)
        requires
            2 <= self.symbols <= 2048,
        ensures
            r.wf(),
            r.symbols == self.symbols,
    {
        ArithmeticModel::new(self.symbols)
    }
}

} // verus!
