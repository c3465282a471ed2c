//! The arithmetic range decoder.
//!
//! The decoder mirrors the encoder: it keeps the interval length and
//! the code `value` still to be resolved, finds each symbol by
//! bisecting the model's strictly increasing distribution, and pulls
//! one byte into `value` per renormalization step.  Reading past the
//! end of the buffer yields zero bytes, which is exactly what the
//! encoder's flushed tail expects.

use vstd::prelude::*;
use vstd::arithmetic::div_mod::lemma_div_is_ordered;
use vstd::arithmetic::div_mod::lemma_fundamental_div_mod;
use vstd::arithmetic::div_mod::lemma_mod_division_less_than_divisor;
use crate::encoders::AC_MIN_LENGTH;
use crate::encoders::AC_MAX_LENGTH;
use crate::encoders::Coded;
use crate::models::ArithmeticBitModel;
use crate::models::ArithmeticModel;

verus! {

/// Bounds the quotient `length / d` both ways from bounds on `length`.
proof fn lemma_quotient_bounds(length: u32, d: u32, lo: u32)
    requires
        1 <= d,
        lo <= length,
    ensures
        (lo / d) <= length / d <= 0xffff_ffffu32 / d,
        d * (length / d) <= length,
{
    lemma_div_is_ordered(lo as int, length as int, d as int);
    lemma_div_is_ordered(length as int, 0xffff_ffffint, d as int);
    lemma_fundamental_div_mod(length as int, d as int);
    lemma_mod_division_less_than_divisor(length as int, d as int);
}

/// An arithmetic decoder over an in-memory compressed byte stream.
pub struct ArithmeticDecoder {
    pub buf: Vec<u8>,
    pub pos: usize,
    pub value: u32,
    pub length: u32,
    /// Ghost log of every symbol, bit and raw-bit run decoded so far.
    pub coded: Ghost<Seq<Coded>>,
}

impl ArithmeticDecoder {
    /// The interval is always kept renormalized.
    pub open spec fn wf(self) -> bool {
        self.length >= AC_MIN_LENGTH
    }

    /// A decoder positioned at the start of `buf`; call
    /// [`Self::read_init_bytes`] before the first symbol.
    pub fn new(buf: Vec<u8>) -> (r: ArithmeticDecoder)
        ensures
            r.wf(),
            r.buf@ == buf@,
            r.pos == 0,
            r.value == 0,
            r.length == AC_MAX_LENGTH,
            r.coded@ == Seq::<Coded>::empty(),
    {
        ArithmeticDecoder { buf, pos: 0, value: 0, length: AC_MAX_LENGTH, coded: Ghost(Seq::empty()) }
    }

    /// Loads the first four stream bytes into the code value.
    pub fn read_init_bytes(&mut self)
        ensures
            final(self).wf(),
            final(self).buf@ == old(self).buf@,
            final(self).coded@ == old(self).coded@,
    {
        let b0: u32 = self.read_byte() as u32;
        let b1: u32 = self.read_byte() as u32;
        let b2: u32 = self.read_byte() as u32;
        let b3: u32 = self.read_byte() as u32;
        self.value = (b0 << 24) | (b1 << 16) | (b2 << 8) | b3;
        self.length = AC_MAX_LENGTH;
    }

    /// Resolves the next symbol of `model` by bisecting its
    /// distribution, narrows the interval to that symbol's slice, and
    /// counts the symbol so the model adapts as it did when encoding.
    pub fn decode_symbol(&mut self, model: &mut ArithmeticModel) -> (sym: u32)
        requires
            old(self).wf(),
            old(model).wf(),
        ensures
            final(self).wf(),
            final(model).wf(),
            final(model).symbols == old(model).symbols,
            sym < old(model).symbols,
            final(self).coded@ == old(self).coded@.push(Coded::Symbol(sym)),
    {
        let ls: u32 = self.length / 32768;
        proof {
            lemma_quotient_bounds(self.length, 32768, AC_MIN_LENGTH);
        }
        let mut s: u32 = 0;
        let mut n: u32 = model.symbols;
        let mut x: u32 = 0;
        let mut y: u32 = self.length;
        let mut mid: u32 = n / 2;
        while mid != s
            invariant
                *self == *old(self),
                *model == *old(model),
                old(model).wf(),
                old(self).wf(),
                ls == self.length / 32768,
                512 <= ls <= 131071,
                32768 * ls <= self.length,
                s < n <= model.symbols,
                mid == (s + n) / 2,
                x <= self.value,
                (s == 0 && x == 0) || x == ls * model.distribution@[s as int],
                (n == model.symbols && y == self.length) || (n < model.symbols && y == ls
                    * model.distribution@[n as int]),
            decreases n - s,
        {
            proof {
                assert(ls * model.distribution@[mid as int] < 0x1_0000_0000) by (nonlinear_arith)
                    requires
                        ls <= 131071,
                        model.distribution@[mid as int] < 32768,
                ;
            }
            let z: u32 = ls * model.distribution[mid as usize];
            if z > self.value {
                n = mid;
                y = z;
            } else {
                s = mid;
                x = z;
            }
            mid = (s + n) / 2;
        }
        proof {
            lemma_dist_slice_fits(*model, ls, self.length, s as int, n as int, x, y);
        }
        self.value = self.value - x;
        self.length = y - x;
        if self.length < AC_MIN_LENGTH {
            self.renorm_dec_interval();
        }
        model.count_symbol(s);
        self.coded = Ghost(self.coded@.push(Coded::Symbol(s)));
        s
    }

    /// Resolves one bit against `model`'s zero probability, narrows
    /// the interval, and counts the bit.
    pub fn decode_bit(&mut self, model: &mut ArithmeticBitModel) -> (sym: u32)
        requires
            old(self).wf(),
            old(model).wf(),
        ensures
            final(self).wf(),
            final(model).wf(),
            sym <= 1,
            final(self).coded@ == old(self).coded@.push(Coded::Bit(sym)),
    {
        let ls: u32 = self.length / 8192;
        proof {
            lemma_quotient_bounds(self.length, 8192, AC_MIN_LENGTH);
            assert(model.bit_0_prob * ls <= 8191 * ls) by (nonlinear_arith)
                requires
                    model.bit_0_prob <= 8191,
                    ls >= 0,
            ;
            assert(8191 * ls == 8192 * ls - ls) by (nonlinear_arith);
            assert(model.bit_0_prob * ls >= 1 * ls) by (nonlinear_arith)
                requires
                    model.bit_0_prob >= 1,
                    ls >= 0,
            ;
        }
        let x: u32 = model.bit_0_prob * ls;
        let sym: u32 = if self.value >= x {
            1
        } else {
            0
        };
        if sym == 0 {
            self.length = x;
        } else {
            self.value = self.value - x;
            self.length = self.length - x;
        }
        if self.length < AC_MIN_LENGTH {
            self.renorm_dec_interval();
        }
        model.count_bit(sym == 0);
        self.coded = Ghost(self.coded@.push(Coded::Bit(sym)));
        sym
    }

    /// Reads `bits` raw bits, the low sixteen through
    /// [`Self::read_short`] for widths above 19.
    pub fn read_bits(&mut self, bits: u32) -> (sym: u32)
        requires
            old(self).wf(),
            0 < bits < 32,
        ensures
            final(self).wf(),
            bits <= 19 ==> final(self).coded@ == old(self).coded@.push(
                Coded::RawBits(bits, sym),
            ),
            bits > 19 ==> final(self).coded@.len() == old(self).coded@.len() + 2
                && final(self).coded@.subrange(0, old(self).coded@.len() as int) == old(
                self,
            ).coded@ && (final(self).coded@[old(self).coded@.len() as int] matches
                Coded::RawBits(b0, v0) && b0 == 16 && (final(self).coded@[old(
                self,
            ).coded@.len() as int + 1] matches Coded::RawBits(b1, v1) && b1 == bits - 16 && sym
                == (v1 << 16) | v0)),
    {
        if bits > 19 {
            let low: u32 = self.read_short();
            let hi: u32 = self.read_bits_core(bits - 16);
            proof {
                assert(self.coded@.subrange(0, old(self).coded@.len() as int) =~= old(
                    self,
                ).coded@);
            }
            (hi << 16) | low
        } else {
            self.read_bits_core(bits)
        }
    }

    /// Reads up to 19 raw bits from the interval.
    fn read_bits_core(&mut self, bits: u32) -> (sym: u32)
        requires
            old(self).wf(),
            0 < bits <= 19,
        ensures
            final(self).wf(),
            final(self).coded@ == old(self).coded@.push(Coded::RawBits(bits, sym)),
    {
        let d: u32 = 1u32 << bits;
        proof {
            let b = bits;
            assert(b <= 19 ==> 1u32 <= (1u32 << b) <= 0x80000) by (bit_vector);
            lemma_quotient_bounds(self.length, d, AC_MIN_LENGTH);
            vstd::arithmetic::div_mod::lemma_div_is_ordered_by_denominator(
                AC_MIN_LENGTH as int,
                d as int,
                0x80000int,
            );
        }
        self.length = self.length / d;
        let sym: u32 = self.value / self.length;
        self.value = self.value % self.length;
        if self.length < AC_MIN_LENGTH {
            self.renorm_dec_interval();
        }
        self.coded = Ghost(self.coded@.push(Coded::RawBits(bits, sym)));
        sym
    }

    /// Reads 16 raw bits from the interval.
    pub fn read_short(&mut self) -> (sym: u32)
        requires
            old(self).wf(),
        ensures
            final(self).wf(),
            final(self).coded@ == old(self).coded@.push(Coded::RawBits(16, sym)),
    {
        proof {
            lemma_quotient_bounds(self.length, 65536, AC_MIN_LENGTH);
        }
        self.length = self.length / 65536;
        let sym: u32 = self.value / self.length;
        self.value = self.value % self.length;
        if self.length < AC_MIN_LENGTH {
            self.renorm_dec_interval();
        }
        self.coded = Ghost(self.coded@.push(Coded::RawBits(16, sym)));
        sym
    }

    /// The next stream byte, or zero past the end of the buffer.
    fn read_byte(&mut self) -> (b: u8)
        ensures
            final(self).buf@ == old(self).buf@,
            final(self).value == old(self).value,
            final(self).length == old(self).length,
            final(self).coded@ == old(self).coded@,
    {
        if self.pos < self.buf.len() {
            let b: u8 = self.buf[self.pos];
            self.pos = self.pos + 1;
            b
        } else {
            0
        }
    }

    /// Pulls bytes into the code value until the interval length is
    /// back at or above its lower bound.
    fn renorm_dec_interval(&mut self)
        requires
            old(self).length >= 1,
        ensures
            final(self).wf(),
            final(self).buf@ == old(self).buf@,
            final(self).coded@ == old(self).coded@,
    {
        while self.length < AC_MIN_LENGTH
            invariant
                self.length >= 1,
                self.buf@ == old(self).buf@,
                self.coded@ == old(self).coded@,
            decreases (if self.length < AC_MIN_LENGTH {
                AC_MIN_LENGTH - self.length
            } else {
                0int
            }),
        {
            let b: u8 = self.read_byte();
            self.value = (self.value << 8) | (b as u32);
            self.length = self.length * 256;
        }
    }
}

/// At the end of the bisection the chosen slice `[x, y)` of the
/// interval is at least one distribution step wide, and its offset is
/// what the encoder added for the same symbol.
proof fn lemma_dist_slice_fits(
    model: ArithmeticModel,
    ls: u32,
    length: u32,
    s: int,
    n: int,
    x: u32,
    y: u32,
)
    requires
        model.wf(),
        512 <= ls <= 131071,
        32768 * ls <= length,
        0 <= s < n <= model.symbols,
        n == s + 1,
        (s == 0 && x == 0) || x == ls * model.distribution@[s],
        (n == model.symbols && y == length) || (n < model.symbols && y == ls
            * model.distribution@[n]),
    ensures
        x + ls <= y,
{
    if x != 0 || s != 0 {
        assert(x == ls * model.distribution@[s]);
        assert(ls * model.distribution@[s] <= 32767 * ls) by (nonlinear_arith)
            requires
                model.distribution@[s] < 32768,
                ls >= 0,
        ;
        assert(32767 * ls == 32768 * ls - ls) by (nonlinear_arith);
        if n < model.symbols {
            assert(ls * model.distribution@[s] + ls <= ls * model.distribution@[n])
                by (nonlinear_arith)
                requires
                    model.distribution@[s] + 1 <= model.distribution@[n],
                    ls >= 0,
            ;
        }
    } else {
        if n < model.symbols {
            if n > 1 {
                model.lemma_distribution_increasing(0, n);
            }
            assert(model.distribution@[n] >= 1);
            assert(ls * model.distribution@[n] >= ls * 1) by (nonlinear_arith)
                requires
                    model.distribution@[n] >= 1,
                    ls >= 0,
            ;
        }
    }
}

} // verus!
