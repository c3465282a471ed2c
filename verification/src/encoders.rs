//! The arithmetic range encoder.
//!
//! The encoder narrows a 32-bit interval `[base, base + length)` as
//! symbols are coded, emits the top byte of `base` whenever `length`
//! falls below 2^24, and propagates the occasional carry into the bytes
//! already emitted.  Its output is collected in an in-memory byte
//! vector.  `base` wraps modulo 2^32 exactly as the wire format
//! demands; `length` stays positive because the models' distributions
//! are strictly increasing.

use vstd::prelude::*;
use vstd::arithmetic::div_mod::lemma_div_is_ordered;
use vstd::arithmetic::div_mod::lemma_div_is_ordered_by_denominator;
use vstd::arithmetic::div_mod::lemma_fundamental_div_mod;
use vstd::arithmetic::div_mod::lemma_mod_division_less_than_divisor;
use crate::models::ArithmeticBitModel;
use crate::models::ArithmeticModel;

verus! {

/// Lower bound of the coding interval's length; renormalization keeps
/// `length` at or above it.
pub const AC_MIN_LENGTH: u32 = 0x0100_0000;

/// The full interval length the coder starts from.
pub const AC_MAX_LENGTH: u32 = 0xffff_ffff;

/// One coding step, as the ghost log of an encoder or decoder records
/// it: a symbol on a general model, a bit on a bit model, or a run of
/// raw bits.  The log pins what a stream carries without restating the
/// interval arithmetic that serializes it.
pub enum Coded {
    Symbol(u32),
    Bit(u32),
    RawBits(u32, u32),
}

/// The log entries of one raw-bit write: widths above 19 are split
/// into the low sixteen bits and the rest, low first.
pub open spec fn spec_raw_entries(bits: u32, sym: u32) -> Seq<Coded> {
    if bits > 19 {
        seq![Coded::RawBits(16, sym & 0xffff), Coded::RawBits((bits - 16) as u32, sym >> 16)]
    } else {
        seq![Coded::RawBits(bits, sym)]
    }
}

/// Bounds the quotient `length / d` both ways from bounds on `length`.
proof fn lemma_quotient_bounds(length: u32, d: u32, lo: u32)
    requires
        1 <= d,
        lo <= length,
    ensures
        (lo / d) <= length / d <= 0xffff_ffffu32 / d,
        d * (length / d) <= length,
{
    lemma_div_is_ordered(lo as int, length as int, d as int);
    lemma_div_is_ordered(length as int, 0xffff_ffffint, d as int);
    lemma_fundamental_div_mod(length as int, d as int);
    lemma_mod_division_less_than_divisor(length as int, d as int);
}

/// An in-flight arithmetic encoder and the bytes it has emitted so far.
pub struct ArithmeticEncoder {
    pub out: Vec<u8>,
    pub base: u32,
    pub length: u32,
    /// Ghost log of every symbol, bit and raw-bit run coded so far.
    pub coded: Ghost<Seq<Coded>>,
}

impl ArithmeticEncoder {
    /// The interval is always kept renormalized.
    pub open spec fn wf(self) -> bool {
        self.length >= AC_MIN_LENGTH
    }

    /// A fresh encoder: nothing emitted, the full interval ahead.
    pub fn new() -> (r: ArithmeticEncoder)
        ensures
            r.wf(),
            r.out@.len() == 0,
            r.base == 0,
            r.length == AC_MAX_LENGTH,
            r.coded@ == Seq::<Coded>::empty(),
    {
        ArithmeticEncoder { out: Vec::new(), base: 0, length: AC_MAX_LENGTH, coded: Ghost(Seq::empty()) }
    }

    /// Narrows the interval to the slice of `model`'s distribution that
    /// belongs to `sym`, then counts the symbol so the model adapts.
    pub fn encode_symbol(&mut self, model: &mut ArithmeticModel, sym: u32)
        requires
            old(self).wf(),
            old(model).wf(),
            sym < old(model).symbols,
        ensures
            final(self).wf(),
            final(model).wf(),
            final(model).symbols == old(model).symbols,
            final(self).out@.len() >= old(self).out@.len(),
            final(self).coded@ == old(self).coded@.push(Coded::Symbol(sym)),
    {
        self.coded = Ghost(self.coded@.push(Coded::Symbol(sym)));
        let ls: u32 = self.length / 32768;
        proof {
            lemma_quotient_bounds(self.length, 32768, AC_MIN_LENGTH);
        }
        let d: u32 = model.distribution[sym as usize];
        let init_base: u32 = self.base;
        if sym == model.last_symbol {
            proof {
                assert(d * ls <= 32767 * ls) by (nonlinear_arith)
                    requires
                        d <= 32767,
                        ls >= 0,
                ;
                assert(32767 * ls == 32768 * ls - ls) by (nonlinear_arith);
            }
            let x: u32 = d * ls;
            self.base = self.base.wrapping_add(x);
            self.length = self.length - x;
        } else {
            let d1: u32 = model.distribution[(sym + 1) as usize];
            proof {
                assert(d1 * ls <= 32767 * ls) by (nonlinear_arith)
                    requires
                        d1 <= 32767,
                        ls >= 0,
                ;
                assert(32767 * ls == 32768 * ls - ls) by (nonlinear_arith);
                assert(d * ls + ls <= d1 * ls) by (nonlinear_arith)
                    requires
                        d + 1 <= d1,
                        ls >= 0,
                ;
            }
            let x: u32 = d * ls;
            self.base = self.base.wrapping_add(x);
            self.length = d1 * ls - x;
        }
        if init_base > self.base {
            self.propagate_carry();
        }
        if self.length < AC_MIN_LENGTH {
            self.renorm_enc_interval();
        }
        model.count_symbol(sym);
    }

    /// Narrows the interval by the zero-bit probability of `model`,
    /// then counts the bit so the model adapts.
    pub fn encode_bit(&mut self, model: &mut ArithmeticBitModel, bit: u32)
        requires
            old(self).wf(),
            old(model).wf(),
        ensures
            final(self).wf(),
            final(model).wf(),
            final(self).out@.len() >= old(self).out@.len(),
            final(self).coded@ == old(self).coded@.push(Coded::Bit(bit)),
    {
        self.coded = Ghost(self.coded@.push(Coded::Bit(bit)));
        let ls: u32 = self.length / 8192;
        proof {
            lemma_quotient_bounds(self.length, 8192, AC_MIN_LENGTH);
            assert(model.bit_0_prob * ls <= 8191 * ls) by (nonlinear_arith)
                requires
                    model.bit_0_prob <= 8191,
                    ls >= 0,
            ;
            assert(8191 * ls == 8192 * ls - ls) by (nonlinear_arith);
            assert(model.bit_0_prob * ls >= 1 * ls) by (nonlinear_arith)
                requires
                    model.bit_0_prob >= 1,
                    ls >= 0,
            ;
        }
        let x: u32 = model.bit_0_prob * ls;
        if bit == 0 {
            self.length = x;
        } else {
            let init_base: u32 = self.base;
            self.base = self.base.wrapping_add(x);
            self.length = self.length - x;
            if init_base > self.base {
                self.propagate_carry();
            }
        }
        if self.length < AC_MIN_LENGTH {
            self.renorm_enc_interval();
        }
        model.count_bit(bit == 0);
    }

    /// Stores `bits` raw bits of `sym` in the interval, the low sixteen
    /// through [`Self::write_short`] for widths above 19.
    pub fn write_bits(&mut self, bits: u32, sym: u32)
        requires
            old(self).wf(),
            0 < bits < 32,
        ensures
            final(self).wf(),
            final(self).out@.len() >= old(self).out@.len(),
            final(self).coded@ == old(self).coded@ + spec_raw_entries(bits, sym),
    {
        let ghost obits = bits;
        let ghost osym = sym;
        let mut bits: u32 = bits;
        let mut sym: u32 = sym;
        if bits > 19 {
            self.write_short(sym & 0xffff);
            sym = sym >> 16;
            bits = bits - 16;
        }
        self.coded = Ghost(self.coded@.push(Coded::RawBits(bits, sym)));
        proof {
            assert(self.coded@ =~= old(self).coded@ + spec_raw_entries(obits, osym));
        }
        let d: u32 = 1u32 << bits;
        proof {
            let b = bits;
            assert(b <= 19 ==> 1u32 <= (1u32 << b) <= 0x80000) by (bit_vector);
            lemma_quotient_bounds(self.length, d, AC_MIN_LENGTH);
            lemma_div_is_ordered_by_denominator(AC_MIN_LENGTH as int, d as int, 0x80000int);
        }
        let init_base: u32 = self.base;
        self.length = self.length / d;
        self.base = self.base.wrapping_add(sym.wrapping_mul(self.length));
        if init_base > self.base {
            self.propagate_carry();
        }
        if self.length < AC_MIN_LENGTH {
            self.renorm_enc_interval();
        }
    }

    /// Stores 16 raw bits of `sym` in the interval.
    pub fn write_short(&mut self, sym: u32)
        requires
            old(self).wf(),
        ensures
            final(self).wf(),
            final(self).out@.len() >= old(self).out@.len(),
            final(self).coded@ == old(self).coded@.push(Coded::RawBits(16, sym)),
    {
        self.coded = Ghost(self.coded@.push(Coded::RawBits(16, sym)));
        proof {
            lemma_quotient_bounds(self.length, 65536, AC_MIN_LENGTH);
        }
        let init_base: u32 = self.base;
        self.length = self.length / 65536;
        self.base = self.base.wrapping_add(sym.wrapping_mul(self.length));
        if init_base > self.base {
            self.propagate_carry();
        }
        if self.length < AC_MIN_LENGTH {
            self.renorm_enc_interval();
        }
    }

    /// Flushes the interval: picks a short tail value inside it and
    /// emits the remaining bytes.  Call once, after the last symbol.
    pub fn done(&mut self)
        requires
            old(self).wf(),
        ensures
            final(self).wf(),
            final(self).out@.len() > old(self).out@.len(),
            final(self).coded@ == old(self).coded@,
    {
        let init_base: u32 = self.base;
        if self.length > 2 * AC_MIN_LENGTH {
            self.base = self.base.wrapping_add(AC_MIN_LENGTH);
            self.length = AC_MIN_LENGTH / 2;
        } else {
            self.base = self.base.wrapping_add(AC_MIN_LENGTH / 2);
            self.length = AC_MIN_LENGTH / 512;
        }
        if init_base > self.base {
            self.propagate_carry();
        }
        self.renorm_enc_interval();
    }

    /// Gives out the emitted bytes, consuming the encoder.
    pub fn into_bytes(self) -> (r: Vec<u8>)
        ensures
            r@ == self.out@,
    {
        self.out
    }

    /// How many bytes have been emitted so far.
    pub fn len(&self) -> (r: usize)
        ensures
            r == self.out@.len(),
    {
        self.out.len()
    }

    /// Adds one to the number formed by the emitted bytes: the interval
    /// base wrapped past 2^32, so the wrap carries into the output.
    fn propagate_carry(&mut self)
        ensures
            final(self).out@.len() == old(self).out@.len(),
            final(self).base == old(self).base,
            final(self).length == old(self).length,
            final(self).coded@ == old(self).coded@,
    {
        let mut i: usize = self.out.len();
        let mut done: bool = false;
        while i > 0 && !done
            invariant
                i <= self.out@.len(),
                self.out@.len() == old(self).out@.len(),
                self.base == old(self).base,
                self.length == old(self).length,
                self.coded@ == old(self).coded@,
            decreases i,
        {
            i = i - 1;
            if self.out[i] == 0xff {
                self.out[i] = 0;
            } else {
                let b: u8 = self.out[i];
                self.out[i] = b + 1;
                done = true;
            }
        }
    }

    /// Emits top bytes of `base` until the interval length is back at
    /// or above its lower bound.
    fn renorm_enc_interval(&mut self)
        requires
            old(self).length >= 1,
        ensures
            final(self).wf(),
            final(self).out@.len() >= old(self).out@.len(),
            old(self).length < AC_MIN_LENGTH ==> final(self).out@.len() > old(self).out@.len(),
            final(self).coded@ == old(self).coded@,
    {
        while self.length < AC_MIN_LENGTH
            invariant
                self.length >= 1,
                self.out@.len() >= old(self).out@.len(),
                self.coded@ == old(self).coded@,
                old(self).length < AC_MIN_LENGTH && self.length >= AC_MIN_LENGTH ==> self.out@.len()
                    > old(self).out@.len(),
            decreases (if self.length < AC_MIN_LENGTH {
                AC_MIN_LENGTH - self.length
            } else {
                0int
            }),
        {
            self.out.push(#[verifier::truncate] ((self.base >> 24) as u8));
            self.base = self.base << 8;
            self.length = self.length * 256;
        }
    }
}

} // verus!
