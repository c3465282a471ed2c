//! Helpers shared by the codecs: the rolling-window streaming median used
//! by the version 2 coordinate predictors, the two return-geometry tables
//! that select version 2 context buckets, and a bit helper for deriving
//! contexts from corrector bit counts.

use vstd::prelude::*;

verus! {

/// The window state after one sample is added.  Mirrors the insertion
/// walk of [`StreamingMedian::add`]: the new state is a function of the
/// old window, the phase flag and the sample alone.
pub open spec fn spec_median_add_values(s: Seq<i32>, high: bool, v: i32) -> Seq<i32> {
    if high {
        if v < s[2] {
            let t = s.update(4, s[3]).update(3, s[2]);
            if v < s[0] {
                t.update(2, s[1]).update(1, s[0]).update(0, v)
            } else if v < s[1] {
                t.update(2, s[1]).update(1, v)
            } else {
                t.update(2, v)
            }
        } else {
            if v < s[3] {
                s.update(4, s[3]).update(3, v)
            } else {
                s.update(4, v)
            }
        }
    } else {
        if s[2] < v {
            let t = s.update(0, s[1]).update(1, s[2]);
            if s[4] < v {
                t.update(2, s[3]).update(3, s[4]).update(4, v)
            } else if s[3] < v {
                t.update(2, s[3]).update(3, v)
            } else {
                t.update(2, v)
            }
        } else {
            if s[1] < v {
                s.update(0, s[1]).update(1, v)
            } else {
                s.update(0, v)
            }
        }
    }
}

/// The phase flag after one sample is added.
pub open spec fn spec_median_add_high(s: Seq<i32>, high: bool, v: i32) -> bool {
    if high {
        v < s[2]
    } else {
        !(s[2] < v)
    }
}

/// A five-sample rolling window that yields an approximate median in
/// constant time.  New samples push the oldest extreme out; the `high`
/// flag alternates which side of the window gives way.  The all-zero
/// initial state is valid.
pub struct StreamingMedian {
    pub values: [i32; 5],
    pub high: bool,
}

impl StreamingMedian {
    /// The zero window: five zero samples, high phase.
    pub fn new() -> (r: StreamingMedian)
        ensures
            r.values@ =~= seq![0i32, 0i32, 0i32, 0i32, 0i32],
            r.high == true,
    {
        StreamingMedian { values: [0, 0, 0, 0, 0], high: true }
    }

    /// Adds one sample.  The new window and phase are pinned as a
    /// function of the old state and the sample, so identical
    /// add-sequences from equal states always yield identical windows.
    pub fn add(&mut self, v: i32)
        ensures
            final(self).values@ == spec_median_add_values(
                old(self).values@,
                old(self).high,
                v,
            ),
            final(self).high == spec_median_add_high(old(self).values@, old(self).high, v),
    {
        if self.high {
            if v < self.values[2] {
                self.values[4] = self.values[3];
                self.values[3] = self.values[2];
                if v < self.values[0] {
                    self.values[2] = self.values[1];
                    self.values[1] = self.values[0];
                    self.values[0] = v;
                } else if v < self.values[1] {
                    self.values[2] = self.values[1];
                    self.values[1] = v;
                } else {
                    self.values[2] = v;
                }
            } else {
                if v < self.values[3] {
                    self.values[4] = self.values[3];
                    self.values[3] = v;
                } else {
                    self.values[4] = v;
                }
                self.high = false;
            }
        } else {
            if self.values[2] < v {
                self.values[0] = self.values[1];
                self.values[1] = self.values[2];
                if self.values[4] < v {
                    self.values[2] = self.values[3];
                    self.values[3] = self.values[4];
                    self.values[4] = v;
                } else if self.values[3] < v {
                    self.values[2] = self.values[3];
                    self.values[3] = v;
                } else {
                    self.values[2] = v;
                }
            } else {
                if self.values[1] < v {
                    self.values[0] = self.values[1];
                    self.values[1] = v;
                } else {
                    self.values[0] = v;
                }
                self.high = true;
            }
        }
    }

    /// The current median: the middle slot of the window.
    pub fn get(&self) -> (r: i32)
        ensures
            r == self.values@[2],
    {
        self.values[2]
    }
}

/// Row `n` of the return-geometry bucket table.
pub open spec fn spec_number_return_map_row(n: int) -> Seq<int> {
    if n == 0 {
        seq![15, 14, 13, 12, 11, 10, 9, 8]
    } else if n == 1 {
        seq![14, 0, 1, 3, 6, 10, 10, 9]
    } else if n == 2 {
        seq![13, 1, 2, 4, 7, 11, 11, 10]
    } else if n == 3 {
        seq![12, 3, 4, 5, 8, 12, 12, 11]
    } else if n == 4 {
        seq![11, 6, 7, 8, 9, 13, 13, 12]
    } else if n == 5 {
        seq![10, 10, 11, 12, 13, 14, 14, 13]
    } else if n == 6 {
        seq![9, 10, 11, 12, 13, 14, 15, 14]
    } else {
        seq![8, 9, 10, 11, 12, 13, 14, 15]
    }
}

/// The intensity / coordinate-median bucket `m` selected by a point's
/// number of returns `n` and return number `r`; always below 16.
pub open spec fn spec_number_return_map(n: int, r: int) -> int {
    spec_number_return_map_row(n)[r]
}

/// The height bucket `l` selected by `n` and `r`: their absolute
/// difference, always below 8.
pub open spec fn spec_number_return_level(n: int, r: int) -> int {
    if n >= r {
        n - r
    } else {
        r - n
    }
}

/// Looks up the intensity / coordinate-median bucket for a point with
/// `n` returns of which it is return `r`.
pub fn number_return_map(n: u8, r: u8) -> (m: u8)
    requires
        n < 8,
        r < 8,
    ensures
        m == spec_number_return_map(n as int, r as int),
        m < 16,
{
    let row: [u8; 8] = if n == 0 {
        [15, 14, 13, 12, 11, 10, 9, 8]
    } else if n == 1 {
        [14, 0, 1, 3, 6, 10, 10, 9]
    } else if n == 2 {
        [13, 1, 2, 4, 7, 11, 11, 10]
    } else if n == 3 {
        [12, 3, 4, 5, 8, 12, 12, 11]
    } else if n == 4 {
        [11, 6, 7, 8, 9, 13, 13, 12]
    } else if n == 5 {
        [10, 10, 11, 12, 13, 14, 14, 13]
    } else if n == 6 {
        [9, 10, 11, 12, 13, 14, 15, 14]
    } else {
        [8, 9, 10, 11, 12, 13, 14, 15]
    };
    proof {
        assert forall|j: int| 0 <= j < 8 implies row@[j] == spec_number_return_map_row(
            n as int,
        )[j] && row@[j] < 16 by {}
    }
    row[r as usize]
}

/// Looks up the height bucket for a point with `n` returns of which it
/// is return `r`.
pub fn number_return_level(n: u8, r: u8) -> (l: u8)
    requires
        n < 8,
        r < 8,
    ensures
        l == spec_number_return_level(n as int, r as int),
        l < 8,
{
    if n >= r {
        n - r
    } else {
        r - n
    }
}

/// A signed 32-bit value wrapped back into range after one addition or
/// subtraction.
pub open spec fn spec_wrap32(d: int) -> int {
    if d < -0x8000_0000 {
        d + 0x1_0000_0000
    } else if d > 0x7fff_ffff {
        d - 0x1_0000_0000
    } else {
        d
    }
}

/// The coordinate residual `a - b`, wrapping around the 32-bit range as
/// the wire format demands.
pub fn i32_wrapping_diff(a: i32, b: i32) -> (r: i32)
    ensures
        r as int == spec_wrap32(a - b),
{
    let mut d: i64 = a as i64 - b as i64;
    if d < -0x8000_0000i64 {
        d = d + 0x1_0000_0000i64;
    } else if d > 0x7fff_ffffi64 {
        d = d - 0x1_0000_0000i64;
    }
    d as i32
}

/// The sum `a + b`, wrapping around the 32-bit range: how a decoded
/// residual is applied to the previous coordinate.
pub fn i32_wrapping_sum(a: i32, b: i32) -> (r: i32)
    ensures
        r as int == spec_wrap32(a + b),
{
    let mut d: i64 = a as i64 + b as i64;
    if d < -0x8000_0000i64 {
        d = d + 0x1_0000_0000i64;
    } else if d > 0x7fff_ffffi64 {
        d = d - 0x1_0000_0000i64;
    }
    d as i32
}

/// Clears the least-significant bit: the coordinate coders pair adjacent
/// corrector bit counts into one context.
pub fn u32_zero_bit(n: u32) -> (r: u32)
    ensures
        r == n & 0xffff_fffeu32,
        r <= n,
        r % 2 == 0,
{
    proof {
        assert(n & 0xffff_fffeu32 <= n && (n & 0xffff_fffeu32) % 2 == 0) by (bit_vector);
    }
    n & 0xffff_fffe
}

} // verus!
