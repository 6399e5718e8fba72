//! Extraction windows: a percentage range over the *count* of source objects.
//!
//! Object position `c` (one-based) of `n` total is inside the window
//! `[start, end]` iff `start <= 100*c/n <= end`. Percentages carry four
//! decimal places: they are stored scaled by `PCT_SCALE`, and the test is
//! evaluated exactly over the integers by cross-multiplication.

use vstd::prelude::*;

verus! {

/// A stored percentage is the real percentage times this factor.
pub const PCT_SCALE: u64 = 10_000;

/// An extraction window; both bounds are percentages scaled by `PCT_SCALE`.
#[derive(Clone, Copy, PartialEq, Eq, Structural, Debug)]
pub struct Window {
    pub start_scaled: u32,
    pub end_scaled: u32,
}

/// Exact meaning of the window test: position `c` of `n` is included iff
/// `start <= 100*c/n <= end`, evaluated over the rationals by
/// cross-multiplication. An empty log (`n == 0`) includes no position.
pub open spec fn in_window(w: Window, c: int, n: int) -> bool {
    &&& n > 0
    &&& w.start_scaled * n <= 100 * PCT_SCALE * c
    &&& 100 * PCT_SCALE * c <= w.end_scaled * n
}

impl Window {
    pub fn new(start_scaled: u32, end_scaled: u32) -> (w: Window)
        ensures
            w.start_scaled == start_scaled,
            w.end_scaled == end_scaled,
    {
        Window { start_scaled, end_scaled }
    }

    /// Decides whether one-based position `c` of `n` total objects lies
    /// inside the window.
    pub fn contains_position(&self, c: u32, n: u32) -> (r: bool)
        ensures
            r == in_window(*self, c as int, n as int),
    {
        if n == 0 {
            return false;
        }
        proof {
            lemma_u32_mul_fits(self.start_scaled as int, n as int);
            lemma_u32_mul_fits(self.end_scaled as int, n as int);
            lemma_u32_mul_fits(100 * PCT_SCALE as int, c as int);
        }
        let lhs: u64 = (self.start_scaled as u64) * (n as u64);
        let mid: u64 = 100 * PCT_SCALE * (c as u64);
        let rhs: u64 = (self.end_scaled as u64) * (n as u64);
        lhs <= mid && mid <= rhs
    }

    /// Decides whether one-based position `c` of `n` total objects lies
    /// strictly above the window; scanning stops there for good.
    pub fn past_end(&self, c: u32, n: u32) -> (r: bool)
        ensures
            r == (100 * PCT_SCALE * c > self.end_scaled * n),
    {
        proof {
            lemma_u32_mul_fits(self.end_scaled as int, n as int);
            lemma_u32_mul_fits(100 * PCT_SCALE as int, c as int);
        }
        let mid: u64 = 100 * PCT_SCALE * (c as u64);
        let rhs: u64 = (self.end_scaled as u64) * (n as u64);
        mid > rhs
    }
}

/// The product of two values below `2^32` fits in a `u64`.
pub proof fn lemma_u32_mul_fits(a: int, b: int)
    requires
        0 <= a <= 0xFFFF_FFFF,
        0 <= b <= 0xFFFF_FFFF,
    ensures
        0 <= a * b <= u64::MAX,
{
    assert(a * b <= 0xFFFF_FFFF * 0xFFFF_FFFF) by (nonlinear_arith)
        requires 0 <= a <= 0xFFFF_FFFF, 0 <= b <= 0xFFFF_FFFF;
    assert(0 <= a * b) by (nonlinear_arith)
        requires 0 <= a, 0 <= b;
}

/// Once a position is past the window's upper bound, every later position is
/// too: the fractional position grows with the index.
pub proof fn lemma_past_end_stays(w: Window, c1: int, c2: int, n: int)
    requires
        0 <= c1 <= c2,
        n >= 0,
        100 * PCT_SCALE * c1 > w.end_scaled * n,
    ensures
        100 * PCT_SCALE * c2 > w.end_scaled * n,
{
    assert(100 * PCT_SCALE * c1 <= 100 * PCT_SCALE * c2) by (nonlinear_arith)
        requires 0 <= c1 <= c2;
}

/// Widening a window never drops a position: whatever the narrower window
/// includes, the wider one includes too.
pub proof fn lemma_widen_in_window(w1: Window, w2: Window, c: int, n: int)
    requires
        w2.start_scaled <= w1.start_scaled,
        w1.end_scaled <= w2.end_scaled,
        n >= 0,
        in_window(w1, c, n),
    ensures
        in_window(w2, c, n),
{
    assert(w2.start_scaled * n <= w1.start_scaled * n) by (nonlinear_arith)
        requires w2.start_scaled <= w1.start_scaled, n >= 0;
    assert(w1.end_scaled * n <= w2.end_scaled * n) by (nonlinear_arith)
        requires w1.end_scaled <= w2.end_scaled, n >= 0;
}

} // verus!
