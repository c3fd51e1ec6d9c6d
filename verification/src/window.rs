//! Analysis window functions.
//!
//! A window of width `N` weights the `N` samples of one analysis slice
//! before the transform, to reduce spectral leakage. Coefficients are
//! fixed-point values in millionths: `1_000_000` stands for weight one.
//!
//! The cosine behind the Hann and Hamming shapes is evaluated in pure
//! integer arithmetic: the angle is folded into `[0, pi/2]` by the
//! sine's symmetries, and the cosine there is summed by its Maclaurin
//! series through the fourteenth power, in fixed point at scale
//! `2^40`. The evaluation stays within `10^-9` of the exact value —
//! three orders of magnitude below the millionth grid — so each
//! coefficient carries the window formula onto that grid.

use vstd::prelude::*;

verus! {

use vstd::arithmetic::div_mod::lemma_div_is_ordered;
use vstd::arithmetic::div_mod::lemma_div_is_ordered_by_denominator;
use vstd::arithmetic::div_mod::lemma_div_multiples_vanish;
use vstd::arithmetic::div_mod::lemma_div_multiples_vanish_fancy;
use vstd::arithmetic::div_mod::lemma_div_of0;
use vstd::arithmetic::div_mod::lemma_div_pos_is_pos;

/// The fixed-point value standing for a coefficient of one.
pub const COEFF_ONE: u32 = 1_000_000;

/// One in the fixed-point scale of the trigonometric evaluation, `2^40`.
pub const FIX_ONE: u64 = 0x100_0000_0000;

/// `4 * pi^2` at the `2^40` scale, rounded to the nearest integer.
pub const FOUR_PI_SQ: u64 = 43_406_979_202_188;

/// The shape of an analysis window.
#[derive(Clone, Copy, Debug, PartialEq, Eq, Structural, Hash)]
pub enum Window {
    Bartlett,
    Hamming,
    /// Good default choice.
    Hann,
    Rectangular,
}

/// `x * y` for two values at the `2^40` scale.
pub open spec fn fix_mul_spec(x: int, y: int) -> int {
    x * y / 0x100_0000_0000
}

/// `(2 * pi * a / b)^2` at the `2^40` scale.
pub open spec fn angle_sq_fix(a: int, b: int) -> int {
    FOUR_PI_SQ * a * a / (b * b)
}

/// `sin(pi * a / b)^2` at the `2^40` scale for `a / b <= 1/4`, summed
/// as `(1 - cos(2 pi a / b)) / 2` by the cosine's Maclaurin series
/// through the fourteenth power, in Horner form: the successive
/// divisors 182, 132, ..., 2 are the products `(2k-1) * 2k`, and the
/// final `/ 4` is the leading `x^2 / 2!` halved once more.
pub open spec fn sin_sq_fix_small(a: int, b: int) -> int {
    let w = angle_sq_fix(a, b);
    let e7 = FIX_ONE - w / 182;
    let e6 = FIX_ONE - fix_mul_spec(w, e7) / 132;
    let e5 = FIX_ONE - fix_mul_spec(w, e6) / 90;
    let e4 = FIX_ONE - fix_mul_spec(w, e5) / 56;
    let e3 = FIX_ONE - fix_mul_spec(w, e4) / 30;
    let e2 = FIX_ONE - fix_mul_spec(w, e3) / 12;
    fix_mul_spec(w, e2) / 4
}

/// `sin(pi * n / width)^2` at the `2^40` scale for `0 <= n < width`,
/// folded into the first quarter period by `sin(pi (1 - t)) =
/// sin(pi t)` and `sin(pi t)^2 = 1 - sin(pi (1/2 - t))^2`.
pub open spec fn sin_sq_fix(n: int, width: int) -> int {
    let n1 = if 2 * n <= width {
        n
    } else {
        width - n
    };
    if 4 * n1 <= width {
        sin_sq_fix_small(n1, width)
    } else {
        FIX_ONE - sin_sq_fix_small(width - 2 * n1, 2 * width)
    }
}

/// `sin(pi * n / width)^2` in millionths, rounded to the nearest.
pub open spec fn sine_sq_millionths(n: int, width: int) -> int {
    (sin_sq_fix(n, width) * 1_000_000 + 0x80_0000_0000) / 0x100_0000_0000
}

/// Coefficient `n` of a window of the given kind and width, in
/// millionths of one, for `0 <= n < width`:
/// - rectangular: `1`;
/// - Bartlett: `1 - |n - width/2| / (width/2)`;
/// - Hann: `0.5 * (1 - cos(2 pi n / width)) = sin(pi n / width)^2`;
/// - Hamming: `25/46 - 21/46 * cos(2 pi n / width) = (4 + 42 * sin(pi n / width)^2) / 46`.
pub open spec fn window_coeff(kind: Window, n: int, width: int) -> int
    recommends
        0 <= n < width,
{
    match kind {
        Window::Rectangular => 1_000_000,
        Window::Bartlett => {
            let d = if 2 * n >= width {
                2 * n - width
            } else {
                width - 2 * n
            };
            1_000_000 * (width - d) / width
        },
        Window::Hann => sine_sq_millionths(n, width),
        Window::Hamming => (1_000_000 * (4 * FIX_ONE + 42 * sin_sq_fix(n, width)) + 23 * FIX_ONE)
            / (46 * FIX_ONE),
    }
}

/// `x * y` for two values at the `2^40` scale; the product of a value
/// at most one and any value stays below the latter.
fn fix_mul(x: u64, y: u64) -> (r: u64)
    requires
        x <= 0x400_0000_0000,
        y <= 0x100_0000_0000,
    ensures
        r as int == fix_mul_spec(x as int, y as int),
        r <= x,
{
    proof {
        assert(x * y <= x * 0x100_0000_0000 && x * 0x100_0000_0000 <= 0x400_0000_0000
            * 0x100_0000_0000) by (nonlinear_arith)
            requires
                0 <= x <= 0x400_0000_0000,
                0 <= y <= 0x100_0000_0000,
        ;
        lemma_div_is_ordered((x * y) as int, (x * 0x100_0000_0000) as int, 0x100_0000_0000);
        lemma_div_multiples_vanish(x as int, 0x100_0000_0000);
    }
    ((x as u128 * y as u128) / 0x100_0000_0000) as u64
}

/// One Horner step of the cosine series: `1 - x * e / c` at the
/// `2^40` scale. The bound `2_712_936_200_137` is `FOUR_PI_SQ / 16`
/// rounded up: the largest folded squared angle, `(pi/2)^2`, at the
/// scale.
fn horner_step(w: u64, e: u64, c: u64) -> (r: u64)
    requires
        w <= 2_712_936_200_137,
        e <= 0x100_0000_0000,
        12 <= c <= 182,
    ensures
        r as int == FIX_ONE - fix_mul_spec(w as int, e as int) / (c as int),
        r <= 0x100_0000_0000,
{
    let x = fix_mul(w, e);
    proof {
        lemma_div_is_ordered_by_denominator(x as int, 12, c as int);
        lemma_div_is_ordered(x as int, 2_712_936_200_137, 12);
    }
    FIX_ONE - x / c
}

/// `sin(pi * a / b)^2` at the `2^40` scale, on the reduced range
/// `a / b <= 1/4`, where the squared angle stays below
/// `(pi/2)^2 = FOUR_PI_SQ / 16` (rounded up, `2_712_936_200_137`).
fn sin_sq_small(a: u64, b: u64) -> (r: u64)
    requires
        1 <= b <= 0x80_0000,
        4 * a <= b,
    ensures
        r as int == sin_sq_fix_small(a as int, b as int),
        r <= 0x100_0000_0000,
{
    proof {
        assert(16 * (a * a) <= b * b && 1 <= b * b && a * a <= 0x20_0000 * 0x20_0000 && b * b
            <= 0x80_0000 * 0x80_0000) by (nonlinear_arith)
            requires
                0 <= a,
                4 * a <= b,
                1 <= b <= 0x80_0000,
        ;
        assert(FOUR_PI_SQ * a * a <= 2_712_936_200_137 * (b * b) && FOUR_PI_SQ * a * a
            <= FOUR_PI_SQ * (0x20_0000 * 0x20_0000) && 0 <= FOUR_PI_SQ * a * a)
            by (nonlinear_arith)
            requires
                16 * (a * a) <= b * b,
                0 <= a * a,
                1 <= b * b,
                a * a <= 0x20_0000 * 0x20_0000,
        ;
    }
    let ww: u128 = (FOUR_PI_SQ as u128) * (a as u128) * (a as u128) / ((b as u128) * (b as u128));
    proof {
        lemma_div_is_ordered(
            (FOUR_PI_SQ * a * a) as int,
            2_712_936_200_137 * ((b * b) as int),
            (b * b) as int,
        );
        lemma_div_multiples_vanish(2_712_936_200_137, (b * b) as int);
        lemma_div_pos_is_pos((FOUR_PI_SQ * a * a) as int, (b * b) as int);
    }
    let w = ww as u64;
    let e7 = FIX_ONE - w / 182;
    proof {
        lemma_div_is_ordered(w as int, 2_712_936_200_137, 182);
    }
    let e6 = horner_step(w, e7, 132);
    let e5 = horner_step(w, e6, 90);
    let e4 = horner_step(w, e5, 56);
    let e3 = horner_step(w, e4, 30);
    let e2 = horner_step(w, e3, 12);
    let x = fix_mul(w, e2);
    proof {
        lemma_div_is_ordered(x as int, 2_712_936_200_137, 4);
    }
    x / 4
}

/// `sin(pi * n / width)^2` at the `2^40` scale.
fn sin_sq_fix_exec(n: usize, width: usize) -> (r: u64)
    requires
        n < width,
        width <= 4_194_304,
    ensures
        r as int == sin_sq_fix(n as int, width as int),
        r <= 0x100_0000_0000,
{
    let nn = n as u64;
    let wd = width as u64;
    let n1 = if 2 * nn <= wd {
        nn
    } else {
        wd - nn
    };
    if 4 * n1 <= wd {
        sin_sq_small(n1, wd)
    } else {
        let s = sin_sq_small(wd - 2 * n1, 2 * wd);
        FIX_ONE - s
    }
}

impl Window {
    /// Every window shape.
    pub const ALL: [Window; 4] = [Window::Bartlett, Window::Hamming, Window::Hann, Window::Rectangular];

    /// Coefficient `n` of a window of this kind and the given width.
    pub fn coefficient(self, n: usize, width: usize) -> (r: u32)
        requires
            n < width,
            width <= 4_194_304,
        ensures
            r as int == window_coeff(self, n as int, width as int),
            r <= 1_000_000,
    {
        match self {
            Window::Rectangular => 1_000_000,
            Window::Bartlett => {
                let two_n = 2 * (n as u64);
                let w = width as u64;
                let d = if two_n >= w {
                    two_n - w
                } else {
                    w - two_n
                };
                let r = (1_000_000 * (w - d)) / w;
                proof {
                    assert(d <= w);
                    assert(1_000_000 * (w - d) <= 1_000_000 * w);
                    lemma_div_is_ordered((1_000_000 * (w - d)) as int, (1_000_000 * w) as int, w as int);
                    lemma_div_multiples_vanish(1_000_000, w as int);
                }
                r as u32
            },
            Window::Hann => {
                let s = sin_sq_fix_exec(n, width);
                proof {
                    assert(s * 1_000_000 <= 0x100_0000_0000 * 1_000_000);
                    lemma_div_multiples_vanish_fancy(1_000_000, 0x100_0000_0000 - 1, 0x100_0000_0000);
                    lemma_div_is_ordered(
                        (s * 1_000_000 + 0x80_0000_0000) as int,
                        0x100_0000_0000 * 1_000_000 + 0x100_0000_0000 - 1,
                        0x100_0000_0000,
                    );
                    lemma_div_pos_is_pos((s * 1_000_000 + 0x80_0000_0000) as int, 0x100_0000_0000);
                }
                (((s as u128) * 1_000_000 + 0x80_0000_0000) / 0x100_0000_0000) as u32
            },
            Window::Hamming => {
                let s = sin_sq_fix_exec(n, width);
                proof {
                    assert(1_000_000 * (4 * FIX_ONE + 42 * s) <= 46 * FIX_ONE * 1_000_000);
                    lemma_div_multiples_vanish_fancy(
                        1_000_000,
                        46 * (FIX_ONE as int) - 1,
                        46 * (FIX_ONE as int),
                    );
                    lemma_div_is_ordered(
                        (1_000_000 * (4 * FIX_ONE + 42 * s) + 23 * FIX_ONE) as int,
                        46 * (FIX_ONE as int) * 1_000_000 + 46 * (FIX_ONE as int) - 1,
                        46 * (FIX_ONE as int),
                    );
                    lemma_div_pos_is_pos(
                        (1_000_000 * (4 * FIX_ONE + 42 * s) + 23 * FIX_ONE) as int,
                        46 * (FIX_ONE as int),
                    );
                }
                ((1_000_000u128 * (4 * (FIX_ONE as u128) + 42 * (s as u128)) + 23 * (
                FIX_ONE as u128)) / (46 * (FIX_ONE as u128))) as u32
            },
        }
    }

    /// A restartable iterator over this window's coefficients.
    pub fn into_iter(self, width: usize) -> (r: WindowIter)
        requires
            width <= 4_194_304,
        ensures
            r == (WindowIter { n: 0, width, window: self }),
    {
        WindowIter { n: 0, width, window: self }
    }

    /// All `width` coefficients of this window, in order.
    pub fn coefficients(self, width: usize) -> (r: Vec<u32>)
        requires
            width <= 4_194_304,
        ensures
            r@.len() == width,
            forall|i: int|
                0 <= i < width ==> #[trigger] r@[i] as int == window_coeff(self, i, width as int),
    {
        let mut out: Vec<u32> = Vec::new();
        let mut n: usize = 0;
        while n < width
            invariant
                n <= width,
                width <= 4_194_304,
                out@.len() == n,
                forall|i: int|
                    0 <= i < n ==> #[trigger] out@[i] as int == window_coeff(
                        self,
                        i,
                        width as int,
                    ),
            decreases width - n,
        {
            out.push(self.coefficient(n, width));
            n = n + 1;
        }
        out
    }
}

/// A lazy, restartable source of one window's coefficients.
#[derive(Clone, Copy, Debug)]
pub struct WindowIter {
    /// Index of the next coefficient to be produced.
    pub n: usize,
    /// Width of the window being traversed.
    pub width: usize,
    /// Shape of the window being traversed.
    pub window: Window,
}

impl WindowIter {
    /// The next coefficient, or `None` once `width` of them have been
    /// produced.
    pub fn next(&mut self) -> (r: Option<u32>)
        requires
            old(self).width <= 4_194_304,
        ensures
            final(self).width == old(self).width,
            final(self).window == old(self).window,
            match r {
                Some(c) => old(self).n < old(self).width && final(self).n == old(self).n + 1
                    && c as int == window_coeff(
                    old(self).window,
                    old(self).n as int,
                    old(self).width as int,
                ),
                None => old(self).n >= old(self).width && final(self).n == old(self).n,
            },
    {
        if self.n < self.width {
            let c = self.window.coefficient(self.n, self.width);
            self.n = self.n + 1;
            Some(c)
        } else {
            None
        }
    }
}

/// At the window's leading edge the Bartlett and Hann shapes start at
/// zero, while the Hamming shape starts strictly above zero, whatever
/// the width. (The full sequence has exactly `width` coefficients; see
/// `Window::coefficients`.)
pub proof fn lemma_window_first_coefficient(width: int)
    requires
        1 <= width,
    ensures
        window_coeff(Window::Bartlett, 0, width) == 0,
        window_coeff(Window::Hann, 0, width) == 0,
        window_coeff(Window::Hamming, 0, width) > 0,
        window_coeff(Window::Rectangular, 0, width) == 1_000_000,
{
    assert(width * width >= 1) by (nonlinear_arith)
        requires
            width >= 1,
    ;
    assert(FOUR_PI_SQ * 0 * 0 == 0) by (nonlinear_arith);
    lemma_div_of0(width * width);
    assert(angle_sq_fix(0, width) == 0);
    assert(sin_sq_fix_small(0, width) == 0);
    assert(sin_sq_fix(0, width) == 0);
    assert(sine_sq_millionths(0, width) == 0);
    assert(1_000_000 * (width - width) == 0) by (nonlinear_arith);
    lemma_div_of0(width);
    assert(window_coeff(Window::Bartlett, 0, width) == 0);
    assert(window_coeff(Window::Hamming, 0, width) == (1_000_000 * (4 * FIX_ONE) + 23 * FIX_ONE)
        / (46 * FIX_ONE));
    vstd::arithmetic::div_mod::lemma_div_non_zero(
        1_000_000 * (4 * (FIX_ONE as int)) + 23 * (FIX_ONE as int),
        46 * (FIX_ONE as int),
    );
}

} // verus!
