//! Frequency-domain bookkeeping for one analysis window.
//!
//! A [`Spectrum`] holds the transform coefficients of one windowed
//! waveform slice, together with the sample rate that gives its bucket
//! indices a frequency. The coefficients themselves are opaque 64-bit
//! words in an encoding chosen by the caller (the surrounding
//! application packs its complex values into them), with the single
//! convention that the word `0` stands for the zero coefficient. The
//! operations here never look inside a coefficient: they map buckets
//! to frequencies and back, shift content between buckets, and pick
//! the dominant bucket of an amplitude row.

use vstd::prelude::*;

verus! {

use crate::round_div;

/// Whether `n` is a positive power of two.
pub open spec fn is_power_of_two(n: int) -> bool
    decreases n,
{
    if n <= 0 {
        false
    } else if n == 1 {
        true
    } else {
        n % 2 == 0 && is_power_of_two(n / 2)
    }
}

/// Frequency of bucket `b` in a spectrum of `width` buckets over
/// samples taken at `rate` Hz, in millihertz: `b * rate / width` on the
/// real half, and the mirrored negative frequency `-(width - b) * rate
/// / width` above it, each rounded to the nearest millihertz.
pub open spec fn freq_of_bucket(width: int, rate: int, b: int) -> int {
    if b <= width / 2 {
        round_div(b * rate * 1000, width)
    } else {
        -round_div((width - b) * rate * 1000, width)
    }
}

/// The fixed-width array of frequency-domain coefficients produced
/// from one waveform slice.
pub struct Spectrum {
    width: usize,
    sample_rate: u32,
    buckets: Vec<u64>,
}

impl View for Spectrum {
    type V = Seq<u64>;

    closed spec fn view(&self) -> Seq<u64> {
        self.buckets@
    }
}

impl Spectrum {
    /// The number of buckets.
    pub closed spec fn width_spec(self) -> int {
        self.width as int
    }

    /// The sample rate (Hz) of the waveform this spectrum came from.
    pub closed spec fn sample_rate_spec(self) -> int {
        self.sample_rate as int
    }

    /// Well-formed: as many buckets as the width says; a width that is
    /// a power of two in the transform dispatch's range (so in
    /// particular even); and a sample rate whose bucket spacing
    /// exceeds one millihertz (`width < rate * 1000`, true of every
    /// audio rate) — the representation limit under which frequencies
    /// in millihertz round back to their bucket.
    pub open spec fn wf(self) -> bool {
        self@.len() == self.width_spec() && is_power_of_two(self.width_spec())
            && self.width_spec() % 2 == 0 && 2 <= self.width_spec() <= 16384
            && self.sample_rate_spec() >= 1 && self.width_spec() < self.sample_rate_spec() * 1000
    }

    /// Wrap a transform's output: as many buckets as the transform's
    /// width.
    pub fn new(buckets: Vec<u64>, sample_rate: u32) -> (r: Spectrum)
        requires
            is_power_of_two(buckets@.len() as int),
            2 <= buckets@.len() <= 16384,
            sample_rate >= 1,
            buckets@.len() < sample_rate * 1000,
        ensures
            r.wf(),
            r@ == buckets@,
            r.width_spec() == buckets@.len(),
            r.sample_rate_spec() == sample_rate,
    {
        let width = buckets.len();
        Spectrum { width, sample_rate, buckets }
    }

    /// The number of buckets.
    pub fn width(&self) -> (r: usize)
        ensures
            r == self.width_spec(),
    {
        self.width
    }

    /// The sample rate (Hz) of the waveform this spectrum came from.
    pub fn sample_rate(&self) -> (r: u32)
        ensures
            r == self.sample_rate_spec(),
    {
        self.sample_rate
    }

    /// The coefficients, bucket 0 (DC) first.
    pub fn buckets(&self) -> (r: &Vec<u64>)
        ensures
            r@ == self@,
    {
        &self.buckets
    }

    /// The spacing between adjacent buckets, in millihertz.
    pub fn freq_resolution(&self) -> (r: u64)
        requires
            self.wf(),
        ensures
            r == round_div(self.sample_rate_spec() * 1000, self.width_spec()),
    {
        let w = self.width as u64;
        (self.sample_rate as u64 * 1000 + w / 2) / w
    }

    /// The frequency of bucket `bucket`, in millihertz; buckets above
    /// the real half carry the mirrored negative frequencies.
    pub fn freq_from_bucket(&self, bucket: usize) -> (r: i64)
        requires
            self.wf(),
            bucket <= self.width_spec(),
        ensures
            r == freq_of_bucket(self.width_spec(), self.sample_rate_spec(), bucket as int),
    {
        let w = self.width as u64;
        let rate = self.sample_rate as u64;
        let b = bucket as u64;
        let rem = (self.width - bucket) as u64;
        proof {
            assert(b * rate <= 16384 * 0xffff_ffff && rem * rate <= 16384 * 0xffff_ffff)
                by (nonlinear_arith)
                requires
                    b <= 16384,
                    rem <= 16384,
                    rate <= 0xffff_ffff,
            ;
            vstd::arithmetic::div_mod::lemma_div_nonincreasing((b * rate * 1000 + w / 2) as int, w as int);
            vstd::arithmetic::div_mod::lemma_div_nonincreasing((rem * rate * 1000 + w / 2) as int, w as int);
        }
        if bucket <= self.width / 2 {
            ((b * rate * 1000 + w / 2) / w) as i64
        } else {
            -(((rem * rate * 1000 + w / 2) / w) as i64)
        }
    }

    /// The bucket whose frequency is nearest to `freq` millihertz; on
    /// the real half this inverts `freq_from_bucket` (see
    /// `lemma_bucket_round_trip`).
    pub fn bucket_from_freq(&self, freq: u64) -> (r: u64)
        requires
            self.wf(),
            freq <= 100_000_000_000,
        ensures
            r == round_div(freq * self.width_spec(), self.sample_rate_spec() * 1000),
    {
        let ghost wi = self.width as int;
        proof {
            assert(freq * wi <= 100_000_000_000 * 16384) by (nonlinear_arith)
                requires
                    freq <= 100_000_000_000,
                    0 <= wi <= 16384,
            ;
        }
        let d = self.sample_rate as u128 * 1000;
        let n = freq as u128 * self.width as u128;
        proof {
            vstd::arithmetic::div_mod::lemma_div_nonincreasing((n + d / 2) as int, d as int);
        }
        ((n + d / 2) / d) as u64
    }

    /// A copy of this spectrum with every bucket shifted `shift`
    /// places away from DC: the lowest `shift` buckets of each half
    /// are zeroed and the real-half content moves up by `shift`
    /// buckets (the mirrored half moves correspondingly). Shifting by
    /// more than half the width yields an all-zero spectrum; shifting
    /// by zero is the identity.
    pub fn shift(&self, shift: usize) -> (r: Spectrum)
        requires
            self.wf(),
        ensures
            r.wf(),
            r.width_spec() == self.width_spec(),
            r.sample_rate_spec() == self.sample_rate_spec(),
            r@.len() == self@.len(),
            shift > self.width_spec() / 2 ==> forall|i: int| 0 <= i < r@.len() ==> r@[i] == 0,
            shift <= self.width_spec() / 2 ==> {
                let h = self.width_spec() / 2;
                let w = self.width_spec();
                (forall|i: int| 0 <= i < shift ==> r@[i] == 0) && (forall|i: int|
                    shift <= i < h ==> r@[i] == self@[i - shift]) && (forall|i: int|
                    h <= i < w - shift ==> r@[i] == self@[i + shift]) && (forall|i: int|
                    w - shift <= i < w ==> r@[i] == 0)
            },
            shift == 0 ==> r@ == self@,
    {
        let w = self.width;
        let h = w / 2;
        let mut buckets: Vec<u64> = Vec::new();
        if shift > h {
            let mut i: usize = 0;
            while i < w
                invariant
                    i <= w,
                    buckets@.len() == i,
                    forall|j: int| 0 <= j < i ==> buckets@[j] == 0,
                decreases w - i,
            {
                buckets.push(0);
                i = i + 1;
            }
        } else {
            let mut i: usize = 0;
            while i < shift
                invariant
                    shift <= h <= self.width_spec(),
                    i <= shift,
                    buckets@.len() == i,
                    forall|j: int| 0 <= j < i ==> buckets@[j] == 0,
                decreases shift - i,
            {
                buckets.push(0);
                i = i + 1;
            }
            while i < h
                invariant
                    self.wf(),
                    w == self.width_spec(),
                    h == self.width_spec() / 2,
                    shift <= i <= h,
                    buckets@.len() == i,
                    forall|j: int| 0 <= j < shift ==> buckets@[j] == 0,
                    forall|j: int| shift <= j < i ==> buckets@[j] == self@[j - shift],
                decreases h - i,
            {
                buckets.push(self.buckets[i - shift]);
                i = i + 1;
            }
            while i < w - shift
                invariant
                    self.wf(),
                    w == self.width_spec(),
                    h == self.width_spec() / 2,
                    shift <= h,
                    h <= i <= w - shift,
                    buckets@.len() == i,
                    forall|j: int| 0 <= j < shift ==> buckets@[j] == 0,
                    forall|j: int| shift <= j < h ==> buckets@[j] == self@[j - shift],
                    forall|j: int| h <= j < i ==> buckets@[j] == self@[j + shift],
                decreases w - shift - i,
            {
                buckets.push(self.buckets[i + shift]);
                i = i + 1;
            }
            while i < w
                invariant
                    self.wf(),
                    w == self.width_spec(),
                    h == self.width_spec() / 2,
                    shift <= h,
                    w - shift <= i <= w,
                    buckets@.len() == i,
                    forall|j: int| 0 <= j < shift ==> buckets@[j] == 0,
                    forall|j: int| shift <= j < h ==> buckets@[j] == self@[j - shift],
                    forall|j: int| h <= j < w - shift ==> buckets@[j] == self@[j + shift],
                    forall|j: int| w - shift <= j < i ==> buckets@[j] == 0,
                decreases w - i,
            {
                buckets.push(0);
                i = i + 1;
            }
        }
        let r = Spectrum { width: self.width, sample_rate: self.sample_rate, buckets };
        proof {
            if shift == 0 {
                assert(r@ =~= self@);
            }
        }
        r
    }
}

/// On the real half, bucket and frequency round-trip: the frequency a
/// bucket maps to maps back, by nearest-bucket rounding, to the same
/// bucket. Holds whenever the bucket spacing exceeds one millihertz
/// (`width < rate * 1000`), the representation limit that
/// `Spectrum::wf` demands.
pub proof fn lemma_bucket_round_trip(width: int, rate: int, b: int)
    requires
        2 <= width,
        width % 2 == 0,
        rate >= 1,
        width < rate * 1000,
        0 <= b <= width / 2,
    ensures
        round_div(freq_of_bucket(width, rate, b) * width, rate * 1000) == b,
{
    let r1000 = rate * 1000;
    assert(b * rate * 1000 == b * r1000) by (nonlinear_arith)
        requires
            r1000 == rate * 1000,
    ;
    let n = b * r1000;
    let f = (n + width / 2) / width;
    vstd::arithmetic::div_mod::lemma_fundamental_div_mod(n + width / 2, width);
    vstd::arithmetic::div_mod::lemma_mod_division_less_than_divisor(n + width / 2, width);
    let s = (n + width / 2) % width;
    assert(n + width / 2 == width * f + s);
    assert(f * width == width * f) by (nonlinear_arith);
    let t = r1000 / 2 + width / 2 - s;
    assert(f * width + r1000 / 2 == n + t);
    assert(0 <= t < r1000);
    vstd::arithmetic::div_mod::lemma_div_multiples_vanish_fancy(b, t, r1000);
    assert(r1000 * b == b * r1000) by (nonlinear_arith);
    assert((n + t) / r1000 == b);
    assert(freq_of_bucket(width, rate, b) == f);
    assert(round_div(freq_of_bucket(width, rate, b) * width, rate * 1000) == (f * width + r1000
        / 2) / r1000);
}

/// The bucket holding the largest amplitude of a row of (real-half)
/// amplitudes, with the amplitude itself; ties go to the highest
/// bucket. `None` exactly when the row is empty.
pub fn main_frequency(amplitudes: &Vec<u64>) -> (r: Option<(usize, u64)>)
    ensures
        match r {
            Some((b, a)) => amplitudes@.len() > 0 && b < amplitudes@.len()
                && a == amplitudes@[b as int]
                && (forall|i: int| 0 <= i < amplitudes@.len() ==> amplitudes@[i] <= a)
                && (forall|i: int| b < i < amplitudes@.len() ==> amplitudes@[i] < a),
            None => amplitudes@.len() == 0,
        },
{
    if amplitudes.len() == 0 {
        return None;
    }
    let mut best: usize = 0;
    let mut best_amp: u64 = amplitudes[0];
    let mut i: usize = 1;
    while i < amplitudes.len()
        invariant
            amplitudes@.len() > 0,
            best < i <= amplitudes@.len(),
            best_amp == amplitudes@[best as int],
            forall|j: int| 0 <= j < i ==> amplitudes@[j] <= best_amp,
            forall|j: int| best < j < i ==> amplitudes@[j] < best_amp,
        decreases amplitudes@.len() - i,
    {
        if amplitudes[i] >= best_amp {
            best = i;
            best_amp = amplitudes[i];
        }
        i = i + 1;
    }
    Some((best, best_amp))
}

} // verus!
