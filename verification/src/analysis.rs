//! The sliding-window pitch analysis.
//!
//! The analyzer walks a waveform in windows of `windowWidth` samples,
//! advancing by `step` samples; the surrounding application computes
//! one amplitude spectrum per window (window, transform and norm are
//! floating-point work and stay outside). [`analyze`] then turns those
//! integer amplitude columns into the spectrogram grid and, for every
//! bucket at or above the detection threshold whose frequency rounds
//! to a piano key, a key press added to that key's interval set.

use vstd::prelude::*;

verus! {

use vstd::arithmetic::power2::pow2;
use vstd::arithmetic::power2::lemma2_to64;
use vstd::arithmetic::div_mod::lemma_div_is_ordered;
use vstd::arithmetic::div_mod::lemma_div_nonincreasing;
use vstd::arithmetic::div_mod::lemma_fundamental_div_mod;
use vstd::arithmetic::div_mod::lemma_mod_division_less_than_divisor;
use vstd::arithmetic::mul::lemma_mul_inequality;
use crate::key::key_from_mhz;
use crate::key::PianoKey;
use crate::presses::spec_add;
use crate::presses::KeyPress;
use crate::presses::KeyPresses;
use crate::round_div;
use crate::spectrum::freq_of_bucket;

/// How an analysis run is parameterised. All fields are integral: the
/// transform width is `2^fft_size`, the two fractions are in permille
/// (1000 = 1.0), and the threshold is in the same fixed-point units as
/// the amplitude columns handed to [`analyze`].
#[derive(Debug, Clone, Copy)]
pub struct AnalysisOptions {
    /// The transform width as a power of two: `fftWidth = 2^fft_size`.
    pub fft_size: u8,
    /// Window width as a permille fraction of the transform width.
    pub window_fraction: u32,
    /// Step (hop) as a permille fraction of the window width.
    pub step_fraction: u32,
    /// Amplitude at or above which a bucket counts as a detection.
    pub threshold: u64,
}

impl AnalysisOptions {
    /// Meaningful options: a transform width the dispatch supports and
    /// fractions in `(0, 1]`.
    pub open spec fn wf(self) -> bool {
        1 <= self.fft_size <= 14 && 1 <= self.window_fraction <= 1000 && 1 <= self.step_fraction
            <= 1000
    }

    /// The transform width, `2^fft_size`.
    pub open spec fn fft_width_spec(self) -> int {
        pow2(self.fft_size as nat) as int
    }

    /// `ceil(fftWidth * windowFraction)` samples per analysis window.
    pub open spec fn window_width_spec(self) -> int {
        (self.fft_width_spec() * self.window_fraction + 999) / 1000
    }

    /// `ceil(windowWidth * stepFraction)` samples between window starts.
    pub open spec fn step_spec(self) -> int {
        (self.window_width_spec() * self.step_fraction + 999) / 1000
    }

    /// The transform width in samples.
    pub fn fft_width(&self) -> (r: usize)
        requires
            self.wf(),
        ensures
            r == self.fft_width_spec(),
            2 <= r <= 16384,
            r % 2 == 0,
    {
        proof {
            lemma2_to64();
        }
        match self.fft_size {
            1 => 2,
            2 => 4,
            3 => 8,
            4 => 16,
            5 => 32,
            6 => 64,
            7 => 128,
            8 => 256,
            9 => 512,
            10 => 1024,
            11 => 2048,
            12 => 4096,
            13 => 8192,
            _ => 16384,
        }
    }

    /// Samples per analysis window.
    pub fn window_width(&self) -> (r: usize)
        requires
            self.wf(),
        ensures
            r == self.window_width_spec(),
            1 <= r <= self.fft_width_spec(),
    {
        let fw = self.fft_width();
        proof {
            assert(fw * self.window_fraction >= 1 * 1) by (nonlinear_arith)
                requires
                    fw >= 1,
                    self.window_fraction >= 1,
            ;
            assert(fw * self.window_fraction <= fw * 1000 && fw * 1000 <= 16384 * 1000)
                by (nonlinear_arith)
                requires
                    0 <= fw <= 16384,
                    self.window_fraction <= 1000,
            ;
        }
        let n = (fw as u64) * (self.window_fraction as u64) + 999;
        let r = n / 1000;
        proof {
            lemma_div_is_ordered(1000, fw * self.window_fraction + 999, 1000);
            lemma_div_is_ordered(fw * self.window_fraction + 999, fw * 1000 + 999, 1000);
            assert((fw * 1000 + 999) / 1000 == fw + 999int / 1000) by {
                vstd::arithmetic::div_mod::lemma_hoist_over_denominator(999, fw as int, 1000);
            }
        }
        r as usize
    }

    /// Samples between the starts of adjacent windows.
    pub fn step(&self) -> (r: usize)
        requires
            self.wf(),
        ensures
            r == self.step_spec(),
            1 <= r <= self.window_width_spec(),
    {
        let ww = self.window_width();
        proof {
            lemma2_to64();
            assert(ww * self.step_fraction >= 1 * 1) by (nonlinear_arith)
                requires
                    ww >= 1,
                    self.step_fraction >= 1,
            ;
            assert(ww * self.step_fraction <= ww * 1000 && ww * 1000 <= 16384 * 1000)
                by (nonlinear_arith)
                requires
                    0 <= ww <= 16384,
                    self.step_fraction <= 1000,
            ;
        }
        let n = (ww as u64) * (self.step_fraction as u64) + 999;
        let r = n / 1000;
        proof {
            lemma_div_is_ordered(1000, ww * self.step_fraction + 999, 1000);
            lemma_div_is_ordered(ww * self.step_fraction + 999, ww * 1000 + 999, 1000);
            assert((ww * 1000 + 999) / 1000 == ww + 999int / 1000) by {
                vstd::arithmetic::div_mod::lemma_hoist_over_denominator(999, ww as int, 1000);
            }
        }
        r as usize
    }
}

/// How many whole analysis windows a waveform of `len` samples
/// offers: `floor((len - windowWidth) / step)`, and none at all when
/// the waveform is shorter than one window.
pub open spec fn window_count(len: int, ww: int, step: int) -> int {
    if len < ww {
        0
    } else {
        (len - ww) / step
    }
}

/// The start indices of the analysis windows over a waveform of `len`
/// samples: window `i` covers samples `[i * step, i * step +
/// windowWidth)`. A waveform shorter than one window yields no
/// windows.
pub fn analysis_windows(len: usize, options: AnalysisOptions) -> (r: Vec<usize>)
    requires
        options.wf(),
    ensures
        r@.len() == window_count(len as int, options.window_width_spec(), options.step_spec()),
        forall|i: int| 0 <= i < r@.len() ==> #[trigger] r@[i] == i * options.step_spec(),
        forall|i: int|
            0 <= i < r@.len() ==> #[trigger] r@[i] + options.window_width_spec() <= len,
{
    let ww = options.window_width();
    let step = options.step();
    let mut out: Vec<usize> = Vec::new();
    if len < ww {
        return out;
    }
    let count = (len - ww) / step;
    proof {
        lemma_fundamental_div_mod((len - ww) as int, step as int);
        lemma_mod_division_less_than_divisor((len - ww) as int, step as int);
        assert(step * count <= len - ww);
    }
    let mut i: usize = 0;
    let mut start: usize = 0;
    while i < count
        invariant
            options.wf(),
            ww == options.window_width_spec(),
            step == options.step_spec(),
            ww <= len,
            count == window_count(len as int, ww as int, step as int),
            step * count <= len - ww,
            i <= count,
            start == i * step,
            out@.len() == i,
            forall|j: int| 0 <= j < i ==> #[trigger] out@[j] == j * (step as int),
            forall|j: int| 0 <= j < i ==> #[trigger] out@[j] + ww <= len,
        decreases count - i,
    {
        proof {
            lemma_mul_inequality(i as int, count as int, step as int);
            assert(i * step == step * i) by (nonlinear_arith);
            assert(step * i <= step * count) by (nonlinear_arith)
                requires
                    i <= count,
                    step >= 0,
            ;
            assert((i + 1) * step == i * step + step) by (nonlinear_arith);
            assert(step * (i + 1) <= step * count) by (nonlinear_arith)
                requires
                    i + 1 <= count,
                    step >= 0,
            ;
            assert((i + 1) * step == step * (i + 1)) by (nonlinear_arith);
        }
        out.push(start);
        i = i + 1;
        start = start + step;
    }
    out
}

/// Whether bucket `b` of a column detects key `kn`: its amplitude
/// reaches the threshold and its frequency rounds to that key.
pub open spec fn detects(
    col: Seq<u64>,
    rate: int,
    opts: AnalysisOptions,
    b: int,
    kn: int,
) -> bool {
    col[b] >= opts.threshold && key_from_mhz(freq_of_bucket(opts.fft_width_spec(), rate, b))
        == Some(kn)
}

/// The press that a detection in column `i` contributes: it starts at
/// `round(i * windowWidth / rate * 1000)` ms, lasts one window
/// (`round(windowWidth / rate * 1000)` ms), and carries the bucket's
/// amplitude as intensity.
pub open spec fn press_of(i: int, amp: u64, rate: int, opts: AnalysisOptions) -> KeyPress {
    KeyPress {
        start: round_div(i * opts.window_width_spec() * 1000, rate) as u64,
        duration: round_div(opts.window_width_spec() * 1000, rate) as u64,
        intensity: amp,
    }
}

/// Key `kn`'s presses after the first `b` buckets of column `i` have
/// been folded into `s`.
pub open spec fn col_fold(
    s: Seq<KeyPress>,
    col: Seq<u64>,
    i: int,
    rate: int,
    opts: AnalysisOptions,
    kn: int,
    b: int,
) -> Seq<KeyPress>
    decreases b,
{
    if b <= 0 {
        s
    } else {
        let prev = col_fold(s, col, i, rate, opts, kn, b - 1);
        if detects(col, rate, opts, b - 1, kn) {
            spec_add(prev, press_of(i, col[b - 1], rate, opts))
        } else {
            prev
        }
    }
}

/// Key `kn`'s presses after the first `i` whole columns have been
/// folded into `s`.
pub open spec fn cols_fold(
    s: Seq<KeyPress>,
    cols: Seq<Vec<u64>>,
    rate: int,
    opts: AnalysisOptions,
    kn: int,
    i: int,
) -> Seq<KeyPress>
    decreases i,
{
    if i <= 0 {
        s
    } else {
        col_fold(
            cols_fold(s, cols, rate, opts, kn, i - 1),
            cols[i - 1]@,
            i - 1,
            rate,
            opts,
            kn,
            cols[i - 1]@.len() as int,
        )
    }
}

/// Everything the analysis detects for key `kn`: every qualifying
/// (column, bucket) pair's press, added in order (columns left to
/// right, buckets low to high) into an initially empty interval set.
pub open spec fn key_presses_spec(
    cols: Seq<Vec<u64>>,
    rate: int,
    opts: AnalysisOptions,
    kn: int,
) -> Seq<KeyPress> {
    cols_fold(Seq::empty(), cols, rate, opts, kn, cols.len() as int)
}

/// The presses stored for key number `kn` in an association list,
/// empty if the key is absent.
pub open spec fn map_model(m: Seq<(PianoKey, KeyPresses)>, kn: int) -> Seq<KeyPress>
    decreases m.len(),
{
    if m.len() == 0 {
        Seq::empty()
    } else if m[0].0.num() == kn {
        m[0].1@
    } else {
        map_model(m.skip(1), kn)
    }
}

/// A well-formed result map: keys strictly increasing and on the
/// piano, every interval set well formed and non-empty.
pub open spec fn map_wf(m: Seq<(PianoKey, KeyPresses)>) -> bool {
    (forall|a: int, b: int|
        0 <= a < b < m.len() ==> (#[trigger] m[a]).0.num() < (#[trigger] m[b]).0.num()) && (forall|
        j: int,
    |
        0 <= j < m.len() ==> (#[trigger] m[j]).0.wf() && m[j].1.wf() && m[j].1@.len() > 0)
}

/// An absent key models the empty press sequence.
proof fn lemma_map_model_absent(m: Seq<(PianoKey, KeyPresses)>, kn: int)
    requires
        forall|j: int| 0 <= j < m.len() ==> (#[trigger] m[j]).0.num() != kn,
    ensures
        map_model(m, kn) == Seq::<KeyPress>::empty(),
    decreases m.len(),
{
    if m.len() > 0 {
        assert forall|j: int| 0 <= j < m.skip(1).len() implies (#[trigger] m.skip(
            1,
        )[j]).0.num() != kn by {
            assert(m.skip(1)[j] == m[j + 1]);
        }
        lemma_map_model_absent(m.skip(1), kn);
    }
}

/// With distinct keys, the entry at `j` is what its key models.
proof fn lemma_map_model_present(m: Seq<(PianoKey, KeyPresses)>, j: int)
    requires
        forall|a: int, b: int|
            0 <= a < b < m.len() ==> (#[trigger] m[a]).0.num() < (#[trigger] m[b]).0.num(),
        0 <= j < m.len(),
    ensures
        map_model(m, m[j].0.num()) == m[j].1@,
    decreases j,
{
    if j > 0 {
        assert forall|a: int, b: int| 0 <= a < b < m.skip(1).len() implies (#[trigger] m.skip(
            1,
        )[a]).0.num() < (#[trigger] m.skip(1)[b]).0.num() by {
            assert(m.skip(1)[a] == m[a + 1] && m.skip(1)[b] == m[b + 1]);
        }
        lemma_map_model_present(m.skip(1), j - 1);
        assert(m.skip(1)[j - 1] == m[j]);
        assert(m[0].0.num() < m[j].0.num());
    }
}

/// Replacing the entry at `j` changes only its key's model.
proof fn lemma_map_model_update(m: Seq<(PianoKey, KeyPresses)>, j: int, e: (PianoKey, KeyPresses))
    requires
        0 <= j < m.len(),
        e.0.num() == m[j].0.num(),
        forall|a: int, b: int|
            0 <= a < b < m.len() ==> (#[trigger] m[a]).0.num() < (#[trigger] m[b]).0.num(),
    ensures
        map_model(m.update(j, e), m[j].0.num()) == e.1@,
        forall|kn: int| kn != m[j].0.num() ==> map_model(m.update(j, e), kn) == map_model(m, kn),
    decreases j,
{
    let t = m.update(j, e);
    if j == 0 {
        assert(t[0] == e);
        assert(t.skip(1) =~= m.skip(1));
        assert(map_model(t, m[j].0.num()) == e.1@);
    } else {
        assert(t[0] == m[0]);
        assert(t.skip(1) =~= m.skip(1).update(j - 1, e));
        assert forall|a: int, b: int| 0 <= a < b < m.skip(1).len() implies (#[trigger] m.skip(
            1,
        )[a]).0.num() < (#[trigger] m.skip(1)[b]).0.num() by {
            assert(m.skip(1)[a] == m[a + 1] && m.skip(1)[b] == m[b + 1]);
        }
        assert(m.skip(1)[j - 1] == m[j]);
        lemma_map_model_update(m.skip(1), j - 1, e);
        assert(m[0].0.num() < m[j].0.num());
        assert(map_model(t, m[j].0.num()) == e.1@);
        assert forall|kn: int| kn != m[j].0.num() implies map_model(t, kn) == map_model(
            m,
            kn,
        ) by {
            if kn == m[0].0.num() {
                assert(map_model(t, kn) == t[0].1@);
            } else {
                assert(map_model(m.skip(1).update(j - 1, e), kn) == map_model(m.skip(1), kn));
            }
        }
    }
}

/// Inserting an entry for a fresh key gives that key its presses and
/// leaves every other key's model alone.
proof fn lemma_map_model_insert(m: Seq<(PianoKey, KeyPresses)>, pos: int, e: (PianoKey, KeyPresses))
    requires
        0 <= pos <= m.len(),
        forall|j: int| 0 <= j < m.len() ==> (#[trigger] m[j]).0.num() != e.0.num(),
    ensures
        map_model(m.insert(pos, e), e.0.num()) == e.1@,
        forall|kn: int| kn != e.0.num() ==> map_model(m.insert(pos, e), kn) == map_model(m, kn),
    decreases pos,
{
    let t = m.insert(pos, e);
    if pos == 0 {
        assert(t[0] == e);
        assert(t.skip(1) =~= m);
        assert(map_model(t, e.0.num()) == e.1@);
        assert forall|kn: int| kn != e.0.num() implies map_model(t, kn) == map_model(m, kn) by {
            assert(map_model(t, kn) == map_model(t.skip(1), kn));
        }
    } else {
        assert(t[0] == m[0]);
        assert(t.skip(1) =~= m.skip(1).insert(pos - 1, e));
        assert forall|j: int| 0 <= j < m.skip(1).len() implies (#[trigger] m.skip(
            1,
        )[j]).0.num() != e.0.num() by {
            assert(m.skip(1)[j] == m[j + 1]);
        }
        lemma_map_model_insert(m.skip(1), pos - 1, e);
        assert(m[0].0.num() != e.0.num());
        assert(map_model(t, e.0.num()) == e.1@);
        assert forall|kn: int| kn != e.0.num() implies map_model(t, kn) == map_model(m, kn) by {
            if kn == m[0].0.num() {
                assert(map_model(t, kn) == t[0].1@);
            } else {
                assert(map_model(m.skip(1).insert(pos - 1, e), kn) == map_model(m.skip(1), kn));
            }
        }
    }
}

/// The spectrogram: one column of pixel intensities per analysis
/// window, `fftWidth / 2` rows, row 0 carrying DC.
#[derive(Debug, Clone)]
pub struct Spectrogram {
    /// The columns, left to right; one per analysis window.
    pub columns: Vec<Vec<u64>>,
    /// Rows per column.
    pub rows: usize,
}

impl Spectrogram {
    /// Every column has exactly `rows` pixels.
    pub open spec fn wf(self) -> bool {
        forall|i: int| 0 <= i < self.columns@.len() ==> (#[trigger] self.columns@[i])@.len()
            == self.rows
    }

    /// Columns (time axis).
    pub fn width(&self) -> (r: usize)
        ensures
            r == self.columns@.len(),
    {
        self.columns.len()
    }

    /// Rows (frequency axis).
    pub fn height(&self) -> (r: usize)
        ensures
            r == self.rows,
    {
        self.rows
    }
}

/// Add `press` to `key`'s interval set in the association list,
/// creating the entry when the key is new.
#[verifier::rlimit(100)]
fn upsert(map: &mut Vec<(PianoKey, KeyPresses)>, key: PianoKey, press: KeyPress)
    requires
        map_wf(old(map)@),
        key.wf(),
        press.start + press.duration <= u64::MAX,
    ensures
        map_wf(final(map)@),
        map_model(final(map)@, key.num()) == spec_add(map_model(old(map)@, key.num()), press),
        forall|kn: int|
            kn != key.num() ==> map_model(final(map)@, kn) == map_model(old(map)@, kn),
{
    let ghost m0 = map@;
    let mut j: usize = 0;
    while j < map.len() && map[j].0.number() < key.number()
        invariant
            j <= map@.len(),
            map@ == m0,
            forall|i: int| 0 <= i < j ==> (#[trigger] map@[i]).0.num() < key.num(),
        decreases map@.len() - j,
    {
        j = j + 1;
    }
    if j < map.len() && map[j].0.number() == key.number() {
        let (pk, mut kp) = map.remove(j);
        kp.add(press);
        let entry = (pk, kp);
        let ghost e = entry;
        map.insert(j, entry);
        proof {
            m0.remove_ensures(j as int);
            m0.remove(j as int).insert_ensures(j as int, e);
            assert(map@ =~= m0.update(j as int, e));
            crate::presses::lemma_spec_add_nonempty(m0[j as int].1@, press);
            lemma_map_model_present(m0, j as int);
            lemma_map_model_update(m0, j as int, e);
            assert forall|a: int, b: int| 0 <= a < b < map@.len() implies (
            #[trigger] map@[a]).0.num() < (#[trigger] map@[b]).0.num() by {
                assert(m0[a].0.num() < m0[b].0.num());
            }
        }
    } else {
        let mut kp = KeyPresses::new();
        kp.add(press);
        let entry = (key, kp);
        let ghost e = entry;
        map.insert(j, entry);
        proof {
            m0.insert_ensures(j as int, e);
            crate::presses::lemma_spec_add_nonempty(Seq::<KeyPress>::empty(), press);
            assert forall|i: int| 0 <= i < m0.len() implies (#[trigger] m0[i]).0.num()
                != key.num() by {
                if i >= j {
                    assert(m0[j as int].0.num() >= key.num() && m0[j as int].0.num() != key.num());
                    if i > j {
                        assert(m0[j as int].0.num() < m0[i].0.num());
                    }
                }
            }
            lemma_map_model_absent(m0, key.num());
            lemma_map_model_insert(m0, j as int, e);
            assert forall|a: int, b: int| 0 <= a < b < map@.len() implies (
            #[trigger] map@[a]).0.num() < (#[trigger] map@[b]).0.num() by {
                if b < j {
                    assert(map@[a] == m0[a] && map@[b] == m0[b]);
                } else if a < j && b == j {
                    assert(map@[a] == m0[a]);
                } else if a == j {
                    assert(map@[b] == m0[b - 1]);
                    assert(m0[j as int].0.num() > key.num());
                    if b - 1 > j {
                        assert(m0[j as int].0.num() < m0[b - 1].0.num());
                    }
                } else if a < j {
                    assert(map@[a] == m0[a] && map@[b] == m0[b - 1]);
                    assert(b - 1 >= j);
                    assert(m0[j as int].0.num() > key.num());
                    if b - 1 > j {
                        assert(m0[j as int].0.num() < m0[b - 1].0.num());
                    }
                } else {
                    assert(map@[a] == m0[a - 1] && map@[b] == m0[b - 1]);
                    assert(m0[a - 1].0.num() < m0[b - 1].0.num());
                }
            }
            assert forall|i: int| 0 <= i < map@.len() implies (#[trigger] map@[i]).0.wf()
                && map@[i].1.wf() && map@[i].1@.len() > 0 by {
                if i < j {
                    assert(map@[i] == m0[i]);
                } else if i > j {
                    assert(map@[i] == m0[i - 1]);
                }
            }
        }
    }
}

/// Run the detection over the per-window amplitude columns of one
/// analysis pass.
///
/// `columns[i]` holds the real-half amplitudes (buckets `0 ..=
/// fftWidth/2`) of window `i`, in the same fixed-point units as
/// `options.threshold`. The result pairs each detected key with its
/// coalesced presses — a key appears exactly when some bucket of some
/// window reached the threshold at that key's pitch — and the
/// spectrogram grid: one column per window, `fftWidth/2` rows, row 0
/// at DC.
#[verifier::rlimit(100)]
pub fn analyze(columns: &Vec<Vec<u64>>, sample_rate: u32, options: AnalysisOptions) -> (r: (
    Vec<(PianoKey, KeyPresses)>,
    Spectrogram,
))
    requires
        options.wf(),
        sample_rate >= 1,
        columns@.len() <= 1_000_000_000,
        forall|i: int|
            0 <= i < columns@.len() ==> (#[trigger] columns@[i])@.len()
                == options.fft_width_spec() / 2 + 1,
    ensures
        map_wf(r.0@),
        forall|kn: int|
            #[trigger] map_model(r.0@, kn) == key_presses_spec(
                columns@,
                sample_rate as int,
                options,
                kn,
            ),
        r.1.wf(),
        r.1.rows == options.fft_width_spec() / 2,
        r.1.columns@.len() == columns@.len(),
        forall|i: int|
            0 <= i < columns@.len() ==> (#[trigger] r.1.columns@[i])@ == columns@[i]@.take(
                options.fft_width_spec() / 2,
            ),
{
    let fw = options.fft_width();
    let ww = options.window_width();
    let rate = sample_rate as u64;
    let rows = fw / 2;
    let dur = ((ww as u64) * 1000 + rate / 2) / rate;
    proof {
        lemma_div_nonincreasing((ww * 1000 + rate / 2) as int, rate as int);
    }
    let mut map: Vec<(PianoKey, KeyPresses)> = Vec::new();
    let mut cols_out: Vec<Vec<u64>> = Vec::new();
    let mut i: usize = 0;
    while i < columns.len()
        invariant
            options.wf(),
            sample_rate >= 1,
            rate == sample_rate,
            columns@.len() <= 1_000_000_000,
            forall|ci: int|
                0 <= ci < columns@.len() ==> (#[trigger] columns@[ci])@.len()
                    == options.fft_width_spec() / 2 + 1,
            fw == options.fft_width_spec(),
            2 <= fw <= 16384,
            ww == options.window_width_spec(),
            1 <= ww <= fw,
            rows == fw / 2,
            dur == round_div(ww * 1000, rate as int),
            dur <= ww * 1000 + rate / 2,
            i <= columns@.len(),
            map_wf(map@),
            forall|kn: int|
                #[trigger] map_model(map@, kn) == cols_fold(
                    Seq::empty(),
                    columns@,
                    rate as int,
                    options,
                    kn,
                    i as int,
                ),
            cols_out@.len() == i,
            forall|ci: int|
                0 <= ci < i ==> (#[trigger] cols_out@[ci])@ == columns@[ci]@.take(rows as int),
        decreases columns@.len() - i,
    {
        proof {
            assert((i as int) * ww * 1000 <= 1_000_000_000 * 16384 * 1000) by (nonlinear_arith)
                requires
                    0 <= i as int <= 1_000_000_000,
                    0 <= ww <= 16384,
            ;
        }
        let start = ((i as u64) * (ww as u64) * 1000 + rate / 2) / rate;
        proof {
            lemma_div_nonincreasing(((i as u64) * (ww as u64) * 1000 + rate / 2) as int, rate as int);
            assert(start == round_div((i as int) * ww * 1000, rate as int));
        }
        let col = &columns[i];
        let mut pix: Vec<u64> = Vec::new();
        let mut pb: usize = 0;
        while pb < rows
            invariant
                rows < col@.len(),
                pb <= rows,
                pix@.len() == pb,
                forall|x: int| 0 <= x < pb ==> #[trigger] pix@[x] == col@[x],
            decreases rows - pb,
        {
            pix.push(col[pb]);
            pb = pb + 1;
        }
        proof {
            assert(pix@ =~= col@.take(rows as int));
        }
        cols_out.push(pix);
        let mut b: usize = 0;
        while b < col.len()
            invariant
                options.wf(),
                sample_rate >= 1,
                rate == sample_rate,
                i < columns@.len(),
                columns@.len() <= 1_000_000_000,
                col@ == columns@[i as int]@,
                col@.len() == options.fft_width_spec() / 2 + 1,
                fw == options.fft_width_spec(),
                2 <= fw <= 16384,
                ww == options.window_width_spec(),
                1 <= ww <= fw,
                dur == round_div(ww * 1000, rate as int),
                start == round_div((i as int) * ww * 1000, rate as int),
                start + dur <= u64::MAX,
                b <= col@.len(),
                map_wf(map@),
                forall|kn: int|
                    #[trigger] map_model(map@, kn) == col_fold(
                        cols_fold(Seq::empty(), columns@, rate as int, options, kn, i as int),
                        columns@[i as int]@,
                        i as int,
                        rate as int,
                        options,
                        kn,
                        b as int,
                    ),
            decreases col@.len() - b,
        {
            let amp = col[b];
            if amp >= options.threshold {
                proof {
                    assert((b as int) * rate * 1000 <= 8193 * 0xffff_ffff * 1000)
                        by (nonlinear_arith)
                        requires
                            0 <= b as int <= 8193,
                            0 <= rate <= 0xffff_ffff,
                    ;
                }
                let freq = ((b as u64) * rate * 1000 + (fw as u64) / 2) / (fw as u64);
                proof {
                    assert(freq == round_div((b as int) * rate * 1000, fw as int));
                    assert(b <= fw / 2);
                    assert(freq == freq_of_bucket(fw as int, rate as int, b as int));
                }
                let detected = PianoKey::from_concert_pitch(freq);
                match detected {
                    Some(key) => {
                        let press = KeyPress { start, duration: dur, intensity: amp };
                        proof {
                            assert(press == press_of(i as int, amp, rate as int, options));
                            assert(detects(col@, rate as int, options, b as int, key.num()));
                        }
                        upsert(&mut map, key, press);
                        proof {
                            assert forall|kn: int|
                                #[trigger] map_model(map@, kn) == col_fold(
                                    cols_fold(
                                        Seq::empty(),
                                        columns@,
                                        rate as int,
                                        options,
                                        kn,
                                        i as int,
                                    ),
                                    columns@[i as int]@,
                                    i as int,
                                    rate as int,
                                    options,
                                    kn,
                                    b + 1,
                                ) by {
                                if kn != key.num() {
                                    assert(!detects(col@, rate as int, options, b as int, kn));
                                }
                            }
                        }
                    },
                    None => {
                        proof {
                            assert forall|kn: int|
                                #[trigger] map_model(map@, kn) == col_fold(
                                    cols_fold(
                                        Seq::empty(),
                                        columns@,
                                        rate as int,
                                        options,
                                        kn,
                                        i as int,
                                    ),
                                    columns@[i as int]@,
                                    i as int,
                                    rate as int,
                                    options,
                                    kn,
                                    b + 1,
                                ) by {
                                assert(!detects(col@, rate as int, options, b as int, kn));
                            }
                        }
                    },
                }
            } else {
                proof {
                    assert forall|kn: int|
                        #[trigger] map_model(map@, kn) == col_fold(
                            cols_fold(Seq::empty(), columns@, rate as int, options, kn, i as int),
                            columns@[i as int]@,
                            i as int,
                            rate as int,
                            options,
                            kn,
                            b + 1,
                        ) by {
                        assert(!detects(col@, rate as int, options, b as int, kn));
                    }
                }
            }
            b = b + 1;
        }
        i = i + 1;
        proof {
            assert forall|kn: int|
                #[trigger] map_model(map@, kn) == cols_fold(
                    Seq::empty(),
                    columns@,
                    rate as int,
                    options,
                    kn,
                    i as int,
                ) by {
                assert(cols_fold(Seq::empty(), columns@, rate as int, options, kn, i as int)
                    == col_fold(
                    cols_fold(Seq::empty(), columns@, rate as int, options, kn, i - 1),
                    columns@[i - 1]@,
                    i - 1,
                    rate as int,
                    options,
                    kn,
                    columns@[i - 1]@.len() as int,
                ));
            }
        }
    }
    (map, Spectrogram { columns: cols_out, rows })
}

} // verus!
