use pitch::analysis::analysis_windows;
use pitch::analysis::analyze;
use pitch::analysis::AnalysisOptions;

fn options(fft_size: u8, threshold: u64) -> AnalysisOptions {
    AnalysisOptions {
        fft_size,
        window_fraction: 1000,
        step_fraction: 1000,
        threshold,
    }
}

#[test]
fn derived_widths() {
    let opts = AnalysisOptions {
        fft_size: 14,
        window_fraction: 500,
        step_fraction: 250,
        threshold: 100,
    };
    assert_eq!(opts.fft_width(), 16384);
    assert_eq!(opts.window_width(), 8192);
    assert_eq!(opts.step(), 2048);
    // Fractions round up.
    let odd = AnalysisOptions {
        fft_size: 3,
        window_fraction: 300,
        step_fraction: 700,
        threshold: 0,
    };
    assert_eq!(odd.fft_width(), 8);
    assert_eq!(odd.window_width(), 3);
    assert_eq!(odd.step(), 3);
}

#[test]
fn single_window_scenario() {
    // 4096 samples at 44100 Hz with fftWidth 2048 and both fractions
    // 1.0 give exactly one analysis window and a 1 x 1024 spectrogram.
    let opts = options(11, u64::MAX);
    let starts = analysis_windows(4096, opts);
    assert_eq!(starts, vec![0]);

    let columns = vec![vec![0u64; 1025]];
    let (notes, spectrogram) = analyze(&columns, 44_100, opts);
    assert_eq!(spectrogram.width(), 1);
    assert_eq!(spectrogram.height(), 1024);
    assert!(notes.is_empty());
}

#[test]
fn short_waveform_yields_no_windows() {
    let opts = options(11, 0);
    assert!(analysis_windows(2047, opts).is_empty());
    let (notes, spectrogram) = analyze(&Vec::new(), 44_100, opts);
    assert!(notes.is_empty());
    assert_eq!(spectrogram.width(), 0);
}

#[test]
fn window_starts_advance_by_step() {
    let opts = AnalysisOptions {
        fft_size: 11,
        window_fraction: 1000,
        step_fraction: 500,
        threshold: 0,
    };
    // window 2048, step 1024: floor((8192 - 2048) / 1024) = 6 windows.
    let starts = analysis_windows(8192, opts);
    assert_eq!(starts, vec![0, 1024, 2048, 3072, 4096, 5120]);
}

#[test]
fn loud_bucket_becomes_a_key_press() {
    // fftWidth 2048 at 44100 Hz: bucket 20 sits at 430.66 Hz, which
    // rounds to A4 (key 49).
    let opts = options(11, 100);
    let mut column = vec![0u64; 1025];
    column[20] = 350;
    let (notes, _) = analyze(&vec![column], 44_100, opts);
    assert_eq!(notes.len(), 1);
    let (key, presses) = &notes[0];
    assert_eq!(key.number(), 49);
    assert_eq!(presses.len(), 1);
    let press = presses.get(0);
    assert_eq!(press.start(), 0);
    // One window lasts 2048 / 44100 seconds, about 46 ms.
    assert_eq!(press.duration(), 46);
    assert_eq!(press.intensity(), 350);
}

#[test]
fn quiet_buckets_are_skipped() {
    let opts = options(11, 100);
    let mut column = vec![0u64; 1025];
    column[20] = 99;
    let (notes, _) = analyze(&vec![column], 44_100, opts);
    assert!(notes.is_empty());
}

#[test]
fn consecutive_windows_coalesce_presses() {
    // Two adjacent windows detecting the same key produce presses at
    // 0 ms and 46 ms lasting 46 ms each; they only merge when they
    // touch exactly, and here 0 + 46 == 46 does merge them.
    let opts = options(11, 100);
    let mut column = vec![0u64; 1025];
    column[20] = 350;
    let columns = vec![column.clone(), column];
    let (notes, spectrogram) = analyze(&columns, 44_100, opts);
    assert_eq!(spectrogram.width(), 2);
    assert_eq!(notes.len(), 1);
    let (key, presses) = &notes[0];
    assert_eq!(key.number(), 49);
    assert_eq!(presses.len(), 1);
    assert_eq!(presses.get(0).start(), 0);
    assert_eq!(presses.get(0).duration(), 92);
}

#[test]
fn detected_keys_are_sorted() {
    let opts = options(11, 100);
    let mut column = vec![0u64; 1025];
    // bucket 40 is 861.3 Hz (key 61, A5); bucket 20 is key 49.
    column[40] = 200;
    column[20] = 200;
    let (notes, _) = analyze(&vec![column], 44_100, opts);
    assert_eq!(notes.len(), 2);
    assert_eq!(notes[0].0.number(), 49);
    assert_eq!(notes[1].0.number(), 61);
}
