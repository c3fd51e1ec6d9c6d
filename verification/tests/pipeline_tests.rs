//! End-to-end runs: real samples through the real transform into the
//! verified analysis and scheduler.

use num_complex::Complex32;
use pitch::analysis::{analysis_windows, analyze, AnalysisOptions};
use pitch::key::PianoKey;
use pitch::midi::MidiCommand;
use pitch::scheduler::NoteScheduler;
use pitch::window::Window;

/// One amplitude column (in thousandths) per analysis window.
fn amplitude_columns(samples: &[f32], options: AnalysisOptions) -> Vec<Vec<u64>> {
    let fft_width = options.fft_width();
    let window_width = options.window_width();
    let window: Vec<f32> = Window::Hann
        .coefficients(fft_width)
        .iter()
        .map(|&c| c as f32 / 1_000_000.0)
        .collect();
    analysis_windows(samples.len(), options)
        .iter()
        .map(|&start| {
            let slice = &samples[start..start + window_width];
            let mut buffer: Vec<Complex32> = (0..fft_width)
                .map(|n| {
                    let sample = slice.get(n).copied().unwrap_or(0.0);
                    Complex32::new(sample * window[n], 0.0)
                })
                .collect();
            assert_eq!(fft_width, 2048);
            microfft::complex::cfft_2048(buffer.as_mut_slice().try_into().unwrap());
            buffer[..fft_width / 2 + 1]
                .iter()
                .map(|c| ((c.re * c.re + c.im * c.im).sqrt() * 1000.0).round() as u64)
                .collect()
        })
        .collect()
}

fn sine(freq: f32, len: usize, rate: u32) -> Vec<f32> {
    (0..len)
        .map(|n| (std::f32::consts::TAU * freq * n as f32 / rate as f32).sin())
        .collect()
}

#[test]
fn pure_tone_is_detected_as_its_key() {
    let rate = 44_100;
    let options = AnalysisOptions {
        fft_size: 11,
        window_fraction: 1000,
        step_fraction: 1000,
        threshold: 100_000,
    };
    let samples = sine(440.0, 8192, rate);
    let columns = amplitude_columns(&samples, options);
    assert_eq!(columns.len(), 3);

    let (notes, spectrogram) = analyze(&columns, rate, options);
    assert_eq!(spectrogram.width(), 3);
    assert_eq!(spectrogram.height(), 1024);
    // The dominant detection is A4, key 49.
    assert!(notes.iter().any(|(key, _)| key.number() == 49));
    // Nothing an octave and more away qualifies.
    assert!(notes.iter().all(|(key, _)| (37..=61).contains(&key.number())));
}

#[test]
fn detected_tone_plays_as_its_note() {
    let rate = 44_100;
    let options = AnalysisOptions {
        fft_size: 11,
        window_fraction: 1000,
        step_fraction: 1000,
        threshold: 300_000,
    };
    let samples = sine(440.0, 4096, rate);
    let columns = amplitude_columns(&samples, options);
    let (notes, _) = analyze(&columns, rate, options);
    let notes: Vec<(PianoKey, _)> = notes
        .into_iter()
        .filter(|(key, _)| key.number() == 49)
        .collect();
    assert_eq!(notes.len(), 1);

    let mut session = NoteScheduler::play(&notes, 0);
    let mut ons = 0;
    let mut offs = 0;
    loop {
        match session.step() {
            Some(MidiCommand::NoteOn(note, _)) => {
                assert_eq!(note.as_u8(), 69);
                ons += 1;
            }
            Some(MidiCommand::NoteOff(note, _)) => {
                assert_eq!(note.as_u8(), 69);
                offs += 1;
            }
            Some(other) => panic!("unexpected command {:?}", other),
            None => break,
        }
    }
    assert_eq!(ons, 1);
    assert_eq!(offs, 1);
}
