use pitch::spectrum::main_frequency;
use pitch::spectrum::Spectrum;

fn ramp(width: usize) -> Vec<u64> {
    (1..=width as u64).collect()
}

#[test]
fn wraps_buckets_unchanged() {
    let s = Spectrum::new(ramp(8), 44_100);
    assert_eq!(s.width(), 8);
    assert_eq!(s.sample_rate(), 44_100);
    assert_eq!(s.buckets().as_slice(), &[1, 2, 3, 4, 5, 6, 7, 8]);
}

#[test]
fn shift_by_zero_is_identity() {
    let s = Spectrum::new(ramp(8), 44_100);
    let shifted = s.shift(0);
    assert_eq!(shifted.buckets().as_slice(), s.buckets().as_slice());
}

#[test]
fn shift_moves_real_half_up() {
    // width 8, half 4: [1,2,3,4,5,6,7,8] shifted by 1 becomes
    // [0, 1, 2, 3] on the real half and [6, 7, 8, 0] above it.
    let s = Spectrum::new(ramp(8), 44_100);
    let shifted = s.shift(1);
    assert_eq!(shifted.buckets().as_slice(), &[0, 1, 2, 3, 6, 7, 8, 0]);
}

#[test]
fn shift_past_half_zeroes_everything() {
    let s = Spectrum::new(ramp(8), 44_100);
    let shifted = s.shift(5);
    assert_eq!(shifted.buckets().as_slice(), &[0u64; 8]);
}

#[test]
fn bucket_frequencies() {
    let s = Spectrum::new(vec![0; 2048], 44_100);
    // Resolution is 44100 / 2048 = 21.533 Hz.
    assert_eq!(s.freq_resolution(), 21_533);
    assert_eq!(s.freq_from_bucket(0), 0);
    assert_eq!(s.freq_from_bucket(1), 21_533);
    // bucket 1024 is the Nyquist bucket at 22.05 kHz.
    assert_eq!(s.freq_from_bucket(1024), 22_050_000);
    // Above the real half the mirrored negative frequencies appear.
    assert_eq!(s.freq_from_bucket(2047), -21_533);
    // Frequencies round back to their bucket.
    assert_eq!(s.bucket_from_freq(21_533), 1);
    assert_eq!(s.bucket_from_freq(440_000), 20);
}

#[test]
fn bucket_frequency_round_trip() {
    // On the real half, a bucket's frequency maps back to the bucket.
    let s = Spectrum::new(vec![0; 2048], 44_100);
    for bucket in [0usize, 1, 20, 500, 1023, 1024] {
        let freq = s.freq_from_bucket(bucket);
        assert!(freq >= 0);
        assert_eq!(s.bucket_from_freq(freq as u64), bucket as u64);
    }
    // Also at a low but valid rate (width < rate * 1000).
    let s = Spectrum::new(vec![0; 16384], 17);
    for bucket in [0usize, 1, 8191, 8192] {
        let freq = s.freq_from_bucket(bucket);
        assert_eq!(s.bucket_from_freq(freq as u64), bucket as u64);
    }
}

#[test]
fn main_frequency_takes_last_largest() {
    assert_eq!(main_frequency(&vec![]), None);
    assert_eq!(main_frequency(&vec![5]), Some((0, 5)));
    assert_eq!(main_frequency(&vec![1, 9, 3]), Some((1, 9)));
    // Ties break toward the highest bucket.
    assert_eq!(main_frequency(&vec![9, 2, 9]), Some((2, 9)));
}
