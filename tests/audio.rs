use murmure::audio::{
    downmix, generate_unique_wav_name, resample_linear, samples_for_model, SampleFormat,
    WavFormat,
};
use murmure::error::CoreError;

#[test]
fn resample_equal_rates_is_identity() {
    let x = vec![1i16, -2, 3, 32767, -32768];
    assert_eq!(resample_linear(&x, 44100, 44100), x);
    assert_eq!(resample_linear(&x, 0, 0), x);
    assert_eq!(resample_linear(&Vec::new(), 8000, 8000), Vec::<i16>::new());
}

#[test]
fn resample_empty_or_zero_rate_gives_nothing() {
    assert!(resample_linear(&Vec::new(), 48000, 16000).is_empty());
    assert!(resample_linear(&vec![1, 2, 3], 0, 16000).is_empty());
    assert!(resample_linear(&vec![1, 2, 3], 16000, 0).is_empty());
}

#[test]
fn resample_downsamples_by_two() {
    assert_eq!(resample_linear(&vec![0, 100, 200, 300], 2, 1), vec![0, 200]);
}

#[test]
fn resample_upsamples_with_interpolation() {
    assert_eq!(resample_linear(&vec![0, 100], 1, 2), vec![0, 50, 100, 100]);
    assert_eq!(resample_linear(&vec![-100, 100], 1, 2), vec![-100, 0, 100, 100]);
}

#[test]
fn resample_rounds_down() {
    assert_eq!(resample_linear(&vec![0, 1], 1, 2), vec![0, 0, 1, 1]);
    assert_eq!(resample_linear(&vec![-1, 0], 1, 2), vec![-1, -1, 0, 0]);
}

#[test]
fn resample_length_is_ceiling() {
    assert_eq!(resample_linear(&vec![5; 3], 48000, 16000).len(), 1);
    assert_eq!(resample_linear(&vec![5; 10], 44100, 16000).len(), 4);
    assert_eq!(resample_linear(&vec![5; 441], 44100, 16000).len(), 160);
    assert_eq!(resample_linear(&vec![7; 3], 8000, 16000), vec![7; 6]);
}

#[test]
fn resample_extremes_stay_in_range() {
    let out = resample_linear(&vec![-32768, 32767, -32768], 3, 7);
    assert_eq!(out.len(), 7);
    assert_eq!(out[0], -32768);
    assert!(out.iter().all(|&s| s >= -32768 && s <= 32767));
}

#[test]
fn downmix_averages_frames_toward_zero() {
    assert_eq!(downmix(&vec![10, 20, -10, -21, 5], 2), vec![15, -15]);
    assert_eq!(downmix(&vec![32767, 32767, -32768, -32768], 2), vec![32767, -32768]);
    assert_eq!(downmix(&vec![1, 2, 3], 1), vec![1, 2, 3]);
    assert_eq!(downmix(&vec![3, 3, 3, 9], 3), vec![3]);
}

fn fmt(channels: u16, rate: u32, bits: u16, f: SampleFormat) -> WavFormat {
    WavFormat { channels, sample_rate: rate, bits_per_sample: bits, sample_format: f }
}

#[test]
fn samples_for_model_rejects_other_encodings() {
    let raw = vec![1, 2];
    assert_eq!(
        samples_for_model(&fmt(1, 16000, 8, SampleFormat::Int), &raw),
        Err(CoreError::UnsupportedWavFormat)
    );
    assert_eq!(
        samples_for_model(&fmt(1, 16000, 16, SampleFormat::Float), &raw),
        Err(CoreError::UnsupportedWavFormat)
    );
}

#[test]
fn samples_for_model_downmixes_and_resamples() {
    assert_eq!(
        samples_for_model(&fmt(2, 16000, 16, SampleFormat::Int), &vec![100, 300, -5, -6]),
        Ok(vec![200, -5])
    );
    assert_eq!(
        samples_for_model(&fmt(1, 32000, 16, SampleFormat::Int), &vec![0, 100, 200, 300]),
        Ok(vec![0, 200])
    );
}

#[test]
fn wav_name_carries_the_seconds() {
    assert_eq!(generate_unique_wav_name(1700000000), "murmure-1700000000.wav");
    assert_eq!(generate_unique_wav_name(0), "murmure-0.wav");
    assert_eq!(
        generate_unique_wav_name(u64::MAX),
        "murmure-18446744073709551615.wav"
    );
}
