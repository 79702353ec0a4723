use murmure::capture::{check_input_format, CaptureSession, InputSampleFormat};
use murmure::error::CoreError;
use murmure::level::{LevelMeter, LEVEL_SCALE};

#[test]
fn empty_window_emits_zero() {
    let mut m = LevelMeter::new();
    m.accumulate(&vec![]);
    assert_eq!(m.tick(), 0);
}

#[test]
fn full_scale_is_clamped_and_smoothed() {
    let mut m = LevelMeter::new();
    m.accumulate(&vec![32767; 4]);
    assert_eq!(m.tick(), 3500);
    m.accumulate(&vec![32767; 4]);
    assert_eq!(m.tick(), 5775);
    m.accumulate(&vec![-32768; 4]);
    assert!(m.tick() <= LEVEL_SCALE);
}

#[test]
fn moderate_level_is_one_and_a_half_rms() {
    let mut m = LevelMeter::new();
    m.accumulate(&vec![3277; 8]);
    assert_eq!(m.tick(), 525);
}

#[test]
fn quiet_window_is_gated_to_silence() {
    let mut m = LevelMeter::new();
    m.accumulate(&vec![100; 10]);
    assert_eq!(m.tick(), 0);
    m.accumulate(&vec![32767; 4]);
    assert_eq!(m.tick(), 3500);
    m.accumulate(&vec![100; 10]);
    assert_eq!(m.tick(), 2275);
}

#[test]
fn empty_window_keeps_smoothing_state() {
    let mut m = LevelMeter::new();
    m.accumulate(&vec![32767; 4]);
    assert_eq!(m.tick(), 3500);
    assert_eq!(m.tick(), 0);
    m.accumulate(&vec![32767; 4]);
    assert_eq!(m.tick(), 5775);
}

#[test]
fn level_is_throttled() {
    let mut m = LevelMeter::new();
    m.accumulate(&vec![32767; 4]);
    assert_eq!(m.on_callback(10), None);
    assert_eq!(m.window_count(), 4);
    assert_eq!(m.on_callback(33), Some(3500));
    assert_eq!(m.window_count(), 0);
}

#[test]
fn second_start_is_refused() {
    let mut s = CaptureSession::new();
    assert!(!s.is_active());
    assert_eq!(s.start("a.wav".to_string(), Ok(())), Ok(()));
    assert!(s.is_active());
    assert_eq!(s.start("b.wav".to_string(), Ok(())), Err(CoreError::AlreadyRecording));
    assert!(s.is_active());
    assert_eq!(s.stop(), Some("a.wav".to_string()));
    assert!(!s.is_active());
}

#[test]
fn stop_without_recording_is_a_no_op() {
    let mut s = CaptureSession::new();
    assert_eq!(s.stop(), None);
    assert!(!s.is_active());
}

#[test]
fn failed_setup_leaves_session_stopped() {
    let mut s = CaptureSession::new();
    assert_eq!(
        s.start("a.wav".to_string(), Err(CoreError::NoInputDevice)),
        Err(CoreError::NoInputDevice)
    );
    assert!(!s.is_active());
    assert_eq!(
        s.start("a.wav".to_string(), Err(CoreError::FileIoError)),
        Err(CoreError::FileIoError)
    );
    assert_eq!(s.start("b.wav".to_string(), Ok(())), Ok(()));
    assert_eq!(s.stop(), Some("b.wav".to_string()));
}

#[test]
fn frames_are_downmixed_while_recording() {
    let mut s = CaptureSession::new();
    assert!(s.on_frame(&vec![1, 2], 2).is_empty());
    s.start("a.wav".to_string(), Ok(())).unwrap();
    assert_eq!(s.on_frame(&vec![100, 300, 7, 8], 2), vec![200, 7]);
    assert_eq!(s.window_count(), 2);
    assert_eq!(s.on_frame(&vec![5], 1), vec![5]);
    assert_eq!(s.on_callback(40), Some(0));
}

#[test]
fn unsupported_device_format_is_refused() {
    assert_eq!(
        check_input_format(InputSampleFormat::Other),
        Err(CoreError::UnsupportedSampleFormat)
    );
    assert_eq!(check_input_format(InputSampleFormat::F32), Ok(()));
    assert_eq!(check_input_format(InputSampleFormat::I16), Ok(()));
    assert_eq!(check_input_format(InputSampleFormat::I32), Ok(()));
}
