use murmure::engine::{
    transcribe_audio, ModelRuntime, ParakeetEngine, ParakeetInferenceParams, ParakeetModelParams,
    PreloadStep, QuantizationType,
};
use murmure::error::CoreError;
use murmure::timestamp::{TimestampGranularity, TimestampedResult};

fn recognized() -> TimestampedResult {
    TimestampedResult {
        tokens: vec!["\u{2581}Hi".to_string(), "\u{2581}there".to_string()],
        timestamps: vec![0, 400],
        text: "Hi there".to_string(),
    }
}

#[test]
fn model_params_constructors() {
    assert_eq!(ParakeetModelParams::fp32().quantization, QuantizationType::FP32);
    assert_eq!(ParakeetModelParams::int8().quantization, QuantizationType::Int8);
    assert!(ParakeetModelParams::int8().quantized());
    assert!(!ParakeetModelParams::fp32().quantized());
    assert_eq!(ParakeetModelParams::default().quantization, QuantizationType::FP32);
}

#[test]
fn preload_loads_once() {
    let mut rt = ModelRuntime::new(ParakeetModelParams::int8());
    assert_eq!(rt.preload(), PreloadStep::Load(ParakeetModelParams::int8()));
    assert_eq!(rt.finish_preload("models/parakeet".to_string(), Ok(())), Ok(()));
    assert_eq!(rt.load_count(), 1);
    assert_eq!(rt.preload(), PreloadStep::Ready);
    assert_eq!(rt.finish_preload("other".to_string(), Ok(())), Ok(()));
    assert_eq!(rt.preload(), PreloadStep::Ready);
    assert_eq!(rt.load_count(), 1);
    assert!(rt.is_loaded());
}

#[test]
fn failed_load_is_reported_and_not_cached() {
    let mut rt = ModelRuntime::new(ParakeetModelParams::fp32());
    assert_eq!(
        rt.finish_preload("missing".to_string(), Err(CoreError::FileIoError)),
        Err(CoreError::ModelLoadFailed)
    );
    assert!(!rt.is_loaded());
    assert_eq!(rt.load_count(), 0);
    assert_eq!(rt.preload(), PreloadStep::Load(ParakeetModelParams::fp32()));
}

#[test]
fn transcribe_needs_a_loaded_model() {
    let rt = ModelRuntime::new(ParakeetModelParams::int8());
    assert!(matches!(
        rt.transcribe(Ok(recognized()), None),
        Err(CoreError::ModelNotLoaded)
    ));
    assert_eq!(transcribe_audio(&rt, Ok(recognized())), Err(CoreError::ModelNotLoaded));
}

#[test]
fn transcribe_reports_inference_failure() {
    let mut rt = ModelRuntime::new(ParakeetModelParams::int8());
    rt.finish_preload("m".to_string(), Ok(())).unwrap();
    assert!(matches!(
        rt.transcribe(Err(CoreError::InferenceFailed), None),
        Err(CoreError::InferenceFailed)
    ));
}

#[test]
fn transcribe_returns_text_and_entries() {
    let mut rt = ModelRuntime::new(ParakeetModelParams::int8());
    rt.finish_preload("m".to_string(), Ok(())).unwrap();
    let res = rt.transcribe(Ok(recognized()), None).unwrap();
    assert_eq!(res.text, "Hi there");
    assert_eq!(res.segments.len(), 2);
    assert_eq!(res.segments[1].text, "\u{2581}there");
    let params = ParakeetInferenceParams { timestamp_granularity: TimestampGranularity::Segment };
    let res = rt.transcribe(Ok(recognized()), Some(params)).unwrap();
    assert_eq!(res.segments.len(), 1);
    assert_eq!(res.segments[0].text, "Hi there");
    assert_eq!((res.segments[0].start, res.segments[0].end), (0, 450));
    assert_eq!(transcribe_audio(&rt, Ok(recognized())), Ok("Hi there".to_string()));
}

#[test]
fn engine_load_and_unload() {
    let mut e = ParakeetEngine::new();
    assert!(!e.is_loaded());
    assert!(matches!(e.transcribe_samples(Ok(recognized()), None), Err(CoreError::ModelNotLoaded)));
    assert_eq!(
        e.load_model_with_params("m".to_string(), ParakeetModelParams::int8(), Err(CoreError::FileIoError)),
        Err(CoreError::ModelLoadFailed)
    );
    assert!(!e.is_loaded());
    assert_eq!(e.load_model_with_params("m".to_string(), ParakeetModelParams::int8(), Ok(())), Ok(()));
    assert!(e.is_loaded());
    let params = ParakeetInferenceParams { timestamp_granularity: TimestampGranularity::Word };
    let res = e.transcribe_samples(Ok(recognized()), Some(params)).unwrap();
    assert_eq!(res.segments.len(), 2);
    assert_eq!(res.segments[0].text, "Hi");
    e.unload_model();
    assert!(!e.is_loaded());
}

#[test]
fn error_messages_are_distinct() {
    assert_eq!(CoreError::ModelNotLoaded.message(), "Model not loaded");
    assert_ne!(CoreError::AlreadyRecording.message(), CoreError::NoInputDevice.message());
}
