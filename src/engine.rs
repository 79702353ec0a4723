//! The speech-recognition engine's lifecycle: model parameters, the loaded
//! state, a process-wide cache that loads the model once, and the shaping of
//! the recognizer's raw output into a transcription result.
//!
//! Loading weights and running inference are done by the caller, which hands
//! their outcome to these functions.
use vstd::prelude::*;
use crate::error::CoreError;
use crate::timestamp::{
    convert_timestamps, converted, entry_views, EntryView, TimestampGranularity,
    TimestampedResult, TimestampedResultView, TranscriptionSegment,
};

verus! {

/// Precision of the loaded model weights.
#[derive(Clone, Copy, Debug, PartialEq, Eq, Structural)]
pub enum QuantizationType {
    /// Full precision (32-bit floating point).
    FP32,
    /// 8-bit integer quantization: faster, slightly less accurate.
    Int8,
}

impl Default for QuantizationType {
    fn default() -> (r: Self)
        ensures
            r == QuantizationType::FP32,
    {
        QuantizationType::FP32
    }
}

/// Parameters for loading a model.
#[derive(Clone, Copy, Debug, PartialEq, Eq, Structural)]
pub struct ParakeetModelParams {
    pub quantization: QuantizationType,
}

impl Default for ParakeetModelParams {
    fn default() -> (r: Self)
        ensures
            r.quantization == QuantizationType::FP32,
    {
        ParakeetModelParams { quantization: QuantizationType::FP32 }
    }
}

impl ParakeetModelParams {
    /// Full-precision loading.
    pub fn fp32() -> (r: Self)
        ensures
            r.quantization == QuantizationType::FP32,
    {
        ParakeetModelParams { quantization: QuantizationType::FP32 }
    }

    /// 8-bit quantized loading.
    pub fn int8() -> (r: Self)
        ensures
            r.quantization == QuantizationType::Int8,
    {
        ParakeetModelParams { quantization: QuantizationType::Int8 }
    }

    /// Whether the weights are loaded quantized.
    pub fn quantized(&self) -> (r: bool)
        ensures
            r == (self.quantization == QuantizationType::Int8),
    {
        match self.quantization {
            QuantizationType::FP32 => false,
            QuantizationType::Int8 => true,
        }
    }
}

/// Parameters for one inference.
#[derive(Clone, Copy, Debug, PartialEq, Eq, Structural)]
pub struct ParakeetInferenceParams {
    pub timestamp_granularity: TimestampGranularity,
}

impl Default for ParakeetInferenceParams {
    fn default() -> (r: Self)
        ensures
            r.timestamp_granularity == TimestampGranularity::Token,
    {
        ParakeetInferenceParams { timestamp_granularity: TimestampGranularity::Token }
    }
}

/// The text of a transcription and its timing entries.
pub struct TranscriptionResult {
    pub text: String,
    pub segments: Vec<TranscriptionSegment>,
}

pub struct TranscriptionResultView {
    pub text: Seq<char>,
    pub segments: Seq<EntryView>,
}

impl View for TranscriptionResult {
    type V = TranscriptionResultView;

    open spec fn view(&self) -> TranscriptionResultView {
        TranscriptionResultView { text: self.text@, segments: entry_views(self.segments@) }
    }
}

/// The granularity that optional inference parameters ask for.
pub open spec fn granularity_of(params: Option<ParakeetInferenceParams>) -> TimestampGranularity {
    match params {
        Some(p) => p.timestamp_granularity,
        None => TimestampGranularity::Token,
    }
}

/// What a transcription returns, given whether a model is loaded and what the
/// recognizer produced.
pub open spec fn transcription_spec(
    loaded: bool,
    recognized: Result<TimestampedResultView, CoreError>,
    params: Option<ParakeetInferenceParams>,
) -> Result<TranscriptionResultView, CoreError> {
    if !loaded {
        Err(CoreError::ModelNotLoaded)
    } else {
        match recognized {
            Err(_) => Err(CoreError::InferenceFailed),
            Ok(r) => Ok(
                TranscriptionResultView {
                    text: r.text,
                    segments: converted(r, granularity_of(params)),
                },
            ),
        }
    }
}

pub open spec fn result_view(r: Result<TranscriptionResult, CoreError>) -> Result<
    TranscriptionResultView,
    CoreError,
> {
    match r {
        Ok(t) => Ok(t@),
        Err(e) => Err(e),
    }
}

pub open spec fn recognized_view(r: Result<TimestampedResult, CoreError>) -> Result<
    TimestampedResultView,
    CoreError,
> {
    match r {
        Ok(t) => Ok(t@),
        Err(e) => Err(e),
    }
}

pub struct EngineView {
    /// Path of the loaded model, if any.
    pub loaded: Option<Seq<char>>,
    /// Whether the loaded weights are quantized.
    pub quantized: bool,
}

/// The Parakeet engine's state: which model is loaded, and how.
pub struct ParakeetEngine {
    loaded_model_path: Option<String>,
    quantized: bool,
}

impl View for ParakeetEngine {
    type V = EngineView;

    closed spec fn view(&self) -> EngineView {
        EngineView {
            loaded: match self.loaded_model_path {
                Some(p) => Some(p@),
                None => None,
            },
            quantized: self.quantized,
        }
    }
}

impl ParakeetEngine {
    /// An engine with no model loaded.
    pub fn new() -> (e: Self)
        ensures
            e@.loaded is None,
    {
        ParakeetEngine { loaded_model_path: None, quantized: false }
    }

    /// Whether a model is loaded.
    pub fn is_loaded(&self) -> (r: bool)
        ensures
            r == self@.loaded is Some,
    {
        self.loaded_model_path.is_some()
    }

    /// Records the loading of the model at `model_path` with `params`;
    /// `loaded` is the outcome of reading its weights. A failed load leaves
    /// the engine as it was.
    pub fn load_model_with_params(
        &mut self,
        model_path: String,
        params: ParakeetModelParams,
        loaded: Result<(), CoreError>,
    ) -> (r: Result<(), CoreError>)
        ensures
            loaded is Ok ==> r is Ok && final(self)@ == (EngineView {
                loaded: Some(model_path@),
                quantized: params.quantization == QuantizationType::Int8,
            }),
            loaded is Err ==> r == Err::<(), CoreError>(CoreError::ModelLoadFailed),
            loaded is Err ==> final(self)@ == old(self)@,
    {
        match loaded {
            Err(_) => Err(CoreError::ModelLoadFailed),
            Ok(()) => {
                self.quantized = params.quantized();
                self.loaded_model_path = Some(model_path);
                Ok(())
            },
        }
    }

    /// Forgets the loaded model.
    pub fn unload_model(&mut self)
        ensures
            final(self)@.loaded is None,
    {
        self.loaded_model_path = None;
        self.quantized = false;
    }

    /// The transcription of one recognizer pass: fails without a loaded model
    /// or when the recognizer failed; otherwise the whole text with its
    /// timing entries at the requested granularity (tokens by default).
    pub fn transcribe_samples(
        &self,
        recognized: Result<TimestampedResult, CoreError>,
        params: Option<ParakeetInferenceParams>,
    ) -> (r: Result<TranscriptionResult, CoreError>)
        ensures
            result_view(r) == transcription_spec(
                self@.loaded is Some,
                recognized_view(recognized),
                params,
            ),
    {
        if self.loaded_model_path.is_none() {
            return Err(CoreError::ModelNotLoaded);
        }
        match recognized {
            Err(_) => Err(CoreError::InferenceFailed),
            Ok(res) => {
                let p = match params {
                    Some(p) => p,
                    None => ParakeetInferenceParams::default(),
                };
                let segments = convert_timestamps(&res, p.timestamp_granularity);
                Ok(TranscriptionResult { text: res.text, segments })
            },
        }
    }
}

/// What `ModelRuntime::preload` asks of its caller.
#[derive(Clone, Copy, Debug, PartialEq, Eq, Structural)]
pub enum PreloadStep {
    /// A model is cached: nothing to do.
    Ready,
    /// Load the model with these parameters, then report with
    /// `ModelRuntime::finish_preload`.
    Load(ParakeetModelParams),
}

pub struct ModelRuntimeView {
    pub engine: Option<EngineView>,
    pub params: ParakeetModelParams,
    /// Number of model loads performed so far.
    pub loads: nat,
}

/// The step that `preload` asks for in state `v`.
pub open spec fn preload_step(v: ModelRuntimeView) -> PreloadStep {
    if v.engine is Some {
        PreloadStep::Ready
    } else {
        PreloadStep::Load(v.params)
    }
}

/// The state after a caller reports the outcome of a load: a success caches
/// the loaded engine and counts one load; with a model already cached, or
/// after a failure, nothing changes.
pub open spec fn finish_spec(
    v: ModelRuntimeView,
    path: Seq<char>,
    loaded: Result<(), CoreError>,
) -> (ModelRuntimeView, Result<(), CoreError>) {
    if v.engine is Some {
        (v, Ok(()))
    } else if loaded is Err {
        (v, Err(CoreError::ModelLoadFailed))
    } else {
        (
            ModelRuntimeView {
                engine: Some(
                    EngineView {
                        loaded: Some(path),
                        quantized: v.params.quantization == QuantizationType::Int8,
                    },
                ),
                params: v.params,
                loads: v.loads + 1,
            },
            Ok(()),
        )
    }
}

/// Holds at most one loaded engine for the whole process, loaded on first
/// need with the configured precision and kept until the process ends.
pub struct ModelRuntime {
    engine: Option<ParakeetEngine>,
    params: ParakeetModelParams,
    loads: u64,
}

impl View for ModelRuntime {
    type V = ModelRuntimeView;

    closed spec fn view(&self) -> ModelRuntimeView {
        ModelRuntimeView {
            engine: match self.engine {
                Some(e) => Some(e@),
                None => None,
            },
            params: self.params,
            loads: self.loads as nat,
        }
    }
}

impl ModelRuntime {
    /// The cache holds a loaded engine exactly when one load succeeded.
    pub open spec fn wf(&self) -> bool {
        &&& (self@.engine is Some <==> self@.loads == 1)
        &&& (self@.engine is None <==> self@.loads == 0)
        &&& (self@.engine matches Some(e) ==> e.loaded is Some)
    }

    /// An empty cache that will load with `params`.
    pub fn new(params: ParakeetModelParams) -> (m: Self)
        ensures
            m.wf(),
            m@ == (ModelRuntimeView { engine: None, params, loads: 0 }),
    {
        ModelRuntime { engine: None, params, loads: 0 }
    }

    /// Whether a model is cached.
    pub fn is_loaded(&self) -> (r: bool)
        ensures
            r == self@.engine is Some,
    {
        self.engine.is_some()
    }

    /// Number of model loads performed.
    pub fn load_count(&self) -> (r: u64)
        ensures
            r == self@.loads,
    {
        self.loads
    }

    /// Warm-up: says whether a load is needed, and with which parameters.
    pub fn preload(&self) -> (r: PreloadStep)
        ensures
            r == preload_step(self@),
    {
        if self.engine.is_some() {
            PreloadStep::Ready
        } else {
            PreloadStep::Load(self.params)
        }
    }

    /// Reports the outcome of the load that `preload` asked for, with the
    /// path the model was loaded from.
    pub fn finish_preload(&mut self, model_path: String, loaded: Result<(), CoreError>) -> (r:
        Result<(), CoreError>)
        requires
            old(self).wf(),
        ensures
            final(self).wf(),
            (final(self)@, r) == finish_spec(old(self)@, model_path@, loaded),
    {
        if self.engine.is_some() {
            return Ok(());
        }
        let mut engine = ParakeetEngine::new();
        let r = engine.load_model_with_params(model_path, self.params, loaded);
        match r {
            Err(e) => Err(e),
            Ok(()) => {
                self.engine = Some(engine);
                self.loads = 1;
                Ok(())
            },
        }
    }

    /// Transcribes through the cached engine; fails with `ModelNotLoaded`
    /// when none is cached.
    pub fn transcribe(
        &self,
        recognized: Result<TimestampedResult, CoreError>,
        params: Option<ParakeetInferenceParams>,
    ) -> (r: Result<TranscriptionResult, CoreError>)
        requires
            self.wf(),
        ensures
            result_view(r) == transcription_spec(
                self@.engine is Some,
                recognized_view(recognized),
                params,
            ),
    {
        match &self.engine {
            None => Err(CoreError::ModelNotLoaded),
            Some(e) => e.transcribe_samples(recognized, params),
        }
    }
}

/// Model load idempotence: once a load has succeeded, every later warm-up
/// asks for no load and reporting changes nothing, so a run of warm-ups
/// performs exactly the one load.
pub proof fn lemma_preload_idempotent(
    v: ModelRuntimeView,
    path: Seq<char>,
    later_path: Seq<char>,
    later: Result<(), CoreError>,
)
    requires
        v.engine is None,
        v.loads == 0,
    ensures
        ({
            let (v1, r1) = finish_spec(v, path, Ok(()));
            &&& r1 is Ok
            &&& v1.loads == 1
            &&& preload_step(v1) == PreloadStep::Ready
            &&& finish_spec(v1, later_path, later) == (v1, Ok::<(), CoreError>(()))
            &&& preload_step(finish_spec(v1, later_path, later).0) == PreloadStep::Ready
        }),
{
}

/// The text of a transcription through the cache.
pub fn transcribe_audio(runtime: &ModelRuntime, recognized: Result<TimestampedResult, CoreError>) -> (r:
    Result<String, CoreError>)
    requires
        runtime.wf(),
    ensures
        match transcription_spec(runtime@.engine is Some, recognized_view(recognized), None) {
            Ok(t) => r matches Ok(s) && s@ == t.text,
            Err(e) => r == Err::<String, CoreError>(e),
        },
{
    match runtime.transcribe(recognized, None) {
        Ok(res) => Ok(res.text),
        Err(e) => Err(e),
    }
}

} // verus!
