//! The recording session: at most one active recording, the mono samples
//! that each incoming audio frame contributes to the waveform file, and the
//! level shown while recording.
use vstd::prelude::*;
use crate::audio::{downmix, downmixed};
use crate::error::CoreError;
use crate::level::{
    after_tick, sum_squares, tick_level, LevelMeter, LevelMeterView, LEVEL_SCALE, THROTTLE_MS,
};

verus! {

/// Sample formats that an input device may deliver.
#[derive(Clone, Copy, Debug, PartialEq, Eq, Structural)]
pub enum InputSampleFormat {
    F32,
    I16,
    I32,
    Other,
}

/// Accepts the device formats that can be captured.
pub fn check_input_format(format: InputSampleFormat) -> (r: Result<(), CoreError>)
    ensures
        r is Err <==> format == InputSampleFormat::Other,
        r is Err ==> r == Err::<(), CoreError>(CoreError::UnsupportedSampleFormat),
{
    match format {
        InputSampleFormat::Other => Err(CoreError::UnsupportedSampleFormat),
        _ => Ok(()),
    }
}

pub struct CaptureSessionView {
    /// Path of the waveform file of the active recording, if any.
    pub file: Option<Seq<char>>,
    pub meter: LevelMeterView,
}

/// The state after `start`, and its result: a second start while recording
/// is refused and changes nothing; a failed device or file setup leaves the
/// session stopped; otherwise the session records into `path` with a fresh
/// level meter.
pub open spec fn start_spec(
    v: CaptureSessionView,
    path: Seq<char>,
    opened: Result<(), CoreError>,
) -> (CaptureSessionView, Result<(), CoreError>) {
    if v.file is Some {
        (v, Err(CoreError::AlreadyRecording))
    } else if opened is Err {
        (v, opened)
    } else {
        (
            CaptureSessionView {
                file: Some(path),
                meter: LevelMeterView { sum_squares: 0, count: 0, smoothed: 0 },
            },
            Ok(()),
        )
    }
}

/// One recording at a time, with its level meter.
pub struct CaptureSession {
    file: Option<String>,
    meter: LevelMeter,
}

impl View for CaptureSession {
    type V = CaptureSessionView;

    closed spec fn view(&self) -> CaptureSessionView {
        CaptureSessionView {
            file: match self.file {
                Some(f) => Some(f@),
                None => None,
            },
            meter: self.meter@,
        }
    }
}

impl CaptureSession {
    pub closed spec fn wf(&self) -> bool {
        self.meter.wf()
    }

    /// A stopped session.
    pub fn new() -> (s: Self)
        ensures
            s.wf(),
            s@.file is None,
    {
        CaptureSession { file: None, meter: LevelMeter::new() }
    }

    /// Whether a recording is in progress.
    pub fn is_active(&self) -> (r: bool)
        ensures
            r == self@.file is Some,
    {
        self.file.is_some()
    }

    /// Starts recording into `output_path`. `opened` is the outcome of
    /// opening the input device and creating the waveform file, which the
    /// caller does only when no recording is active.
    pub fn start(&mut self, output_path: String, opened: Result<(), CoreError>) -> (r: Result<
        (),
        CoreError,
    >)
        requires
            old(self).wf(),
        ensures
            final(self).wf(),
            (final(self)@, r) == start_spec(old(self)@, output_path@, opened),
    {
        if self.file.is_some() {
            return Err(CoreError::AlreadyRecording);
        }
        match opened {
            Err(e) => Err(e),
            Ok(()) => {
                self.file = Some(output_path);
                self.meter = LevelMeter::new();
                Ok(())
            },
        }
    }

    /// Number of samples in the current level window.
    pub fn window_count(&self) -> (r: u64)
        requires
            self.wf(),
        ensures
            r == self@.meter.count,
    {
        self.meter.window_count()
    }

    /// Stops recording: returns the path of the waveform file to finalize,
    /// or `None` when no recording was active (then nothing changes).
    pub fn stop(&mut self) -> (r: Option<String>)
        requires
            old(self).wf(),
        ensures
            final(self).wf(),
            final(self)@.file is None,
            final(self)@.meter == old(self)@.meter,
            match r {
                Some(p) => old(self)@.file == Some(p@),
                None => old(self)@.file is None,
            },
    {
        self.file.take()
    }

    /// Handles one frame of interleaved device samples: while recording,
    /// returns the mono samples to append to the waveform file and adds them
    /// to the level window; otherwise the frame is dropped.
    pub fn on_frame(&mut self, data: &Vec<i16>, channels: usize) -> (mono: Vec<i16>)
        requires
            old(self).wf(),
            old(self)@.meter.count + data.len() <= u64::MAX,
        ensures
            final(self).wf(),
            final(self)@.file == old(self)@.file,
            old(self)@.file is None ==> mono@.len() == 0 && final(self)@ == old(self)@,
            old(self)@.file is Some ==> mono@ == downmixed(data@, channels as nat)
                && final(self)@.meter == (LevelMeterView {
                sum_squares: old(self)@.meter.sum_squares + sum_squares(mono@),
                count: (old(self)@.meter.count + mono@.len()) as nat,
                smoothed: old(self)@.meter.smoothed,
            }),
    {
        if self.file.is_none() {
            return Vec::new();
        }
        let mono = downmix(data, channels);
        proof {
            assert(mono@.len() <= data@.len()) by {
                if channels > 1 {
                    vstd::arithmetic::div_mod::lemma_div_is_ordered_by_denominator(
                        data@.len() as int,
                        1,
                        channels as int,
                    );
                }
            }
        }
        self.meter.accumulate(&mono);
        mono
    }

    /// On each audio callback, the level to show, if one is due (see
    /// `LevelMeter::on_callback`).
    pub fn on_callback(&mut self, elapsed_ms: u64) -> (r: Option<u32>)
        requires
            old(self).wf(),
        ensures
            final(self).wf(),
            final(self)@.file == old(self)@.file,
            elapsed_ms < THROTTLE_MS ==> r is None && final(self)@ == old(self)@,
            elapsed_ms >= THROTTLE_MS ==> r == Some(tick_level(old(self)@.meter) as u32)
                && final(self)@.meter == after_tick(old(self)@.meter),
            r matches Some(l) ==> l <= LEVEL_SCALE,
    {
        self.meter.on_callback(elapsed_ms)
    }
}

/// Single active session: after a successful start, a second start without
/// an intervening stop is refused with `AlreadyRecording` and leaves the
/// first session as it was.
pub proof fn lemma_single_active_session(
    v: CaptureSessionView,
    first: Seq<char>,
    second: Seq<char>,
    opened: Result<(), CoreError>,
)
    requires
        start_spec(v, first, Ok(())).1 is Ok,
    ensures
        ({
            let v1 = start_spec(v, first, Ok(())).0;
            &&& v1.file == Some(first)
            &&& start_spec(v1, second, opened) == (v1, Err::<(), CoreError>(
                CoreError::AlreadyRecording,
            ))
        }),
{
}

} // verus!
