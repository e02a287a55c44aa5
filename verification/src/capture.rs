//! The audio-capture duty cycle. The capture pipeline accumulates
//! microphone samples into a fixed-length window, hands a full window to
//! the correlation engine, clears it, and cools down for a fixed delay
//! before recording again. Correlation runs in an isolated context and
//! answers by message, so at most one request may ever be outstanding;
//! that single-slot mailbox is an explicit flag here, not a timing
//! assumption. The driving loop performs the dispatch and the timers and
//! feeds every event back in; this module only decides.

use vstd::prelude::*;

verus! {

/// Samples are gathered for this many milliseconds per window.
pub const SAMPLE_LENGTH_MILLIS: u64 = 100;

/// After dispatching a window, ignore the microphone for this long.
pub const COOLDOWN_MILLIS: u64 = 250;

#[derive(Clone, Copy, PartialEq, Eq, Structural, Debug)]
pub enum CaptureState {
    Recording,
    CoolingDown,
}

/// What the driving loop must do with the samples it just offered.
#[derive(Clone, Copy, PartialEq, Eq, Structural, Debug)]
pub enum CaptureCommand {
    /// Keep the samples: append them to the pending window.
    Buffer,
    /// Keep the samples, then hand the whole window (with its sample rate)
    /// to the correlation engine and clear it; cool down afterwards.
    Dispatch,
    /// The window filled while a correlation was still outstanding: throw
    /// the window away and cool down without dispatching.
    Drop,
    /// Not recording: ignore the samples entirely.
    Ignore,
}

/// The decision state of the capture pipeline. `buffered` counts the
/// samples of the pending window; the sample data itself stays with the
/// driving loop.
#[derive(Clone, Copy, PartialEq, Eq, Structural, Debug)]
pub struct AudioCapture {
    pub state: CaptureState,
    pub buffered: u64,
    /// The window is dispatched once `buffered` exceeds this; it is the
    /// sample count of `SAMPLE_LENGTH_MILLIS` at the configured rate.
    pub window_size: u64,
    /// True from the moment a window is dispatched until its correlation
    /// result comes back: the single-slot mailbox.
    pub outstanding: bool,
}

impl AudioCapture {
    /// A window never holds more than `window_size` samples between
    /// events, and while cooling down it is empty.
    pub open spec fn wf(&self) -> bool {
        &&& self.buffered <= self.window_size
        &&& self.state is CoolingDown ==> self.buffered == 0
    }

    /// Start recording at the given sample rate (in hertz); the window
    /// covers `SAMPLE_LENGTH_MILLIS` of audio.
    pub fn new(sample_rate: u64) -> (c: AudioCapture)
        requires
            sample_rate * SAMPLE_LENGTH_MILLIS <= u64::MAX,
        ensures
            c.wf(),
            c.state is Recording,
            c.buffered == 0,
            c.window_size == sample_rate * SAMPLE_LENGTH_MILLIS / 1000,
            !c.outstanding,
    {
        AudioCapture {
            state: CaptureState::Recording,
            buffered: 0,
            window_size: sample_rate * SAMPLE_LENGTH_MILLIS / 1000,
            outstanding: false,
        }
    }

    /// An audio callback delivered `count` samples. While cooling down
    /// they are ignored. While recording they are buffered; once the
    /// window is longer than `window_size` it is dispatched — unless a
    /// correlation is still outstanding, in which case it is dropped —
    /// and the pipeline cools down either way.
    pub fn on_samples(&mut self, count: u64) -> (cmd: CaptureCommand)
        requires
            old(self).wf(),
            old(self).buffered + count <= u64::MAX,
        ensures
            final(self).wf(),
            final(self).window_size == old(self).window_size,
            final(self).outstanding == (old(self).outstanding || cmd is Dispatch),
            old(self).state is CoolingDown ==> cmd is Ignore && *final(self) == *old(self),
            old(self).state is Recording ==> {
                let filled = old(self).buffered + count > old(self).window_size;
                &&& cmd is Ignore <==> false
                &&& !filled ==> cmd is Buffer && final(self).state is Recording
                    && final(self).buffered == old(self).buffered + count
                &&& filled && !old(self).outstanding ==> cmd is Dispatch
                &&& filled && old(self).outstanding ==> cmd is Drop
                &&& filled ==> final(self).state is CoolingDown && final(self).buffered == 0
            },
    {
        match self.state {
            CaptureState::CoolingDown => CaptureCommand::Ignore,
            CaptureState::Recording => {
                let grown = self.buffered + count;
                if grown <= self.window_size {
                    self.buffered = grown;
                    CaptureCommand::Buffer
                } else {
                    self.buffered = 0;
                    self.state = CaptureState::CoolingDown;
                    if self.outstanding {
                        CaptureCommand::Drop
                    } else {
                        self.outstanding = true;
                        CaptureCommand::Dispatch
                    }
                }
            },
        }
    }

    /// The cooldown timer fired: record again into an empty window.
    pub fn on_cooldown_elapsed(&mut self)
        requires
            old(self).wf(),
        ensures
            final(self).wf(),
            final(self).state is Recording,
            final(self).buffered == old(self).buffered,
            final(self).window_size == old(self).window_size,
            final(self).outstanding == old(self).outstanding,
    {
        self.state = CaptureState::Recording;
    }

    /// A correlation result came back: the mailbox slot is free again.
    pub fn on_correlation_result(&mut self)
        requires
            old(self).wf(),
        ensures
            final(self).wf(),
            final(self).state == old(self).state,
            final(self).buffered == old(self).buffered,
            final(self).window_size == old(self).window_size,
            !final(self).outstanding,
    {
        self.outstanding = false;
    }
}

} // verus!
