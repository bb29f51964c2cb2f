//! Voice activity detection: configuration, per-session state and the
//! hysteresis state machine that turns per-frame speech decisions into
//! speech start / end events.
//!
//! The neural speech-probability model runs outside this crate; it hands the
//! state machine one boolean per frame (`probability > threshold`) and stores
//! its recurrent state here as raw `f32` bit patterns.

use vstd::prelude::*;

verus! {

/// Number of values in the recurrent model state: shape (2, 1, 128).
pub const MODEL_STATE_LEN: usize = 2 * 1 * 128;

/// Bit pattern of the `f32` value `0.5`, the default speech threshold.
pub const DEFAULT_THRESHOLD_BITS: u32 = 0x3f00_0000;

/// VAD configuration.
pub struct VadConfig {
    /// Speech probability threshold (0.0 - 1.0), as the bit pattern of an `f32`.
    pub threshold_bits: u32,
    /// Number of consecutive speech frames to trigger speech start.
    pub min_speech_frames: usize,
    /// Number of consecutive silence frames to trigger speech end.
    pub min_silence_frames: usize,
    /// Sample rate (must be 16000 for the model).
    pub sample_rate: u32,
    /// Frame size in samples (512 samples = 32ms at 16kHz).
    pub frame_size: usize,
}

impl Clone for VadConfig {
    fn clone(&self) -> (res: Self)
        ensures
            res == *self,
    {
        VadConfig {
            threshold_bits: self.threshold_bits,
            min_speech_frames: self.min_speech_frames,
            min_silence_frames: self.min_silence_frames,
            sample_rate: self.sample_rate,
            frame_size: self.frame_size,
        }
    }
}

impl Default for VadConfig {
    fn default() -> (res: Self)
        ensures
            res.threshold_bits == DEFAULT_THRESHOLD_BITS,
            res.min_speech_frames == 2,
            res.min_silence_frames == 10,
            res.sample_rate == 16000,
            res.frame_size == 512,
    {
        VadConfig {
            threshold_bits: DEFAULT_THRESHOLD_BITS,
            min_speech_frames: 2,
            min_silence_frames: 10,
            sample_rate: 16000,
            frame_size: 512,
        }
    }
}

/// VAD detection result.
#[derive(Debug, Clone, Copy, PartialEq, Eq, Structural)]
pub enum VadEvent {
    /// Speech started
    SpeechStart,
    /// Speech ended
    SpeechEnd,
    /// Continuing speech
    Speaking,
    /// Continuing silence
    Silent,
}

/// The part of the VAD state that the state machine reads and writes.
pub struct VadPhase {
    pub speaking: bool,
    pub speech_frames: nat,
    pub silence_frames: nat,
}

/// One step of the hysteresis state machine: the phase after a frame whose
/// speech decision is `is_speech`, and the event reported for that frame.
pub open spec fn phase_step(p: VadPhase, is_speech: bool, min_speech: nat, min_silence: nat) -> (
    VadPhase,
    VadEvent,
) {
    if is_speech {
        let speech = p.speech_frames + 1;
        if !p.speaking && speech >= min_speech {
            (VadPhase { speaking: true, speech_frames: speech, silence_frames: 0 }, VadEvent::SpeechStart)
        } else if p.speaking {
            (VadPhase { speaking: true, speech_frames: speech, silence_frames: 0 }, VadEvent::Speaking)
        } else {
            (VadPhase { speaking: false, speech_frames: speech, silence_frames: 0 }, VadEvent::Silent)
        }
    } else {
        let silence = p.silence_frames + 1;
        if p.speaking && silence >= min_silence {
            (VadPhase { speaking: false, speech_frames: 0, silence_frames: silence }, VadEvent::SpeechEnd)
        } else if p.speaking {
            (VadPhase { speaking: true, speech_frames: 0, silence_frames: silence }, VadEvent::Speaking)
        } else {
            (VadPhase { speaking: false, speech_frames: 0, silence_frames: silence }, VadEvent::Silent)
        }
    }
}

/// The phase after a run of frames, each given by its speech decision.
pub open spec fn phase_run(p: VadPhase, frames: Seq<bool>, min_speech: nat, min_silence: nat) -> VadPhase
    decreases frames.len(),
{
    if frames.len() == 0 {
        p
    } else {
        phase_step(
            phase_run(p, frames.drop_last(), min_speech, min_silence),
            frames.last(),
            min_speech,
            min_silence,
        ).0
    }
}

/// The events reported for a run of frames, in order.
pub open spec fn event_run(p: VadPhase, frames: Seq<bool>, min_speech: nat, min_silence: nat) -> Seq<
    VadEvent,
>
    decreases frames.len(),
{
    if frames.len() == 0 {
        Seq::empty()
    } else {
        event_run(p, frames.drop_last(), min_speech, min_silence).push(
            phase_step(
                phase_run(p, frames.drop_last(), min_speech, min_silence),
                frames.last(),
                min_speech,
                min_silence,
            ).1,
        )
    }
}

/// The phase of a fresh or reset state.
pub open spec fn idle_phase() -> VadPhase {
    VadPhase { speaking: false, speech_frames: 0, silence_frames: 0 }
}

/// VAD state machine.
#[derive(Debug, Clone)]
pub struct VadState {
    /// Whether currently in speech.
    pub is_speaking: bool,
    /// Consecutive speech frames counter.
    pub speech_frames: usize,
    /// Consecutive silence frames counter.
    pub silence_frames: usize,
    /// Recurrent model state (h and c, shape (2, 1, 128)), as `f32` bit patterns.
    pub state: Vec<u32>,
}

impl VadState {
    /// The state machine's view of this state.
    pub open spec fn phase(&self) -> VadPhase {
        VadPhase {
            speaking: self.is_speaking,
            speech_frames: self.speech_frames as nat,
            silence_frames: self.silence_frames as nat,
        }
    }

    /// The recurrent model state, as `f32` bit patterns.
    pub open spec fn model(&self) -> Seq<u32> {
        self.state@
    }

    pub fn new() -> (s: Self)
        ensures
            s.phase() == idle_phase(),
            s.model() == Seq::new(MODEL_STATE_LEN as nat, |i: int| 0u32),
    {
        let mut model_state: Vec<u32> = Vec::with_capacity(MODEL_STATE_LEN);
        let mut i: usize = 0;
        while i < MODEL_STATE_LEN
            invariant
                i <= MODEL_STATE_LEN,
                model_state@ == Seq::new(i as nat, |j: int| 0u32),
            decreases MODEL_STATE_LEN - i,
        {
            model_state.push(0u32);
            i += 1;
            assert(model_state@ =~= Seq::new(i as nat, |j: int| 0u32));
        }
        VadState { is_speaking: false, speech_frames: 0, silence_frames: 0, state: model_state }
    }

    /// Back to the idle phase, with every value of the model state zeroed.
    pub fn reset(&mut self)
        ensures
            final(self).phase() == idle_phase(),
            final(self).model() == Seq::new(old(self).model().len(), |i: int| 0u32),
    {
        self.is_speaking = false;
        self.speech_frames = 0;
        self.silence_frames = 0;
        let n: usize = self.state.len();
        let mut i: usize = 0;
        while i < n
            invariant
                n == self.state@.len(),
                i <= n,
                forall|j: int| 0 <= j < i ==> self.state@[j] == 0u32,
                self.phase() == idle_phase(),
            decreases n - i,
        {
            self.state.set(i, 0u32);
            i += 1;
        }
        assert(self.state@ =~= Seq::new(n as nat, |i: int| 0u32));
    }

    /// Replace the recurrent model state with the one the model returned.
    pub fn set_model_state(&mut self, new_state: &[u32])
        requires
            new_state@.len() == old(self).model().len(),
        ensures
            final(self).model() == new_state@,
            final(self).phase() == old(self).phase(),
    {
        let n: usize = new_state.len();
        let mut i: usize = 0;
        while i < n
            invariant
                n == new_state@.len(),
                n == self.state@.len(),
                i <= n,
                forall|j: int| 0 <= j < i ==> self.state@[j] == new_state@[j],
                self.phase() == old(self).phase(),
            decreases n - i,
        {
            self.state.set(i, new_state[i]);
            i += 1;
        }
        assert(self.state@ =~= new_state@);
    }

    /// Feed one frame's speech decision to the state machine and report the
    /// event for that frame.
    pub fn observe_frame(&mut self, is_speech: bool, config: &VadConfig) -> (event: VadEvent)
        requires
            is_speech ==> old(self).speech_frames < usize::MAX,
            !is_speech ==> old(self).silence_frames < usize::MAX,
        ensures
            (final(self).phase(), event) == phase_step(
                old(self).phase(),
                is_speech,
                config.min_speech_frames as nat,
                config.min_silence_frames as nat,
            ),
            final(self).model() == old(self).model(),
    {
        if is_speech {
            self.silence_frames = 0;
            self.speech_frames = self.speech_frames + 1;
            if !self.is_speaking && self.speech_frames >= config.min_speech_frames {
                self.is_speaking = true;
                VadEvent::SpeechStart
            } else if self.is_speaking {
                VadEvent::Speaking
            } else {
                VadEvent::Silent
            }
        } else {
            self.speech_frames = 0;
            self.silence_frames = self.silence_frames + 1;
            if self.is_speaking && self.silence_frames >= config.min_silence_frames {
                self.is_speaking = false;
                VadEvent::SpeechEnd
            } else if self.is_speaking {
                VadEvent::Speaking
            } else {
                VadEvent::Silent
            }
        }
    }
}

impl Default for VadState {
    fn default() -> (s: Self)
        ensures
            s.phase() == idle_phase(),
            s.model() == Seq::new(MODEL_STATE_LEN as nat, |i: int| 0u32),
    {
        Self::new()
    }
}

/// Each event names the transition it reports: `SpeechStart` exactly when the
/// state goes from silent to speaking, `SpeechEnd` exactly when it goes from
/// speaking to silent, `Speaking` and `Silent` when it stays speaking or
/// silent.
pub proof fn lemma_event_names_transition(p: VadPhase, is_speech: bool, min_speech: nat, min_silence: nat)
    ensures
        ({
            let (q, e) = phase_step(p, is_speech, min_speech, min_silence);
            &&& (e == VadEvent::SpeechStart) == (!p.speaking && q.speaking)
            &&& (e == VadEvent::SpeechEnd) == (p.speaking && !q.speaking)
            &&& (e == VadEvent::Speaking) == (p.speaking && q.speaking)
            &&& (e == VadEvent::Silent) == (!p.speaking && !q.speaking)
        }),
{
}

/// After any frame one of the two run counters is zero: a speech frame resets
/// the silence run and a silence frame resets the speech run, and the run that
/// the frame extends grows by one.
pub proof fn lemma_runs_exclusive(p: VadPhase, is_speech: bool, min_speech: nat, min_silence: nat)
    ensures
        ({
            let q = phase_step(p, is_speech, min_speech, min_silence).0;
            &&& is_speech ==> q.silence_frames == 0 && q.speech_frames == p.speech_frames + 1
            &&& !is_speech ==> q.speech_frames == 0 && q.silence_frames == p.silence_frames + 1
        }),
{
}

/// Speech onset: from a silent state whose speech run is `p.speech_frames`,
/// after `n >= 1` consecutive speech frames the state is speaking exactly when
/// the run has reached `min_speech` frames.
pub proof fn lemma_speech_onset(p: VadPhase, n: nat, min_speech: nat, min_silence: nat)
    requires
        !p.speaking,
        n >= 1,
    ensures
        phase_run(p, Seq::new(n, |i: int| true), min_speech, min_silence).speaking == (p.speech_frames
            + n >= min_speech),
        phase_run(p, Seq::new(n, |i: int| true), min_speech, min_silence).speech_frames == p.speech_frames
            + n,
    decreases n,
{
    let frames = Seq::new(n, |i: int| true);
    let shorter = Seq::new((n - 1) as nat, |i: int| true);
    assert(frames.drop_last() =~= shorter);
    assert(frames.last() == true);
    assert(phase_run(p, frames, min_speech, min_silence) == phase_step(
        phase_run(p, shorter, min_speech, min_silence),
        true,
        min_speech,
        min_silence,
    ).0);
    if n > 1 {
        lemma_speech_onset(p, (n - 1) as nat, min_speech, min_silence);
    } else {
        assert(phase_run(p, shorter, min_speech, min_silence) == p);
    }
}

/// Speech offset: from a speaking state whose silence run is
/// `p.silence_frames`, after `n >= 1` consecutive silence frames the state is
/// silent exactly when the run has reached `min_silence` frames.
pub proof fn lemma_speech_offset(p: VadPhase, n: nat, min_speech: nat, min_silence: nat)
    requires
        p.speaking,
        n >= 1,
    ensures
        !phase_run(p, Seq::new(n, |i: int| false), min_speech, min_silence).speaking == (
        p.silence_frames + n >= min_silence),
        phase_run(p, Seq::new(n, |i: int| false), min_speech, min_silence).silence_frames
            == p.silence_frames + n,
    decreases n,
{
    let frames = Seq::new(n, |i: int| false);
    let shorter = Seq::new((n - 1) as nat, |i: int| false);
    assert(frames.drop_last() =~= shorter);
    assert(frames.last() == false);
    assert(phase_run(p, frames, min_speech, min_silence) == phase_step(
        phase_run(p, shorter, min_speech, min_silence),
        false,
        min_speech,
        min_silence,
    ).0);
    if n > 1 {
        lemma_speech_offset(p, (n - 1) as nat, min_speech, min_silence);
    } else {
        assert(phase_run(p, shorter, min_speech, min_silence) == p);
    }
}

/// Start offsets of the complete frames of `frame_size` samples in `total`
/// samples, in order; a shorter tail is left out.
pub fn frame_starts(total: usize, frame_size: usize) -> (starts: Vec<usize>)
    requires
        frame_size > 0,
    ensures
        forall|i: int|
            0 <= i < starts@.len() ==> #[trigger] starts@[i] == i * frame_size && starts@[i]
                + frame_size <= total,
        (starts@.len() + 1) * frame_size > total,
{
    let mut starts: Vec<usize> = Vec::new();
    let mut start: usize = 0;
    proof {
        assert(starts@.len() * frame_size == 0) by (nonlinear_arith)
            requires
                starts@.len() == 0,
        ;
    }
    while start <= total && total - start >= frame_size
        invariant
            frame_size > 0,
            start <= total,
            start == starts@.len() * frame_size,
            forall|i: int|
                0 <= i < starts@.len() ==> #[trigger] starts@[i] == i * frame_size && starts@[i]
                    + frame_size <= total,
        decreases total - start,
    {
        let ghost k = starts@.len();
        starts.push(start);
        proof {
            assert((k + 1) * frame_size == k * frame_size + frame_size) by (nonlinear_arith);
        }
        start = start + frame_size;
    }
    proof {
        let k = starts@.len();
        assert((k + 1) * frame_size == k * frame_size + frame_size) by (nonlinear_arith);
    }
    starts
}

/// Within an utterance a speech frame never ends speech, whatever the speech
/// run: the state stays speaking, the event is `Speaking`, the speech run
/// grows by one and the silence run restarts. Outside an utterance a silence
/// frame never starts speech: the state stays silent and the event is
/// `Silent`.
pub proof fn lemma_frame_kind_keeps_side(p: VadPhase, min_speech: nat, min_silence: nat)
    ensures
        p.speaking ==> phase_step(p, true, min_speech, min_silence) == (
            VadPhase { speaking: true, speech_frames: p.speech_frames + 1, silence_frames: 0 },
            VadEvent::Speaking,
        ),
        !p.speaking ==> phase_step(p, false, min_speech, min_silence) == (
            VadPhase { speaking: false, speech_frames: 0, silence_frames: p.silence_frames + 1 },
            VadEvent::Silent,
        ),
{
}

} // verus!
