//! The decisions of the speech-to-text pipeline: how each voice-activity
//! event moves a session's utterance buffer and which transcriptions it
//! calls for, and how control messages are understood.

use crate::asr::AsrConfig;
use crate::vad::{idle_phase, VadConfig, VadEvent, VadState, MODEL_STATE_LEN};
use vstd::prelude::*;
use vstd::string::*;

verus! {

/// Sample rate of the audio the pipeline buffers.
pub const PIPELINE_SAMPLE_RATE: u64 = 16000;

/// Configuration for the STT pipeline.
pub struct PipelineConfig {
    pub vad: VadConfig,
    pub asr: AsrConfig,
    /// Minimum speech duration in ms to trigger transcription. Carried in the
    /// configuration only: no decision of the pipeline consults it.
    pub min_speech_ms: u64,
    /// Maximum speech duration in ms before forcing transcription. Carried in
    /// the configuration only: no decision of the pipeline consults it.
    pub max_speech_ms: u64,
}

impl Default for PipelineConfig {
    fn default() -> (res: Self)
        ensures
            res.vad.threshold_bits == crate::vad::DEFAULT_THRESHOLD_BITS,
            res.vad.min_speech_frames == 2,
            res.vad.min_silence_frames == 10,
            res.vad.sample_rate == 16000,
            res.vad.frame_size == 512,
            res.asr.sample_rate == 16000,
            res.asr.n_mels == 80,
            res.asr.frame_length_ms_bits == crate::asr::DEFAULT_FRAME_LENGTH_MS_BITS,
            res.asr.frame_shift_ms_bits == crate::asr::DEFAULT_FRAME_SHIFT_MS_BITS,
            res.asr.chunk_size_frames == 140,
            res.asr.left_context_frames == 70,
            res.asr.right_context_frames == 13,
            res.min_speech_ms == 200,
            res.max_speech_ms == 30000,
    {
        PipelineConfig {
            vad: VadConfig::default(),
            asr: AsrConfig::default(),
            min_speech_ms: 200,
            max_speech_ms: 30000,
        }
    }
}

/// Session-specific state.
pub struct SessionState {
    pub is_speaking: bool,
    pub audio_buffer: Vec<i16>,
    pub vad_state: VadState,
}

/// Milliseconds of audio in `len` samples at the pipeline's sample rate.
pub open spec fn buffer_ms(len: nat) -> nat {
    len * 1000 / 16000
}

/// Whether a partial transcript is due for an utterance buffer of `len`
/// samples: at least two seconds buffered, and within the first 100 ms of a
/// whole second.
pub open spec fn partial_due(len: nat) -> bool {
    buffer_ms(len) >= 2000 && buffer_ms(len) % 1000 < 100
}

/// What the pipeline does for one voice-activity event, by value.
pub enum ActionView {
    Nothing,
    SpeechStarted,
    SpeechEnded(Option<Seq<i16>>),
    PartialDue(Seq<i16>),
}

/// What the pipeline does for one voice-activity event.
pub enum PipelineAction {
    /// Nothing to report.
    Nothing,
    /// Voice activity started: report it.
    SpeechStarted,
    /// Voice activity ended: report it, then transcribe the utterance, if
    /// any audio was buffered.
    SpeechEnded(Option<Vec<i16>>),
    /// Speech continues and a partial transcript is due: transcribe the
    /// utterance buffered so far.
    PartialDue(Vec<i16>),
}

impl View for PipelineAction {
    type V = ActionView;

    open spec fn view(&self) -> ActionView {
        match self {
            PipelineAction::Nothing => ActionView::Nothing,
            PipelineAction::SpeechStarted => ActionView::SpeechStarted,
            PipelineAction::SpeechEnded(None) => ActionView::SpeechEnded(None),
            PipelineAction::SpeechEnded(Some(a)) => ActionView::SpeechEnded(Some(a@)),
            PipelineAction::PartialDue(a) => ActionView::PartialDue(a@),
        }
    }
}

/// Whether the session is in an utterance after `event`.
pub open spec fn next_speaking(speaking: bool, event: VadEvent) -> bool {
    match event {
        VadEvent::SpeechStart => true,
        VadEvent::SpeechEnd => false,
        _ => speaking,
    }
}

/// The utterance buffer after `event`, for a chunk of `samples`. At the end
/// of speech the buffer is kept until its transcription has succeeded.
pub open spec fn next_buffer(speaking: bool, buffer: Seq<i16>, event: VadEvent, samples: Seq<i16>) -> Seq<
    i16,
> {
    match event {
        VadEvent::SpeechStart => if !speaking {
            Seq::empty()
        } else {
            buffer
        },
        VadEvent::SpeechEnd => buffer,
        VadEvent::Speaking => if speaking {
            buffer + samples
        } else {
            buffer
        },
        VadEvent::Silent => buffer,
    }
}

/// The utterance buffer once the work of `event` is done: as
/// `next_buffer`, except that at the end of speech the utterance has been
/// transcribed and the buffer cleared.
pub open spec fn settled_buffer(speaking: bool, buffer: Seq<i16>, event: VadEvent, samples: Seq<i16>) -> Seq<
    i16,
> {
    if event == VadEvent::SpeechEnd && speaking {
        Seq::empty()
    } else {
        next_buffer(speaking, buffer, event, samples)
    }
}

/// The action for `event`, for a chunk of `samples`.
pub open spec fn next_action(speaking: bool, buffer: Seq<i16>, event: VadEvent, samples: Seq<i16>) -> ActionView {
    match event {
        VadEvent::SpeechStart => if !speaking {
            ActionView::SpeechStarted
        } else {
            ActionView::Nothing
        },
        VadEvent::SpeechEnd => if speaking {
            ActionView::SpeechEnded(
                if buffer.len() > 0 {
                    Some(buffer)
                } else {
                    None
                },
            )
        } else {
            ActionView::Nothing
        },
        VadEvent::Speaking => if speaking && partial_due((buffer + samples).len()) {
            ActionView::PartialDue(buffer + samples)
        } else {
            ActionView::Nothing
        },
        VadEvent::Silent => ActionView::Nothing,
    }
}

impl SessionState {
    pub fn new() -> (s: Self)
        ensures
            !s.is_speaking,
            s.audio_buffer@ == Seq::<i16>::empty(),
            s.vad_state.phase() == idle_phase(),
            s.vad_state.model() == Seq::new(MODEL_STATE_LEN as nat, |i: int| 0u32),
    {
        SessionState { is_speaking: false, audio_buffer: Vec::new(), vad_state: VadState::new() }
    }

    /// Reset the session: no utterance, empty buffer, fresh VAD state.
    pub fn reset(&mut self)
        ensures
            !final(self).is_speaking,
            final(self).audio_buffer@ == Seq::<i16>::empty(),
            final(self).vad_state.phase() == idle_phase(),
            final(self).vad_state.model() == Seq::new(MODEL_STATE_LEN as nat, |i: int| 0u32),
    {
        self.is_speaking = false;
        self.audio_buffer.clear();
        self.vad_state = VadState::new();
    }

    /// The utterance handed over at the end of speech has been transcribed:
    /// clear the buffer.
    pub fn finish_utterance(&mut self)
        ensures
            final(self).audio_buffer@ == Seq::<i16>::empty(),
            final(self).is_speaking == old(self).is_speaking,
            final(self).vad_state == old(self).vad_state,
    {
        self.audio_buffer.clear();
    }

    /// Apply one voice-activity event of an incoming chunk of `samples` to
    /// the session, and say what to report or transcribe.
    pub fn on_vad_event(&mut self, event: VadEvent, samples: &[i16]) -> (action: PipelineAction)
        requires
            event == VadEvent::Speaking && old(self).is_speaking ==> (old(self).audio_buffer@.len()
                + samples@.len()) * 1000 <= u64::MAX,
        ensures
            final(self).is_speaking == next_speaking(old(self).is_speaking, event),
            final(self).audio_buffer@ == next_buffer(
                old(self).is_speaking,
                old(self).audio_buffer@,
                event,
                samples@,
            ),
            action@ == next_action(old(self).is_speaking, old(self).audio_buffer@, event, samples@),
            final(self).vad_state == old(self).vad_state,
    {
        match event {
            VadEvent::SpeechStart => {
                if !self.is_speaking {
                    self.is_speaking = true;
                    self.audio_buffer.clear();
                    PipelineAction::SpeechStarted
                } else {
                    PipelineAction::Nothing
                }
            },
            VadEvent::SpeechEnd => {
                if self.is_speaking {
                    self.is_speaking = false;
                    if self.audio_buffer.len() > 0 {
                        PipelineAction::SpeechEnded(Some(self.audio_buffer.clone()))
                    } else {
                        PipelineAction::SpeechEnded(None)
                    }
                } else {
                    PipelineAction::Nothing
                }
            },
            VadEvent::Speaking => {
                if self.is_speaking {
                    let ghost start = self.audio_buffer@;
                    let mut i: usize = 0;
                    while i < samples.len()
                        invariant
                            i <= samples@.len(),
                            self.audio_buffer@ == start + samples@.take(i as int),
                            self.is_speaking == old(self).is_speaking,
                            self.vad_state == old(self).vad_state,
                        decreases samples@.len() - i,
                    {
                        self.audio_buffer.push(samples[i]);
                        i += 1;
                        assert(self.audio_buffer@ =~= start + samples@.take(i as int));
                    }
                    assert(samples@.take(samples@.len() as int) =~= samples@);
                    let len: u64 = self.audio_buffer.len() as u64;
                    let ms: u64 = len * 1000 / PIPELINE_SAMPLE_RATE;
                    if ms >= 2000 && ms % 1000 < 100 {
                        PipelineAction::PartialDue(self.audio_buffer.clone())
                    } else {
                        PipelineAction::Nothing
                    }
                } else {
                    PipelineAction::Nothing
                }
            },
            VadEvent::Silent => PipelineAction::Nothing,
        }
    }
}

/// Outside an utterance the buffer is empty: a session that starts idle with
/// an empty buffer keeps this through every event whose work is done.
pub proof fn lemma_idle_buffer_empty(speaking: bool, buffer: Seq<i16>, event: VadEvent, samples: Seq<i16>)
    requires
        !speaking ==> buffer.len() == 0,
    ensures
        !next_speaking(speaking, event) ==> settled_buffer(speaking, buffer, event, samples).len()
            == 0,
{
}

/// Start and end reports alternate: a start is reported exactly when the
/// session enters an utterance, an end exactly when it leaves one.
pub proof fn lemma_reports_mark_transitions(
    speaking: bool,
    buffer: Seq<i16>,
    event: VadEvent,
    samples: Seq<i16>,
)
    ensures
        (next_action(speaking, buffer, event, samples) == ActionView::SpeechStarted) == (!speaking
            && next_speaking(speaking, event)),
        (next_action(speaking, buffer, event, samples) is SpeechEnded) == (speaking && !next_speaking(
            speaking,
            event,
        )),
{
}

/// A session after a sequence of events, the `i`-th of them arriving with
/// the chunk `chunks[i]`, each event's work done (an utterance handed over
/// at the end of speech transcribed): whether it is in an utterance, its
/// buffer, and the actions of the events in order.
pub open spec fn session_run(
    speaking: bool,
    buffer: Seq<i16>,
    events: Seq<VadEvent>,
    chunks: Seq<Seq<i16>>,
) -> (bool, Seq<i16>, Seq<ActionView>)
    decreases events.len(),
{
    if events.len() == 0 {
        (speaking, buffer, Seq::empty())
    } else {
        let (s, b, a) = session_run(speaking, buffer, events.drop_last(), chunks);
        let e = events.last();
        let c = chunks[events.len() - 1];
        (next_speaking(s, e), settled_buffer(s, b, e, c), a.push(next_action(s, b, e, c)))
    }
}

/// The start (`true`) and end (`false`) reports among actions, in order.
pub open spec fn reports(actions: Seq<ActionView>) -> Seq<bool>
    decreases actions.len(),
{
    if actions.len() == 0 {
        Seq::empty()
    } else {
        let r = reports(actions.drop_last());
        match actions.last() {
            ActionView::SpeechStarted => r.push(true),
            ActionView::SpeechEnded(_) => r.push(false),
            _ => r,
        }
    }
}

/// The audio of the `Speaking` events of a sequence, concatenated in order.
pub open spec fn spoken(events: Seq<VadEvent>, chunks: Seq<Seq<i16>>) -> Seq<i16>
    decreases events.len(),
{
    if events.len() == 0 {
        Seq::empty()
    } else if events.last() == VadEvent::Speaking {
        spoken(events.drop_last(), chunks) + chunks[events.len() - 1]
    } else {
        spoken(events.drop_last(), chunks)
    }
}

/// Over any sequence of events, start and end reports alternate, the first
/// one being a start exactly when the session began outside an utterance,
/// and the session ends in an utterance exactly when it began in one and
/// an even number of reports was made, or began outside one and an odd number.
pub proof fn lemma_reports_alternate(
    speaking: bool,
    buffer: Seq<i16>,
    events: Seq<VadEvent>,
    chunks: Seq<Seq<i16>>,
)
    ensures
        ({
            let (s, b, a) = session_run(speaking, buffer, events, chunks);
            let r = reports(a);
            &&& forall|i: int| 0 <= i < r.len() ==> #[trigger] r[i] == ((i % 2 == 0) != speaking)
            &&& s == (speaking != (r.len() % 2 == 1))
        }),
    decreases events.len(),
{
    if events.len() > 0 {
        let (s0, b0, a0) = session_run(speaking, buffer, events.drop_last(), chunks);
        lemma_reports_alternate(speaking, buffer, events.drop_last(), chunks);
        let e = events.last();
        let c = chunks[events.len() - 1];
        let a = a0.push(next_action(s0, b0, e, c));
        assert(a.drop_last() =~= a0);
        assert(a.last() == next_action(s0, b0, e, c));
        lemma_reports_mark_transitions(s0, b0, e, c);
    }
}

/// A session that follows its own VAD state keeps following it: fed the
/// events of a run of frames, a session whose utterance flag agrees with the
/// VAD phase before the run agrees with it after, and outside an utterance
/// its buffer stays empty.
pub proof fn lemma_session_follows_vad(
    p: crate::vad::VadPhase,
    buffer: Seq<i16>,
    frames: Seq<bool>,
    chunks: Seq<Seq<i16>>,
    min_speech: nat,
    min_silence: nat,
)
    requires
        !p.speaking ==> buffer.len() == 0,
    ensures
        ({
            let (s, b, a) = session_run(
                p.speaking,
                buffer,
                crate::vad::event_run(p, frames, min_speech, min_silence),
                chunks,
            );
            &&& s == crate::vad::phase_run(p, frames, min_speech, min_silence).speaking
            &&& !s ==> b.len() == 0
        }),
    decreases frames.len(),
{
    if frames.len() > 0 {
        let prev = frames.drop_last();
        lemma_session_follows_vad(p, buffer, prev, chunks, min_speech, min_silence);
        let events = crate::vad::event_run(p, frames, min_speech, min_silence);
        let prev_events = crate::vad::event_run(p, prev, min_speech, min_silence);
        assert(events.drop_last() =~= prev_events);
        let q = crate::vad::phase_run(p, prev, min_speech, min_silence);
        let (s0, b0, a0) = session_run(p.speaking, buffer, prev_events, chunks);
        crate::vad::lemma_event_names_transition(q, frames.last(), min_speech, min_silence);
        lemma_idle_buffer_empty(s0, b0, events.last(), chunks[events.len() - 1]);
    }
}

/// The audio of the `Speaking` events since speech started is exactly what
/// stands in the buffer while the utterance lasts.
proof fn lemma_utterance_prefix(buffer: Seq<i16>, events: Seq<VadEvent>, chunks: Seq<Seq<i16>>, k: int)
    requires
        1 <= k <= events.len(),
        chunks.len() >= events.len(),
        events[0] == VadEvent::SpeechStart,
        forall|i: int| 0 <= i < k ==> events[i] != VadEvent::SpeechEnd,
    ensures
        session_run(false, buffer, events.take(k), chunks).0,
        session_run(false, buffer, events.take(k), chunks).1 == spoken(events.take(k), chunks),
    decreases k,
{
    let t = events.take(k);
    assert(t.last() == events[k - 1]);
    if k == 1 {
        assert(t.drop_last() =~= Seq::<VadEvent>::empty());
        assert(spoken(t, chunks) == spoken(t.drop_last(), chunks));
        assert(spoken(t, chunks) =~= Seq::<i16>::empty());
        assert(session_run(false, buffer, t.drop_last(), chunks) == (false, buffer, Seq::<ActionView>::empty()));
        assert(session_run(false, buffer, t, chunks).1 == next_buffer(false, buffer, t.last(), chunks[0]));
    } else {
        lemma_utterance_prefix(buffer, events, chunks, k - 1);
        assert(t.drop_last() =~= events.take(k - 1));
        let (s0, b0, a0) = session_run(false, buffer, events.take(k - 1), chunks);
        assert(session_run(false, buffer, t, chunks).1 == next_buffer(s0, b0, t.last(), chunks[k - 1]));
        if t.last() == VadEvent::Speaking {
            assert(spoken(t, chunks) == spoken(events.take(k - 1), chunks) + chunks[k - 1]);
        } else {
            assert(spoken(t, chunks) == spoken(events.take(k - 1), chunks));
        }
    }
}

/// The utterance handed to the final transcription is exactly the audio of
/// the `Speaking` events since speech started: for events from a session
/// outside an utterance that start speech, end it with the last event and
/// do not end it before, the last action is the end of speech with that
/// audio (none when it is empty), and once that utterance is transcribed
/// the session is idle again with an empty buffer.
pub proof fn lemma_final_utterance_is_buffer(
    buffer: Seq<i16>,
    events: Seq<VadEvent>,
    chunks: Seq<Seq<i16>>,
)
    requires
        events.len() >= 2,
        chunks.len() >= events.len(),
        events[0] == VadEvent::SpeechStart,
        events.last() == VadEvent::SpeechEnd,
        forall|i: int| 0 <= i < events.len() - 1 ==> events[i] != VadEvent::SpeechEnd,
    ensures
        ({
            let (s, b, a) = session_run(false, buffer, events, chunks);
            let u = spoken(events.drop_last(), chunks);
            &&& a.last() == ActionView::SpeechEnded(
                if u.len() > 0 {
                    Some(u)
                } else {
                    None
                },
            )
            &&& !s
            &&& b.len() == 0
        }),
{
    let n = events.len() as int;
    lemma_utterance_prefix(buffer, events, chunks, n - 1);
    assert(events.take(n - 1) =~= events.drop_last());
}

/// The JSON error type; values are only carried through.
#[verifier::external_type_specification]
#[verifier::external_body]
pub struct ExJsonError(serde_json::Error);

/// What parsing `text` as a JSON value and reading the string under `key`
/// gives: `None` when `text` is not JSON, `Some(None)` when the value has no
/// string under `key`, `Some(Some(t))` when it has `t`.
pub uninterp spec fn json_str_field(text: Seq<char>, key: Seq<char>) -> Option<Option<Seq<char>>>;

/// `serde_json::from_str::<serde_json::Value>`, then `Value::get(key)` and
/// `Value::as_str` on the result. The contract claims only that the outcome
/// is a function of the text and the key, named `json_str_field`.
#[verifier::external_body]
fn parse_json_str_field(text: &str, key: &str) -> (r: Result<Option<String>, serde_json::Error>)
    ensures
        match r {
            Ok(None) => json_str_field(text@, key@) == Some(None::<Seq<char>>),
            Ok(Some(t)) => json_str_field(text@, key@) == Some(Some(t@)),
            Err(_) => json_str_field(text@, key@) == None::<Option<Seq<char>>>,
        },
{
    let value: serde_json::Value = serde_json::from_str(text)?;
    Ok(value.get(key).and_then(|t| t.as_str()).map(|t| t.to_string()))
}

/// The string under the key `"type"` of a control message, as
/// `json_str_field` gives it.
pub open spec fn json_type_field(text: Seq<char>) -> Option<Option<Seq<char>>> {
    json_str_field(text, "type"@)
}

/// Control messages a client can send.
#[derive(Debug, Clone, Copy, PartialEq, Eq, Structural)]
pub enum ControlCommand {
    /// Reset the session.
    Reset,
    /// Latency probe; answered with a timestamp.
    Ping,
    /// Any other message type, or none.
    Unknown,
}

/// A control message that could not be understood.
pub enum ControlError {
    /// The message is not JSON.
    InvalidJson(serde_json::Error),
}

/// The command that a message's `"type"` string names.
pub open spec fn command_for(type_field: Option<Seq<char>>) -> ControlCommand {
    match type_field {
        Some(t) => if t == "reset"@ {
            ControlCommand::Reset
        } else if t == "ping"@ {
            ControlCommand::Ping
        } else {
            ControlCommand::Unknown
        },
        None => ControlCommand::Unknown,
    }
}

/// The command that a message's `"type"` string names.
pub fn classify_control(type_field: Option<String>) -> (cmd: ControlCommand)
    ensures
        cmd == command_for(
            match type_field {
                Some(t) => Some(t@),
                None => None,
            },
        ),
{
    match type_field {
        Some(t) => {
            if t == String::from_str("reset") {
                ControlCommand::Reset
            } else if t == String::from_str("ping") {
                ControlCommand::Ping
            } else {
                ControlCommand::Unknown
            }
        },
        None => ControlCommand::Unknown,
    }
}

/// Understand a control message: a JSON object whose `"type"` names the
/// command.
pub fn parse_control_message(text: &str) -> (r: Result<ControlCommand, ControlError>)
    ensures
        match json_type_field(text@) {
            None => r is Err,
            Some(t) => r == Ok::<ControlCommand, ControlError>(command_for(t)),
        },
{
    match parse_json_str_field(text, "type") {
        Ok(t) => Ok(classify_control(t)),
        Err(e) => Err(ControlError::InvalidJson(e)),
    }
}

/// A partial transcription always gets the whole utterance buffered so far:
/// it is asked for only on a `Speaking` event inside an utterance, and then
/// with the buffer followed by the event's chunk, every sample of both.
pub proof fn lemma_partial_gets_whole_utterance(
    speaking: bool,
    buffer: Seq<i16>,
    event: VadEvent,
    samples: Seq<i16>,
)
    ensures
        next_action(speaking, buffer, event, samples) matches ActionView::PartialDue(u) ==> {
            &&& speaking
            &&& event == VadEvent::Speaking
            &&& u.len() == buffer.len() + samples.len()
            &&& forall|i: int| 0 <= i < buffer.len() ==> u[i] == buffer[i]
            &&& forall|i: int| 0 <= i < samples.len() ==> u[buffer.len() + i] == samples[i]
        },
{
}

/// Over a session run from the start of speech, every partial transcription
/// asked for before the end of speech carries the audio of all `Speaking`
/// events up to and including its own.
pub proof fn lemma_partials_carry_utterance_so_far(
    buffer: Seq<i16>,
    events: Seq<VadEvent>,
    chunks: Seq<Seq<i16>>,
    k: int,
)
    requires
        1 <= k <= events.len(),
        chunks.len() >= events.len(),
        events[0] == VadEvent::SpeechStart,
        forall|i: int| 0 <= i < k ==> events[i] != VadEvent::SpeechEnd,
    ensures
        session_run(false, buffer, events.take(k), chunks).2.last() matches ActionView::PartialDue(
            u,
        ) ==> u == spoken(events.take(k), chunks),
{
    let t = events.take(k);
    if k > 1 {
        lemma_utterance_prefix(buffer, events, chunks, k - 1);
        assert(t.drop_last() =~= events.take(k - 1));
        assert(t.last() == events[k - 1]);
        if t.last() == VadEvent::Speaking {
            assert(spoken(t, chunks) == spoken(events.take(k - 1), chunks) + chunks[k - 1]);
        }
    } else {
        assert(t.drop_last() =~= Seq::<VadEvent>::empty());
    }
}

} // verus!
