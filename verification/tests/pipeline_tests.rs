use stt_server::pipeline::{
    classify_control, parse_control_message, ControlCommand, PipelineAction, PipelineConfig,
    SessionState,
};
use stt_server::vad::VadEvent;

#[test]
fn test_pipeline_config_defaults() {
    let config = PipelineConfig::default();
    assert_eq!(config.min_speech_ms, 200);
    assert_eq!(config.max_speech_ms, 30000);
}

fn is_nothing(a: &PipelineAction) -> bool {
    matches!(a, PipelineAction::Nothing)
}

#[test]
fn session_utterance_lifecycle() {
    let mut s = SessionState::new();
    let chunk = vec![1i16, 2, 3];
    // not speaking: Speaking and Silent events change nothing
    assert!(is_nothing(&s.on_vad_event(VadEvent::Speaking, &chunk)));
    assert!(is_nothing(&s.on_vad_event(VadEvent::Silent, &chunk)));
    assert!(s.audio_buffer.is_empty());
    // start
    assert!(matches!(s.on_vad_event(VadEvent::SpeechStart, &chunk), PipelineAction::SpeechStarted));
    assert!(s.is_speaking);
    // a second start is not reported again
    assert!(is_nothing(&s.on_vad_event(VadEvent::SpeechStart, &chunk)));
    // the whole chunk is buffered for each Speaking event
    assert!(is_nothing(&s.on_vad_event(VadEvent::Speaking, &chunk)));
    assert!(is_nothing(&s.on_vad_event(VadEvent::Speaking, &chunk)));
    assert_eq!(s.audio_buffer, vec![1, 2, 3, 1, 2, 3]);
    // end: report, and hand the utterance to the final transcription
    match s.on_vad_event(VadEvent::SpeechEnd, &chunk) {
        PipelineAction::SpeechEnded(Some(u)) => assert_eq!(u, vec![1, 2, 3, 1, 2, 3]),
        _ => panic!("expected the end of speech with the utterance"),
    }
    assert!(!s.is_speaking);
    // the utterance stays buffered until its transcription has succeeded
    assert_eq!(s.audio_buffer, vec![1, 2, 3, 1, 2, 3]);
    s.finish_utterance();
    assert!(s.audio_buffer.is_empty());
    // a second end is not reported again
    assert!(is_nothing(&s.on_vad_event(VadEvent::SpeechEnd, &chunk)));
}

#[test]
fn session_end_without_audio_transcribes_nothing() {
    let mut s = SessionState::new();
    s.on_vad_event(VadEvent::SpeechStart, &[]);
    assert!(matches!(s.on_vad_event(VadEvent::SpeechEnd, &[]), PipelineAction::SpeechEnded(None)));
}

#[test]
fn session_partial_transcript_every_second_after_two() {
    let mut s = SessionState::new();
    s.on_vad_event(VadEvent::SpeechStart, &[]);
    // 31_999 samples: 1999 ms, not due
    let a = vec![0i16; 31_999];
    assert!(is_nothing(&s.on_vad_event(VadEvent::Speaking, &a)));
    // one more sample: 2000 ms, due
    match s.on_vad_event(VadEvent::Speaking, &[5]) {
        PipelineAction::PartialDue(u) => {
            assert_eq!(u.len(), 32_000);
            assert_eq!(u[31_999], 5);
        }
        _ => panic!("expected a partial transcript"),
    }
    // 2100 ms: past the first 100 ms of the second, not due
    let b = vec![0i16; 1_600];
    assert!(is_nothing(&s.on_vad_event(VadEvent::Speaking, &b)));
    // 3050 ms: due again
    let c = vec![0i16; 15_200];
    assert!(matches!(s.on_vad_event(VadEvent::Speaking, &c), PipelineAction::PartialDue(_)));
    assert_eq!(s.audio_buffer.len(), 48_800);
}

#[test]
fn session_reset_clears_everything() {
    let mut s = SessionState::new();
    s.on_vad_event(VadEvent::SpeechStart, &[]);
    s.on_vad_event(VadEvent::Speaking, &[1, 2]);
    s.vad_state.speech_frames = 4;
    s.reset();
    assert!(!s.is_speaking);
    assert!(s.audio_buffer.is_empty());
    assert_eq!(s.vad_state.speech_frames, 0);
    assert!(!s.vad_state.is_speaking);
}

#[test]
fn control_messages_are_classified() {
    assert_eq!(classify_control(Some("reset".to_string())), ControlCommand::Reset);
    assert_eq!(classify_control(Some("ping".to_string())), ControlCommand::Ping);
    assert_eq!(classify_control(Some("pong".to_string())), ControlCommand::Unknown);
    assert_eq!(classify_control(None), ControlCommand::Unknown);
}

#[test]
fn control_messages_are_parsed_from_json() {
    assert!(matches!(parse_control_message(r#"{"type":"reset"}"#), Ok(ControlCommand::Reset)));
    assert!(matches!(parse_control_message(r#"{ "type": "ping", "x": 1 }"#), Ok(ControlCommand::Ping)));
    assert!(matches!(parse_control_message(r#"{"type":"other"}"#), Ok(ControlCommand::Unknown)));
    assert!(matches!(parse_control_message(r#"{"type":5}"#), Ok(ControlCommand::Unknown)));
    assert!(matches!(parse_control_message(r#"{"kind":"reset"}"#), Ok(ControlCommand::Unknown)));
    assert!(matches!(parse_control_message(r#"["reset"]"#), Ok(ControlCommand::Unknown)));
    assert!(matches!(parse_control_message("reset"), Err(_)));
    assert!(matches!(parse_control_message(""), Err(_)));
}
