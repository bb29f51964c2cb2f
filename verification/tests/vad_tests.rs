use stt_server::vad::{frame_starts, VadConfig, VadEvent, VadState, MODEL_STATE_LEN};

#[test]
fn test_vad_state_machine() {
    let mut state = VadState::new();
    let config = VadConfig::default();

    // Verify state size is correct for Silero VAD
    assert_eq!(state.state.len(), 2 * 1 * 128);

    // Simulate speech frames
    for _ in 0..5 {
        state.speech_frames += 1;
        state.silence_frames = 0;
    }

    assert!(state.speech_frames >= config.min_speech_frames);
}

#[test]
fn test_vad_config_defaults() {
    let config = VadConfig::default();
    assert_eq!(config.sample_rate, 16000);
    assert_eq!(config.frame_size, 512); // 32ms for Silero VAD
    assert_eq!(f32::from_bits(config.threshold_bits), 0.5);
}

#[test]
fn vad_new_state_is_idle_and_zeroed() {
    let state = VadState::new();
    assert!(!state.is_speaking);
    assert_eq!(state.speech_frames, 0);
    assert_eq!(state.silence_frames, 0);
    assert_eq!(state.state.len(), MODEL_STATE_LEN);
    assert!(state.state.iter().all(|&b| f32::from_bits(b) == 0.0));
}

#[test]
fn vad_speech_starts_after_min_speech_frames() {
    let config = VadConfig::default();
    let mut state = VadState::new();
    assert_eq!(state.observe_frame(true, &config), VadEvent::Silent);
    assert!(!state.is_speaking);
    assert_eq!(state.observe_frame(true, &config), VadEvent::SpeechStart);
    assert!(state.is_speaking);
    assert_eq!(state.observe_frame(true, &config), VadEvent::Speaking);
    assert_eq!(state.speech_frames, 3);
    assert_eq!(state.silence_frames, 0);
}

#[test]
fn vad_a_silent_frame_breaks_the_speech_run() {
    let config = VadConfig::default();
    let mut state = VadState::new();
    assert_eq!(state.observe_frame(true, &config), VadEvent::Silent);
    assert_eq!(state.observe_frame(false, &config), VadEvent::Silent);
    assert_eq!(state.speech_frames, 0);
    assert_eq!(state.silence_frames, 1);
    assert_eq!(state.observe_frame(true, &config), VadEvent::Silent);
    assert_eq!(state.observe_frame(true, &config), VadEvent::SpeechStart);
}

#[test]
fn vad_speech_ends_after_min_silence_frames() {
    let config = VadConfig::default();
    let mut state = VadState::new();
    state.observe_frame(true, &config);
    state.observe_frame(true, &config);
    assert!(state.is_speaking);
    for _ in 0..9 {
        assert_eq!(state.observe_frame(false, &config), VadEvent::Speaking);
    }
    assert_eq!(state.observe_frame(false, &config), VadEvent::SpeechEnd);
    assert!(!state.is_speaking);
    assert_eq!(state.observe_frame(false, &config), VadEvent::Silent);
    assert_eq!(state.silence_frames, 11);
}

#[test]
fn vad_zero_min_speech_starts_on_first_speech_frame() {
    let mut config = VadConfig::default();
    config.min_speech_frames = 0;
    let mut state = VadState::new();
    assert_eq!(state.observe_frame(true, &config), VadEvent::SpeechStart);
}

#[test]
fn vad_reset_returns_to_idle_and_zeroes_model_state() {
    let config = VadConfig::default();
    let mut state = VadState::new();
    state.observe_frame(true, &config);
    state.observe_frame(true, &config);
    let new_state: Vec<u32> = (0..MODEL_STATE_LEN as u32).map(|i| (i as f32).to_bits()).collect();
    state.set_model_state(&new_state);
    assert_eq!(state.state, new_state);
    state.reset();
    assert!(!state.is_speaking);
    assert_eq!(state.speech_frames, 0);
    assert_eq!(state.silence_frames, 0);
    assert_eq!(state.state, vec![0u32; MODEL_STATE_LEN]);
}

#[test]
fn vad_frame_starts_skip_short_tail() {
    assert_eq!(frame_starts(1100, 512), vec![0, 512]);
    assert_eq!(frame_starts(1024, 512), vec![0, 512]);
    assert_eq!(frame_starts(511, 512), Vec::<usize>::new());
    assert_eq!(frame_starts(0, 512), Vec::<usize>::new());
}
