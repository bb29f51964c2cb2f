use stt_server::asr::{
    default_vocab, final_min_samples, tokens_to_text, vocab_from_text, AsrConfig, AsrState, GreedyDecoder, BLANK_ID,
};

fn bits(v: &[f32]) -> Vec<u32> {
    v.iter().map(|x| x.to_bits()).collect()
}

#[test]
fn test_asr_state() {
    let mut state = AsrState::new();
    state.transcript = "Hello".to_string();
    state.reset();
    assert!(state.transcript.is_empty());
}

#[test]
fn asr_config_defaults_and_final_padding() {
    let config = AsrConfig::default();
    assert_eq!(config.sample_rate, 16000);
    assert_eq!(config.n_mels, 80);
    assert_eq!(config.chunk_size_frames, 140);
    assert_eq!(config.left_context_frames, 70);
    assert_eq!(config.right_context_frames, 13);
    assert_eq!(f32::from_bits(config.frame_length_ms_bits), 25.0);
    assert_eq!(f32::from_bits(config.frame_shift_ms_bits), 10.0);
    assert_eq!(final_min_samples(400), 4000);
    assert_eq!(final_min_samples(0), 0);
}

#[test]
fn asr_reset_clears_buffers() {
    let mut state = AsrState::new();
    state.push_audio(&bits(&[0.5, -0.25]));
    state.append_text("hi");
    state.reset();
    assert!(state.transcript.is_empty());
    assert!(!state.has_pending_audio());
    assert!(state.audio_samples().is_empty());
}

#[test]
fn asr_push_and_pad_audio() {
    let mut state = AsrState::new();
    assert!(!state.has_pending_audio());
    state.push_audio(&bits(&[0.5, -0.25]));
    assert!(state.has_pending_audio());
    assert_eq!(state.audio_samples(), &bits(&[0.5, -0.25])[..]);
    state.pad_audio(5);
    assert_eq!(state.audio_samples(), &bits(&[0.5, -0.25, 0.0, 0.0, 0.0])[..]);
    state.pad_audio(3);
    assert_eq!(state.audio_samples().len(), 5);
}

#[test]
fn asr_no_features_changes_nothing() {
    let mut state = AsrState::new();
    state.push_audio(&[1, 2, 3, 4, 5]);
    assert_eq!(state.buffer_features(Vec::new(), 2, 3, 1), None);
    assert_eq!(state.audio_samples(), &[1, 2, 3, 4, 5][..]);
}

#[test]
fn asr_features_accumulate_until_a_chunk() {
    let mut state = AsrState::new();
    state.push_audio(&[1, 2, 3, 4, 5]);
    // two frames: not yet a chunk of three; audio trimmed to its last two samples
    assert_eq!(state.buffer_features(vec![vec![10, 11], vec![20, 21]], 2, 3, 1), None);
    assert_eq!(state.audio_samples(), &[4, 5][..]);
    state.push_audio(&[6]);
    // two more frames: the first three form the chunk, one frame of context stays
    let chunk = state.buffer_features(vec![vec![30, 31], vec![40, 41]], 2, 3, 1);
    assert_eq!(chunk, Some(vec![10, 11, 20, 21, 30, 31]));
    assert_eq!(state.audio_samples(), &[5, 6][..]);
    // the context frame (the last one) is what the next chunk starts from
    let chunk = state.buffer_features(vec![vec![50, 51], vec![60, 61]], 2, 3, 1);
    assert_eq!(chunk, Some(vec![40, 41, 50, 51, 60, 61]));
}

#[test]
fn asr_append_text_separates_with_one_space() {
    let mut state = AsrState::new();
    state.append_text("");
    assert_eq!(state.transcript, "");
    state.append_text("hello");
    assert_eq!(state.transcript, "hello");
    state.append_text("world");
    assert_eq!(state.transcript, "hello world");
    assert_eq!(state.transcript_text(), "hello world");
    state.append_text("");
    assert_eq!(state.transcript, "hello world");
    state.transcript.push(' ');
    state.append_text("again");
    assert_eq!(state.transcript, "hello world again");
}

#[test]
fn tokens_to_text_joins_pieces_and_trims() {
    let vocab: Vec<String> = ["<blank>", "\u{2581}hel", "lo", "\u{2581}world", "\u{2581}"]
        .iter()
        .map(|s| s.to_string())
        .collect();
    assert_eq!(tokens_to_text(&vocab, &[1, 2, 3]), "hello world");
    // ids outside the vocabulary are skipped
    assert_eq!(tokens_to_text(&vocab, &[1, 99, 2]), "hello");
    // only markers: nothing left after trimming
    assert_eq!(tokens_to_text(&vocab, &[4, 4]), "");
    assert_eq!(tokens_to_text(&vocab, &[]), "");
    assert_eq!(tokens_to_text(&vocab, &[3, 4, 4, 1]), "world   hel");
    // the same as the std chain: join, replace the marker, trim
    let ids = [1usize, 2, 7, 3, 4];
    let std_text = ids
        .iter()
        .filter_map(|&id| vocab.get(id))
        .map(|s| s.as_str())
        .collect::<Vec<_>>()
        .join("")
        .replace("\u{2581}", " ")
        .trim()
        .to_string();
    assert_eq!(tokens_to_text(&vocab, &ids), std_text);
}

#[test]
fn tokens_to_text_trims_unicode_whitespace() {
    let vocab: Vec<String> = ["\u{3000}a\t", "b\u{a0}", "\n"].iter().map(|s| s.to_string()).collect();
    assert_eq!(tokens_to_text(&vocab, &[0, 1, 2]), "a\tb");
}

#[test]
fn greedy_decoder_skips_blanks() {
    let mut d = GreedyDecoder::new();
    assert_eq!(d.decoder_input(), BLANK_ID);
    d.observe(0);
    assert_eq!(d.decoder_input(), BLANK_ID);
    d.observe(7);
    d.observe(0);
    assert_eq!(d.decoder_input(), 7);
    d.observe(3);
    assert_eq!(d.decoder_input(), 3);
    assert_eq!(d.tokens(), &[7, 3][..]);
    assert_eq!(d.into_tokens(), vec![7, 3]);
}

#[test]
fn vocab_lines_follow_str_lines() {
    let text = "foo\r\nbar\n\nbaz\r";
    let expected: Vec<String> = text.lines().map(|s| s.to_string()).collect();
    assert_eq!(vocab_from_text(text), expected);
    assert_eq!(vocab_from_text(text), vec!["foo", "bar", "", "baz\r"]);
    assert_eq!(vocab_from_text("a\nb\n"), vec!["a", "b"]);
    assert_eq!(vocab_from_text("\n"), vec![""]);
    assert_eq!(vocab_from_text(""), Vec::<String>::new());
    assert_eq!(vocab_from_text("<blank>\n\u{2581}the\n"), vec!["<blank>", "\u{2581}the"]);
}

#[test]
fn default_vocab_has_blank_and_unk() {
    assert_eq!(default_vocab(), vec!["<blank>".to_string(), "<unk>".to_string()]);
}
