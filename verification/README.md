# stt_server

A real-time speech-to-text WebSocket server (voice activity detection followed
by Parakeet-TDT transcription through ONNX Runtime), split in two:

- `src/` — the library, verified with Verus: PCM S16LE byte/sample conversion
  and analysis-window layout (`audio`), the VAD hysteresis state machine
  (`vad`), the streaming ASR buffers, greedy-decoding bookkeeping,
  detokenisation and vocabulary parsing (`asr`), the per-event decisions of
  the pipeline and control-message handling (`pipeline`), and character-level
  string helpers (`text`).
- `app/` — the server around it: the WebSocket and HTTP handlers, model
  loading and inference with ONNX Runtime, and the floating-point signal
  processing (normalisation, resampling, spectrogram and feature extraction,
  thresholds and argmax). Audio samples and features cross into the library
  as `f32` bit patterns.
