//! Streaming speech recognition: configuration, the per-stream buffers, the
//! bookkeeping of greedy transducer decoding, and token-to-text conversion.
//!
//! The acoustic model (feature extraction, encoder, decoder and joint
//! network) runs outside this crate on `f32` data; audio samples and feature
//! values pass through the buffers here as raw `f32` bit patterns.

use crate::text::{is_whitespace, push_char, string_from_chars, trim, trim_chars};
use vstd::prelude::*;
use vstd::string::*;

verus! {

/// Bit pattern of the `f32` value `25.0`, the default frame length in ms.
pub const DEFAULT_FRAME_LENGTH_MS_BITS: u32 = 0x41c8_0000;

/// Bit pattern of the `f32` value `10.0`, the default frame shift in ms.
pub const DEFAULT_FRAME_SHIFT_MS_BITS: u32 = 0x4120_0000;

/// ASR configuration.
pub struct AsrConfig {
    /// Sample rate (must be 16000).
    pub sample_rate: u32,
    /// Number of mel filterbanks.
    pub n_mels: usize,
    /// Frame length in milliseconds, as the bit pattern of an `f32`.
    pub frame_length_ms_bits: u32,
    /// Frame shift/hop in milliseconds, as the bit pattern of an `f32`.
    pub frame_shift_ms_bits: u32,
    /// Chunk size for streaming (in frames).
    pub chunk_size_frames: usize,
    /// Left context for streaming (in frames).
    pub left_context_frames: usize,
    /// Right context for streaming (in frames).
    pub right_context_frames: usize,
}

/// Number of samples that the audio left at the end of a stream is padded
/// to before its last chunk is processed: ten frame lengths.
pub fn final_min_samples(frame_length: usize) -> (n: usize)
    requires
        frame_length * 10 <= usize::MAX,
    ensures
        n == frame_length * 10,
{
    frame_length * 10
}

impl Clone for AsrConfig {
    fn clone(&self) -> (res: Self)
        ensures
            res == *self,
    {
        AsrConfig {
            sample_rate: self.sample_rate,
            n_mels: self.n_mels,
            frame_length_ms_bits: self.frame_length_ms_bits,
            frame_shift_ms_bits: self.frame_shift_ms_bits,
            chunk_size_frames: self.chunk_size_frames,
            left_context_frames: self.left_context_frames,
            right_context_frames: self.right_context_frames,
        }
    }
}

impl Default for AsrConfig {
    fn default() -> (res: Self)
        ensures
            res.sample_rate == 16000,
            res.n_mels == 80,
            res.frame_length_ms_bits == DEFAULT_FRAME_LENGTH_MS_BITS,
            res.frame_shift_ms_bits == DEFAULT_FRAME_SHIFT_MS_BITS,
            res.chunk_size_frames == 140,
            res.left_context_frames == 70,
            res.right_context_frames == 13,
    {
        AsrConfig {
            sample_rate: 16000,
            n_mels: 80,
            frame_length_ms_bits: DEFAULT_FRAME_LENGTH_MS_BITS,
            frame_shift_ms_bits: DEFAULT_FRAME_SHIFT_MS_BITS,
            chunk_size_frames: 140,
            left_context_frames: 70,
            right_context_frames: 13,
        }
    }
}

/// The last `k` elements of `s` (all of `s` when it is shorter).
pub open spec fn keep_last<T>(s: Seq<T>, k: nat) -> Seq<T> {
    if s.len() > k {
        s.subrange(s.len() - k, s.len() as int)
    } else {
        s
    }
}

/// The concatenation of the sequences in `s`, in order.
pub open spec fn flatten<T>(s: Seq<Seq<T>>) -> Seq<T>
    decreases s.len(),
{
    if s.len() == 0 {
        Seq::empty()
    } else {
        flatten(s.drop_last()) + s.last()
    }
}

/// The transcript after appending a piece of decoded text: nothing changes
/// for empty text; otherwise a space separates it from a non-empty
/// transcript that does not already end with one.
pub open spec fn extend_transcript(t: Seq<char>, text: Seq<char>) -> Seq<char> {
    if text.len() == 0 {
        t
    } else if t.len() > 0 && t.last() != ' ' {
        t.push(' ') + text
    } else {
        t + text
    }
}

/// Streaming ASR state.
pub struct AsrState {
    /// Accumulated transcription.
    pub transcript: String,
    /// Audio buffer for incomplete frames (`f32` bit patterns).
    audio_buffer: Vec<u32>,
    /// Feature buffer for incomplete chunks (`f32` bit patterns).
    feature_buffer: Vec<Vec<u32>>,
}

/// The feature frames of a buffer, each by its values.
pub open spec fn frames_view(v: Seq<Vec<u32>>) -> Seq<Seq<u32>> {
    v.map_values(|f: Vec<u32>| f@)
}

impl AsrState {
    /// The accumulated transcription.
    pub closed spec fn text(&self) -> Seq<char> {
        self.transcript@
    }

    /// The buffered audio samples.
    pub closed spec fn audio(&self) -> Seq<u32> {
        self.audio_buffer@
    }

    /// The buffered feature frames.
    pub closed spec fn features(&self) -> Seq<Seq<u32>> {
        frames_view(self.feature_buffer@)
    }

    pub fn new() -> (s: Self)
        ensures
            s.text() == Seq::<char>::empty(),
            s.audio() == Seq::<u32>::empty(),
            s.features() == Seq::<Seq<u32>>::empty(),
    {
        let s = AsrState { transcript: String::new(), audio_buffer: Vec::new(), feature_buffer: Vec::new() };
        assert(frames_view(s.feature_buffer@) =~= Seq::<Seq<u32>>::empty());
        s
    }

    /// Clear the transcript and both buffers.
    pub fn reset(&mut self)
        ensures
            final(self).text() == Seq::<char>::empty(),
            final(self).audio() == Seq::<u32>::empty(),
            final(self).features() == Seq::<Seq<u32>>::empty(),
    {
        self.transcript = String::new();
        self.audio_buffer.clear();
        self.feature_buffer.clear();
        assert(frames_view(self.feature_buffer@) =~= Seq::<Seq<u32>>::empty());
    }

    /// The accumulated transcription.
    pub fn transcript_text(&self) -> (t: &str)
        ensures
            t@ == self.text(),
    {
        self.transcript.as_str()
    }

    /// The buffered audio samples.
    pub fn audio_samples(&self) -> (s: &[u32])
        ensures
            s@ == self.audio(),
    {
        self.audio_buffer.as_slice()
    }

    /// Whether audio is waiting in the buffer.
    pub fn has_pending_audio(&self) -> (b: bool)
        ensures
            b == (self.audio().len() > 0),
    {
        self.audio_buffer.len() > 0
    }

    /// Append samples to the audio buffer.
    pub fn push_audio(&mut self, samples: &[u32])
        ensures
            final(self).audio() == old(self).audio() + samples@,
            final(self).text() == old(self).text(),
            final(self).features() == old(self).features(),
    {
        let ghost start = self.audio_buffer@;
        let mut i: usize = 0;
        while i < samples.len()
            invariant
                i <= samples@.len(),
                self.audio_buffer@ == start + samples@.take(i as int),
                self.text() == old(self).text(),
                self.features() == old(self).features(),
            decreases samples@.len() - i,
        {
            self.audio_buffer.push(samples[i]);
            i += 1;
            assert(self.audio_buffer@ =~= start + samples@.take(i as int));
        }
        assert(samples@.take(samples@.len() as int) =~= samples@);
    }

    /// Pad the audio buffer with zero samples up to `min_samples`.
    pub fn pad_audio(&mut self, min_samples: usize)
        ensures
            old(self).audio().len() >= min_samples ==> final(self).audio() == old(self).audio(),
            old(self).audio().len() < min_samples ==> final(self).audio() == old(self).audio()
                + Seq::new((min_samples - old(self).audio().len()) as nat, |i: int| 0u32),
            final(self).text() == old(self).text(),
            final(self).features() == old(self).features(),
    {
        let ghost start = self.audio_buffer@;
        while self.audio_buffer.len() < min_samples
            invariant
                start.len() <= self.audio_buffer@.len(),
                start.len() < min_samples ==> self.audio_buffer@.len() <= min_samples,
                start.len() >= min_samples ==> self.audio_buffer@.len() == start.len(),
                self.audio_buffer@ == start + Seq::new(
                    (self.audio_buffer@.len() - start.len()) as nat,
                    |i: int| 0u32,
                ),
                self.text() == old(self).text(),
                self.features() == old(self).features(),
            decreases min_samples - self.audio_buffer@.len(),
        {
            self.audio_buffer.push(0u32);
            assert(self.audio_buffer@ =~= start + Seq::new(
                (self.audio_buffer@.len() - start.len()) as nat,
                |i: int| 0u32,
            ));
        }
        assert(start.len() >= min_samples ==> self.audio_buffer@ =~= start);
    }

    /// Take in the feature frames extracted from the audio buffer.
    ///
    /// With no new frames nothing changes. Otherwise the frames join the
    /// feature buffer and the audio buffer keeps only its last
    /// `keep_samples` samples; once the feature buffer holds at least
    /// `chunk_size_frames` frames, the first `chunk_size_frames` of them are
    /// returned, concatenated, as the next chunk to encode, and the feature
    /// buffer keeps only its last `left_context_frames` frames.
    pub fn buffer_features(
        &mut self,
        new_features: Vec<Vec<u32>>,
        keep_samples: usize,
        chunk_size_frames: usize,
        left_context_frames: usize,
    ) -> (chunk: Option<Vec<u32>>)
        ensures
            final(self).text() == old(self).text(),
            new_features@.len() == 0 ==> {
                &&& chunk is None
                &&& final(self).audio() == old(self).audio()
                &&& final(self).features() == old(self).features()
            },
            new_features@.len() > 0 ==> {
                let all = old(self).features() + frames_view(new_features@);
                &&& final(self).audio() == keep_last(old(self).audio(), keep_samples as nat)
                &&& all.len() < chunk_size_frames ==> chunk is None && final(self).features()
                    == all
                &&& all.len() >= chunk_size_frames ==> {
                    &&& chunk is Some
                    &&& chunk->0@ == flatten(all.take(chunk_size_frames as int))
                    &&& final(self).features() == keep_last(all, left_context_frames as nat)
                }
            },
    {
        if new_features.len() == 0 {
            return None;
        }
        let ghost incoming = new_features@;
        let mut new_features = new_features;
        self.feature_buffer.append(&mut new_features);
        proof {
            assert(frames_view(self.feature_buffer@) =~= old(self).features() + frames_view(
                incoming,
            ));
        }
        let n_audio: usize = self.audio_buffer.len();
        if n_audio > keep_samples {
            let tail = self.audio_buffer.split_off(n_audio - keep_samples);
            self.audio_buffer = tail;
        }
        let n_frames: usize = self.feature_buffer.len();
        if n_frames < chunk_size_frames {
            return None;
        }
        let ghost all = frames_view(self.feature_buffer@);
        let mut chunk: Vec<u32> = Vec::new();
        let mut f: usize = 0;
        while f < chunk_size_frames
            invariant
                f <= chunk_size_frames <= self.feature_buffer@.len(),
                all == frames_view(self.feature_buffer@),
                chunk@ == flatten(all.take(f as int)),
            decreases chunk_size_frames - f,
        {
            let frame = &self.feature_buffer[f];
            let ghost before = chunk@;
            let mut j: usize = 0;
            while j < frame.len()
                invariant
                    j <= frame@.len(),
                    chunk@ == before + frame@.take(j as int),
                decreases frame@.len() - j,
            {
                chunk.push(frame[j]);
                j += 1;
                assert(chunk@ =~= before + frame@.take(j as int));
            }
            assert(frame@.take(frame@.len() as int) =~= frame@);
            assert(all.take(f + 1).drop_last() =~= all.take(f as int));
            f += 1;
        }
        if n_frames > left_context_frames {
            let tail = self.feature_buffer.split_off(n_frames - left_context_frames);
            self.feature_buffer = tail;
            assert(frames_view(self.feature_buffer@) =~= keep_last(all, left_context_frames as nat));
        }
        Some(chunk)
    }

    /// Append decoded text to the transcript, separated by a space from what
    /// is already there.
    pub fn append_text(&mut self, text: &str)
        ensures
            final(self).text() == extend_transcript(old(self).text(), text@),
            final(self).audio() == old(self).audio(),
            final(self).features() == old(self).features(),
    {
        if text.is_empty() {
            return;
        }
        let n: usize = self.transcript.as_str().unicode_len();
        if n > 0 {
            let last: char = self.transcript.as_str().get_char(n - 1);
            if last != ' ' {
                push_char(&mut self.transcript, ' ');
            }
        }
        self.transcript.append(text);
    }
}

impl Default for AsrState {
    fn default() -> (s: Self)
        ensures
            s.text() == Seq::<char>::empty(),
            s.audio() == Seq::<u32>::empty(),
            s.features() == Seq::<Seq<u32>>::empty(),
    {
        Self::new()
    }
}

/// Token id of the blank symbol.
pub const BLANK_ID: usize = 0;

/// The SentencePiece word-boundary marker `▁` (U+2581).
pub const WORD_MARKER: char = '\u{2581}';

/// The vocabulary pieces of the tokens, concatenated in order; ids outside
/// the vocabulary are skipped.
pub open spec fn concat_pieces(vocab: Seq<Seq<char>>, tokens: Seq<usize>) -> Seq<char>
    decreases tokens.len(),
{
    if tokens.len() == 0 {
        Seq::empty()
    } else {
        let rest = concat_pieces(vocab, tokens.drop_last());
        if tokens.last() < vocab.len() {
            rest + vocab[tokens.last() as int]
        } else {
            rest
        }
    }
}

/// Every word-boundary marker replaced by a space.
pub open spec fn markers_to_spaces(s: Seq<char>) -> Seq<char> {
    s.map_values(|c: char| if c == WORD_MARKER { ' ' } else { c })
}

/// The text of a token sequence: pieces concatenated, markers turned into
/// spaces, surrounding whitespace trimmed.
pub open spec fn detokenize(vocab: Seq<Seq<char>>, tokens: Seq<usize>) -> Seq<char> {
    trim(markers_to_spaces(concat_pieces(vocab, tokens)))
}

/// The vocabulary, each piece by its characters.
pub open spec fn vocab_view(vocab: Seq<String>) -> Seq<Seq<char>> {
    vocab.map_values(|p: String| p@)
}

/// Convert token ids to text.
pub fn tokens_to_text(vocab: &[String], tokens: &[usize]) -> (text: String)
    ensures
        text@ == detokenize(vocab_view(vocab@), tokens@),
{
    let ghost v = vocab_view(vocab@);
    let mut chars: Vec<char> = Vec::new();
    let mut i: usize = 0;
    while i < tokens.len()
        invariant
            i <= tokens@.len(),
            v == vocab_view(vocab@),
            chars@ == markers_to_spaces(concat_pieces(v, tokens@.take(i as int))),
        decreases tokens@.len() - i,
    {
        let id: usize = tokens[i];
        let ghost before = chars@;
        assert(tokens@.take(i + 1).drop_last() =~= tokens@.take(i as int));
        if id < vocab.len() {
            let piece: &str = vocab[id].as_str();
            let m: usize = piece.unicode_len();
            let mut j: usize = 0;
            while j < m
                invariant
                    m == piece@.len(),
                    j <= m,
                    piece@ == v[id as int],
                    chars@ == before + markers_to_spaces(piece@.take(j as int)),
                decreases m - j,
            {
                let c: char = piece.get_char(j);
                if c == WORD_MARKER {
                    chars.push(' ');
                } else {
                    chars.push(c);
                }
                j += 1;
                assert(chars@ =~= before + markers_to_spaces(piece@.take(j as int)));
            }
            assert(piece@.take(m as int) =~= piece@);
            assert(chars@ =~= markers_to_spaces(concat_pieces(v, tokens@.take(i + 1))));
        } else {
            assert(chars@ =~= markers_to_spaces(concat_pieces(v, tokens@.take(i + 1))));
        }
        i += 1;
    }
    assert(tokens@.take(tokens@.len() as int) =~= tokens@);
    let trimmed = trim_chars(chars.as_slice());
    string_from_chars(trimmed.as_slice())
}

/// The tokens kept from a sequence of per-step best ids: every id but the
/// blank, in order.
pub open spec fn non_blank(ids: Seq<usize>) -> Seq<usize> {
    ids.filter(|id: usize| id != BLANK_ID)
}

/// Bookkeeping of greedy transducer decoding: the tokens emitted so far.
pub struct GreedyDecoder {
    tokens: Vec<usize>,
}

impl GreedyDecoder {
    /// The tokens emitted so far.
    pub closed spec fn emitted(&self) -> Seq<usize> {
        self.tokens@
    }

    pub fn new() -> (d: Self)
        ensures
            d.emitted() == Seq::<usize>::empty(),
    {
        GreedyDecoder { tokens: Vec::new() }
    }

    /// The token to feed the prediction network next: the last emitted
    /// token, or the blank before any was emitted.
    pub fn decoder_input(&self) -> (t: usize)
        ensures
            self.emitted().len() == 0 ==> t == BLANK_ID,
            self.emitted().len() > 0 ==> t == self.emitted().last(),
    {
        let n: usize = self.tokens.len();
        if n == 0 {
            BLANK_ID
        } else {
            self.tokens[n - 1]
        }
    }

    /// Record the best id of one encoder step: emitted unless it is the
    /// blank.
    pub fn observe(&mut self, best: usize)
        ensures
            final(self).emitted() == old(self).emitted() + non_blank(seq![best]),
    {
        proof {
            reveal_with_fuel(Seq::filter, 2);
        }
        if best != BLANK_ID {
            self.tokens.push(best);
            assert(non_blank(seq![best]) =~= seq![best]);
        } else {
            assert(non_blank(seq![best]) =~= Seq::<usize>::empty());
        }
    }

    /// The emitted tokens.
    pub fn tokens(&self) -> (t: &[usize])
        ensures
            t@ == self.emitted(),
    {
        self.tokens.as_slice()
    }

    /// The emitted tokens, taken out.
    pub fn into_tokens(self) -> (t: Vec<usize>)
        ensures
            t@ == self.emitted(),
    {
        self.tokens
    }
}

/// A line without the carriage return of a `\r\n` ending.
pub open spec fn strip_cr(line: Seq<char>) -> Seq<char> {
    if line.len() > 0 && line.last() == '\r' {
        line.drop_last()
    } else {
        line
    }
}

/// Splitting state after reading `s`: the lines ended by a `\n` so far, and
/// the characters read since the last `\n`.
pub open spec fn split_state(s: Seq<char>) -> (Seq<Seq<char>>, Seq<char>)
    decreases s.len(),
{
    if s.len() == 0 {
        (Seq::empty(), Seq::empty())
    } else {
        let (done, cur) = split_state(s.drop_last());
        if s.last() == '\n' {
            (done.push(strip_cr(cur)), Seq::empty())
        } else {
            (done, cur.push(s.last()))
        }
    }
}

/// The lines of a text (`str::lines`): split at `\n`, a `\r` before the `\n`
/// dropped, and a final line kept only if it is not empty.
pub open spec fn text_lines(s: Seq<char>) -> Seq<Seq<char>> {
    let (done, cur) = split_state(s);
    if cur.len() > 0 {
        done.push(cur)
    } else {
        done
    }
}

/// The characters of a line without the `\r` of a `\r\n` ending.
fn line_without_cr(cur: &[char]) -> (line: String)
    ensures
        line@ == strip_cr(cur@),
{
    let n: usize = cur.len();
    if n > 0 && cur[n - 1] == '\r' {
        let mut kept: Vec<char> = Vec::new();
        let mut i: usize = 0;
        while i < n - 1
            invariant
                n == cur@.len(),
                n > 0,
                i <= n - 1,
                kept@ == cur@.take(i as int),
            decreases n - 1 - i,
        {
            kept.push(cur[i]);
            i += 1;
            assert(kept@ =~= cur@.take(i as int));
        }
        assert(kept@ =~= cur@.drop_last());
        string_from_chars(kept.as_slice())
    } else {
        string_from_chars(cur)
    }
}

/// Parse a vocabulary file: one token piece per line, the id of a piece
/// being its line number.
pub fn vocab_from_text(text: &str) -> (vocab: Vec<String>)
    ensures
        vocab_view(vocab@) == text_lines(text@),
{
    let chars = crate::text::chars_of(text);
    let mut done: Vec<String> = Vec::new();
    let mut cur: Vec<char> = Vec::new();
    let mut i: usize = 0;
    while i < chars.len()
        invariant
            i <= chars@.len(),
            chars@ == text@,
            (vocab_view(done@), cur@) == split_state(chars@.take(i as int)),
        decreases chars@.len() - i,
    {
        let c: char = chars[i];
        assert(chars@.take(i + 1).drop_last() =~= chars@.take(i as int));
        if c == '\n' {
            let line = line_without_cr(cur.as_slice());
            done.push(line);
            cur = Vec::new();
            assert(vocab_view(done@) =~= split_state(chars@.take(i + 1)).0);
            assert(cur@ =~= split_state(chars@.take(i + 1)).1);
        } else {
            cur.push(c);
            assert(vocab_view(done@) =~= split_state(chars@.take(i + 1)).0);
        }
        i += 1;
    }
    assert(chars@.take(chars@.len() as int) =~= chars@);
    if cur.len() > 0 {
        let line = string_from_chars(cur.as_slice());
        done.push(line);
        assert(vocab_view(done@) =~= text_lines(text@));
    }
    done
}

/// The vocabulary used when no vocabulary file is present.
pub fn default_vocab() -> (vocab: Vec<String>)
    ensures
        vocab_view(vocab@) == seq!["<blank>"@, "<unk>"@],
{
    let mut vocab: Vec<String> = Vec::new();
    vocab.push(String::from_str("<blank>"));
    vocab.push(String::from_str("<unk>"));
    assert(vocab_view(vocab@) =~= seq!["<blank>"@, "<unk>"@]);
    vocab
}

/// The text of tokens never starts or ends with whitespace.
pub proof fn lemma_detokenized_text_is_trimmed(vocab: Seq<Seq<char>>, tokens: Seq<usize>)
    ensures
        ({
            let t = detokenize(vocab, tokens);
            t.len() > 0 ==> !is_whitespace(t[0]) && !is_whitespace(t.last())
        }),
{
    crate::text::lemma_trim_no_outer_whitespace(markers_to_spaces(concat_pieces(vocab, tokens)));
}

/// Greedy decoding never emits the blank token.
pub proof fn lemma_no_blank_emitted(ids: Seq<usize>)
    ensures
        forall|i: int| 0 <= i < non_blank(ids).len() ==> non_blank(ids)[i] != BLANK_ID,
{
    assert forall|i: int| 0 <= i < non_blank(ids).len() implies non_blank(ids)[i] != BLANK_ID by {
        ids.lemma_filter_pred(|id: usize| id != BLANK_ID, i);
    }
}

/// The transcript only grows: what was there stays a prefix.
pub proof fn lemma_transcript_grows(t: Seq<char>, text: Seq<char>)
    ensures
        extend_transcript(t, text).len() >= t.len() + text.len(),
        extend_transcript(t, text).take(t.len() as int) == t,
        extend_transcript(t, text).skip(extend_transcript(t, text).len() - text.len()) == text,
{
    let r = extend_transcript(t, text);
    assert(r.take(t.len() as int) =~= t);
    assert(r.skip(r.len() - text.len()) =~= text);
}

/// The lines of a text never contain a line feed.
pub proof fn lemma_lines_have_no_newline(s: Seq<char>)
    ensures
        forall|i: int, j: int|
            0 <= i < text_lines(s).len() && 0 <= j < text_lines(s)[i].len() ==> text_lines(s)[i][j]
                != '\n',
{
    lemma_split_state_no_newline(s);
}

proof fn lemma_split_state_no_newline(s: Seq<char>)
    ensures
        forall|i: int, j: int|
            0 <= i < split_state(s).0.len() && 0 <= j < split_state(s).0[i].len()
                ==> split_state(s).0[i][j] != '\n',
        forall|j: int| 0 <= j < split_state(s).1.len() ==> split_state(s).1[j] != '\n',
    decreases s.len(),
{
    if s.len() > 0 {
        let (done, cur) = split_state(s.drop_last());
        lemma_split_state_no_newline(s.drop_last());
        if s.last() == '\n' {
            let line = strip_cr(cur);
            assert forall|j: int| 0 <= j < line.len() implies line[j] != '\n' by {
                assert(line[j] == cur[j]);
            }
            let d = done.push(line);
            assert(split_state(s).0 == d);
            assert forall|i: int, j: int| 0 <= i < d.len() && 0 <= j < d[i].len() implies d[i][j]
                != '\n' by {
                if i < done.len() {
                    assert(d[i] == done[i]);
                } else {
                    assert(d[i] == line);
                }
            }
        } else {
            let c = cur.push(s.last());
            assert(split_state(s).1 == c);
            assert forall|j: int| 0 <= j < c.len() implies c[j] != '\n' by {
                if j < cur.len() {
                    assert(c[j] == cur[j]);
                }
            }
        }
    }
}

/// Observing the best ids of a run step by step emits the non-blank ids of
/// the whole run: the emitted tokens after one more step are those of the
/// run so far followed by the step's own.
pub proof fn lemma_non_blank_extends(ids: Seq<usize>, best: usize)
    ensures
        non_blank(ids.push(best)) == non_blank(ids) + non_blank(seq![best]),
{
    assert(ids.push(best) =~= ids + seq![best]);
    Seq::filter_distributes_over_add(ids, seq![best], |id: usize| id != BLANK_ID);
}

/// Detokenizing changes only the word marker: each character keeps its place,
/// the marker `▁` (U+2581) becomes a space and every other character stays.
pub proof fn lemma_only_markers_change(s: Seq<char>)
    ensures
        markers_to_spaces(s).len() == s.len(),
        forall|i: int|
            0 <= i < s.len() ==> markers_to_spaces(s)[i] == (if s[i] == '\u{2581}' {
                ' '
            } else {
                s[i]
            }),
{
}

/// Pieces that hold no word marker and whose concatenation neither starts
/// nor ends with whitespace come out as that plain concatenation.
pub proof fn lemma_plain_pieces_detokenize_to_concat(vocab: Seq<Seq<char>>, tokens: Seq<usize>)
    requires
        forall|i: int|
            0 <= i < concat_pieces(vocab, tokens).len() ==> concat_pieces(vocab, tokens)[i]
                != '\u{2581}',
        concat_pieces(vocab, tokens).len() > 0 ==> !is_whitespace(concat_pieces(vocab, tokens)[0])
            && !is_whitespace(concat_pieces(vocab, tokens).last()),
    ensures
        detokenize(vocab, tokens) == concat_pieces(vocab, tokens),
{
    let c = concat_pieces(vocab, tokens);
    let m = markers_to_spaces(c);
    assert(m =~= c);
    crate::text::lemma_trim_start_at(m, 0);
    assert(m.subrange(0, m.len() as int) =~= m);
    crate::text::lemma_trim_end_at(m, m.len() as int);
    assert(m.subrange(0, m.len() as int) =~= m);
}

/// The transcript after appending text: unchanged for empty text; the text
/// right after a non-empty transcript that does not end with a space,
/// separated from it by exactly one space; otherwise the plain concatenation.
pub proof fn lemma_append_separates_by_one_space(t: Seq<char>, text: Seq<char>)
    ensures
        text.len() == 0 ==> extend_transcript(t, text) == t,
        text.len() > 0 && t.len() > 0 && t.last() != ' ' ==> extend_transcript(t, text) == t + seq![' ']
            + text && extend_transcript(t, text).len() == t.len() + 1 + text.len(),
        text.len() > 0 && (t.len() == 0 || t.last() == ' ') ==> extend_transcript(t, text) == t + text,
{
    if text.len() > 0 && t.len() > 0 && t.last() != ' ' {
        assert(t.push(' ') =~= t + seq![' ']);
    }
}

/// Without a line feed, the text holds no line end.
proof fn lemma_split_state_no_newline_text(l: Seq<char>)
    requires
        forall|j: int| 0 <= j < l.len() ==> l[j] != '\n',
    ensures
        split_state(l) == (Seq::<Seq<char>>::empty(), l),
    decreases l.len(),
{
    if l.len() > 0 {
        lemma_split_state_no_newline_text(l.drop_last());
        assert(l.drop_last().push(l.last()) =~= l);
    }
}

/// Splitting after a line feed continues from scratch.
proof fn lemma_split_state_append(a: Seq<char>, b: Seq<char>)
    requires
        split_state(a).1.len() == 0,
    ensures
        split_state(a + b) == (split_state(a).0 + split_state(b).0, split_state(b).1),
    decreases b.len(),
{
    if b.len() == 0 {
        assert(a + b =~= a);
        assert(split_state(a).0 + Seq::<Seq<char>>::empty() =~= split_state(a).0);
    } else {
        lemma_split_state_append(a, b.drop_last());
        assert((a + b).drop_last() =~= a + b.drop_last());
        assert((a + b).last() == b.last());
        let (d, c) = split_state(b.drop_last());
        if b.last() == '\n' {
            assert((split_state(a).0 + d).push(strip_cr(c)) =~= split_state(a).0 + d.push(strip_cr(c)));
        }
    }
}

/// The lines of a text (`str::lines`): a text without a line feed is one line
/// (none when empty); a text whose first line feed ends the line `l` gives
/// `l`, without a `\r` just before the line feed, and then the lines of the
/// rest.
pub proof fn lemma_lines_split_at_first_newline(l: Seq<char>, rest: Seq<char>)
    requires
        forall|j: int| 0 <= j < l.len() ==> l[j] != '\n',
    ensures
        text_lines(l) == (if l.len() > 0 {
            seq![l]
        } else {
            Seq::<Seq<char>>::empty()
        }),
        text_lines(l + seq!['\n'] + rest) == seq![
            if l.len() > 0 && l[l.len() - 1] == '\r' {
                l.subrange(0, l.len() - 1)
            } else {
                l
            },
        ] + text_lines(rest),
{
    lemma_split_state_no_newline_text(l);
    let a = l + seq!['\n'];
    assert(a.drop_last() =~= l);
    assert(a.last() == '\n');
    assert(split_state(a) == (seq![strip_cr(l)], Seq::<char>::empty())) by {
        assert(Seq::<Seq<char>>::empty().push(strip_cr(l)) =~= seq![strip_cr(l)]);
    }
    lemma_split_state_append(a, rest);
    let (d, c) = split_state(rest);
    if c.len() > 0 {
        assert((seq![strip_cr(l)] + d).push(c) =~= seq![strip_cr(l)] + d.push(c));
    }
    if l.len() > 0 && l[l.len() - 1] == '\r' {
        assert(l.drop_last() =~= l.subrange(0, l.len() - 1));
    }
    assert(Seq::<Seq<char>>::empty().push(l) =~= seq![l]);
}

} // verus!
