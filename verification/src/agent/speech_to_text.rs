//! Speech to text: what is done to a transcript once the words are there.

use vstd::prelude::*;
use vstd::string::StringExecFns;
use crate::agent::{Agent, AgentInput, AgentOutput, HAAgentError};
use crate::whisper::HAWhisperError;
use crate::text::{
    chars_of, find_first, first_match, part_of, push_chars, run_end, scan_run_end, strip, stripped,
    CharClass,
};

verus! {

/// What turns audio into text: given the path of a model and the bytes of a
/// recording, the words that were said.
pub trait Transcriber {
    fn transcribe(&self, model_path: &str, audio: &[u8]) -> Result<String, HAWhisperError>;
}

/// An agent that writes down what was said in a recording.
pub struct SpeechToTextAgent<T> {
    id: &'static str,
    model_path: String,
    transcriber: T,
}

/// What the agent gives back for each result of the transcription: the
/// text as an audio transcription, or the failure as an agent's error.
pub fn after_transcription(transcribed: Result<String, HAWhisperError>) -> (answer: Result<
    AgentOutput,
    HAAgentError,
>)
    ensures
        transcribed matches Ok(text) ==> answer == Ok::<AgentOutput, HAAgentError>(
            AgentOutput::AudioTranscription(text),
        ),
        transcribed matches Err(error) ==> answer == Err::<AgentOutput, HAAgentError>(
            HAAgentError::Whisper(error),
        ),
{
    match transcribed {
        Ok(text) => Ok(AgentOutput::AudioTranscription(text)),
        Err(error) => Err(HAAgentError::Whisper(error)),
    }
}

impl<T: Transcriber> SpeechToTextAgent<T> {
    pub closed spec fn spec_id(&self) -> Seq<char> {
        self.id@
    }

    pub closed spec fn spec_model_path(&self) -> Seq<char> {
        self.model_path@
    }

    /// An agent called `id` that works with the model at `model_path`.
    pub fn new(id: &'static str, model_path: String, transcriber: T) -> (agent: Self)
        ensures
            agent.spec_id() == id@,
            agent.spec_model_path() == model_path@,
    {
        SpeechToTextAgent { id, model_path, transcriber }
    }

    pub fn model_path(&self) -> (path: &str)
        ensures
            path@ == self.spec_model_path(),
    {
        self.model_path.as_str()
    }
}

impl<T: Transcriber> Agent for SpeechToTextAgent<T> {
    fn id(&self) -> (id: &str)
        ensures
            id@ == self.spec_id(),
    {
        self.id
    }

    /// Audio is transcribed; any other input is refused as invalid.
    fn call(&self, agent_input: AgentInput) -> (answer: Result<AgentOutput, HAAgentError>)
        ensures
            !(agent_input is Audio) ==> (answer matches Err(HAAgentError::InvalidInput(text))
                && text@ == "expected audio input"@),
            agent_input is Audio ==> (answer matches Ok(AgentOutput::AudioTranscription(_)))
                || (answer matches Err(HAAgentError::Whisper(_))),
    {
        match agent_input {
            AgentInput::Audio(bytes) => {
                let transcribed = self.transcriber.transcribe(
                    self.model_path.as_str(),
                    bytes.as_slice(),
                );
                after_transcription(transcribed)
            },
            _ => Err(HAAgentError::InvalidInput(String::from_str("expected audio input"))),
        }
    }

    fn describe(&self) -> (words: String)
        ensures
            words@ == "SpeechToTextAgent("@ + self.spec_id() + ")"@,
    {
        let mut words = String::from_str("SpeechToTextAgent(");
        words.append(self.id);
        words.append(")");
        words
    }
}

/// The texts one after another, each followed by one space.
pub open spec fn spaced(segments: Seq<Seq<char>>) -> Seq<char>
    decreases segments.len(),
{
    if segments.len() == 0 {
        seq![]
    } else {
        spaced(segments.drop_last()) + segments.last().push(' ')
    }
}

/// The transcript of a recording from the texts of its segments: the texts
/// with a space behind each, without the white space at the two ends.
pub fn join_segments(segments: &Vec<String>) -> (transcript: String)
    ensures
        transcript@ == stripped(
            spaced(Seq::new(segments@.len(), |k: int| segments@[k]@)),
            CharClass::Space,
        ),
{
    let ghost texts = Seq::new(segments@.len(), |k: int| segments@[k]@);
    let mut all: Vec<char> = Vec::new();
    let mut done: usize = 0;
    while done < segments.len()
        invariant
            done <= segments.len(),
            texts == Seq::new(segments@.len(), |k: int| segments@[k]@),
            all@ == spaced(texts.take(done as int)),
        decreases segments.len() - done,
    {
        let mut chars = chars_of(segments[done].as_str());
        proof {
            assert(texts.take(done + 1).drop_last() =~= texts.take(done as int));
            assert(texts.take(done + 1).last() == segments@[done as int]@);
        }
        all.append(&mut chars);
        all.push(' ');
        assert(all@ =~= spaced(texts.take(done + 1)));
        done = done + 1;
    }
    assert(texts.take(segments.len() as int) =~= texts);
    let trimmed = strip(&all, CharClass::Space);
    let mut transcript = String::new();
    push_chars(&mut transcript, &trimmed, 0, trimmed.len());
    assert(transcript@ =~= trimmed@);
    transcript
}

/// The sample that two bytes hold, the low byte first, as a signed
/// sixteen-bit number in two's complement.
pub open spec fn sample_of(low: u8, high: u8) -> int {
    let unsigned = low + 256 * high;
    if unsigned < 32768 {
        unsigned
    } else {
        unsigned - 65536
    }
}

/// The samples of a buffer of raw sound: each two bytes are one sample; a
/// last byte without a partner is left out.
pub fn samples_of(buffer: &[u8]) -> (samples: Vec<i16>)
    ensures
        samples@.len() == buffer@.len() / 2,
        forall|k: int|
            0 <= k < samples@.len() ==> #[trigger] samples@[k] == sample_of(
                buffer@[2 * k],
                buffer@[2 * k + 1],
            ),
{
    let mut samples: Vec<i16> = Vec::new();
    let len: usize = buffer.len();
    let pairs: usize = len / 2;
    let mut k: usize = 0;
    while k < pairs
        invariant
            k <= pairs,
            pairs == buffer@.len() / 2,
            len == buffer@.len(),
            samples@.len() == k,
            forall|done: int|
                0 <= done < k ==> #[trigger] samples@[done] == sample_of(
                    buffer@[2 * done],
                    buffer@[2 * done + 1],
                ),
        decreases pairs - k,
    {
        let low: i32 = buffer[2 * k] as i32;
        let high: i32 = buffer[2 * k + 1] as i32;
        let unsigned: i32 = low + 256 * high;
        let sample: i16 = if unsigned < 32768 {
            unsigned as i16
        } else {
            (unsigned - 65536) as i16
        };
        samples.push(sample);
        k = k + 1;
    }
    samples
}

/// The least of three numbers.
pub open spec fn least(x: nat, y: nat, z: nat) -> nat {
    if x <= y && x <= z {
        x
    } else if y <= z {
        y
    } else {
        z
    }
}

/// The edit distance of two texts: the least number of characters to
/// insert, delete or replace that turns one into the other.
pub open spec fn edit_distance(a: Seq<char>, b: Seq<char>) -> nat
    decreases a.len() + b.len(),
{
    if a.len() == 0 {
        b.len()
    } else if b.len() == 0 {
        a.len()
    } else {
        let replace: nat = if a.last() == b.last() {
            0
        } else {
            1
        };
        least(
            edit_distance(a.drop_last(), b) + 1,
            edit_distance(a, b.drop_last()) + 1,
            edit_distance(a.drop_last(), b.drop_last()) + replace,
        )
    }
}

/// The edit distance is at most the length of the longer text.
pub proof fn lemma_edit_distance_bound(a: Seq<char>, b: Seq<char>)
    ensures
        edit_distance(a, b) <= a.len() || edit_distance(a, b) <= b.len(),
        a.len() == 0 ==> edit_distance(a, b) == b.len(),
        b.len() == 0 ==> edit_distance(a, b) == a.len(),
    decreases a.len() + b.len(),
{
    if a.len() > 0 && b.len() > 0 {
        lemma_edit_distance_bound(a.drop_last(), b.drop_last());
        lemma_edit_distance_bound(a.drop_last(), b);
        lemma_edit_distance_bound(a, b.drop_last());
    }
}

/// The edit distance is the same in both directions.
pub proof fn lemma_edit_distance_symmetric(a: Seq<char>, b: Seq<char>)
    ensures
        edit_distance(a, b) == edit_distance(b, a),
    decreases a.len() + b.len(),
{
    if a.len() > 0 && b.len() > 0 {
        lemma_edit_distance_symmetric(a.drop_last(), b);
        lemma_edit_distance_symmetric(a, b.drop_last());
        lemma_edit_distance_symmetric(a.drop_last(), b.drop_last());
    }
}

/// A text is at distance zero from itself.
pub proof fn lemma_edit_distance_same(a: Seq<char>)
    ensures
        edit_distance(a, a) == 0,
    decreases a.len(),
{
    if a.len() > 0 {
        lemma_edit_distance_same(a.drop_last());
    }
}

/// The edit distance of two texts given as characters.
pub fn levenshtein_chars(a: &Vec<char>, b: &Vec<char>) -> (distance: usize)
    ensures
        distance == edit_distance(a@, b@),
{
    let mut dp: Vec<usize> = Vec::new();
    let mut filled: usize = 0;
    while filled < b.len()
        invariant
            filled <= b.len(),
            dp.len() == filled,
            forall|j: int| 0 <= j < filled ==> #[trigger] dp@[j] == j,
        decreases b.len() - filled,
    {
        dp.push(filled);
        filled = filled + 1;
    }
    dp.push(filled);
    assert forall|j: int| 0 <= j <= b.len() implies #[trigger] dp@[j] == edit_distance(
        a@.take(0),
        b@.take(j),
    ) by {
        lemma_edit_distance_bound(a@.take(0), b@.take(j));
    }
    let mut i: usize = 0;
    while i < a.len()
        invariant
            i <= a.len(),
            dp.len() == b.len() + 1,
            forall|j: int|
                0 <= j <= b.len() ==> #[trigger] dp@[j] == edit_distance(
                    a@.take(i as int),
                    b@.take(j),
                ),
        decreases a.len() - i,
    {
        let ca = a[i];
        let mut prev: usize = dp[0];
        let ghost row = dp@;
        proof {
            lemma_edit_distance_bound(a@.take(i + 1), b@.take(0));
            lemma_edit_distance_bound(a@.take(i as int), b@.take(0));
        }
        dp[0] = i + 1;
        let mut j: usize = 0;
        while j < b.len()
            invariant
                i < a.len(),
                j <= b.len(),
                dp.len() == b.len() + 1,
                ca == a@[i as int],
                prev == edit_distance(a@.take(i as int), b@.take(j as int)),
                forall|done: int|
                    0 <= done <= j ==> #[trigger] dp@[done] == edit_distance(
                        a@.take(i + 1),
                        b@.take(done),
                    ),
                forall|ahead: int|
                    j < ahead <= b.len() ==> #[trigger] dp@[ahead] == edit_distance(
                        a@.take(i as int),
                        b@.take(ahead),
                    ),
            decreases b.len() - j,
        {
            let cb = b[j];
            let cost: usize = if ca == cb {
                0
            } else {
                1
            };
            let tmp = dp[j + 1];
            proof {
                let longer_a = a@.take(i + 1);
                let longer_b = b@.take(j + 1);
                assert(longer_a.drop_last() =~= a@.take(i as int));
                assert(longer_b.drop_last() =~= b@.take(j as int));
                assert(longer_a.last() == ca);
                assert(longer_b.last() == cb);
                lemma_edit_distance_bound(a@.take(i as int), longer_b);
                lemma_edit_distance_bound(a@.take(i as int), b@.take(j as int));
            }
            let nearest: usize = if dp[j + 1] < dp[j] {
                dp[j + 1]
            } else {
                dp[j]
            };
            let by_gap: usize = nearest + 1;
            let by_replace: usize = prev + cost;
            dp[j + 1] = if by_gap < by_replace {
                by_gap
            } else {
                by_replace
            };
            prev = tmp;
            j = j + 1;
        }
        i = i + 1;
    }
    assert(a@.take(a.len() as int) =~= a@);
    assert(b@.take(b.len() as int) =~= b@);
    dp[b.len()]
}

/// The edit distance of two texts, counted in characters.
pub fn levenshtein(a: &str, b: &str) -> (distance: usize)
    ensures
        distance == edit_distance(a@, b@),
{
    let a = chars_of(a);
    let b = chars_of(b);
    levenshtein_chars(&a, &b)
}

/// The second word of `text`, where words are what white space separates,
/// if there are two words.
pub open spec fn second_word(text: Seq<char>) -> Option<Seq<char>> {
    let first_end = run_end(text, CharClass::NonSpace, run_end(text, CharClass::Space, 0));
    let start = run_end(text, CharClass::Space, first_end);
    let end = run_end(text, CharClass::NonSpace, start);
    if start < end {
        Some(text.subrange(start, end))
    } else {
        None
    }
}

/// `text` with the part of `len` characters at `at` replaced by `with`.
pub open spec fn spliced(text: Seq<char>, at: int, len: int, with: Seq<char>) -> Seq<char> {
    text.take(at) + with + text.skip(at + len)
}

/// The transcript with its wake word put right.
///
/// The second word of the transcript, without what is not a letter or a
/// number at its two ends, is held against the wake word. If their edit
/// distance is at most `max_distance`, the wake word takes its place: in
/// the transcript without the white space at its two ends, the first
/// occurrence of the second word is replaced by the word with the wake word
/// in place of its first occurrence of the letters and numbers. In every
/// other case the transcript stays as it is.
pub open spec fn wake_word_rewritten(
    transcript: Seq<char>,
    wake_word: Seq<char>,
    max_distance: nat,
) -> Seq<char> {
    let trimmed = stripped(transcript, CharClass::Space);
    match second_word(trimmed) {
        None => transcript,
        Some(raw) => {
            let clean = stripped(raw, CharClass::NonAlphanumeric);
            if clean.len() == 0 || edit_distance(wake_word, clean) > max_distance {
                transcript
            } else {
                match first_match(trimmed, raw) {
                    None => transcript,
                    Some(at) => {
                        let word = match first_match(raw, clean) {
                            Some(inner) => spliced(raw, inner, clean.len() as int, wake_word),
                            None => wake_word,
                        };
                        spliced(trimmed, at, raw.len() as int, word)
                    },
                }
            }
        },
    }
}

/// The second word of `text`, if there are two words.
fn find_second_word(text: &Vec<char>) -> (word: Option<Vec<char>>)
    ensures
        match second_word(text@) {
            Some(raw) => word matches Some(found) && found@ == raw,
            None => word is None,
        },
{
    let first_start = scan_run_end(text, CharClass::Space, 0);
    let first_end = scan_run_end(text, CharClass::NonSpace, first_start);
    let start = scan_run_end(text, CharClass::Space, first_end);
    let end = scan_run_end(text, CharClass::NonSpace, start);
    if start < end {
        Some(part_of(text, start, end))
    } else {
        None
    }
}

/// Puts the wake word right in a transcript, as `wake_word_rewritten` says.
pub fn rewrite_wake_word(transcript: &str, wake_word: &str, max_distance: usize) -> (rewritten:
    String)
    ensures
        rewritten@ == wake_word_rewritten(transcript@, wake_word@, max_distance as nat),
{
    let text = chars_of(transcript);
    let wake = chars_of(wake_word);
    let trimmed = strip(&text, CharClass::Space);
    let raw = match find_second_word(&trimmed) {
        Some(raw) => raw,
        None => {
            return String::from_str(transcript);
        },
    };
    let clean = strip(&raw, CharClass::NonAlphanumeric);
    if clean.len() == 0 {
        return String::from_str(transcript);
    }
    if levenshtein_chars(&wake, &clean) > max_distance {
        return String::from_str(transcript);
    }
    let at = match find_first(&trimmed, &raw) {
        Some(at) => at,
        None => {
            return String::from_str(transcript);
        },
    };
    let mut out = String::new();
    push_chars(&mut out, &trimmed, 0, at);
    match find_first(&raw, &clean) {
        Some(inner) => {
            push_chars(&mut out, &raw, 0, inner);
            push_chars(&mut out, &wake, 0, wake.len());
            push_chars(&mut out, &raw, inner + clean.len(), raw.len());
            assert(wake@.subrange(0, wake@.len() as int) =~= wake@);
        },
        None => {
            push_chars(&mut out, &wake, 0, wake.len());
            assert(wake@.subrange(0, wake@.len() as int) =~= wake@);
        },
    }
    push_chars(&mut out, &trimmed, at + raw.len(), trimmed.len());
    assert(out@ =~= wake_word_rewritten(transcript@, wake_word@, max_distance as nat));
    out
}

} // verus!
