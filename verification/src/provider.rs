//! What the speech and language providers send and how their replies are
//! read: command lines of the local tools, request fields, word lists and
//! the framing of streamed replies.
use vstd::prelude::*;

use crate::text::{
    chars_of, copy_range, first_index_of, lemma_first_index_of, lemma_first_index_of_bound,
    replace_all, replace_all_exec,
    string_of, trim, trim_chars,
};

verus! {

broadcast use vstd::string::group_string_axioms;

/// The texts of a list of strings.
pub open spec fn strs(v: Seq<String>) -> Seq<Seq<char>> {
    v.map_values(|s: String| s@)
}

/// Appends a copy of `s` to a list of strings.
pub fn push_text(v: &mut Vec<String>, s: &str)
    ensures
        strs(final(v)@) == strs(old(v)@).push(s@),
{
    let ghost before = strs(v@);
    v.push(String::from_str(s));
    assert(strs(v@) =~= before.push(s@));
}

/// `base` followed by `suffix`, as the endpoints are formed
/// (`format!("{}/chat/completions", base_url)` and the like).
pub fn api_url(base: &str, suffix: &str) -> (r: String)
    ensures
        r@ == base@ + suffix@,
{
    let mut r = String::from_str(base);
    r.append(suffix);
    r
}

// ---------------------------------------------------------------------------
// faster-whisper
// ---------------------------------------------------------------------------

/// The faster-whisper command-line transcriber.
#[derive(Debug, Clone)]
pub struct FasterWhisperProcessor {
    pub python_path: String,
    pub model: String,
    pub gpu: bool,
}

/// The arguments of a faster-whisper run.
pub open spec fn fasterwhisper_args_spec(
    audio: Seq<char>,
    model: Seq<char>,
    work_dir: Seq<char>,
    gpu: bool,
    language: Seq<char>,
) -> Seq<Seq<char>> {
    seq![
        "scripts/fasterwhisper_cli.py"@,
        audio,
        "--model"@,
        model,
        "--model_dir"@,
        "./models/"@,
        "--output_dir"@,
        work_dir,
    ] + (if gpu {
        seq!["--compute_type"@, "float16"@]
    } else {
        seq![]
    }) + (if language.len() > 0 {
        seq!["--language"@, language]
    } else {
        seq![]
    })
}

impl FasterWhisperProcessor {
    /// A processor running `model` with the Python at `python_path`.
    pub fn new(python_path: &str, model: &str, gpu: bool) -> (r: Self)
        ensures
            r.python_path@ == python_path@,
            r.model@ == model@,
            r.gpu == gpu,
    {
        FasterWhisperProcessor {
            python_path: String::from_str(python_path),
            model: String::from_str(model),
            gpu,
        }
    }

    /// The arguments for transcribing `audio` into `work_dir`; the language
    /// is passed only when one is given.
    pub fn cli_args(&self, audio: &str, language: &str, work_dir: &str) -> (r: Vec<String>)
        ensures
            strs(r@) == fasterwhisper_args_spec(
                audio@,
                self.model@,
                work_dir@,
                self.gpu,
                language@,
            ),
    {
        let mut r: Vec<String> = Vec::new();
        push_text(&mut r, "scripts/fasterwhisper_cli.py");
        push_text(&mut r, audio);
        push_text(&mut r, "--model");
        push_text(&mut r, self.model.as_str());
        push_text(&mut r, "--model_dir");
        push_text(&mut r, "./models/");
        push_text(&mut r, "--output_dir");
        push_text(&mut r, work_dir);
        if self.gpu {
            push_text(&mut r, "--compute_type");
            push_text(&mut r, "float16");
        }
        if !language.is_empty() {
            push_text(&mut r, "--language");
            push_text(&mut r, language);
        }
        assert(strs(r@) =~= fasterwhisper_args_spec(
            audio@,
            self.model@,
            work_dir@,
            self.gpu,
            language@,
        ));
        r
    }
}

/// Where faster-whisper writes its result: `{work_dir}/{stem}.json`.
pub fn fasterwhisper_output_path(work_dir: &str, stem: &str) -> (r: String)
    ensures
        r@ == work_dir@ + "/"@ + stem@ + ".json"@,
{
    let mut r = String::from_str(work_dir);
    r.append("/");
    r.append(stem);
    r.append(".json");
    r
}

/// The texts of the segments that have one, concatenated.
pub open spec fn present_texts(ts: Seq<Option<String>>) -> Seq<char>
    decreases ts.len(),
{
    if ts.len() == 0 {
        seq![]
    } else {
        present_texts(ts.drop_last()) + match ts.last() {
            Some(t) => t@,
            None => seq![],
        }
    }
}

/// **Law.** Joining texts is concatenation piece by piece: a missing text
/// adds nothing, a present one adds exactly itself, and the texts of `a`
/// followed by `b` join to those of `a` followed by those of `b`.
pub proof fn present_texts_concatenate(a: Seq<Option<String>>, b: Seq<Option<String>>, t: String)
    ensures
        present_texts(seq![Some(t)]) == t@,
        present_texts(seq![None::<String>]).len() == 0,
        present_texts(a + b) == present_texts(a) + present_texts(b),
    decreases b.len(),
{
    assert(seq![Some(t)].drop_last() =~= Seq::<Option<String>>::empty());
    assert(seq![None::<String>].drop_last() =~= Seq::<Option<String>>::empty());
    assert(present_texts(Seq::<Option<String>>::empty()) =~= Seq::<char>::empty());
    assert(present_texts(seq![Some(t)]) =~= t@);
    assert(present_texts(seq![None::<String>]) =~= Seq::<char>::empty());
    if b.len() == 0 {
        assert(a + b =~= a);
        assert(present_texts(a) + present_texts(b) =~= present_texts(a));
    } else {
        present_texts_concatenate(a, b.drop_last(), t);
        assert((a + b).drop_last() =~= a + b.drop_last());
        assert((a + b).last() == b.last());
        assert(present_texts(a + b) =~= present_texts(a) + present_texts(b));
    }
}

/// The full text of a transcription built from its segments.
pub fn concat_segment_texts(texts: &Vec<Option<String>>) -> (r: String)
    ensures
        r@ == present_texts(texts@),
{
    let mut r = String::new();
    let mut i: usize = 0;
    while i < texts.len()
        invariant
            i <= texts.len(),
            r@ == present_texts(texts@.take(i as int)),
        decreases texts.len() - i,
    {
        assert(texts@.take(i + 1).drop_last() =~= texts@.take(i as int));
        match &texts[i] {
            Some(t) => r.append(t.as_str()),
            None => {},
        }
        i = i + 1;
    }
    assert(texts@.take(texts.len() as int) =~= texts@);
    r
}

/// Extends a streamed chat reply with one chunk: the `delta.content` of
/// each of its choices, in order, where a choice has one.
pub fn append_deltas(reply: &mut String, deltas: &Vec<Option<String>>)
    ensures
        final(reply)@ == old(reply)@ + present_texts(deltas@),
{
    let ghost start = reply@;
    let mut i: usize = 0;
    while i < deltas.len()
        invariant
            i <= deltas.len(),
            reply@ == start + present_texts(deltas@.take(i as int)),
        decreases deltas.len() - i,
    {
        assert(deltas@.take(i + 1).drop_last() =~= deltas@.take(i as int));
        match &deltas[i] {
            Some(t) => {
                reply.append(t.as_str());
                assert(reply@ =~= start + present_texts(deltas@.take(i + 1)));
            },
            None => {
                assert(reply@ =~= start + present_texts(deltas@.take(i + 1)));
            },
        }
        i = i + 1;
    }
    assert(deltas@.take(deltas.len() as int) =~= deltas@);
}

// ---------------------------------------------------------------------------
// Recognised words
// ---------------------------------------------------------------------------

/// A recognised word as kept: its position in the provider's list and its
/// cleaned text.
#[derive(Debug, Clone)]
pub struct CleanWord {
    pub source: usize,
    pub text: String,
}

/// A word's text with `--` turned into spaces, then trimmed.
pub open spec fn clean_word(w: Seq<char>) -> Seq<char> {
    trim(replace_all(w, seq!['-', '-'], seq![' ']))
}

/// The words kept, in order, with their positions: those whose cleaned
/// text is not empty.
pub open spec fn kept_words(ws: Seq<Seq<char>>) -> Seq<(int, Seq<char>)>
    decreases ws.len(),
{
    if ws.len() == 0 {
        seq![]
    } else {
        let rest = kept_words(ws.drop_last());
        let c = clean_word(ws.last());
        if c.len() > 0 {
            rest.push((ws.len() - 1, c))
        } else {
            rest
        }
    }
}

/// **Law.** The words kept are exactly those whose cleaned text is not
/// empty, each once, in their original order: every kept entry names a
/// word of the input by its position and holds that word's cleaned, non-empty
/// text; positions strictly increase; and every word whose cleaned text is
/// not empty is kept.
pub proof fn kept_words_are_the_nonblank_ones(ws: Seq<Seq<char>>)
    ensures
        forall|k: int|
            0 <= k < kept_words(ws).len() ==> {
                let e = #[trigger] kept_words(ws)[k];
                &&& 0 <= e.0 < ws.len()
                &&& e.1 == clean_word(ws[e.0])
                &&& e.1.len() > 0
            },
        forall|k1: int, k2: int|
            0 <= k1 < k2 < kept_words(ws).len() ==> (#[trigger] kept_words(ws)[k1]).0
                < (#[trigger] kept_words(ws)[k2]).0,
        forall|j: int|
            0 <= j < ws.len() && (#[trigger] clean_word(ws[j])).len() > 0 ==> exists|k: int|
                0 <= k < kept_words(ws).len() && (#[trigger] kept_words(ws)[k]).0 == j,
    decreases ws.len(),
{
    if ws.len() > 0 {
        let init = ws.drop_last();
        kept_words_are_the_nonblank_ones(init);
        let rest = kept_words(init);
        let r = kept_words(ws);
        let n = ws.len() - 1;
        assert forall|j: int| 0 <= j < n implies init[j] == ws[j] by {}
        assert forall|k: int| 0 <= k < r.len() implies {
            let e = #[trigger] r[k];
            &&& 0 <= e.0 < ws.len()
            &&& e.1 == clean_word(ws[e.0])
            &&& e.1.len() > 0
        } by {
            if k < rest.len() {
                assert(r[k] == rest[k]);
                assert(init[rest[k].0] == ws[rest[k].0]);
            }
        }
        assert forall|k1: int, k2: int| 0 <= k1 < k2 < r.len() implies (#[trigger] r[k1]).0
            < (#[trigger] r[k2]).0 by {
            assert(r[k1] == rest[k1]);
            if k2 < rest.len() {
                assert(r[k2] == rest[k2]);
            }
        }
        assert forall|j: int| 0 <= j < ws.len() && (#[trigger] clean_word(ws[j])).len() > 0 implies exists|k: int|
            0 <= k < r.len() && (#[trigger] r[k]).0 == j by {
            if j < n {
                assert(init[j] == ws[j]);
                assert(clean_word(init[j]).len() > 0);
                let k = choose|k: int| 0 <= k < rest.len() && (#[trigger] rest[k]).0 == j;
                assert(r[k] == rest[k]);
            } else {
                assert(ws.last() == ws[j]);
                assert(r[rest.len() as int].0 == j);
            }
        }
    }
}

/// The texts of a list of cleaned words with their positions.
pub open spec fn clean_words_view(v: Seq<CleanWord>) -> Seq<(int, Seq<char>)> {
    v.map_values(|w: CleanWord| (w.source as int, w.text@))
}

/// Cleans the recognised words and drops those left empty. The position of
/// a kept word in the result is its new number.
pub fn select_words(words: &Vec<String>) -> (r: Vec<CleanWord>)
    ensures
        clean_words_view(r@) == kept_words(strs(words@)),
{
    let dash2: Vec<char> = vec!['-', '-'];
    let space: Vec<char> = vec![' '];
    let mut r: Vec<CleanWord> = Vec::new();
    let mut i: usize = 0;
    while i < words.len()
        invariant
            i <= words.len(),
            dash2@ == seq!['-', '-'],
            space@ == seq![' '],
            clean_words_view(r@) == kept_words(strs(words@).take(i as int)),
        decreases words.len() - i,
    {
        let w = chars_of(words[i].as_str());
        let replaced = replace_all_exec(&w, &dash2, &space);
        let cleaned = trim_chars(&replaced);
        let ghost ws = strs(words@).take(i + 1);
        assert(ws.drop_last() =~= strs(words@).take(i as int));
        assert(ws.last() == words@[i as int]@);
        if cleaned.len() > 0 {
            let ghost before = clean_words_view(r@);
            r.push(CleanWord { source: i, text: string_of(&cleaned) });
            assert(clean_words_view(r@) =~= before.push((i as int, cleaned@)));
        }
        i = i + 1;
    }
    assert(strs(words@).take(words.len() as int) =~= strs(words@));
    r
}

// ---------------------------------------------------------------------------
// OpenAI requests
// ---------------------------------------------------------------------------

/// The text fields of a transcription request; the language is sent only
/// when one is given.
pub open spec fn whisper_fields_spec(model: Seq<char>, language: Seq<char>) -> Seq<
    (Seq<char>, Seq<char>),
> {
    seq![
        ("model"@, model),
        ("response_format"@, "verbose_json"@),
        ("timestamp_granularities[]"@, "word"@),
    ] + if language.len() > 0 {
        seq![("language"@, language)]
    } else {
        seq![]
    }
}

/// A request field: its name and value.
pub struct FormField {
    pub name: String,
    pub value: String,
}

/// The names and values of a list of request fields.
pub open spec fn fields_view(v: Seq<FormField>) -> Seq<(Seq<char>, Seq<char>)> {
    v.map_values(|f: FormField| (f.name@, f.value@))
}

/// The text fields sent with the audio of a transcription request.
pub fn whisper_form_fields(model: &str, language: &str) -> (r: Vec<FormField>)
    ensures
        fields_view(r@) == whisper_fields_spec(model@, language@),
{
    let mut r: Vec<FormField> = Vec::new();
    r.push(FormField { name: String::from_str("model"), value: String::from_str(model) });
    r.push(
        FormField {
            name: String::from_str("response_format"),
            value: String::from_str("verbose_json"),
        },
    );
    r.push(
        FormField {
            name: String::from_str("timestamp_granularities[]"),
            value: String::from_str("word"),
        },
    );
    if !language.is_empty() {
        r.push(FormField { name: String::from_str("language"), value: String::from_str(language) });
    }
    assert(fields_view(r@) =~= whisper_fields_spec(model@, language@));
    r
}

/// The payload of one line of a streamed reply: a trimmed line
/// `data: {payload}`, except the end marker `data: [DONE]`.
pub open spec fn sse_payload(line: Seq<char>) -> Option<Seq<char>> {
    if line.len() == 0 || line == "data: [DONE]"@ {
        None
    } else if line.len() >= 6 && line.take(6) == "data: "@ {
        Some(line.skip(6))
    } else {
        None
    }
}

/// The payloads of the complete lines of `buf`, and what follows its last
/// line feed.
pub open spec fn sse_split(buf: Seq<char>) -> (Seq<Seq<char>>, Seq<char>)
    decreases buf.len(),
{
    let i = first_index_of(buf, '\n');
    if i < buf.len() {
        let line = trim(buf.take(i as int));
        let (ps, rest) = sse_split(buf.skip(i as int + 1));
        match sse_payload(line) {
            Some(p) => (seq![p] + ps, rest),
            None => (ps, rest),
        }
    } else {
        (seq![], buf)
    }
}

/// The payloads read from a buffer of a streamed reply, and the unfinished
/// line left in it.
pub struct SseChunk {
    pub payloads: Vec<String>,
    pub rest: String,
}

/// Splits the buffer of a streamed reply into the payloads of its complete
/// lines and the text after its last line feed.
pub fn split_sse(buffer: &str) -> (r: SseChunk)
    ensures
        strs(r.payloads@) == sse_split(buffer@).0,
        r.rest@ == sse_split(buffer@).1,
{
    proof {
        reveal_strlit("data: [DONE]");
        reveal_strlit("data: ");
    }
    let b = chars_of(buffer);
    let done = chars_of("data: [DONE]");
    let prefix = chars_of("data: ");
    let mut payloads: Vec<String> = Vec::new();
    let mut start: usize = 0;
    let mut j: usize = 0;
    assert(b@.skip(0) =~= b@);
    while j < b.len()
        invariant
            start <= j <= b.len(),
            done@ == "data: [DONE]"@,
            prefix@ == "data: "@,
            prefix@.len() == 6,
            forall|k: int| start <= k < j ==> b@[k] != '\n',
            sse_split(b@).0 == strs(payloads@) + sse_split(b@.skip(start as int)).0,
            sse_split(b@).1 == sse_split(b@.skip(start as int)).1,
        decreases b.len() - j,
    {
        if b[j] == '\n' {
            let ghost t = b@.skip(start as int);
            proof {
                assert forall|k: int| 0 <= k < j - start implies t[k] != '\n' by {
                    assert(t[k] == b@[start + k]);
                }
                lemma_first_index_of(t, '\n', j - start);
                assert(t.skip(j - start + 1) =~= b@.skip(j + 1));
                assert(t.take(j - start) =~= b@.subrange(start as int, j as int));
            }
            let raw = copy_range(&b, start, j);
            let line = trim_chars(&raw);
            let ghost before = strs(payloads@);
            let is_done = line.len() == done.len() && {
                let mut same = true;
                let mut k: usize = 0;
                while k < line.len()
                    invariant
                        k <= line.len(),
                        line.len() == done.len(),
                        same == (forall|m: int| 0 <= m < k ==> line@[m] == done@[m]),
                    decreases line.len() - k,
                {
                    same = same && line[k] == done[k];
                    k = k + 1;
                }
                same
            };
            proof {
                if is_done {
                    assert(line@ =~= done@);
                } else if line@.len() == done@.len() {
                    assert(line@ != done@);
                }
            }
            if line.len() > 0 && !is_done && line.len() >= 6 {
                let mut k: usize = 0;
                let mut has_prefix = true;
                while k < 6
                    invariant
                        k <= 6,
                        line.len() >= 6,
                        prefix.len() == 6,
                        has_prefix == (forall|m: int| 0 <= m < k ==> line@[m] == prefix@[m]),
                    decreases 6 - k,
                {
                    has_prefix = has_prefix && line[k] == prefix[k];
                    k = k + 1;
                }
                if has_prefix {
                    assert(line@.take(6) =~= prefix@);
                    let payload = copy_range(&line, 6, line.len());
                    assert(payload@ =~= line@.skip(6));
                    payloads.push(string_of(&payload));
                    assert(strs(payloads@) =~= before.push(payload@));
                } else {
                    assert(line@.take(6) != prefix@) by {
                        let m = choose|m: int| 0 <= m < 6 && line@[m] != prefix@[m];
                        assert(line@.take(6)[m] == line@[m]);
                    }
                }
            }
            proof {
                let (ps, rest) = sse_split(b@.skip(j + 1));
                assert(sse_split(t).1 == rest);
                match sse_payload(line@) {
                    Some(p) => {
                        assert(strs(payloads@) + ps =~= before + (seq![p] + ps));
                    },
                    None => {
                        assert(strs(payloads@) == before);
                    },
                }
            }
            start = j + 1;
        }
        j = j + 1;
    }
    let ghost t = b@.skip(start as int);
    proof {
        assert forall|k: int| 0 <= k < t.len() implies t[k] != '\n' by {
            assert(t[k] == b@[start + k]);
        }
        lemma_first_index_of(t, '\n', t.len() as int);
        assert(t =~= b@.subrange(start as int, b.len() as int));
        assert(strs(payloads@) + Seq::<Seq<char>>::empty() =~= strs(payloads@));
    }
    let rest = copy_range(&b, start, b.len());
    SseChunk { payloads, rest: string_of(&rest) }
}

/// **Law.** Reading a stream in pieces gives what reading it whole gives:
/// the payloads of `a + b` are those of `a` followed by those of what `a`
/// left unfinished joined to `b`, and both leave the same unfinished line.
pub proof fn sse_split_chunked(a: Seq<char>, b: Seq<char>)
    ensures
        sse_split(a + b).0 == sse_split(a).0 + sse_split(sse_split(a).1 + b).0,
        sse_split(a + b).1 == sse_split(sse_split(a).1 + b).1,
    decreases a.len(),
{
    lemma_first_index_of_bound(a, '\n');
    let i = first_index_of(a, '\n');
    let ab = a + b;
    if i < a.len() {
        assert forall|k: int| 0 <= k < i implies ab[k] != '\n' by {
            assert(ab[k] == a[k]);
        }
        lemma_first_index_of(ab, '\n', i as int);
        assert(ab.take(i as int) =~= a.take(i as int));
        let a2 = a.skip(i as int + 1);
        assert(ab.skip(i as int + 1) =~= a2 + b);
        sse_split_chunked(a2, b);
    } else {
        assert(sse_split(a).0 =~= Seq::<Seq<char>>::empty());
        assert(sse_split(a).0 + sse_split(a + b).0 =~= sse_split(a + b).0);
    }
}

// ---------------------------------------------------------------------------
// Local speech synthesis
// ---------------------------------------------------------------------------

/// The text file handed to a local synthesiser: `{prefix}{stem}.txt`.
pub fn tts_input_file_name(prefix: &str, stem: &str) -> (r: String)
    ensures
        r@ == prefix@ + stem@ + ".txt"@,
{
    let mut r = String::from_str(prefix);
    r.append(stem);
    r.append(".txt");
    r
}

/// The arguments every local synthesiser script takes.
pub open spec fn tts_common_args(
    script: Seq<char>,
    model: Seq<char>,
    text_file: Seq<char>,
    output: Seq<char>,
) -> Seq<Seq<char>> {
    seq![script, "--model"@, model, "--text-file"@, text_file, "--output"@, output]
}

/// The reference audio arguments, when voice cloning was prepared.
pub open spec fn ref_audio_args(ref_audio: Option<Seq<char>>) -> Seq<Seq<char>> {
    match ref_audio {
        Some(r) => seq!["--ref-audio"@, r],
        None => seq![],
    }
}

/// An optional text's view.
pub open spec fn opt_view(o: Option<&str>) -> Option<Seq<char>> {
    match o {
        Some(s) => Some(s@),
        None => None,
    }
}

fn push_common_args(
    r: &mut Vec<String>,
    script: &str,
    model: &str,
    text_file: &str,
    output: &str,
)
    ensures
        strs(final(r)@) == strs(old(r)@) + tts_common_args(script@, model@, text_file@, output@),
{
    let ghost before = strs(r@);
    push_text(r, script);
    push_text(r, "--model");
    push_text(r, model);
    push_text(r, "--text-file");
    push_text(r, text_file);
    push_text(r, "--output");
    push_text(r, output);
    assert(strs(r@) =~= before + tts_common_args(script@, model@, text_file@, output@));
}

fn push_ref_audio(r: &mut Vec<String>, ref_audio: Option<&str>)
    ensures
        strs(final(r)@) == strs(old(r)@) + ref_audio_args(opt_view(ref_audio)),
{
    let ghost before = strs(r@);
    match ref_audio {
        Some(p) => {
            push_text(r, "--ref-audio");
            push_text(r, p);
        },
        None => {},
    }
    assert(strs(r@) =~= before + ref_audio_args(opt_view(ref_audio)));
}

/// The arguments of the Fish Speech script.
pub fn fish_speech_args(
    script: &str,
    model: &str,
    text_file: &str,
    output: &str,
    ref_audio: Option<&str>,
) -> (r: Vec<String>)
    ensures
        strs(r@) == tts_common_args(script@, model@, text_file@, output@) + ref_audio_args(
            opt_view(ref_audio),
        ),
{
    let mut r: Vec<String> = Vec::new();
    push_common_args(&mut r, script, model, text_file, output);
    push_ref_audio(&mut r, ref_audio);
    assert(strs(r@) =~= tts_common_args(script@, model@, text_file@, output@) + ref_audio_args(
        opt_view(ref_audio),
    ));
    r
}

/// The arguments of the Chatterbox script; `exaggeration` is the emotion
/// strength as text.
pub fn chatterbox_args(
    script: &str,
    model: &str,
    text_file: &str,
    output: &str,
    exaggeration: &str,
    ref_audio: Option<&str>,
) -> (r: Vec<String>)
    ensures
        strs(r@) == tts_common_args(script@, model@, text_file@, output@) + seq![
            "--exaggeration"@,
            exaggeration@,
        ] + ref_audio_args(opt_view(ref_audio)),
{
    let mut r: Vec<String> = Vec::new();
    push_common_args(&mut r, script, model, text_file, output);
    push_text(&mut r, "--exaggeration");
    push_text(&mut r, exaggeration);
    push_ref_audio(&mut r, ref_audio);
    assert(strs(r@) =~= tts_common_args(script@, model@, text_file@, output@) + seq![
        "--exaggeration"@,
        exaggeration@,
    ] + ref_audio_args(opt_view(ref_audio)));
    r
}

/// The reference arguments of Qwen3-TTS: the reference transcript is
/// passed only together with the reference audio.
pub open spec fn qwen3_ref_args(ref_audio: Option<Seq<char>>, ref_text: Option<Seq<char>>) -> Seq<
    Seq<char>,
> {
    match ref_audio {
        Some(a) => seq!["--ref-audio"@, a] + match ref_text {
            Some(t) => seq!["--ref-text"@, t],
            None => seq![],
        },
        None => seq![],
    }
}

/// The arguments of the Qwen3-TTS script.
pub fn qwen3_tts_args(
    script: &str,
    model: &str,
    text_file: &str,
    output: &str,
    lang: &str,
    ref_audio: Option<&str>,
    ref_text: Option<&str>,
) -> (r: Vec<String>)
    ensures
        strs(r@) == tts_common_args(script@, model@, text_file@, output@) + seq![
            "--lang"@,
            lang@,
        ] + qwen3_ref_args(opt_view(ref_audio), opt_view(ref_text)),
{
    let mut r: Vec<String> = Vec::new();
    push_common_args(&mut r, script, model, text_file, output);
    push_text(&mut r, "--lang");
    push_text(&mut r, lang);
    let ghost before = strs(r@);
    match ref_audio {
        Some(a) => {
            push_text(&mut r, "--ref-audio");
            push_text(&mut r, a);
            match ref_text {
                Some(t) => {
                    push_text(&mut r, "--ref-text");
                    push_text(&mut r, t);
                },
                None => {},
            }
        },
        None => {},
    }
    assert(strs(r@) =~= before + qwen3_ref_args(opt_view(ref_audio), opt_view(ref_text)));
    assert(strs(r@) =~= tts_common_args(script@, model@, text_file@, output@) + seq![
        "--lang"@,
        lang@,
    ] + qwen3_ref_args(opt_view(ref_audio), opt_view(ref_text)));
    r
}

/// An optional owned text's view.
pub open spec fn opt_string_view(o: Option<String>) -> Option<Seq<char>> {
    match o {
        Some(s) => Some(s@),
        None => None,
    }
}

/// The reference voice a cloning synthesiser speaks with: the path of the
/// reference clip and, where known, its transcript. Nothing is set until a
/// voice is prepared.
#[derive(Debug, Clone)]
pub struct VoiceReference {
    pub audio: Option<String>,
    pub transcript: Option<String>,
}

/// The content of a `VoiceReference`.
pub struct VoiceReferenceView {
    pub audio: Option<Seq<char>>,
    pub transcript: Option<Seq<char>>,
}

impl View for VoiceReference {
    type V = VoiceReferenceView;

    open spec fn view(&self) -> VoiceReferenceView {
        VoiceReferenceView {
            audio: opt_string_view(self.audio),
            transcript: opt_string_view(self.transcript),
        }
    }
}

/// The reference after preparing the clip `audio` with `transcript`,
/// whatever was prepared before.
pub open spec fn prepared_voice(audio: Seq<char>, transcript: Option<Seq<char>>) -> VoiceReferenceView {
    VoiceReferenceView { audio: Some(audio), transcript }
}

/// The Qwen3-TTS arguments for a reference voice.
pub open spec fn qwen3_voice_args(
    v: VoiceReferenceView,
    script: Seq<char>,
    model: Seq<char>,
    text_file: Seq<char>,
    output: Seq<char>,
    lang: Seq<char>,
) -> Seq<Seq<char>> {
    tts_common_args(script, model, text_file, output) + seq!["--lang"@, lang] + qwen3_ref_args(
        v.audio,
        v.transcript,
    )
}

fn opt_str(o: &Option<String>) -> (r: Option<&str>)
    ensures
        opt_view(r) == opt_string_view(*o),
{
    match o {
        Some(s) => Some(s.as_str()),
        None => None,
    }
}

impl VoiceReference {
    /// No reference voice yet.
    pub fn new() -> (r: Self)
        ensures
            r@.audio is None,
            r@.transcript is None,
    {
        VoiceReference { audio: None, transcript: None }
    }

    /// Prepares voice cloning from the clip at `audio` and its transcript,
    /// replacing any reference prepared before.
    pub fn prepare(&mut self, audio: &str, transcript: Option<&str>)
        ensures
            final(self)@ == prepared_voice(audio@, opt_view(transcript)),
    {
        self.audio = Some(String::from_str(audio));
        self.transcript = match transcript {
            Some(t) => Some(String::from_str(t)),
            None => None,
        };
    }

    /// The Fish Speech arguments with this reference voice.
    pub fn fish_speech_args(&self, script: &str, model: &str, text_file: &str, output: &str) -> (r:
        Vec<String>)
        ensures
            strs(r@) == tts_common_args(script@, model@, text_file@, output@) + ref_audio_args(
                self@.audio,
            ),
    {
        fish_speech_args(script, model, text_file, output, opt_str(&self.audio))
    }

    /// The Chatterbox arguments with this reference voice.
    pub fn chatterbox_args(
        &self,
        script: &str,
        model: &str,
        text_file: &str,
        output: &str,
        exaggeration: &str,
    ) -> (r: Vec<String>)
        ensures
            strs(r@) == tts_common_args(script@, model@, text_file@, output@) + seq![
                "--exaggeration"@,
                exaggeration@,
            ] + ref_audio_args(self@.audio),
    {
        chatterbox_args(script, model, text_file, output, exaggeration, opt_str(&self.audio))
    }

    /// The Qwen3-TTS arguments with this reference voice.
    pub fn qwen3_tts_args(
        &self,
        script: &str,
        model: &str,
        text_file: &str,
        output: &str,
        lang: &str,
    ) -> (r: Vec<String>)
        ensures
            strs(r@) == qwen3_voice_args(self@, script@, model@, text_file@, output@, lang@),
    {
        qwen3_tts_args(
            script,
            model,
            text_file,
            output,
            lang,
            opt_str(&self.audio),
            opt_str(&self.transcript),
        )
    }
}

/// **Law.** The voice that was prepared last is the one a later synthesis
/// speaks with: after preparing the clip `audio` with the transcript
/// `transcript`, the Qwen3-TTS arguments end with `--ref-audio audio
/// --ref-text transcript`, and those of Fish Speech with `--ref-audio
/// audio`; before any voice is prepared no reference is passed.
pub proof fn prepared_voice_is_used(
    before: VoiceReferenceView,
    audio: Seq<char>,
    transcript: Seq<char>,
    script: Seq<char>,
    model: Seq<char>,
    text_file: Seq<char>,
    output: Seq<char>,
    lang: Seq<char>,
)
    ensures
        qwen3_voice_args(
            prepared_voice(audio, Some(transcript)),
            script,
            model,
            text_file,
            output,
            lang,
        ) == tts_common_args(script, model, text_file, output) + seq![
            "--lang"@,
            lang,
            "--ref-audio"@,
            audio,
            "--ref-text"@,
            transcript,
        ],
        ref_audio_args(prepared_voice(audio, Some(transcript)).audio) == seq!["--ref-audio"@, audio],
        before.audio is None ==> qwen3_voice_args(before, script, model, text_file, output, lang)
            == tts_common_args(script, model, text_file, output) + seq!["--lang"@, lang],
        before.audio is None ==> ref_audio_args(before.audio) == Seq::<Seq<char>>::empty(),
{
    let common = tts_common_args(script, model, text_file, output);
    assert(seq!["--lang"@, lang] + (seq!["--ref-audio"@, audio] + seq!["--ref-text"@, transcript])
        =~= seq!["--lang"@, lang, "--ref-audio"@, audio, "--ref-text"@, transcript]);
    assert(common + seq!["--lang"@, lang] + (seq!["--ref-audio"@, audio] + seq![
        "--ref-text"@,
        transcript,
    ]) =~= common + seq!["--lang"@, lang, "--ref-audio"@, audio, "--ref-text"@, transcript]);
    assert(common + seq!["--lang"@, lang] + Seq::<Seq<char>>::empty() =~= common + seq![
        "--lang"@,
        lang,
    ]);
}

} // verus!
