use krillin_rs::provider::{
    api_url, append_deltas, chatterbox_args, concat_segment_texts, fasterwhisper_output_path, fish_speech_args,
    qwen3_tts_args, select_words, split_sse, tts_input_file_name, whisper_form_fields,
    FasterWhisperProcessor, VoiceReference,
};

#[test]
fn processor_fields() {
    let p = FasterWhisperProcessor::new("python3", "tiny", true);
    assert_eq!(p.python_path, "python3");
    assert_eq!(p.model, "tiny");
    assert!(p.gpu);
}

#[test]
fn fasterwhisper_arguments() {
    let p = FasterWhisperProcessor::new("python3", "medium", false);
    assert_eq!(
        p.cli_args("a.mp3", "", "/w"),
        vec!["scripts/fasterwhisper_cli.py", "a.mp3", "--model", "medium", "--model_dir", "./models/", "--output_dir", "/w"]
    );
    let g = FasterWhisperProcessor::new("python3", "tiny", true);
    assert_eq!(
        g.cli_args("a.mp3", "en", "/w"),
        vec![
            "scripts/fasterwhisper_cli.py", "a.mp3", "--model", "tiny", "--model_dir", "./models/",
            "--output_dir", "/w", "--compute_type", "float16", "--language", "en"
        ]
    );
    assert_eq!(fasterwhisper_output_path("/w", "a"), "/w/a.json");
}

#[test]
fn words_are_cleaned_and_renumbered() {
    let words: Vec<String> = vec![" Hello", "--", "wor--ld ", "", "x"].into_iter().map(String::from).collect();
    let kept = select_words(&words);
    let pairs: Vec<(usize, &str)> = kept.iter().map(|w| (w.source, w.text.as_str())).collect();
    assert_eq!(pairs, vec![(0, "Hello"), (2, "wor ld"), (4, "x")]);
}

#[test]
fn segment_texts() {
    let t = vec![Some("Hello".to_string()), None, Some(" world".to_string())];
    assert_eq!(concat_segment_texts(&t), "Hello world");
    assert_eq!(concat_segment_texts(&vec![]), "");
}

#[test]
fn whisper_fields() {
    let f = whisper_form_fields("whisper-1", "");
    let v: Vec<(&str, &str)> = f.iter().map(|x| (x.name.as_str(), x.value.as_str())).collect();
    assert_eq!(v, vec![("model", "whisper-1"), ("response_format", "verbose_json"), ("timestamp_granularities[]", "word")]);
    let f = whisper_form_fields("whisper-1", "ru");
    assert_eq!(f.len(), 4);
    assert_eq!((f[3].name.as_str(), f[3].value.as_str()), ("language", "ru"));
    assert_eq!(api_url("http://h/v1", "/audio/speech"), "http://h/v1/audio/speech");
}

#[test]
fn sse_framing() {
    let c = split_sse("data: {\"a\":1}\n\ndata: [DONE]\n  data: x  \nevent: y\ndata: par");
    assert_eq!(c.payloads, vec!["{\"a\":1}", "x"]);
    assert_eq!(c.rest, "data: par");
    let c = split_sse("no newline yet");
    assert!(c.payloads.is_empty());
    assert_eq!(c.rest, "no newline yet");
    let c = split_sse("data:x\n");
    assert!(c.payloads.is_empty());
    assert_eq!(c.rest, "");
}

#[test]
fn tts_arguments() {
    assert_eq!(tts_input_file_name("fish_tts_input_", "seg1"), "fish_tts_input_seg1.txt");
    assert_eq!(
        fish_speech_args("s.py", "m", "t.txt", "o.wav", None),
        vec!["s.py", "--model", "m", "--text-file", "t.txt", "--output", "o.wav"]
    );
    assert_eq!(
        fish_speech_args("s.py", "m", "t.txt", "o.wav", Some("ref.wav")),
        vec!["s.py", "--model", "m", "--text-file", "t.txt", "--output", "o.wav", "--ref-audio", "ref.wav"]
    );
    assert_eq!(
        chatterbox_args("c.py", "m", "t", "o", "0.5", None),
        vec!["c.py", "--model", "m", "--text-file", "t", "--output", "o", "--exaggeration", "0.5"]
    );
    assert_eq!(
        qwen3_tts_args("q.py", "m", "t", "o", "ru", None, Some("ignored")),
        vec!["q.py", "--model", "m", "--text-file", "t", "--output", "o", "--lang", "ru"]
    );
    assert_eq!(
        qwen3_tts_args("q.py", "m", "t", "o", "ru", Some("r.wav"), Some("hi")),
        vec!["q.py", "--model", "m", "--text-file", "t", "--output", "o", "--lang", "ru", "--ref-audio", "r.wav", "--ref-text", "hi"]
    );
}

#[test]
fn voice_reference_starts_empty() {
    let v = VoiceReference::new();
    assert_eq!(v.audio, None);
    assert_eq!(v.transcript, None);
    assert_eq!(
        v.qwen3_tts_args("q.py", "m", "t", "o", "ru"),
        vec!["q.py", "--model", "m", "--text-file", "t", "--output", "o", "--lang", "ru"]
    );
    assert_eq!(
        v.fish_speech_args("f.py", "m", "t", "o"),
        vec!["f.py", "--model", "m", "--text-file", "t", "--output", "o"]
    );
}

#[test]
fn prepared_voice_is_used_by_later_synthesis() {
    let mut v = VoiceReference::new();
    v.prepare("old.wav", Some("old words"));
    v.prepare("ref.wav", Some("hello there"));
    assert_eq!(
        v.qwen3_tts_args("q.py", "m", "t", "o", "ru"),
        vec![
            "q.py", "--model", "m", "--text-file", "t", "--output", "o", "--lang", "ru",
            "--ref-audio", "ref.wav", "--ref-text", "hello there",
        ]
    );
    assert_eq!(
        v.chatterbox_args("c.py", "m", "t", "o", "0.5"),
        vec![
            "c.py", "--model", "m", "--text-file", "t", "--output", "o", "--exaggeration", "0.5",
            "--ref-audio", "ref.wav",
        ]
    );
    v.prepare("other.wav", None);
    assert_eq!(v.transcript, None);
    assert_eq!(
        v.qwen3_tts_args("q.py", "m", "t", "o", "ru"),
        vec![
            "q.py", "--model", "m", "--text-file", "t", "--output", "o", "--lang", "ru",
            "--ref-audio", "other.wav",
        ]
    );
}

#[test]
fn chat_deltas_are_appended_in_order() {
    let mut reply = "Hel".to_string();
    append_deltas(&mut reply, &vec![Some("lo".to_string()), None, Some(", world".to_string())]);
    assert_eq!(reply, "Hello, world");
    append_deltas(&mut reply, &vec![]);
    assert_eq!(reply, "Hello, world");
}
