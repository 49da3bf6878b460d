use krillin_rs::emotion::{emotion_tag, NUM_EMOTION_TAGS};
use krillin_rs::emotion::assemble_emotions;
use krillin_rs::emotion::{
    emotion_contexts, emotion_from_reply, emotion_prompt, emotion_tag_of_lowered, first_line_of,
    parse_emotion_tag,
};
use krillin_rs::prompts::EMOTION_DETECTION_PROMPT;
use krillin_rs::subtitle::SrtSentenceWithStrTime;

#[test]
fn parse_standard_tags() {
    assert_eq!(parse_emotion_tag("[excited]"), "[excited]");
    assert_eq!(parse_emotion_tag("  [whisper]  "), "[whisper]");
    assert_eq!(parse_emotion_tag("[ANGRY]"), "[angry]");
}

#[test]
fn parse_without_brackets() {
    assert_eq!(parse_emotion_tag("excited"), "[excited]");
    assert_eq!(parse_emotion_tag("The emotion is sad"), "[sad]");
}

#[test]
fn fallback_to_neutral() {
    assert_eq!(parse_emotion_tag("I don't know"), "[neutral]");
    assert_eq!(parse_emotion_tag(""), "[neutral]");
}

#[test]
fn bracketed_tag_wins_over_earlier_bare_name() {
    // "sad" appears bare, but "[angry]" appears bracketed: bracketed tags are searched first.
    assert_eq!(parse_emotion_tag("sad? no: [angry]"), "[angry]");
    // Among bracketed tags the list order decides, not the position in the reply.
    assert_eq!(parse_emotion_tag("[sad] [excited]"), "[excited]");
}

#[test]
fn multi_word_tag() {
    assert_eq!(
        parse_emotion_tag("Professional Broadcast Tone"),
        "[professional broadcast tone]"
    );
}

#[test]
fn lowered_reply_is_read_as_is() {
    assert_eq!(emotion_tag_of_lowered("[TENDER]"), "[neutral]");
    assert_eq!(emotion_tag_of_lowered("tender"), "[tender]");
}

#[test]
fn failed_request_gives_neutral() {
    assert_eq!(emotion_from_reply(None), "[neutral]");
    assert_eq!(emotion_from_reply(Some(" Fearful ")), "[fearful]");
}

#[test]
fn first_line_of_texts() {
    assert_eq!(first_line_of("hello\nworld"), "hello");
    assert_eq!(first_line_of("one\r\ntwo"), "one");
    assert_eq!(first_line_of(""), "");
    assert_eq!(first_line_of("\nsecond"), "");
}

fn cue(text: &str) -> SrtSentenceWithStrTime {
    SrtSentenceWithStrTime {
        text: text.to_string(),
        start: "00:00:00,000".to_string(),
        end: "00:00:01,000".to_string(),
    }
}

#[test]
fn contexts_use_neighbouring_first_lines() {
    let subs = vec![cue("a\nA"), cue("b\nB"), cue("c")];
    let ctx = emotion_contexts(&subs);
    assert_eq!(ctx.len(), 3);
    assert_eq!((ctx[0].prev.as_str(), ctx[0].text.as_str(), ctx[0].next.as_str()), ("", "a", "b"));
    assert_eq!((ctx[1].prev.as_str(), ctx[1].text.as_str(), ctx[1].next.as_str()), ("a", "b", "c"));
    assert_eq!((ctx[2].prev.as_str(), ctx[2].text.as_str(), ctx[2].next.as_str()), ("b", "c", ""));
}

#[test]
fn prompt_fills_placeholders() {
    let subs = vec![cue("x"), cue("y"), cue("z")];
    let ctx = emotion_contexts(&subs);
    let p = emotion_prompt("<{prev}|{text}|{next}|{text}>", &ctx[1]);
    assert_eq!(p, "<x|y|z|y>");
    let full = emotion_prompt(EMOTION_DETECTION_PROMPT, &ctx[1]);
    assert!(full.contains("Current line: y"));
    assert!(!full.contains("{text}"));
}

#[test]
fn replacement_is_not_reapplied() {
    let subs = vec![cue("{next}"), cue("q")];
    let ctx = emotion_contexts(&subs);
    // "{prev}" is replaced by "" and "{text}" by "{next}", which the last step then fills.
    let p = emotion_prompt("{text}", &ctx[0]);
    assert_eq!(p, "q");
}

#[test]
fn one_tag_per_subtitle() {
    let tagged = vec![(2, "[sad]".to_string()), (0, "[angry]".to_string())];
    assert_eq!(assemble_emotions(4, &tagged), vec!["[angry]", "[neutral]", "[sad]", "[neutral]"]);
    assert_eq!(assemble_emotions(0, &vec![]), Vec::<String>::new());
}

#[test]
fn every_tag_reads_as_itself() {
    for i in 0..NUM_EMOTION_TAGS {
        let t = emotion_tag(i);
        assert_eq!(emotion_tag_of_lowered(t), t);
        assert_eq!(parse_emotion_tag(t), t);
    }
}
