use krillin_rs::subtitle::timestamp_fields;
use krillin_rs::srt::{merge_srt_contents, parse_srt, render_srt};
use krillin_rs::subtitle::{format_millis, format_range, SrtSentenceWithStrTime};

fn cue(text: &str, start: &str, end: &str) -> SrtSentenceWithStrTime {
    SrtSentenceWithStrTime { text: text.to_string(), start: start.to_string(), end: end.to_string() }
}

fn triple(c: &SrtSentenceWithStrTime) -> (String, String, String) {
    (c.text.clone(), c.start.clone(), c.end.clone())
}

#[test]
fn parses_blocks() {
    let content = "1\n00:00:01,000 --> 00:00:02,500\nHello\nworld\n\n2\n00:00:03,000 --> 00:00:04,000\nBye\n";
    let r = parse_srt(content);
    assert_eq!(r.len(), 2);
    assert_eq!(triple(&r[0]), ("Hello\nworld".to_string(), "00:00:01,000".to_string(), "00:00:02,500".to_string()));
    assert_eq!(triple(&r[1]), ("Bye".to_string(), "00:00:03,000".to_string(), "00:00:04,000".to_string()));
}

#[test]
fn parses_crlf_and_trims() {
    let content = "1\r\n  00:00:01,000   -->00:00:02,000 \r\n  Hi there  \r\n\r\n";
    let r = parse_srt(content);
    assert_eq!(r.len(), 1);
    assert_eq!(triple(&r[0]), ("Hi there".to_string(), "00:00:01,000".to_string(), "00:00:02,000".to_string()));
}

#[test]
fn drops_cue_without_text() {
    let r = parse_srt("1\n00:00:01,000 --> 00:00:02,000\n\n2\n00:00:03,000 --> 00:00:04,000\nX\n");
    assert_eq!(r.len(), 1);
    assert_eq!(r[0].text, "X");
}

#[test]
fn skips_lines_with_two_arrows() {
    let r = parse_srt("a --> b --> c\ntext\n");
    assert_eq!(r.len(), 0);
}

#[test]
fn empty_input() {
    assert_eq!(parse_srt("").len(), 0);
    assert_eq!(parse_srt("\n\n\n").len(), 0);
}

#[test]
fn renders_numbered_blocks() {
    let entries = vec![cue("Hello", "00:00:01,000", "00:00:02,000"), cue("A\nB", "x", "y")];
    let s = render_srt(&entries);
    assert_eq!(s, "1\n00:00:01,000 --> 00:00:02,000\nHello\n\n2\nx --> y\nA\nB\n\n");
}

#[test]
fn parse_of_render_gives_back_the_cues() {
    let entries = vec![
        cue("Hello there", "00:00:01,000", "00:00:02,000"),
        cue("Two\nlines", "00:00:03,000", "00:00:04,500"),
        cue("Last", "", ""),
    ];
    let back = parse_srt(&render_srt(&entries));
    assert_eq!(back.len(), entries.len());
    for (a, b) in back.iter().zip(entries.iter()) {
        assert_eq!(triple(a), triple(b));
    }
}

#[test]
fn merge_concatenates_files() {
    let files = vec![
        "1\n00:00:01,000 --> 00:00:02,000\nA\n\n".to_string(),
        "1\n00:00:05,000 --> 00:00:06,000\nB\n\n2\n00:00:07,000 --> 00:00:08,000\nC\n".to_string(),
    ];
    let merged = merge_srt_contents(&files);
    let texts: Vec<&str> = merged.iter().map(|c| c.text.as_str()).collect();
    assert_eq!(texts, vec!["A", "B", "C"]);
    let written = render_srt(&merged);
    assert!(written.starts_with("1\n00:00:01,000 --> 00:00:02,000\nA\n\n2\n00:00:05,000"));
    assert!(written.contains("3\n00:00:07,000 --> 00:00:08,000\nC\n\n"));
}

#[test]
fn formats_timestamps() {
    assert_eq!(format_millis(0), "00:00:00,000");
    assert_eq!(format_millis(3_723_004), "01:02:03,004");
    assert_eq!(format_millis(59_999), "00:00:59,999");
    assert_eq!(format_millis(360_000_000), "100:00:00,000");
    assert_eq!(format_range("00:00:01,000", "00:00:02,000"), "00:00:01,000 --> 00:00:02,000");
}

#[test]
fn timestamp_fields_split() {
    assert_eq!(timestamp_fields("01:02:03,004"), Some(vec!["01".to_string(), "02".to_string(), "03".to_string(), "004".to_string()]));
    assert_eq!(timestamp_fields("01:02:03"), None);
    assert_eq!(timestamp_fields("1:2:3,4,5"), None);
    assert_eq!(timestamp_fields(":::"), Some(vec![String::new(), String::new(), String::new(), String::new()]));
}

#[test]
fn formatted_timestamp_reads_back() {
    for t in [0u64, 1, 999, 61_001, 3_723_004, 359_999_999, 360_000_000] {
        let f = timestamp_fields(&format_millis(t)).unwrap();
        let n: Vec<u64> = f.iter().map(|x| x.parse().unwrap()).collect();
        assert_eq!(n[0] * 3_600_000 + n[1] * 60_000 + n[2] * 1_000 + n[3], t);
    }
}

#[test]
fn render_of_parse_is_stable() {
    let messy = "7\r\n 00:00:01,000-->00:00:02,000 \r\n  a  \r\n b\r\n\r\n\r\nnoise\n00:00:03,000 --> x\nc\n";
    let once = parse_srt(messy);
    let twice = parse_srt(&render_srt(&once));
    assert_eq!(once.len(), 2);
    assert_eq!(once.len(), twice.len());
    for (a, b) in once.iter().zip(twice.iter()) {
        assert_eq!(triple(a), triple(b));
    }
}
