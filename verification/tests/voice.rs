use krillin_rs::subtitle::SrtSentenceWithStrTime;
use krillin_rs::voice::{concat_list, reference_transcript, segment_file_name};

fn cue(text: &str) -> SrtSentenceWithStrTime {
    SrtSentenceWithStrTime { text: text.to_string(), start: String::new(), end: String::new() }
}

#[test]
fn transcript_of_chosen_segments() {
    let subs = vec![cue("zero\nnull"), cue("one"), cue("two\nzwei")];
    assert_eq!(reference_transcript(&subs, &vec![2, 0]), "two zero");
    assert_eq!(reference_transcript(&subs, &vec![1, 7]), "one");
    assert_eq!(reference_transcript(&subs, &vec![]), "");
}

#[test]
fn segment_files_and_list() {
    assert_eq!(segment_file_name(0), "seg_0.wav");
    assert_eq!(segment_file_name(12), "seg_12.wav");
    let paths = vec!["/r/seg_0.wav".to_string(), "/r/seg_1.wav".to_string()];
    assert_eq!(concat_list(&paths), "file '/r/seg_0.wav'\nfile '/r/seg_1.wav'\n");
}

