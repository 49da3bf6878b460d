use krillin_rs::storage::{bin_path_choice, bin_tools, tool_candidates, which, BinPaths};

#[test]
fn path_choice() {
    assert_eq!(bin_path_choice("ffmpeg", true, true), "ffmpeg");
    assert_eq!(bin_path_choice("ffmpeg", true, false), "ffmpeg");
    assert_eq!(bin_path_choice("ffmpeg", false, true), "./bin/ffmpeg");
    assert_eq!(bin_path_choice("ffmpeg", false, false), "ffmpeg");
}

#[test]
fn candidates_are_path_dirs_then_local_copy() {
    let dirs = vec!["/usr/bin".to_string(), "/opt/tools".to_string()];
    assert_eq!(
        tool_candidates("ffmpeg", &dirs),
        vec!["/usr/bin/ffmpeg", "/opt/tools/ffmpeg", "./bin/ffmpeg"]
    );
    assert_eq!(tool_candidates("ffmpeg", &vec![]), vec!["./bin/ffmpeg"]);
}

#[test]
fn path_comes_before_the_local_copy() {
    let dirs = vec!["/usr/bin".to_string(), "/opt/tools".to_string()];
    // Found on PATH and locally: PATH wins.
    assert_eq!(which("ffmpeg", &dirs, &vec![false, true, true]), "ffmpeg");
    // Only the local copy: ./bin/ is the fallback.
    assert_eq!(which("ffmpeg", &dirs, &vec![false, false, true]), "./bin/ffmpeg");
    // Nowhere: the bare name.
    assert_eq!(which("ffmpeg", &dirs, &vec![false, false, false]), "ffmpeg");
    assert_eq!(which("ffmpeg", &vec![], &vec![true]), "./bin/ffmpeg");
}

#[test]
fn detect_gives_each_tool() {
    let tools = bin_tools();
    assert_eq!(
        tools,
        vec!["ffmpeg", "ffprobe", "yt-dlp", "fasterwhisper", "whisperx", "whisperkit", "whisper-cpp", "edge-tts"]
    );
    let dirs = vec!["/usr/bin".to_string()];
    // yt-dlp is on PATH, whisper-cpp only under ./bin/, the rest nowhere.
    let mut found = vec![vec![false, false]; 8];
    found[2] = vec![true, true];
    found[6] = vec![false, true];
    let b = BinPaths::detect(&dirs, &found);
    assert_eq!(b.ffmpeg, "ffmpeg");
    assert_eq!(b.ytdlp, "yt-dlp");
    assert_eq!(b.whispercpp, "./bin/whisper-cpp");
    assert_eq!(b.edge_tts, "edge-tts");
    let d = BinPaths::default();
    assert_eq!(d.ffmpeg, "");
}
