use krillin_rs::deps::{
    missing_dependencies, needs_venv, required_dependencies, uv_install_args, DepKind,
    TranscribeProvider, TtsProvider,
};

fn names(t: TranscribeProvider, s: TtsProvider) -> Vec<(&'static str, bool)> {
    required_dependencies(t, s)
        .iter()
        .map(|d| (d.name, matches!(d.kind, DepKind::Brew(_))))
        .collect()
}

#[test]
fn required_per_provider() {
    assert_eq!(
        names(TranscribeProvider::Fasterwhisper, TtsProvider::EdgeTts),
        vec![("ffmpeg", true), ("yt-dlp", true), ("faster-whisper", false), ("edge-tts", false)]
    );
    assert_eq!(
        names(TranscribeProvider::Whispercpp, TtsProvider::Qwen3Tts),
        vec![("ffmpeg", true), ("yt-dlp", true), ("whisper-cpp", true), ("mlx-audio", false)]
    );
    assert_eq!(
        names(TranscribeProvider::Whisperkit, TtsProvider::Chatterbox)[2..],
        [("whisperkit-cli", true), ("chatterbox-tts", false)]
    );
    assert_eq!(names(TranscribeProvider::MlxWhisper, TtsProvider::FishSpeech)[2].0, "mlx-whisper");
}

#[test]
fn venv_and_missing() {
    let deps = required_dependencies(TranscribeProvider::Whispercpp, TtsProvider::MlxAudio);
    assert!(needs_venv(&deps));
    let only_brew = deps[..3].to_vec();
    assert!(!needs_venv(&only_brew));
    let m = missing_dependencies(&deps, &vec![true, false, false, false]);
    assert_eq!(m.brew, vec![1, 2]);
    assert_eq!(m.uv, vec![3]);
    let args = uv_install_args(&deps, &m.uv);
    assert_eq!(args, vec!["pip", "install", "--python", "./venv", "mlx-audio"]);
    let none = missing_dependencies(&deps, &vec![true; 4]);
    assert!(none.brew.is_empty() && none.uv.is_empty());
}
