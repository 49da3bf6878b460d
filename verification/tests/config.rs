use krillin_rs::config::{Config, ConfigError, LocalModelConfig, OpenaiCompatibleConfig};

#[test]
fn default_values() {
    let c = Config::default();
    assert_eq!(c.app.segment_duration, 5);
    assert_eq!(c.app.transcribe_parallel_num, 1);
    assert_eq!(c.app.translate_parallel_num, 3);
    assert_eq!(c.app.transcribe_max_attempts, 3);
    assert_eq!(c.app.translate_max_attempts, 3);
    assert_eq!(c.app.max_sentence_length, 70);
    assert_eq!(c.app.proxy, "");
    assert_eq!(c.server.host, "127.0.0.1");
    assert_eq!(c.server.port, 8888);
    assert_eq!(c.llm.model, "gpt-4o-mini");
    assert_eq!(c.llm.api_key, "");
    assert_eq!(c.transcribe.provider, "openai");
    assert_eq!(c.transcribe.openai.model, "whisper-1");
    assert_eq!(c.transcribe.fasterwhisper.model, "large-v2");
    assert_eq!(c.transcribe.whisperkit.model, "large-v2");
    assert_eq!(c.transcribe.whispercpp.model, "large-v2");
    assert!(!c.transcribe.enable_gpu_acceleration);
    assert_eq!(c.tts.provider, "openai");
    assert_eq!(c.tts.openai.model, "gpt-4o-mini-tts");
    assert_eq!(OpenaiCompatibleConfig::default().model, "");
    assert_eq!(LocalModelConfig::default().model, "");
}

#[test]
fn default_config_needs_openai_key() {
    let c = Config::default();
    let e = c.validate(false).unwrap_err();
    assert!(matches!(e, ConfigError::MissingOpenaiApiKey));
    assert_eq!(e.message(), "OpenAI transcription requires an API key");
}

#[test]
fn openai_with_key_is_valid() {
    let mut c = Config::default();
    c.transcribe.openai.api_key = "SECRET-REDACTED".to_string();
    assert!(c.validate(false).is_ok());
}

#[test]
fn fasterwhisper_models() {
    let mut c = Config::default();
    c.transcribe.provider = "fasterwhisper".to_string();
    for m in ["tiny", "medium", "large-v2"] {
        c.transcribe.fasterwhisper.model = m.to_string();
        assert!(c.validate(false).is_ok());
    }
    c.transcribe.fasterwhisper.model = "small".to_string();
    let e = c.validate(true).unwrap_err();
    match &e {
        ConfigError::InvalidFasterwhisperModel(m) => assert_eq!(m, "small"),
        other => panic!("unexpected {:?}", other),
    }
    assert_eq!(e.message(), "Invalid fasterwhisper model: small. Must be tiny, medium, or large-v2");
}

#[test]
fn whisperkit_only_on_macos() {
    let mut c = Config::default();
    c.transcribe.provider = "whisperkit".to_string();
    assert!(c.validate(true).is_ok());
    let e = c.validate(false).unwrap_err();
    assert!(matches!(e, ConfigError::WhisperkitRequiresMacos));
    assert_eq!(e.message(), "WhisperKit is only supported on macOS");
}

#[test]
fn whispercpp_needs_nothing() {
    let mut c = Config::default();
    c.transcribe.provider = "whispercpp".to_string();
    assert!(c.validate(false).is_ok());
}

#[test]
fn aliyun_needs_all_credentials() {
    let mut c = Config::default();
    c.transcribe.provider = "aliyun".to_string();
    let e = c.validate(false).unwrap_err();
    assert!(matches!(e, ConfigError::MissingAliyunCredentials));
    assert_eq!(
        e.message(),
        "Aliyun transcription requires access_key_id, access_key_secret, and app_key"
    );
    c.transcribe.aliyun.speech.access_key_id = "id".to_string();
    c.transcribe.aliyun.speech.access_key_secret = "secret".to_string();
    assert!(c.validate(false).is_err());
    c.transcribe.aliyun.speech.app_key = "app".to_string();
    assert!(c.validate(false).is_ok());
}

#[test]
fn mlx_whisper_only_on_macos() {
    let mut c = Config::default();
    c.transcribe.provider = "mlx-whisper".to_string();
    assert!(c.validate(true).is_ok());
    let e = c.validate(false).unwrap_err();
    assert!(matches!(e, ConfigError::MlxWhisperRequiresMacos));
    assert_eq!(e.message(), "MLX Whisper is only supported on macOS");
}

#[test]
fn unknown_provider_is_refused() {
    let mut c = Config::default();
    c.transcribe.provider = "vosk".to_string();
    let e = c.validate(true).unwrap_err();
    match &e {
        ConfigError::UnsupportedTranscribeProvider(p) => assert_eq!(p, "vosk"),
        other => panic!("unexpected {:?}", other),
    }
    assert_eq!(e.message(), "Unsupported transcription provider: vosk");
}
