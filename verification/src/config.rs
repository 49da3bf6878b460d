//! Application configuration: its sections, their defaults, and the check
//! that the chosen transcription provider is usable.
use vstd::prelude::*;

use crate::text::text_eq;

verus! {

broadcast use vstd::string::group_string_axioms;

/// The whole configuration.
#[derive(Debug, Clone)]
pub struct Config {
    pub app: AppConfig,
    pub server: ServerConfig,
    pub llm: OpenaiCompatibleConfig,
    pub transcribe: TranscribeConfig,
    pub tts: TtsConfig,
}

/// Pipeline settings.
#[derive(Debug, Clone)]
pub struct AppConfig {
    pub segment_duration: u32,
    pub transcribe_parallel_num: u32,
    pub translate_parallel_num: u32,
    pub transcribe_max_attempts: u32,
    pub translate_max_attempts: u32,
    pub max_sentence_length: u32,
    pub proxy: String,
}

/// Where the HTTP server listens.
#[derive(Debug, Clone)]
pub struct ServerConfig {
    pub host: String,
    pub port: u16,
}

/// An OpenAI-compatible endpoint.
#[derive(Debug, Clone)]
pub struct OpenaiCompatibleConfig {
    pub base_url: String,
    pub api_key: String,
    pub model: String,
}

/// A locally run model.
#[derive(Debug, Clone)]
pub struct LocalModelConfig {
    pub model: String,
}

/// Aliyun speech service credentials.
#[derive(Debug, Clone)]
pub struct AliyunSpeechConfig {
    pub access_key_id: String,
    pub access_key_secret: String,
    pub app_key: String,
}

/// Aliyun object storage credentials.
#[derive(Debug, Clone)]
pub struct AliyunOssConfig {
    pub access_key_id: String,
    pub access_key_secret: String,
    pub bucket: String,
}

/// Aliyun settings for transcription.
#[derive(Debug, Clone)]
pub struct AliyunTranscribeConfig {
    pub oss: AliyunOssConfig,
    pub speech: AliyunSpeechConfig,
}

/// Speech recognition settings.
#[derive(Debug, Clone)]
pub struct TranscribeConfig {
    pub provider: String,
    pub enable_gpu_acceleration: bool,
    pub openai: OpenaiCompatibleConfig,
    pub fasterwhisper: LocalModelConfig,
    pub whisperkit: LocalModelConfig,
    pub whispercpp: LocalModelConfig,
    pub aliyun: AliyunTranscribeConfig,
}

/// Aliyun settings for speech synthesis.
#[derive(Debug, Clone)]
pub struct AliyunTtsConfig {
    pub oss: AliyunOssConfig,
    pub speech: AliyunSpeechConfig,
}

/// Speech synthesis settings.
#[derive(Debug, Clone)]
pub struct TtsConfig {
    pub provider: String,
    pub openai: OpenaiCompatibleConfig,
    pub aliyun: AliyunTtsConfig,
}

// ---------------------------------------------------------------------------
// Defaults
// ---------------------------------------------------------------------------

/// Default length of an audio segment, in minutes.
pub fn default_segment_duration() -> (r: u32)
    ensures
        r == 5,
{
    5
}

/// Default number of parallel transcriptions.
pub fn default_transcribe_parallel() -> (r: u32)
    ensures
        r == 1,
{
    1
}

/// Default number of parallel translations.
pub fn default_translate_parallel() -> (r: u32)
    ensures
        r == 3,
{
    3
}

/// Default number of attempts of a step.
pub fn default_max_attempts() -> (r: u32)
    ensures
        r == 3,
{
    3
}

/// Default longest sentence, in characters.
pub fn default_max_sentence_length() -> (r: u32)
    ensures
        r == 70,
{
    70
}

/// Default listening address.
pub fn default_host() -> (r: String)
    ensures
        r@ == "127.0.0.1"@,
{
    String::from_str("127.0.0.1")
}

/// Default listening port.
pub fn default_port() -> (r: u16)
    ensures
        r == 8888,
{
    8888
}

/// Default transcription provider.
pub fn default_transcribe_provider() -> (r: String)
    ensures
        r@ == "openai"@,
{
    String::from_str("openai")
}

/// Default speech synthesis provider.
pub fn default_tts_provider() -> (r: String)
    ensures
        r@ == "openai"@,
{
    String::from_str("openai")
}

/// An endpoint with empty address and key and the given model.
pub open spec fn endpoint_with_model(c: OpenaiCompatibleConfig, model: Seq<char>) -> bool {
    c.base_url@.len() == 0 && c.api_key@.len() == 0 && c.model@ == model
}

/// Default OpenAI transcription endpoint (`whisper-1`).
pub fn default_openai_transcribe() -> (r: OpenaiCompatibleConfig)
    ensures
        endpoint_with_model(r, "whisper-1"@),
{
    OpenaiCompatibleConfig {
        model: String::from_str("whisper-1"),
        ..OpenaiCompatibleConfig::default()
    }
}

/// Default local model (`large-v2`).
pub fn default_local_model() -> (r: LocalModelConfig)
    ensures
        r.model@ == "large-v2"@,
{
    LocalModelConfig { model: String::from_str("large-v2") }
}

/// Default OpenAI speech synthesis endpoint (`gpt-4o-mini-tts`).
pub fn default_openai_tts() -> (r: OpenaiCompatibleConfig)
    ensures
        endpoint_with_model(r, "gpt-4o-mini-tts"@),
{
    OpenaiCompatibleConfig {
        model: String::from_str("gpt-4o-mini-tts"),
        ..OpenaiCompatibleConfig::default()
    }
}

impl Default for OpenaiCompatibleConfig {
    fn default() -> (r: Self)
        ensures
            endpoint_with_model(r, Seq::empty()),
    {
        OpenaiCompatibleConfig { base_url: String::new(), api_key: String::new(), model: String::new() }
    }
}

impl Default for LocalModelConfig {
    fn default() -> (r: Self)
        ensures
            r.model@.len() == 0,
    {
        LocalModelConfig { model: String::new() }
    }
}

/// Speech credentials all empty.
pub open spec fn speech_is_empty(s: AliyunSpeechConfig) -> bool {
    s.access_key_id@.len() == 0 && s.access_key_secret@.len() == 0 && s.app_key@.len() == 0
}

/// Storage credentials all empty.
pub open spec fn oss_is_empty(o: AliyunOssConfig) -> bool {
    o.access_key_id@.len() == 0 && o.access_key_secret@.len() == 0 && o.bucket@.len() == 0
}

impl Default for AliyunSpeechConfig {
    fn default() -> (r: Self)
        ensures
            speech_is_empty(r),
    {
        AliyunSpeechConfig {
            access_key_id: String::new(),
            access_key_secret: String::new(),
            app_key: String::new(),
        }
    }
}

impl Default for AliyunOssConfig {
    fn default() -> (r: Self)
        ensures
            oss_is_empty(r),
    {
        AliyunOssConfig {
            access_key_id: String::new(),
            access_key_secret: String::new(),
            bucket: String::new(),
        }
    }
}

impl Default for AliyunTranscribeConfig {
    fn default() -> (r: Self)
        ensures
            oss_is_empty(r.oss),
            speech_is_empty(r.speech),
    {
        AliyunTranscribeConfig { oss: AliyunOssConfig::default(), speech: AliyunSpeechConfig::default() }
    }
}

impl Default for AliyunTtsConfig {
    fn default() -> (r: Self)
        ensures
            oss_is_empty(r.oss),
            speech_is_empty(r.speech),
    {
        AliyunTtsConfig { oss: AliyunOssConfig::default(), speech: AliyunSpeechConfig::default() }
    }
}

/// The default pipeline settings.
pub open spec fn is_default_app(a: AppConfig) -> bool {
    &&& a.segment_duration == 5
    &&& a.transcribe_parallel_num == 1
    &&& a.translate_parallel_num == 3
    &&& a.transcribe_max_attempts == 3
    &&& a.translate_max_attempts == 3
    &&& a.max_sentence_length == 70
    &&& a.proxy@.len() == 0
}

impl Default for AppConfig {
    fn default() -> (r: Self)
        ensures
            is_default_app(r),
    {
        AppConfig {
            segment_duration: default_segment_duration(),
            transcribe_parallel_num: default_transcribe_parallel(),
            translate_parallel_num: default_translate_parallel(),
            transcribe_max_attempts: default_max_attempts(),
            translate_max_attempts: default_max_attempts(),
            max_sentence_length: default_max_sentence_length(),
            proxy: String::new(),
        }
    }
}

impl Default for ServerConfig {
    fn default() -> (r: Self)
        ensures
            r.host@ == "127.0.0.1"@,
            r.port == 8888,
    {
        ServerConfig { host: default_host(), port: default_port() }
    }
}

/// The default transcription settings: OpenAI `whisper-1`, no GPU, local
/// models `large-v2`, no Aliyun credentials.
pub open spec fn is_default_transcribe(t: TranscribeConfig) -> bool {
    &&& t.provider@ == "openai"@
    &&& !t.enable_gpu_acceleration
    &&& endpoint_with_model(t.openai, "whisper-1"@)
    &&& t.fasterwhisper.model@ == "large-v2"@
    &&& t.whisperkit.model@ == "large-v2"@
    &&& t.whispercpp.model@ == "large-v2"@
    &&& oss_is_empty(t.aliyun.oss)
    &&& speech_is_empty(t.aliyun.speech)
}

impl Default for TranscribeConfig {
    fn default() -> (r: Self)
        ensures
            is_default_transcribe(r),
    {
        TranscribeConfig {
            provider: default_transcribe_provider(),
            enable_gpu_acceleration: false,
            openai: default_openai_transcribe(),
            fasterwhisper: default_local_model(),
            whisperkit: default_local_model(),
            whispercpp: default_local_model(),
            aliyun: AliyunTranscribeConfig::default(),
        }
    }
}

/// The default speech synthesis settings: OpenAI `gpt-4o-mini-tts`.
pub open spec fn is_default_tts(t: TtsConfig) -> bool {
    &&& t.provider@ == "openai"@
    &&& endpoint_with_model(t.openai, "gpt-4o-mini-tts"@)
    &&& oss_is_empty(t.aliyun.oss)
    &&& speech_is_empty(t.aliyun.speech)
}

impl Default for TtsConfig {
    fn default() -> (r: Self)
        ensures
            is_default_tts(r),
    {
        TtsConfig {
            provider: default_tts_provider(),
            openai: default_openai_tts(),
            aliyun: AliyunTtsConfig::default(),
        }
    }
}

impl Default for Config {
    fn default() -> (r: Self)
        ensures
            is_default_app(r.app),
            r.server.host@ == "127.0.0.1"@,
            r.server.port == 8888,
            endpoint_with_model(r.llm, "gpt-4o-mini"@),
            is_default_transcribe(r.transcribe),
            is_default_tts(r.tts),
    {
        Config {
            app: AppConfig::default(),
            server: ServerConfig::default(),
            llm: OpenaiCompatibleConfig {
                model: String::from_str("gpt-4o-mini"),
                ..OpenaiCompatibleConfig::default()
            },
            transcribe: TranscribeConfig::default(),
            tts: TtsConfig::default(),
        }
    }
}

// ---------------------------------------------------------------------------
// Validation
// ---------------------------------------------------------------------------

/// Why a configuration is refused.
#[derive(Debug, Clone)]
pub enum ConfigError {
    /// OpenAI transcription without an API key.
    MissingOpenaiApiKey,
    /// A faster-whisper model other than `tiny`, `medium` or `large-v2`.
    InvalidFasterwhisperModel(String),
    /// WhisperKit on a platform other than macOS.
    WhisperkitRequiresMacos,
    /// MLX Whisper on a platform other than macOS.
    MlxWhisperRequiresMacos,
    /// Aliyun transcription without its three credentials.
    MissingAliyunCredentials,
    /// A transcription provider that is not known.
    UnsupportedTranscribeProvider(String),
}

/// The content of a `ConfigError`.
pub enum ConfigErrorView {
    MissingOpenaiApiKey,
    InvalidFasterwhisperModel(Seq<char>),
    WhisperkitRequiresMacos,
    MlxWhisperRequiresMacos,
    MissingAliyunCredentials,
    UnsupportedTranscribeProvider(Seq<char>),
}

impl View for ConfigError {
    type V = ConfigErrorView;

    open spec fn view(&self) -> ConfigErrorView {
        match self {
            ConfigError::MissingOpenaiApiKey => ConfigErrorView::MissingOpenaiApiKey,
            ConfigError::InvalidFasterwhisperModel(m) => ConfigErrorView::InvalidFasterwhisperModel(
                m@,
            ),
            ConfigError::WhisperkitRequiresMacos => ConfigErrorView::WhisperkitRequiresMacos,
            ConfigError::MlxWhisperRequiresMacos => ConfigErrorView::MlxWhisperRequiresMacos,
            ConfigError::MissingAliyunCredentials => ConfigErrorView::MissingAliyunCredentials,
            ConfigError::UnsupportedTranscribeProvider(p) =>
                ConfigErrorView::UnsupportedTranscribeProvider(p@),
        }
    }
}

/// Why `c` is refused on a platform that is (`on_macos`) or is not macOS;
/// `None` when it is accepted.
pub open spec fn validation_error(c: Config, on_macos: bool) -> Option<ConfigErrorView> {
    let t = c.transcribe;
    let p = t.provider@;
    if p == "openai"@ {
        if t.openai.api_key@.len() == 0 {
            Some(ConfigErrorView::MissingOpenaiApiKey)
        } else {
            None
        }
    } else if p == "fasterwhisper"@ {
        let m = t.fasterwhisper.model@;
        if m == "tiny"@ || m == "medium"@ || m == "large-v2"@ {
            None
        } else {
            Some(ConfigErrorView::InvalidFasterwhisperModel(m))
        }
    } else if p == "whisperkit"@ {
        if on_macos {
            None
        } else {
            Some(ConfigErrorView::WhisperkitRequiresMacos)
        }
    } else if p == "mlx-whisper"@ {
        if on_macos {
            None
        } else {
            Some(ConfigErrorView::MlxWhisperRequiresMacos)
        }
    } else if p == "whispercpp"@ {
        None
    } else if p == "aliyun"@ {
        let s = t.aliyun.speech;
        if s.access_key_id@.len() == 0 || s.access_key_secret@.len() == 0 || s.app_key@.len()
            == 0 {
            Some(ConfigErrorView::MissingAliyunCredentials)
        } else {
            None
        }
    } else {
        Some(ConfigErrorView::UnsupportedTranscribeProvider(p))
    }
}

/// **Law.** The platform decides only for the two Apple-only providers,
/// WhisperKit and MLX Whisper: any other provider is accepted or refused
/// alike on macOS and elsewhere.
pub proof fn platform_matters_only_for_apple_providers(c: Config)
    requires
        c.transcribe.provider@ != "whisperkit"@,
        c.transcribe.provider@ != "mlx-whisper"@,
    ensures
        validation_error(c, true) == validation_error(c, false),
{
}

/// **Law.** What each transcription provider needs, stated on the settings
/// themselves: OpenAI an API key; faster-whisper one of the models `tiny`,
/// `medium`, `large-v2`; WhisperKit and MLX Whisper macOS; whisper.cpp
/// nothing; Aliyun all three of its credentials, so that any one of them
/// missing refuses the configuration; and any other provider is refused as
/// unsupported. The error, where there is one, names the cause.
pub proof fn provider_requirements(c: Config, on_macos: bool)
    ensures
        c.transcribe.provider@ == "openai"@ ==> (validation_error(c, on_macos) is None
            <==> c.transcribe.openai.api_key@.len() > 0) && (c.transcribe.openai.api_key@.len()
            == 0 ==> validation_error(c, on_macos) == Some(ConfigErrorView::MissingOpenaiApiKey)),
        c.transcribe.provider@ == "fasterwhisper"@ ==> (validation_error(c, on_macos) is None
            <==> (c.transcribe.fasterwhisper.model@ == "tiny"@ || c.transcribe.fasterwhisper.model@
            == "medium"@ || c.transcribe.fasterwhisper.model@ == "large-v2"@)) && (
        validation_error(c, on_macos) is Some ==> validation_error(c, on_macos) == Some(
            ConfigErrorView::InvalidFasterwhisperModel(c.transcribe.fasterwhisper.model@),
        )),
        c.transcribe.provider@ == "whisperkit"@ ==> (validation_error(c, on_macos) is None
            <==> on_macos) && (!on_macos ==> validation_error(c, on_macos) == Some(
            ConfigErrorView::WhisperkitRequiresMacos,
        )),
        c.transcribe.provider@ == "mlx-whisper"@ ==> (validation_error(c, on_macos) is None
            <==> on_macos) && (!on_macos ==> validation_error(c, on_macos) == Some(
            ConfigErrorView::MlxWhisperRequiresMacos,
        )),
        c.transcribe.provider@ == "whispercpp"@ ==> validation_error(c, on_macos) is None,
        c.transcribe.provider@ == "aliyun"@ ==> (validation_error(c, on_macos) is None
            <==> (c.transcribe.aliyun.speech.access_key_id@.len() > 0
            && c.transcribe.aliyun.speech.access_key_secret@.len() > 0
            && c.transcribe.aliyun.speech.app_key@.len() > 0)) && (validation_error(c, on_macos)
            is Some ==> validation_error(c, on_macos) == Some(
            ConfigErrorView::MissingAliyunCredentials,
        )),
        c.transcribe.provider@ == "aliyun"@ && c.transcribe.aliyun.speech.access_key_secret@.len()
            == 0 ==> validation_error(c, on_macos) == Some(
            ConfigErrorView::MissingAliyunCredentials,
        ),
        !(c.transcribe.provider@ == "openai"@ || c.transcribe.provider@ == "fasterwhisper"@
            || c.transcribe.provider@ == "whisperkit"@ || c.transcribe.provider@ == "mlx-whisper"@
            || c.transcribe.provider@ == "whispercpp"@ || c.transcribe.provider@ == "aliyun"@)
            ==> validation_error(c, on_macos) == Some(
            ConfigErrorView::UnsupportedTranscribeProvider(c.transcribe.provider@),
        ),
{
    reveal_strlit("openai");
    reveal_strlit("fasterwhisper");
    reveal_strlit("whisperkit");
    reveal_strlit("mlx-whisper");
    reveal_strlit("whispercpp");
    reveal_strlit("aliyun");
    assert("openai"@.len() == 6 && "fasterwhisper"@.len() == 13 && "whisperkit"@.len() == 10);
    assert("mlx-whisper"@.len() == 11 && "whispercpp"@.len() == 10 && "aliyun"@.len() == 6);
    assert("whisperkit"@[7] != "whispercpp"@[7]);
    assert("openai"@[0] != "aliyun"@[0]);
}

impl Config {
    /// Checks that the transcription provider can be used with the
    /// settings given, on a platform that is (`on_macos`) or is not macOS.
    pub fn validate(&self, on_macos: bool) -> (r: Result<(), ConfigError>)
        ensures
            r is Ok <==> validation_error(*self, on_macos) is None,
            r matches Err(e) ==> validation_error(*self, on_macos) == Some(e@),
    {
        let t = &self.transcribe;
        let p = t.provider.as_str();
        if text_eq(p, "openai") {
            if t.openai.api_key.as_str().is_empty() {
                return Err(ConfigError::MissingOpenaiApiKey);
            }
        } else if text_eq(p, "fasterwhisper") {
            let m = t.fasterwhisper.model.as_str();
            if !(text_eq(m, "tiny") || text_eq(m, "medium") || text_eq(m, "large-v2")) {
                return Err(ConfigError::InvalidFasterwhisperModel(t.fasterwhisper.model.clone()));
            }
        } else if text_eq(p, "whisperkit") {
            if !on_macos {
                return Err(ConfigError::WhisperkitRequiresMacos);
            }
        } else if text_eq(p, "mlx-whisper") {
            if !on_macos {
                return Err(ConfigError::MlxWhisperRequiresMacos);
            }
        } else if text_eq(p, "whispercpp") {
        } else if text_eq(p, "aliyun") {
            let s = &t.aliyun.speech;
            if s.access_key_id.as_str().is_empty() || s.access_key_secret.as_str().is_empty()
                || s.app_key.as_str().is_empty() {
                return Err(ConfigError::MissingAliyunCredentials);
            }
        } else {
            return Err(ConfigError::UnsupportedTranscribeProvider(t.provider.clone()));
        }
        Ok(())
    }
}

/// The message of a configuration error.
pub open spec fn error_message(e: ConfigErrorView) -> Seq<char> {
    match e {
        ConfigErrorView::MissingOpenaiApiKey => "OpenAI transcription requires an API key"@,
        ConfigErrorView::InvalidFasterwhisperModel(m) => "Invalid fasterwhisper model: "@ + m
            + ". Must be tiny, medium, or large-v2"@,
        ConfigErrorView::WhisperkitRequiresMacos => "WhisperKit is only supported on macOS"@,
        ConfigErrorView::MlxWhisperRequiresMacos => "MLX Whisper is only supported on macOS"@,
        ConfigErrorView::MissingAliyunCredentials =>
            "Aliyun transcription requires access_key_id, access_key_secret, and app_key"@,
        ConfigErrorView::UnsupportedTranscribeProvider(p) =>
            "Unsupported transcription provider: "@ + p,
    }
}

impl ConfigError {
    /// The human-readable message of the error.
    pub fn message(&self) -> (r: String)
        ensures
            r@ == error_message(self@),
    {
        match self {
            ConfigError::MissingOpenaiApiKey => String::from_str(
                "OpenAI transcription requires an API key",
            ),
            ConfigError::InvalidFasterwhisperModel(m) => {
                let mut s = String::from_str("Invalid fasterwhisper model: ");
                s.append(m.as_str());
                s.append(". Must be tiny, medium, or large-v2");
                s
            },
            ConfigError::WhisperkitRequiresMacos => String::from_str(
                "WhisperKit is only supported on macOS",
            ),
            ConfigError::MlxWhisperRequiresMacos => String::from_str(
                "MLX Whisper is only supported on macOS",
            ),
            ConfigError::MissingAliyunCredentials => String::from_str(
                "Aliyun transcription requires access_key_id, access_key_secret, and app_key",
            ),
            ConfigError::UnsupportedTranscribeProvider(p) => {
                let mut s = String::from_str("Unsupported transcription provider: ");
                s.append(p.as_str());
                s
            },
        }
    }
}

} // verus!
