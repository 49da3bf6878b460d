use krillin_rs::deps::{required_dependencies, TranscribeProvider, TtsProvider};
use krillin_rs::install::{InstallAction, InstallPlan, InstallStep};

fn show(a: &InstallAction) -> String {
    match a {
        InstallAction::CheckBrew => "check brew".to_string(),
        InstallAction::Run(p, args) => format!("run {} {}", p, args.join(" ")),
        InstallAction::EnsureUv => "ensure uv".to_string(),
        InstallAction::CheckVenvDir => "check venv".to_string(),
        InstallAction::CheckVenvBin => "check venv bin".to_string(),
        InstallAction::Fail(m) => format!("fail {m}"),
        InstallAction::Finish(b) => format!("finish {b}"),
    }
}

/// Drives the plan with the given outcomes and records each action.
fn drive(plan: &InstallPlan, outcomes: &[bool]) -> Vec<String> {
    let mut step = InstallStep::Start;
    let mut ok = false;
    let mut seen = Vec::new();
    let mut outcomes = outcomes.iter();
    while step != InstallStep::Done {
        let (next, action) = plan.next(step, ok);
        seen.push(show(&action));
        step = next;
        ok = *outcomes.next().unwrap_or(&false);
    }
    seen
}

#[test]
fn installs_brew_then_python_packages_with_retry() {
    let deps = required_dependencies(TranscribeProvider::Whispercpp, TtsProvider::MlxAudio);
    // ffmpeg, yt-dlp, whisper-cpp (Homebrew), mlx-audio (Python).
    let plan = InstallPlan::new(deps, &vec![true, false, true, false]);
    assert_eq!(plan.brew, vec![1]);
    assert_eq!(plan.uv, vec![3]);
    assert!(plan.needs_venv);
    let seen = drive(&plan, &[true, true, true, false, true, false, true, true]);
    assert_eq!(
        seen,
        vec![
            "check brew",
            "run brew install yt-dlp",
            "ensure uv",
            "check venv",
            "run uv venv ./venv",
            "run uv pip install --python ./venv mlx-audio",
            "run uv pip install --python ./venv mlx-audio",
            "check venv bin",
            "finish true",
        ]
    );
}

#[test]
fn missing_homebrew_stops_the_installation() {
    let deps = required_dependencies(TranscribeProvider::Whispercpp, TtsProvider::EdgeTts);
    let n = deps.len();
    let plan = InstallPlan::new(deps, &vec![false; n]);
    let seen = drive(&plan, &[false]);
    assert_eq!(seen, vec!["check brew", "fail Homebrew is required but not installed"]);
}

#[test]
fn venv_creation_failure_stops_the_installation() {
    let deps = required_dependencies(TranscribeProvider::Fasterwhisper, TtsProvider::EdgeTts);
    let n = deps.len();
    let mut installed = vec![true; n];
    installed[n - 1] = false;
    let plan = InstallPlan::new(deps, &installed);
    assert!(plan.brew.is_empty());
    let seen = drive(&plan, &[true, false, false]);
    assert_eq!(
        seen,
        vec!["ensure uv", "check venv", "run uv venv ./venv", "fail Failed to create venv: "]
    );
}

#[test]
fn nothing_missing_reports_the_environment_when_it_exists() {
    let deps = required_dependencies(TranscribeProvider::Whispercpp, TtsProvider::EdgeTts);
    let n = deps.len();
    let plan = InstallPlan::new(deps, &vec![true; n]);
    // edge-tts is a Python package, so the environment is looked for.
    assert!(plan.needs_venv);
    assert_eq!(drive(&plan, &[true]), vec!["check venv bin", "finish true"]);
    assert_eq!(drive(&plan, &[false]), vec!["check venv bin", "finish false"]);
}

#[test]
fn bulk_install_success_skips_retries() {
    let deps = required_dependencies(TranscribeProvider::MlxWhisper, TtsProvider::MlxAudio);
    let n = deps.len();
    let mut installed = vec![true; n];
    for i in 0..n {
        if deps[i].name.starts_with("mlx") {
            installed[i] = false;
        }
    }
    let plan = InstallPlan::new(deps, &installed);
    let seen = drive(&plan, &[true, true, true, false]);
    assert_eq!(
        seen,
        vec![
            "ensure uv",
            "check venv",
            "run uv pip install --python ./venv mlx-whisper mlx-audio",
            "check venv bin",
            "finish false",
        ]
    );
}

use krillin_rs::install::{uv_next, UvAction, UvStep};

fn show_uv(a: &UvAction) -> String {
    match a {
        UvAction::CheckUv => "check uv".to_string(),
        UvAction::Download(p, args) => format!("download {} {}", p, args.join(" ")),
        UvAction::RunInstaller => "run installer".to_string(),
        UvAction::CheckFile(f) => format!("check {f}"),
        UvAction::UseDir(d, p) => format!("use {d} PATH={p}"),
        UvAction::Fail(m) => format!("fail {m}"),
        UvAction::Finish => "finish".to_string(),
    }
}

fn drive_uv(outcomes: &[bool]) -> Vec<String> {
    let mut step = UvStep::Start;
    let mut ok = false;
    let mut seen = Vec::new();
    let mut outcomes = outcomes.iter();
    while step != UvStep::Done {
        let (next, action) = uv_next(step, ok, "/home/me", "/usr/bin");
        seen.push(show_uv(&action));
        step = next;
        ok = *outcomes.next().unwrap_or(&false);
    }
    seen
}

#[test]
fn uv_already_present() {
    assert_eq!(drive_uv(&[true]), vec!["check uv", "finish"]);
}

#[test]
fn uv_installed_and_found_on_path() {
    assert_eq!(
        drive_uv(&[false, true, true, true]),
        vec![
            "check uv",
            "download curl -LsSf https://astral.sh/uv/install.sh",
            "run installer",
            "check uv",
            "finish",
        ]
    );
}

#[test]
fn uv_found_in_cargo_bin_is_put_on_path() {
    assert_eq!(
        drive_uv(&[false, true, true, false, false, true]),
        vec![
            "check uv",
            "download curl -LsSf https://astral.sh/uv/install.sh",
            "run installer",
            "check uv",
            "check /home/me/.local/bin/uv",
            "check /home/me/.cargo/bin/uv",
            "use /home/me/.cargo/bin PATH=/home/me/.cargo/bin:/usr/bin",
        ]
    );
}

#[test]
fn uv_failures_have_their_messages() {
    assert_eq!(drive_uv(&[false, false]).last().unwrap(), "fail Failed to download uv installer");
    assert_eq!(drive_uv(&[false, true, false]).last().unwrap(), "fail Failed to install uv: ");
    assert_eq!(
        drive_uv(&[false, true, true, false, false, false]).last().unwrap(),
        "fail uv was installed but not found on PATH"
    );
}
