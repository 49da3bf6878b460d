//! Which external tools a configuration needs, and how the missing ones
//! are installed: Homebrew formulas, and Python packages into a virtual
//! environment managed with `uv`.
use vstd::prelude::*;

use crate::provider::{push_text, strs};

verus! {

broadcast use vstd::string::group_string_axioms;

/// Where the managed Python virtual environment lives.
pub const VENV_DIR: &'static str = "./venv";

/// Speech recognition back ends that run locally.
#[derive(Debug, Clone, Copy, PartialEq, Eq)]
pub enum TranscribeProvider {
    Fasterwhisper,
    Whispercpp,
    Whisperkit,
    MlxWhisper,
}

/// Speech synthesis back ends that run locally.
#[derive(Debug, Clone, Copy, PartialEq, Eq)]
pub enum TtsProvider {
    EdgeTts,
    MlxAudio,
    FishSpeech,
    Qwen3Tts,
    Chatterbox,
}

/// How a dependency is installed.
#[derive(Debug, Clone, Copy)]
pub enum DepKind {
    /// A Homebrew formula.
    Brew(&'static str),
    /// A Python package installed with `uv pip`.
    Uv(&'static str),
}

/// How a dependency is found to be present.
#[derive(Debug, Clone, Copy)]
pub enum Check {
    /// A binary on `PATH`.
    Binary(&'static str),
    /// A package in the virtual environment.
    UvPkg(&'static str),
}

/// A tool the pipeline needs.
#[derive(Debug, Clone, Copy)]
pub struct Dep {
    pub name: &'static str,
    pub kind: DepKind,
    pub check: Check,
}

/// A dependency as plain data: its name, whether Homebrew installs it, the
/// formula or package name, and the binary or package checked for.
pub struct DepView {
    pub name: Seq<char>,
    pub brew: bool,
    pub package: Seq<char>,
    pub checked: Seq<char>,
    pub check_binary: bool,
}

impl View for Dep {
    type V = DepView;

    open spec fn view(&self) -> DepView {
        DepView {
            name: self.name@,
            brew: self.kind is Brew,
            package: match self.kind {
                DepKind::Brew(p) => p@,
                DepKind::Uv(p) => p@,
            },
            checked: match self.check {
                Check::Binary(b) => b@,
                Check::UvPkg(p) => p@,
            },
            check_binary: self.check is Binary,
        }
    }
}

/// A Homebrew tool found as a binary of the same name.
pub open spec fn brew_dep(name: Seq<char>) -> DepView {
    DepView { name, brew: true, package: name, checked: name, check_binary: true }
}

/// A Python package found in the virtual environment.
pub open spec fn uv_dep(name: Seq<char>) -> DepView {
    DepView { name, brew: false, package: name, checked: name, check_binary: false }
}

/// The dependency of a speech recognition back end.
pub open spec fn transcribe_dep(t: TranscribeProvider) -> DepView {
    match t {
        TranscribeProvider::Fasterwhisper => uv_dep("faster-whisper"@),
        TranscribeProvider::Whispercpp => brew_dep("whisper-cpp"@),
        TranscribeProvider::Whisperkit => brew_dep("whisperkit-cli"@),
        TranscribeProvider::MlxWhisper => uv_dep("mlx-whisper"@),
    }
}

/// The dependency of a speech synthesis back end.
pub open spec fn tts_dep(s: TtsProvider) -> DepView {
    match s {
        TtsProvider::EdgeTts => uv_dep("edge-tts"@),
        TtsProvider::MlxAudio | TtsProvider::FishSpeech | TtsProvider::Qwen3Tts => uv_dep(
            "mlx-audio"@,
        ),
        TtsProvider::Chatterbox => uv_dep("chatterbox-tts"@),
    }
}

/// Everything a configuration needs: ffmpeg and yt-dlp always, then the
/// recognition and the synthesis back end.
pub open spec fn required_deps_spec(t: TranscribeProvider, s: TtsProvider) -> Seq<DepView> {
    seq![brew_dep("ffmpeg"@), brew_dep("yt-dlp"@), transcribe_dep(t), tts_dep(s)]
}

/// The views of a list of dependencies.
pub open spec fn dep_views(ds: Seq<Dep>) -> Seq<DepView> {
    ds.map_values(|d: Dep| d@)
}

fn brew(name: &'static str) -> (d: Dep)
    ensures
        d@ == brew_dep(name@),
{
    Dep { name, kind: DepKind::Brew(name), check: Check::Binary(name) }
}

fn uv(name: &'static str) -> (d: Dep)
    ensures
        d@ == uv_dep(name@),
{
    Dep { name, kind: DepKind::Uv(name), check: Check::UvPkg(name) }
}

/// The dependencies of a configuration, in the order they are checked.
pub fn required_dependencies(t: TranscribeProvider, s: TtsProvider) -> (r: Vec<Dep>)
    ensures
        dep_views(r@) == required_deps_spec(t, s),
{
    let mut deps: Vec<Dep> = Vec::new();
    deps.push(brew("ffmpeg"));
    deps.push(brew("yt-dlp"));
    match t {
        TranscribeProvider::Fasterwhisper => deps.push(uv("faster-whisper")),
        TranscribeProvider::Whispercpp => deps.push(brew("whisper-cpp")),
        TranscribeProvider::Whisperkit => deps.push(brew("whisperkit-cli")),
        TranscribeProvider::MlxWhisper => deps.push(uv("mlx-whisper")),
    }
    match s {
        TtsProvider::EdgeTts => deps.push(uv("edge-tts")),
        TtsProvider::MlxAudio | TtsProvider::FishSpeech | TtsProvider::Qwen3Tts => deps.push(
            uv("mlx-audio"),
        ),
        TtsProvider::Chatterbox => deps.push(uv("chatterbox-tts")),
    }
    assert(dep_views(deps@) =~= required_deps_spec(t, s));
    deps
}

/// Whether some dependency is a Python package (and so needs the virtual
/// environment).
pub fn needs_venv(deps: &Vec<Dep>) -> (r: bool)
    ensures
        r == exists|i: int| 0 <= i < deps.len() && !(#[trigger] deps@[i]@).brew,
{
    let mut i: usize = 0;
    while i < deps.len()
        invariant
            i <= deps.len(),
            forall|k: int| 0 <= k < i ==> (#[trigger] deps@[k]@).brew,
        decreases deps.len() - i,
    {
        if let DepKind::Uv(_) = deps[i].kind {
            assert(!deps@[i as int]@.brew);
            return true;
        }
        i = i + 1;
    }
    false
}

/// The positions, in order, of the dependencies that are missing and
/// installed the given way (`brew`).
pub open spec fn missing_of_kind(ds: Seq<DepView>, installed: Seq<bool>, brew: bool) -> Seq<int>
    decreases ds.len(),
{
    if ds.len() == 0 {
        seq![]
    } else {
        let rest = missing_of_kind(ds.drop_last(), installed, brew);
        let i = ds.len() - 1;
        if !installed[i] && ds.last().brew == brew {
            rest.push(i)
        } else {
            rest
        }
    }
}

/// The missing dependencies split by how they are installed: positions of
/// the Homebrew ones and of the Python ones.
pub struct MissingDeps {
    pub brew: Vec<usize>,
    pub uv: Vec<usize>,
}

/// The positions as integers.
pub open spec fn positions(v: Seq<usize>) -> Seq<int> {
    v.map_values(|i: usize| i as int)
}

/// **Law.** Every dependency found missing is installed exactly one way:
/// it is listed among the Homebrew ones or among the Python ones, never
/// both, and nothing installed is listed.
pub proof fn missing_partition(ds: Seq<DepView>, installed: Seq<bool>)
    requires
        installed.len() == ds.len(),
    ensures
        forall|i: int|
            0 <= i < ds.len() ==> (!installed[i] <==> (missing_of_kind(ds, installed, true).contains(i)
                || missing_of_kind(ds, installed, false).contains(i))),
        forall|i: int|
            !(missing_of_kind(ds, installed, true).contains(i) && missing_of_kind(
                ds,
                installed,
                false,
            ).contains(i)),
{
    missing_partition_prefix(ds, installed);
}

/// **Law.** The missing dependencies of a kind are listed in the order of
/// the dependencies, each once: every listed position names a missing
/// dependency of that kind, and the positions strictly increase.
pub proof fn missing_listed_in_order(ds: Seq<DepView>, installed: Seq<bool>, brew: bool)
    requires
        installed.len() == ds.len(),
    ensures
        forall|k: int|
            0 <= k < missing_of_kind(ds, installed, brew).len() ==> {
                let i = #[trigger] missing_of_kind(ds, installed, brew)[k];
                &&& 0 <= i < ds.len()
                &&& !installed[i]
                &&& ds[i].brew == brew
            },
        forall|k1: int, k2: int|
            0 <= k1 < k2 < missing_of_kind(ds, installed, brew).len() ==> #[trigger] missing_of_kind(
                ds,
                installed,
                brew,
            )[k1] < #[trigger] missing_of_kind(ds, installed, brew)[k2],
{
    missing_listed_in_order_prefix(ds, installed, brew);
}

proof fn missing_listed_in_order_prefix(ds: Seq<DepView>, installed: Seq<bool>, brew: bool)
    requires
        installed.len() >= ds.len(),
    ensures
        forall|k: int|
            0 <= k < missing_of_kind(ds, installed, brew).len() ==> {
                let i = #[trigger] missing_of_kind(ds, installed, brew)[k];
                &&& 0 <= i < ds.len()
                &&& !installed[i]
                &&& ds[i].brew == brew
            },
        forall|k1: int, k2: int|
            0 <= k1 < k2 < missing_of_kind(ds, installed, brew).len() ==> #[trigger] missing_of_kind(
                ds,
                installed,
                brew,
            )[k1] < #[trigger] missing_of_kind(ds, installed, brew)[k2],
    decreases ds.len(),
{
    lemma_missing_range(ds, installed, brew);
    if ds.len() > 0 {
        let init = ds.drop_last();
        missing_listed_in_order_prefix(init, installed, brew);
        let r0 = missing_of_kind(init, installed, brew);
        let r = missing_of_kind(ds, installed, brew);
        lemma_missing_range(init, installed, brew);
        assert forall|k: int| 0 <= k < r.len() implies {
            let i = #[trigger] r[k];
            &&& 0 <= i < ds.len()
            &&& !installed[i]
            &&& ds[i].brew == brew
        } by {
            if k < r0.len() {
                assert(r[k] == r0[k]);
                assert(init[r0[k]] == ds[r0[k]]);
            }
        }
        assert forall|k1: int, k2: int| 0 <= k1 < k2 < r.len() implies #[trigger] r[k1]
            < #[trigger] r[k2] by {
            assert(r[k1] == r0[k1]);
            if k2 < r0.len() {
                assert(r[k2] == r0[k2]);
            }
        }
    }
}

proof fn lemma_push_contains(s: Seq<int>, x: int, i: int)
    ensures
        s.push(x).contains(i) <==> (s.contains(i) || i == x),
{
    if s.contains(i) {
        let k = choose|k: int| 0 <= k < s.len() && s[k] == i;
        assert(s.push(x)[k] == i);
    }
    if i == x {
        assert(s.push(x)[s.len() as int] == x);
    }
    if s.push(x).contains(i) {
        let k = choose|k: int| 0 <= k < s.push(x).len() && s.push(x)[k] == i;
        if k < s.len() {
            assert(s[k] == i);
        }
    }
}

proof fn missing_partition_prefix(ds: Seq<DepView>, installed: Seq<bool>)
    requires
        installed.len() >= ds.len(),
    ensures
        forall|i: int|
            0 <= i < ds.len() ==> (!installed[i] <==> (missing_of_kind(ds, installed, true).contains(i)
                || missing_of_kind(ds, installed, false).contains(i))),
        forall|i: int|
            !(missing_of_kind(ds, installed, true).contains(i) && missing_of_kind(
                ds,
                installed,
                false,
            ).contains(i)),
    decreases ds.len(),
{
    lemma_missing_range(ds, installed, true);
    lemma_missing_range(ds, installed, false);
    if ds.len() > 0 {
        let init = ds.drop_last();
        let n = ds.len() - 1;
        lemma_missing_range(init, installed, true);
        lemma_missing_range(init, installed, false);
        missing_partition_prefix(init, installed);
        let b = missing_of_kind(ds, installed, true);
        let u = missing_of_kind(ds, installed, false);
        let b0 = missing_of_kind(init, installed, true);
        let u0 = missing_of_kind(init, installed, false);
        assert forall|i: int| 0 <= i < ds.len() implies (!installed[i] <==> (b.contains(i)
            || u.contains(i))) by {
            lemma_push_contains(b0, n, i);
            lemma_push_contains(u0, n, i);
            if i < n {
            } else {
                if !installed[n] {
                    if ds.last().brew {
                        assert(b[b.len() - 1] == n);
                    } else {
                        assert(u[u.len() - 1] == n);
                    }
                }
            }
        }
        assert forall|i: int| !(b.contains(i) && u.contains(i)) by {
            lemma_push_contains(b0, n, i);
            lemma_push_contains(u0, n, i);
            if b.contains(i) && u.contains(i) {
                if i == n {
                    assert(!b0.contains(n));
                    assert(!u0.contains(n));
                } else {
                    assert(b0.contains(i) && u0.contains(i));
                }
            }
        }
    }
}

/// The listed positions lie below the number of dependencies.
pub proof fn lemma_missing_range(ds: Seq<DepView>, installed: Seq<bool>, brew: bool)
    ensures
        forall|k: int|
            0 <= k < missing_of_kind(ds, installed, brew).len() ==> 0 <= #[trigger] missing_of_kind(
                ds,
                installed,
                brew,
            )[k] < ds.len(),
    decreases ds.len(),
{
    if ds.len() > 0 {
        let init = ds.drop_last();
        lemma_missing_range(init, installed, brew);
        let r0 = missing_of_kind(init, installed, brew);
        let r = missing_of_kind(ds, installed, brew);
        assert forall|k: int| 0 <= k < r.len() implies 0 <= #[trigger] r[k] < ds.len() by {
            if k < r0.len() {
                assert(r[k] == r0[k]);
            }
        }
    }
}

/// Splits the dependencies found missing (`installed[i]` false) into those
/// Homebrew installs and those `uv` installs, keeping their order.
pub fn missing_dependencies(deps: &Vec<Dep>, installed: &Vec<bool>) -> (r: MissingDeps)
    requires
        installed.len() == deps.len(),
    ensures
        positions(r.brew@) == missing_of_kind(dep_views(deps@), installed@, true),
        positions(r.uv@) == missing_of_kind(dep_views(deps@), installed@, false),
{
    let mut b: Vec<usize> = Vec::new();
    let mut u: Vec<usize> = Vec::new();
    let mut i: usize = 0;
    while i < deps.len()
        invariant
            i <= deps.len(),
            installed.len() == deps.len(),
            positions(b@) == missing_of_kind(dep_views(deps@).take(i as int), installed@, true),
            positions(u@) == missing_of_kind(dep_views(deps@).take(i as int), installed@, false),
        decreases deps.len() - i,
    {
        let ghost ds = dep_views(deps@).take(i + 1);
        assert(ds.drop_last() =~= dep_views(deps@).take(i as int));
        assert(ds.last() == deps@[i as int]@);
        let ghost b0 = positions(b@);
        let ghost u0 = positions(u@);
        if !installed[i] {
            match deps[i].kind {
                DepKind::Brew(_) => {
                    b.push(i);
                    assert(positions(b@) =~= b0.push(i as int));
                },
                DepKind::Uv(_) => {
                    u.push(i);
                    assert(positions(u@) =~= u0.push(i as int));
                },
            }
        }
        i = i + 1;
    }
    assert(dep_views(deps@).take(deps.len() as int) =~= dep_views(deps@));
    MissingDeps { brew: b, uv: u }
}

/// The package names of the dependencies at the given positions.
pub open spec fn packages_at(ds: Seq<DepView>, idx: Seq<int>) -> Seq<Seq<char>> {
    idx.map_values(|i: int| ds[i].package)
}

/// `uv pip install --python ./venv` with the packages at the given
/// positions, installed in one go.
pub fn uv_install_args(deps: &Vec<Dep>, missing_uv: &Vec<usize>) -> (r: Vec<String>)
    requires
        forall|k: int| 0 <= k < missing_uv.len() ==> #[trigger] missing_uv@[k] < deps.len(),
    ensures
        strs(r@) == seq!["pip"@, "install"@, "--python"@, VENV_DIR@] + packages_at(
            dep_views(deps@),
            positions(missing_uv@),
        ),
{
    let mut r: Vec<String> = Vec::new();
    push_text(&mut r, "pip");
    push_text(&mut r, "install");
    push_text(&mut r, "--python");
    push_text(&mut r, VENV_DIR);
    let ghost head = strs(r@);
    let mut k: usize = 0;
    while k < missing_uv.len()
        invariant
            k <= missing_uv.len(),
            forall|m: int| 0 <= m < missing_uv.len() ==> #[trigger] missing_uv@[m] < deps.len(),
            strs(r@) == head + packages_at(dep_views(deps@), positions(missing_uv@).take(k as int)),
        decreases missing_uv.len() - k,
    {
        let d = deps[missing_uv[k]];
        let pkg = match d.kind {
            DepKind::Brew(p) => p,
            DepKind::Uv(p) => p,
        };
        let ghost before = strs(r@);
        push_text(&mut r, pkg);
        assert(packages_at(dep_views(deps@), positions(missing_uv@).take(k + 1)) =~= packages_at(
            dep_views(deps@),
            positions(missing_uv@).take(k as int),
        ).push(pkg@));
        assert(strs(r@) =~= head + packages_at(
            dep_views(deps@),
            positions(missing_uv@).take(k + 1),
        ));
        k = k + 1;
    }
    assert(positions(missing_uv@).take(missing_uv.len() as int) =~= positions(missing_uv@));
    r
}

} // verus!
