//! Locating the external command-line tools, and the store of tasks.
use vstd::prelude::*;

pub mod task_store;

use crate::provider::strs;

verus! {

broadcast use vstd::string::group_string_axioms;

/// Paths of the external tools the pipeline runs.
#[derive(Debug, Clone)]
pub struct BinPaths {
    pub ffmpeg: String,
    pub ffprobe: String,
    pub ytdlp: String,
    pub fasterwhisper: String,
    pub whisperx: String,
    pub whisperkit: String,
    pub whispercpp: String,
    pub edge_tts: String,
}

impl Default for BinPaths {
    fn default() -> (r: Self)
        ensures
            r.ffmpeg@.len() == 0,
            r.ffprobe@.len() == 0,
            r.ytdlp@.len() == 0,
            r.fasterwhisper@.len() == 0,
            r.whisperx@.len() == 0,
            r.whisperkit@.len() == 0,
            r.whispercpp@.len() == 0,
            r.edge_tts@.len() == 0,
    {
        BinPaths {
            ffmpeg: String::new(),
            ffprobe: String::new(),
            ytdlp: String::new(),
            fasterwhisper: String::new(),
            whisperx: String::new(),
            whisperkit: String::new(),
            whispercpp: String::new(),
            edge_tts: String::new(),
        }
    }
}

/// The project-local copy of a tool: `./bin/{name}`.
pub open spec fn local_bin(name: Seq<char>) -> Seq<char> {
    "./bin/"@ + name
}

/// The tools that `BinPaths` locates, in the order of its fields.
pub open spec fn bin_tool_names() -> Seq<Seq<char>> {
    seq![
        "ffmpeg"@,
        "ffprobe"@,
        "yt-dlp"@,
        "fasterwhisper"@,
        "whisperx"@,
        "whisperkit"@,
        "whisper-cpp"@,
        "edge-tts"@,
    ]
}

/// The names of the tools that `BinPaths` locates, in the order of its
/// fields.
pub fn bin_tools() -> (r: Vec<&'static str>)
    ensures
        r@.map_values(|t: &'static str| t@) == bin_tool_names(),
{
    let r: Vec<&'static str> = vec![
        "ffmpeg",
        "ffprobe",
        "yt-dlp",
        "fasterwhisper",
        "whisperx",
        "whisperkit",
        "whisper-cpp",
        "edge-tts",
    ];
    assert(r@.map_values(|t: &'static str| t@) =~= bin_tool_names());
    r
}

/// Where a tool called `name` would lie in the directory `dir`.
pub open spec fn path_candidate(dir: Seq<char>, name: Seq<char>) -> Seq<char> {
    dir + "/"@ + name
}

/// The files looked for, in order, to locate a tool called `name`: one in
/// each `PATH` directory of `dirs`, then its local copy under `./bin/`.
pub open spec fn lookup_candidates(name: Seq<char>, dirs: Seq<Seq<char>>) -> Seq<Seq<char>> {
    Seq::new(dirs.len(), |i: int| path_candidate(dirs[i], name)).push(local_bin(name))
}

/// The files to look for to locate a tool called `name`, given the `PATH`
/// directories `path_dirs`: one in each directory, then `./bin/{name}`.
pub fn tool_candidates(name: &str, path_dirs: &Vec<String>) -> (r: Vec<String>)
    ensures
        strs(r@) == lookup_candidates(name@, strs(path_dirs@)),
{
    let mut r: Vec<String> = Vec::new();
    let mut i: usize = 0;
    while i < path_dirs.len()
        invariant
            i <= path_dirs.len(),
            strs(r@) == Seq::new(i as nat, |k: int| path_candidate(path_dirs@[k]@, name@)),
        decreases path_dirs.len() - i,
    {
        let mut candidate = path_dirs[i].clone();
        candidate.append("/");
        candidate.append(name);
        assert(candidate@ == path_candidate(path_dirs@[i as int]@, name@));
        let ghost before = strs(r@);
        r.push(candidate);
        assert(strs(r@) =~= before.push(path_candidate(path_dirs@[i as int]@, name@)));
        assert(strs(r@) =~= Seq::new((i + 1) as nat, |k: int| path_candidate(path_dirs@[k]@, name@)));
        i = i + 1;
    }
    let mut local = String::from_str("./bin/");
    local.append(name);
    let ghost on_path = strs(r@);
    r.push(local);
    assert(strs(r@) =~= on_path.push(local_bin(name@)));
    assert(on_path =~= Seq::new(strs(path_dirs@).len(), |k: int| path_candidate(strs(path_dirs@)[k], name@)));
    assert(strs(r@) =~= lookup_candidates(name@, strs(path_dirs@)));
    r
}

/// Whether one of the first `n` candidates, those on `PATH`, was found.
pub open spec fn found_on_path(found: Seq<bool>, n: int) -> bool {
    exists|i: int| 0 <= i < n && found[i]
}

/// The path of a tool called `name` given which of its `n + 1` lookup
/// candidates exist (`found`, in the order of `lookup_candidates`): the
/// bare name when it is on `PATH`, else `./bin/{name}` when that exists,
/// else the bare name, left for `PATH` to resolve when it is run.
pub open spec fn tool_path(name: Seq<char>, n: int, found: Seq<bool>) -> Seq<char> {
    if !found_on_path(found, n) && found[n] {
        local_bin(name)
    } else {
        name
    }
}

/// **Law.** `PATH` comes first: if any `PATH` candidate of a tool was
/// found, the tool is run by its bare name, whatever is under `./bin/`; if
/// none was and its copy under `./bin/` was, that copy is used; and if
/// nothing was found, the bare name is left for `PATH` to resolve.
pub proof fn path_comes_first(name: Seq<char>, n: int, found: Seq<bool>, i: int)
    requires
        0 <= n < found.len(),
    ensures
        0 <= i < n && found[i] ==> tool_path(name, n, found) == name,
        (forall|j: int| 0 <= j < n ==> !found[j]) && found[n] ==> tool_path(name, n, found)
            == "./bin/"@ + name,
        (forall|j: int| 0 <= j <= n ==> !found[j]) ==> tool_path(name, n, found) == name,
{
}

/// The path of a tool given whether it was found on `PATH` and whether its
/// local copy exists: the bare name when it is on `PATH`, else the local
/// copy when there is one, else the bare name.
pub fn bin_path_choice(name: &str, on_path: bool, local_exists: bool) -> (r: String)
    ensures
        r@ == (if !on_path && local_exists {
            local_bin(name@)
        } else {
            name@
        }),
{
    if on_path {
        String::from_str(name)
    } else if local_exists {
        let mut local = String::from_str("./bin/");
        local.append(name);
        local
    } else {
        String::from_str(name)
    }
}

/// The path of a tool called `name`, given the `PATH` directories
/// `path_dirs` and which of the files `tool_candidates(name, path_dirs)`
/// exist (`found`, in the same order): `PATH` first, `./bin/` as the
/// fallback.
pub fn which(name: &str, path_dirs: &Vec<String>, found: &Vec<bool>) -> (r: String)
    requires
        found.len() == path_dirs.len() + 1,
    ensures
        r@ == tool_path(name@, path_dirs.len() as int, found@),
{
    let n = path_dirs.len();
    let mut on_path = false;
    let mut i: usize = 0;
    while i < n
        invariant
            i <= n,
            n == path_dirs.len(),
            found.len() == n + 1,
            on_path == found_on_path(found@, i as int),
        decreases n - i,
    {
        if found[i] {
            on_path = true;
        }
        i = i + 1;
    }
    bin_path_choice(name, on_path, found[n])
}

/// Each tool's lookup results have one entry per candidate.
pub open spec fn lookups_fit(n: int, found: Seq<Vec<bool>>) -> bool {
    &&& found.len() == 8
    &&& forall|t: int| 0 <= t < 8 ==> (#[trigger] found[t])@.len() == n + 1
}

impl BinPaths {
    /// Locates every tool: `found[t]` tells which of the files
    /// `tool_candidates(bin_tools()[t], path_dirs)` exist. Each tool is
    /// looked for on `PATH` first, with its copy under `./bin/` as the
    /// fallback.
    pub fn detect(path_dirs: &Vec<String>, found: &Vec<Vec<bool>>) -> (r: Self)
        requires
            lookups_fit(path_dirs.len() as int, found@),
        ensures
            r.ffmpeg@ == tool_path(bin_tool_names()[0], path_dirs.len() as int, found@[0]@),
            r.ffprobe@ == tool_path(bin_tool_names()[1], path_dirs.len() as int, found@[1]@),
            r.ytdlp@ == tool_path(bin_tool_names()[2], path_dirs.len() as int, found@[2]@),
            r.fasterwhisper@ == tool_path(bin_tool_names()[3], path_dirs.len() as int, found@[3]@),
            r.whisperx@ == tool_path(bin_tool_names()[4], path_dirs.len() as int, found@[4]@),
            r.whisperkit@ == tool_path(bin_tool_names()[5], path_dirs.len() as int, found@[5]@),
            r.whispercpp@ == tool_path(bin_tool_names()[6], path_dirs.len() as int, found@[6]@),
            r.edge_tts@ == tool_path(bin_tool_names()[7], path_dirs.len() as int, found@[7]@),
    {
        assert(found@[0]@.len() == path_dirs.len() + 1);
        assert(found@[1]@.len() == path_dirs.len() + 1);
        assert(found@[2]@.len() == path_dirs.len() + 1);
        assert(found@[3]@.len() == path_dirs.len() + 1);
        assert(found@[4]@.len() == path_dirs.len() + 1);
        assert(found@[5]@.len() == path_dirs.len() + 1);
        assert(found@[6]@.len() == path_dirs.len() + 1);
        assert(found@[7]@.len() == path_dirs.len() + 1);
        BinPaths {
            ffmpeg: which("ffmpeg", path_dirs, &found[0]),
            ffprobe: which("ffprobe", path_dirs, &found[1]),
            ytdlp: which("yt-dlp", path_dirs, &found[2]),
            fasterwhisper: which("fasterwhisper", path_dirs, &found[3]),
            whisperx: which("whisperx", path_dirs, &found[4]),
            whisperkit: which("whisperkit", path_dirs, &found[5]),
            whispercpp: which("whisper-cpp", path_dirs, &found[6]),
            edge_tts: which("edge-tts", path_dirs, &found[7]),
        }
    }
}

} // verus!
