//! The project root, the search path for programs, and the output of shell
//! commands.
use vstd::prelude::*;
use vstd::string::*;
use vstd::utf8;

use crate::clip::{self, count_bytes};
use crate::number::{self, to_decimal};
use crate::paths::{self, path_join, path_parent, Platform};
use crate::text::{self, append_range, chars_of, has_text};

verus! {

/// How long a shell command may run when nothing else is asked for.
pub const DEFAULT_TIMEOUT_MS: u64 = 10_000;

/// How much is shown at most: so many characters of what a shell command
/// writes, and so many bytes of a file or of a difference.
pub const OUTPUT_LIMIT: usize = 8_000;

// ── project root ────────────────────────────────────────────────────────────

/// The directories in which the root of a project is looked for, nearest
/// first: the directory itself, or that of a file, and its parents.
pub open spec fn search_dirs(
    start: Seq<char>,
    start_is_file: bool,
    platform: Platform,
) -> Seq<Seq<char>> {
    if start_is_file {
        match paths::parent(start, platform) {
            Some(dir) => paths::ancestors(dir, platform),
            None => seq![],
        }
    } else {
        paths::ancestors(start, platform)
    }
}

/// The contents of a list of string slices.
pub open spec fn slice_texts(list: Seq<&str>) -> Seq<Seq<char>> {
    Seq::new(list.len(), |i: int| list[i]@)
}

/// `probe` may answer `yes` when it is asked about `path`.
pub open spec fn answered<F: Fn(&str) -> bool>(probe: F, path: Seq<char>, yes: bool) -> bool {
    exists|p: &str| p@ == path && #[trigger] call_ensures(probe, (p,), yes)
}

/// Marker `m2` in directory `k2` is looked for before marker `m` in `k`.
pub open spec fn looked_for_before(k2: int, m2: int, k: int, m: int) -> bool {
    k2 < k || (k2 == k && m2 < m)
}

/// Marker `m` stands in directory `k`, and every one that is looked for before
/// it was answered to be missing.
pub open spec fn first_marker<F: Fn(&str) -> bool>(
    probe: F,
    platform: Platform,
    dirs: Seq<Seq<char>>,
    markers: Seq<Seq<char>>,
    k: int,
    m: int,
) -> bool {
    &&& 0 <= k < dirs.len()
    &&& 0 <= m < markers.len()
    &&& answered(probe, paths::joined(dirs[k], markers[m], platform), true)
    &&& forall|k2: int, m2: int|
        #![trigger dirs[k2], markers[m2]]
        0 <= k2 < dirs.len() && 0 <= m2 < markers.len() && looked_for_before(k2, m2, k, m)
            ==> answered(probe, paths::joined(dirs[k2], markers[m2], platform), false)
}

/// `root` is the nearest of the directories to hold one of the markers, as far
/// as `probe` was asked; none, when it was answered that all are missing.
pub open spec fn is_nearest_root<F: Fn(&str) -> bool>(
    root: Option<Seq<char>>,
    dirs: Seq<Seq<char>>,
    markers: Seq<Seq<char>>,
    platform: Platform,
    probe: F,
) -> bool {
    match root {
        Some(dir) => exists|k: int, m: int| #[trigger]
            first_marker(probe, platform, dirs, markers, k, m) && dir == dirs[k],
        None => forall|k: int, m: int|
            #![trigger dirs[k], markers[m]]
            0 <= k < dirs.len() && 0 <= m < markers.len() ==> answered(
                probe,
                paths::joined(dirs[k], markers[m], platform),
                false,
            ),
    }
}

/// The nearest directory, from `start` upwards, that holds one of the markers.
/// `present` answers whether something stands at a path.
pub fn find_root<F: Fn(&str) -> bool>(
    start: &str,
    start_is_file: bool,
    markers: &[&str],
    platform: Platform,
    present: F,
) -> (r: Option<String>)
    requires
        forall|p: &str| call_requires(present, (p,)),
    ensures
        is_nearest_root(
            text::opt_text(r),
            search_dirs(start@, start_is_file, platform),
            slice_texts(markers@),
            platform,
            present,
        ),
{
    let ghost dirs = search_dirs(start@, start_is_file, platform);
    let ghost names = slice_texts(markers@);
    let mut cur: String = if start_is_file {
        match path_parent(start, platform) {
            Some(dir) => dir,
            None => {
                return None;
            },
        }
    } else {
        start.to_owned()
    };
    let ghost mut k: int = 0;
    assert(dirs.take(0) + paths::ancestors(cur@, platform) =~= dirs);
    loop
        invariant
            forall|p: &str| call_requires(present, (p,)),
            dirs == search_dirs(start@, start_is_file, platform),
            names == slice_texts(markers@),
            0 <= k < dirs.len(),
            dirs.take(k) + paths::ancestors(cur@, platform) == dirs,
            forall|k2: int, m2: int|
                #![trigger dirs[k2], names[m2]]
                0 <= k2 < k && 0 <= m2 < names.len() ==> answered(
                    present,
                    paths::joined(dirs[k2], names[m2], platform),
                    false,
                ),
        decreases cur@.len(),
    {
        proof {
            assert(paths::ancestors(cur@, platform)[0] == cur@);
            assert((dirs.take(k) + paths::ancestors(cur@, platform))[k] == cur@);
        }
        let mut m: usize = 0;
        while m < markers.len()
            invariant
                forall|p: &str| call_requires(present, (p,)),
                names == slice_texts(markers@),
                0 <= k < dirs.len(),
                dirs[k] == cur@,
                dirs == search_dirs(start@, start_is_file, platform),
                m <= markers@.len(),
                forall|k2: int, m2: int|
                    #![trigger dirs[k2], names[m2]]
                    0 <= k2 < dirs.len() && 0 <= m2 < names.len() && looked_for_before(
                        k2,
                        m2,
                        k,
                        m as int,
                    ) ==> answered(present, paths::joined(dirs[k2], names[m2], platform), false),
            decreases markers@.len() - m,
        {
            let at = path_join(cur.as_str(), markers[m], platform);
            let found = present(at.as_str());
            assert(names[m as int] == markers@[m as int]@);
            assert(answered(present, paths::joined(dirs[k], names[m as int], platform), found));
            if found {
                assert(first_marker(present, platform, dirs, names, k, m as int));
                return Some(cur);
            }
            m += 1;
        }
        proof {
            paths::parent_is_shorter(cur@, platform);
        }
        match path_parent(cur.as_str(), platform) {
            Some(up) => {
                proof {
                    assert(paths::ancestors(cur@, platform) == seq![cur@] + paths::ancestors(
                        up@,
                        platform,
                    ));
                    assert(dirs.take(k) + (seq![cur@] + paths::ancestors(up@, platform)) == dirs);
                    assert(dirs.take(k + 1) + paths::ancestors(up@, platform) =~= dirs);
                    assert(paths::ancestors(up@, platform).len() > 0);
                    k = k + 1;
                }
                cur = up;
            },
            None => {
                assert(paths::ancestors(cur@, platform).len() == 1);
                return None;
            },
        }
    }
}

/// A root that is found is the start itself or one of its parents.
pub proof fn nearest_root_is_above<F: Fn(&str) -> bool>(
    root: Seq<char>,
    start: Seq<char>,
    start_is_file: bool,
    markers: Seq<Seq<char>>,
    platform: Platform,
    probe: F,
)
    requires
        is_nearest_root(
            Some(root),
            search_dirs(start, start_is_file, platform),
            markers,
            platform,
            probe,
        ),
    ensures
        root.is_prefix_of(start),
{
    let dirs = search_dirs(start, start_is_file, platform);
    let (k, m) = choose|k: int, m: int| #[trigger]
        first_marker(probe, platform, dirs, markers, k, m) && root == dirs[k];
    paths::parent_is_shorter(start, platform);
    if start_is_file {
        let dir = paths::parent(start, platform).unwrap();
        paths::ancestors_are_prefixes(dir, k, platform);
    } else {
        paths::ancestors_are_prefixes(start, k, platform);
    }
}

/// Where every question has one answer, there is one nearest root.
pub proof fn nearest_root_is_unique<F: Fn(&str) -> bool>(
    a: Option<Seq<char>>,
    b: Option<Seq<char>>,
    dirs: Seq<Seq<char>>,
    markers: Seq<Seq<char>>,
    platform: Platform,
    probe: F,
)
    requires
        is_nearest_root(a, dirs, markers, platform, probe),
        is_nearest_root(b, dirs, markers, platform, probe),
        forall|p: Seq<char>| !(answered(probe, p, true) && answered(probe, p, false)),
    ensures
        a == b,
{
    if a is Some && b is Some {
        let (k, m) = choose|k: int, m: int| #[trigger]
            first_marker(probe, platform, dirs, markers, k, m) && a.unwrap() == dirs[k];
        let (k2, m2) = choose|k: int, m: int| #[trigger]
            first_marker(probe, platform, dirs, markers, k, m) && b.unwrap() == dirs[k];
        let at = paths::joined(dirs[k], markers[m], platform);
        let at2 = paths::joined(dirs[k2], markers[m2], platform);
        if looked_for_before(k, m, k2, m2) {
            assert(answered(probe, at, false));
        } else if looked_for_before(k2, m2, k, m) {
            assert(answered(probe, at2, false));
        }
    } else if a is Some {
        let (k, m) = choose|k: int, m: int| #[trigger]
            first_marker(probe, platform, dirs, markers, k, m) && a.unwrap() == dirs[k];
        assert(answered(probe, paths::joined(dirs[k], markers[m], platform), false));
    } else if b is Some {
        let (k, m) = choose|k: int, m: int| #[trigger]
            first_marker(probe, platform, dirs, markers, k, m) && b.unwrap() == dirs[k];
        assert(answered(probe, paths::joined(dirs[k], markers[m], platform), false));
    }
}

// ── search path ─────────────────────────────────────────────────────────────

/// Where cargo keeps its programs, in a home directory.
pub open spec fn cargo_suffix(platform: Platform) -> Seq<char> {
    match platform {
        Platform::Unix => "/.cargo/bin"@,
        Platform::Windows => "\\.cargo\\bin"@,
    }
}

/// What stands between two directories of a search path.
pub open spec fn list_separator(platform: Platform) -> Seq<char> {
    match platform {
        Platform::Unix => ":"@,
        Platform::Windows => ";"@,
    }
}

/// A search path, with the directory of cargo's programs put before it where
/// it is not mentioned yet. Without a home directory nothing is added.
pub open spec fn with_cargo(
    current: Seq<char>,
    home: Option<Seq<char>>,
    platform: Platform,
) -> Seq<char> {
    match home {
        None => current,
        Some(h) => {
            let bin = h + cargo_suffix(platform);
            if text::contains_text(current, bin) {
                current
            } else {
                bin + list_separator(platform) + current
            }
        },
    }
}

/// The first of two values that there is, or the empty text.
pub open spec fn first_given(a: Option<Seq<char>>, b: Option<Seq<char>>) -> Seq<char> {
    match a {
        Some(x) => x,
        None => match b {
            Some(y) => y,
            None => seq![],
        },
    }
}

/// The name of the variable that holds the home directory.
pub open spec fn home_name(platform: Platform) -> Seq<char> {
    match platform {
        Platform::Unix => "HOME"@,
        Platform::Windows => "USERPROFILE"@,
    }
}

/// The environment variable that names the home directory.
pub fn home_variable(platform: Platform) -> (s: &'static str)
    ensures
        s@ == home_name(platform),
{
    match platform {
        Platform::Unix => "HOME",
        Platform::Windows => "USERPROFILE",
    }
}

/// The name of the variable that says where programs are.
pub open spec fn path_name(platform: Platform) -> Seq<char> {
    match platform {
        Platform::Unix => "PATH"@,
        Platform::Windows => "Path"@,
    }
}

/// The environment variable that holds the search path. Where it is not set,
/// `PATH` is looked at.
pub fn path_variable(platform: Platform) -> (s: &'static str)
    ensures
        s@ == path_name(platform),
{
    match platform {
        Platform::Unix => "PATH",
        Platform::Windows => "Path",
    }
}

/// The search path for programs, of the platform's variable or else of another
/// one, with cargo's directory in it.
pub open spec fn search_path(
    own: Option<Seq<char>>,
    fallback: Option<Seq<char>>,
    home: Option<Seq<char>>,
    platform: Platform,
) -> Seq<char> {
    with_cargo(first_given(own, fallback), home, platform)
}

/// The search path for programs, with cargo's directory in it. `own` and
/// `fallback` are the values of the platform's variable and of `PATH`, `home`
/// is the home directory.
pub fn path_env_with_cargo(
    own: Option<String>,
    fallback: Option<String>,
    home: Option<String>,
    platform: Platform,
) -> (r: String)
    ensures
        r@ == search_path(
            text::opt_text(own),
            text::opt_text(fallback),
            text::opt_text(home),
            platform,
        ),
{
    let current = match own {
        Some(x) => x,
        None => match fallback {
            Some(y) => y,
            None => String::new(),
        },
    };
    let mut bin = match home {
        Some(h) => h,
        None => {
            return current;
        },
    };
    bin.append(
        match platform {
            Platform::Unix => "/.cargo/bin",
            Platform::Windows => "\\.cargo\\bin",
        },
    );
    if has_text(&chars_of(current.as_str()), &chars_of(bin.as_str())) {
        return current;
    }
    bin.append(
        match platform {
            Platform::Unix => ":",
            Platform::Windows => ";",
        },
    );
    bin.append(current.as_str());
    bin
}

/// Adding cargo's directory a second time changes nothing.
pub proof fn cargo_is_added_once(current: Seq<char>, home: Option<Seq<char>>, platform: Platform)
    ensures
        with_cargo(with_cargo(current, home, platform), home, platform) == with_cargo(
            current,
            home,
            platform,
        ),
{
    if let Some(h) = home {
        let bin = h + cargo_suffix(platform);
        let once = with_cargo(current, home, platform);
        if !text::contains_text(current, bin) {
            assert(once.subrange(0, bin.len() as int) =~= bin);
            assert(text::occurs_at(once, bin, 0));
        }
    }
}

// ── output ──────────────────────────────────────────────────────────────────

/// Output as it is shown: all of it, or its beginning with the sizes of both.
#[derive(Debug)]
pub struct ShownOutput {
    pub output: String,
    pub truncated: bool,
    pub total_bytes: Option<usize>,
    pub shown_bytes: Option<usize>,
}

/// `shown` is what is shown of the output `s`: all of it where it has at most
/// `OUTPUT_LIMIT` characters, and else as many from its beginning.
pub open spec fn shows(shown: ShownOutput, s: Seq<char>) -> bool {
    if s.len() <= OUTPUT_LIMIT {
        &&& shown.output@ == s
        &&& !shown.truncated
        &&& shown.total_bytes is None
        &&& shown.shown_bytes is None
    } else {
        let kept = s.take(OUTPUT_LIMIT as int);
        &&& shown.output@ == kept
        &&& shown.truncated
        &&& shown.total_bytes == Some(clip::byte_len(s) as usize)
        &&& shown.shown_bytes == Some(clip::byte_len(kept) as usize)
    }
}

/// Output as it is shown.
pub fn truncate_output(s: String) -> (r: ShownOutput)
    ensures
        shows(r, s@),
{
    let v = chars_of(s.as_str());
    if v.len() <= OUTPUT_LIMIT {
        return ShownOutput { output: s, truncated: false, total_bytes: None, shown_bytes: None };
    }
    let total = count_bytes(s.as_str());
    let mut output = String::new();
    append_range(&mut output, &v, 0, OUTPUT_LIMIT);
    assert(output@ =~= s@.take(OUTPUT_LIMIT as int));
    let shown = count_bytes(output.as_str());
    ShownOutput { output, truncated: true, total_bytes: Some(total), shown_bytes: Some(shown) }
}

/// What is shown is a beginning of the output, of at most `OUTPUT_LIMIT`
/// characters, and is not all of it exactly where it is said to be cut.
pub proof fn shown_output_is_bounded_prefix(shown: ShownOutput, s: Seq<char>)
    requires
        shows(shown, s),
    ensures
        shown.output@.is_prefix_of(s),
        shown.output@.len() <= OUTPUT_LIMIT,
        shown.truncated <==> shown.output@ != s,
        shown.truncated ==> shown.output@.len() == OUTPUT_LIMIT,
{
}

// ── shell commands ──────────────────────────────────────────────────────────

/// The text that bytes hold, with a replacement character for each stretch
/// that is not UTF-8.
pub uninterp spec fn utf8_lossy(bytes: Seq<u8>) -> Seq<char>;

/// The text that bytes hold: as they are decoded where they are UTF-8.
pub open spec fn text_of_bytes(bytes: Seq<u8>) -> Seq<char> {
    if utf8::valid_utf8(bytes) {
        utf8::decode_utf8(bytes)
    } else {
        utf8_lossy(bytes)
    }
}

/// `String::from_utf8_lossy`. Bytes that are valid UTF-8 are decoded; of other
/// bytes it is only said that the text depends on them alone.
#[verifier::external_body]
pub(crate) fn decode_lossy(bytes: &[u8]) -> (s: String)
    ensures
        s@ == utf8_lossy(bytes@),
        utf8::valid_utf8(bytes@) ==> s@ == utf8::decode_utf8(bytes@),
{
    String::from_utf8_lossy(bytes).into_owned()
}

/// How a shell command came to its end.
#[derive(Debug)]
pub enum BashOutcome {
    /// It was not started, for the given reason.
    SpawnFailed(String),
    /// It ended by itself.
    Finished { stdout: Vec<u8>, stderr: Vec<u8>, exit_code: Option<i32> },
    /// It was stopped when its time was over.
    TimedOut,
}

/// The answer to a shell command.
#[derive(Debug)]
pub enum BashReply {
    SpawnFailed { error: String },
    Finished { shown: ShownOutput, exit_code: Option<i32> },
    TimedOut { error: String },
}

/// `program` and `args` have the shell of the platform run a command.
pub open spec fn is_shell_invocation(
    program: Seq<char>,
    args: Seq<Seq<char>>,
    command: Seq<char>,
    platform: Platform,
) -> bool {
    match platform {
        Platform::Unix => program == "sh"@ && args == seq!["-c"@, command],
        Platform::Windows => program == "cmd"@ && args == seq!["/C"@, command],
    }
}

/// The program that runs shell commands, and its arguments.
pub fn shell_invocation(command: &str, platform: Platform) -> (r: (String, Vec<String>))
    ensures
        is_shell_invocation(r.0@, text::texts(r.1@), command@, platform),
{
    let (program, flag) = match platform {
        Platform::Unix => ("sh", "-c"),
        Platform::Windows => ("cmd", "/C"),
    };
    let mut args: Vec<String> = Vec::new();
    args.push(flag.to_owned());
    args.push(command.to_owned());
    assert(text::texts(args@) =~= seq![flag@, command@]);
    (program.to_owned(), args)
}

/// `r` is the answer when a command came to such an end.
pub open spec fn is_bash_reply(r: BashReply, outcome: BashOutcome, timeout_ms: u64) -> bool {
    match outcome {
        BashOutcome::SpawnFailed(reason) => r matches BashReply::SpawnFailed { error }
            && error@ == "spawn failed: "@ + reason@,
        BashOutcome::Finished { stdout, stderr, exit_code } => r matches BashReply::Finished {
            shown,
            exit_code: code,
        } && code == exit_code && shows(shown, text_of_bytes(stdout@) + text_of_bytes(stderr@)),
        BashOutcome::TimedOut => r matches BashReply::TimedOut { error } && error@
            == "timed out after "@ + number::decimal(timeout_ms as nat) + "ms"@,
    }
}

/// The answer to a shell command that came to the given end, when it had
/// `timeout_ms` milliseconds of time.
pub fn bash_reply(outcome: BashOutcome, timeout_ms: u64) -> (r: BashReply)
    ensures
        is_bash_reply(r, outcome, timeout_ms),
{
    match outcome {
        BashOutcome::SpawnFailed(reason) => {
            let mut error = "spawn failed: ".to_owned();
            error.append(reason.as_str());
            BashReply::SpawnFailed { error }
        },
        BashOutcome::Finished { stdout, stderr, exit_code } => {
            let mut combined = decode_lossy(&stdout);
            combined.append(decode_lossy(&stderr).as_str());
            BashReply::Finished { shown: truncate_output(combined), exit_code }
        },
        BashOutcome::TimedOut => {
            let mut error = "timed out after ".to_owned();
            error.append(to_decimal(timeout_ms).as_str());
            error.append("ms");
            BashReply::TimedOut { error }
        },
    }
}

} // verus!
