//! Where a project begins, what a command is run with, and what is shown of its
//! output.
use vstd::prelude::*;
use vstd::utf8;

use crate::laws;
use crate::laws::texts;
use crate::number;
use crate::paths;
use crate::paths::Platform;
use crate::text;
use crate::utils;
use crate::utils::{BashOutcome, BashReply, ShownOutput};

verus! {

// ── the root of a project ───────────────────────────────────────────────────

/// A root is looked for in the directory itself and in those above it, for a
/// file in those above the file.
pub proof fn roots_are_looked_for_upwards(start: Seq<char>, platform: Platform)
    ensures
        utils::search_dirs(start, false, platform) == paths::ancestors(start, platform),
        paths::parent(start, platform) matches Some(dir) ==> utils::search_dirs(
            start,
            true,
            platform,
        ) == paths::ancestors(dir, platform),
        paths::parent(start, platform) is None ==> utils::search_dirs(
            start,
            true,
            platform,
        ).len() == 0,
{
}

/// In the directory `k` the marker `m` was found, or was not.
pub open spec fn told<F: Fn(&str) -> bool>(
    probe: F,
    dirs: Seq<Seq<char>>,
    markers: Seq<Seq<char>>,
    platform: Platform,
    k: int,
    m: int,
    yes: bool,
) -> bool {
    exists|p: &str|
        p@ == paths::joined(dirs[k], markers[m], platform) && #[trigger] call_ensures(
            probe,
            (p,),
            yes,
        )
}

/// A root is a directory in which a marker was found, and in none of the
/// directories that are nearer was any marker found.
pub open spec fn is_found_at<F: Fn(&str) -> bool>(
    probe: F,
    dirs: Seq<Seq<char>>,
    markers: Seq<Seq<char>>,
    platform: Platform,
    k: int,
    m: int,
) -> bool {
    &&& 0 <= k < dirs.len() && 0 <= m < markers.len()
    &&& told(probe, dirs, markers, platform, k, m, true)
    &&& forall|k2: int, m2: int|
        0 <= k2 < k && 0 <= m2 < markers.len() ==> #[trigger] told(
            probe,
            dirs,
            markers,
            platform,
            k2,
            m2,
            false,
        )
}

/// The root is the nearest directory with a marker; there is none exactly where
/// no marker was found in any of the directories.
pub proof fn the_nearest_marker_decides<F: Fn(&str) -> bool>(
    root: Option<Seq<char>>,
    dirs: Seq<Seq<char>>,
    markers: Seq<Seq<char>>,
    platform: Platform,
    probe: F,
)
    requires
        utils::is_nearest_root(root, dirs, markers, platform, probe),
    ensures
        root matches Some(dir) ==> exists|k: int, m: int| #[trigger]
            is_found_at(probe, dirs, markers, platform, k, m) && dir == dirs[k],
        root is None ==> forall|k: int, m: int|
            0 <= k < dirs.len() && 0 <= m < markers.len() ==> #[trigger] told(
                probe,
                dirs,
                markers,
                platform,
                k,
                m,
                false,
            ),
{
    if let Some(dir) = root {
        let (k, m) = choose|k: int, m: int| #[trigger]
            utils::first_marker(probe, platform, dirs, markers, k, m) && dir == dirs[k];
        assert forall|k2: int, m2: int|
            0 <= k2 < k && 0 <= m2 < markers.len() implies #[trigger] told(
            probe,
            dirs,
            markers,
            platform,
            k2,
            m2,
            false,
        ) by {
            let (d, x) = (dirs[k2], markers[m2]);
            assert(utils::answered(probe, paths::joined(d, x, platform), false));
        }
        assert(utils::answered(probe, paths::joined(dirs[k], markers[m], platform), true));
        assert(is_found_at(probe, dirs, markers, platform, k, m));
    } else {
        assert forall|k: int, m: int|
            0 <= k < dirs.len() && 0 <= m < markers.len() implies #[trigger] told(
            probe,
            dirs,
            markers,
            platform,
            k,
            m,
            false,
        ) by {
            let (d, x) = (dirs[k], markers[m]);
            assert(utils::answered(probe, paths::joined(d, x, platform), false));
        }
    }
}

// ── where programs are ──────────────────────────────────────────────────────

/// Cargo's programs are put first, before all that was there, unless there is no
/// home directory or they are already there.
pub proof fn cargo_comes_first(current: Seq<char>, home: Seq<char>)
    ensures
        utils::with_cargo(current, None, Platform::Unix) == current,
        utils::with_cargo(current, None, Platform::Windows) == current,
        ({
            let bin = home + "/.cargo/bin"@;
            let r = utils::with_cargo(current, Some(home), Platform::Unix);
            &&& laws::holds(current, bin) ==> r == current
            &&& !laws::holds(current, bin) ==> r == bin + seq![':'] + current
        }),
        ({
            let bin = home + "\\.cargo\\bin"@;
            let r = utils::with_cargo(current, Some(home), Platform::Windows);
            &&& laws::holds(current, bin) ==> r == current
            &&& !laws::holds(current, bin) ==> r == bin + seq![';'] + current
        }),
{
    reveal_strlit(":");
    reveal_strlit(";");
    assert(":"@ =~= seq![':']);
    assert(";"@ =~= seq![';']);
    texts::containment_is_being_a_part(current, home + "/.cargo/bin"@);
    texts::containment_is_being_a_part(current, home + "\\.cargo\\bin"@);
}

/// The first of two texts that is given counts, and nothing where neither is;
/// so the platform's own search path comes before the other one.
pub proof fn the_first_given_counts(
    a: Seq<char>,
    b: Option<Seq<char>>,
    home: Option<Seq<char>>,
    platform: Platform,
)
    ensures
        utils::first_given(Some(a), b) == a,
        utils::first_given(None, Some(a)) == a,
        utils::first_given(None, None).len() == 0,
        utils::search_path(Some(a), b, home, platform) == utils::with_cargo(a, home, platform),
        utils::search_path(None, Some(a), home, platform) == utils::with_cargo(a, home, platform),
        utils::search_path(None, None, home, platform) == utils::with_cargo(
            Seq::empty(),
            home,
            platform,
        ),
{
}

/// The variables of the two platforms.
pub proof fn variables_by_platform()
    ensures
        utils::home_name(Platform::Unix) == "HOME"@,
        utils::home_name(Platform::Windows) == "USERPROFILE"@,
        utils::path_name(Platform::Unix) == "PATH"@,
        utils::path_name(Platform::Windows) == "Path"@,
{
}

// ── commands ────────────────────────────────────────────────────────────────

/// A command has ten seconds unless another time is given.
pub proof fn commands_have_ten_seconds()
    ensures
        utils::DEFAULT_TIMEOUT_MS == 10 * 1000,
{
}

/// A command is handed to the shell as it is, as one argument.
pub proof fn commands_are_handed_on_whole(
    program: Seq<char>,
    args: Seq<Seq<char>>,
    command: Seq<char>,
    platform: Platform,
)
    requires
        utils::is_shell_invocation(program, args, command, platform),
    ensures
        args.len() == 2,
        args[1] == command,
        platform == Platform::Unix ==> program == "sh"@ && args[0] == "-c"@,
        platform == Platform::Windows ==> program == "cmd"@ && args[0] == "/C"@,
{
}

/// An output of 8000 characters or fewer is shown whole; of a longer one the
/// first 8000 are, with the numbers of bytes that there were and that are shown.
pub proof fn outputs_are_cut_at_a_length(shown: ShownOutput, s: Seq<char>)
    requires
        utils::shows(shown, s),
    ensures
        shown.truncated <==> s.len() > 8000,
        s.len() <= 8000 ==> shown.output@ == s && shown.total_bytes is None
            && shown.shown_bytes is None,
        s.len() > 8000 ==> shown.output@ == s.take(8000) && shown.total_bytes == Some(
            utf8::encode_utf8(s).len() as usize,
        ) && shown.shown_bytes == Some(utf8::encode_utf8(s.take(8000)).len() as usize),
{
}

/// Bytes that encode a text are read as that text.
pub proof fn encoded_texts_are_read_back(s: Seq<char>)
    ensures
        utils::text_of_bytes(utf8::encode_utf8(s)) == s,
{
    utf8::encode_utf8_decode_utf8(s);
    utf8::encode_utf8_valid_utf8(s);
}

/// A command that ended is answered with what it wrote, its standard output
/// before its standard error, and with its exit code; another one with why
/// there is none.
pub proof fn commands_are_answered(r: BashReply, outcome: BashOutcome, timeout_ms: u64)
    requires
        utils::is_bash_reply(r, outcome, timeout_ms),
    ensures
        outcome matches BashOutcome::Finished { stdout, stderr, exit_code } ==> {
            &&& r matches BashReply::Finished { shown, exit_code: code }
            &&& code == exit_code
            &&& utils::shows(
                shown,
                utils::text_of_bytes(stdout@) + utils::text_of_bytes(stderr@),
            )
        },
        outcome matches BashOutcome::SpawnFailed(reason) ==> {
            &&& r matches BashReply::SpawnFailed { error }
            &&& error@ == "spawn failed: "@ + reason@
        },
        outcome matches BashOutcome::TimedOut ==> {
            &&& r matches BashReply::TimedOut { error }
            &&& error@ == "timed out after "@ + number::decimal(timeout_ms as nat) + "ms"@
        },
{
}

/// A list of texts is seen by what its items hold.
pub proof fn texts_are_seen_as_they_are(list: Seq<&str>, owned: Seq<String>, i: int)
    ensures
        utils::slice_texts(list).len() == list.len(),
        0 <= i < list.len() ==> utils::slice_texts(list)[i] == list[i]@,
        text::texts(owned).len() == owned.len(),
        0 <= i < owned.len() ==> text::texts(owned)[i] == owned[i]@,
{
}

/// An optional text is seen by what it holds.
pub proof fn optional_texts_are_seen_as_they_are(s: String)
    ensures
        text::opt_text(Some(s)) == Some(s@),
        text::opt_text(None) is None,
{
}

} // verus!
