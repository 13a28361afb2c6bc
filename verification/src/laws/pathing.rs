//! Paths taken apart and put together.
use vstd::prelude::*;

use crate::laws;
use crate::lines;
use crate::paths;
use crate::paths::{Platform, Prefix, Separators};
use crate::text;

verus! {

/// No character of the text is a separator.
pub open spec fn is_whole(s: Seq<char>, platform: Platform) -> bool {
    forall|i: int| 0 <= i < s.len() ==> !paths::is_separator(#[trigger] s[i], platform)
}

/// The text is the name of something in a directory: it has no separator in it,
/// and is not empty, and is neither of the two names made of dots.
pub open spec fn is_name(s: Seq<char>, platform: Platform) -> bool {
    s.len() > 0 && is_whole(s, platform) && s != seq!['.'] && s != seq!['.', '.']
}

/// The separators of the two platforms.
pub proof fn separators_by_platform(c: char)
    ensures
        paths::is_separator(c, Platform::Unix) <==> c == '/',
        paths::is_separator(c, Platform::Windows) <==> c == '/' || c == '\\',
        paths::main_separator(Platform::Unix) == '/',
        paths::main_separator(Platform::Windows) == '\\',
{
}

// ── names, directories and extensions ───────────────────────────────────────

proof fn lemma_tail(p: Seq<char>, lo: int, hi: int, seps: Separators, t: int)
    requires
        0 <= lo <= t <= hi <= p.len(),
        t == lo || paths::parts_components(p[t - 1], seps),
        forall|k: int| t <= k < hi ==> !paths::parts_components(#[trigger] p[k], seps),
    ensures
        paths::tail_start(p, lo, hi, seps) == t,
    decreases hi - t,
{
    if t < hi {
        lemma_tail(p, lo, hi - 1, seps, t);
    }
}

proof fn lemma_tail_of_beginning(
    p: Seq<char>,
    q: Seq<char>,
    lo: int,
    hi: int,
    seps: Separators,
)
    requires
        0 <= lo <= hi <= p.len(),
    ensures
        paths::tail_start(p + q, lo, hi, seps) == paths::tail_start(p, lo, hi, seps),
    decreases hi - lo,
{
    if lo < hi {
        assert((p + q)[hi - 1] == p[hi - 1]);
        lemma_tail_of_beginning(p, q, lo, hi - 1, seps);
    }
}

proof fn lemma_trim_of_beginning(
    p: Seq<char>,
    q: Seq<char>,
    lo: int,
    hi: int,
    seps: Separators,
)
    requires
        0 <= lo <= hi <= p.len(),
    ensures
        paths::trim_end(p + q, lo, hi, seps) == paths::trim_end(p, lo, hi, seps),
    decreases hi - lo,
{
    if lo < hi {
        lemma_tail_of_beginning(p, q, lo, hi, seps);
        paths::tail_start_in_bounds(p, lo, hi, seps);
        let t = paths::tail_start(p, lo, hi, seps);
        assert((p + q).subrange(t, hi) =~= p.subrange(t, hi));
        lemma_trim_of_beginning(p, q, lo, paths::before_tail(lo, t), seps);
    }
}

/// Without a prefix, the separators of a path are those of the platform.
proof fn lemma_separators(p: Seq<char>, platform: Platform, c: char)
    requires
        paths::prefix(p, platform) is Absent,
    ensures
        paths::parts_components(c, paths::separators(p, platform)) == paths::is_separator(
            c,
            platform,
        ),
        !(paths::separators(p, platform) is Backslash),
        paths::prefix_len(p, platform) == 0,
{
}

/// What follows the last separator is the name, where it is one; and a name
/// alone is its own name.
pub proof fn the_name_follows_the_last_separator(
    d: Seq<char>,
    s: char,
    n: Seq<char>,
    platform: Platform,
)
    requires
        paths::is_separator(s, platform),
        is_name(n, platform),
    ensures
        paths::prefix(d + seq![s] + n, platform) is Absent ==> paths::file_name(
            d + seq![s] + n,
            platform,
        ) == Some(n),
        paths::prefix(n, platform) is Absent ==> paths::file_name(n, platform) == Some(n),
{
    let p = d + seq![s] + n;
    if paths::prefix(p, platform) is Absent {
        lemma_separators(p, platform, s);
        let seps = paths::separators(p, platform);
        let lo = paths::body_start(p, platform);
        let t = d.len() + 1;
        assert(p[t - 1] == s);
        assert forall|k: int| t <= k < p.len() implies !paths::parts_components(
            #[trigger] p[k],
            seps,
        ) by {
            lemma_separators(p, platform, p[k]);
            assert(p[k] == n[k - t]);
        }
        lemma_tail(p, lo, p.len() as int, seps, t as int);
        assert(p.subrange(t as int, p.len() as int) =~= n);
    }
    if paths::prefix(n, platform) is Absent {
        lemma_name_alone(n, platform);
    }
}

proof fn lemma_name_alone(n: Seq<char>, platform: Platform)
    requires
        is_name(n, platform),
        paths::prefix(n, platform) is Absent,
    ensures
        paths::body_start(n, platform) == 0,
        paths::tail_start(n, 0, n.len() as int, paths::separators(n, platform)) == 0,
        paths::trim_end(n, 0, n.len() as int, paths::separators(n, platform)) == n.len(),
        paths::file_name(n, platform) == Some(n),
{
    let seps = paths::separators(n, platform);
    assert forall|k: int| 0 <= k < n.len() implies !paths::parts_components(
        #[trigger] n[k],
        seps,
    ) by {
        lemma_separators(n, platform, n[k]);
    }
    lemma_separators(n, platform, n[0]);
    assert(!paths::is_separator(n[0], platform));
    if n[0] == '.' {
        if n.len() == 1 {
            assert(n =~= seq!['.']);
        } else {
            assert(!paths::is_separator(n[1], platform));
        }
    }
    lemma_tail(n, 0, n.len() as int, seps, 0);
    assert(n.subrange(0, n.len() as int) =~= n);
}

/// Two dots after the last separator, and nothing at all, are no name.
pub proof fn dots_are_no_name(d: Seq<char>, s: char, platform: Platform)
    requires
        paths::is_separator(s, platform),
    ensures
        paths::prefix(d + seq![s, '.', '.'], platform) is Absent ==> paths::file_name(
            d + seq![s, '.', '.'],
            platform,
        ) is None,
        paths::file_name(seq![], platform) is None,
        paths::parent(seq![], platform) is None,
{
    let p = d + seq![s, '.', '.'];
    if paths::prefix(p, platform) is Absent {
        let seps = paths::separators(p, platform);
        let lo = paths::body_start(p, platform);
        let t = d.len() + 1;
        lemma_separators(p, platform, s);
        lemma_separators(p, platform, '.');
        assert(p[t - 1] == s);
        lemma_tail(p, lo, p.len() as int, seps, t as int);
        assert(p.subrange(t as int, p.len() as int) =~= seq!['.', '.']);
    }
}

/// A separator at the end, or one and a dot, changes neither the name nor the
/// directory of a path.
pub proof fn what_is_void_at_the_end_does_not_count(p: Seq<char>, s: char, platform: Platform)
    requires
        paths::is_separator(s, platform),
        p.len() > 0,
        paths::prefix(p, platform) is Absent,
    ensures
        paths::prefix(p + seq![s], platform) is Absent ==> paths::file_name(p + seq![s], platform)
            == paths::file_name(p, platform) && paths::parent(p + seq![s], platform)
            == paths::parent(p, platform),
        paths::prefix(p + seq![s, '.'], platform) is Absent ==> paths::file_name(
            p + seq![s, '.'],
            platform,
        ) == paths::file_name(p, platform) && paths::parent(p + seq![s, '.'], platform)
            == paths::parent(p, platform),
{
    lemma_void_end(p, seq![s], s, platform);
    lemma_void_end(p, seq![s, '.'], s, platform);
}

proof fn lemma_void_end(p: Seq<char>, e: Seq<char>, s: char, platform: Platform)
    requires
        paths::is_separator(s, platform),
        p.len() > 0,
        e == seq![s] || e == seq![s, '.'],
        paths::prefix(p, platform) is Absent,
    ensures
        paths::prefix(p + e, platform) is Absent ==> paths::file_name(p + e, platform)
            == paths::file_name(p, platform) && paths::parent(p + e, platform) == paths::parent(
            p,
            platform,
        ),
{
    let q = p + e;
    if paths::prefix(q, platform) is Absent {
        let seps = paths::separators(p, platform);
        lemma_separators(p, platform, s);
        lemma_separators(q, platform, s);
        lemma_separators(q, platform, '.');
        let lo = paths::body_start(p, platform);
        assert(q[0] == p[0]);
        if p.len() > 1 {
            assert(q[1] == p[1]);
        } else {
            assert(q[1] == s);
        }
        assert(paths::body_start(q, platform) == lo);
        let n = p.len() as int;
        assert(q[n] == s);
        lemma_tail(q, lo, q.len() as int, seps, n + 1);
        let rest = q.subrange(n + 1, q.len() as int);
        assert(e == seq![s] ==> rest =~= seq![]);
        assert(e == seq![s, '.'] ==> rest =~= seq!['.']);
        assert(paths::trim_end(q, lo, q.len() as int, seps) == paths::trim_end(q, lo, n, seps));
        lemma_trim_of_beginning(p, e, lo, n, seps);
        paths::trim_end_in_bounds(p, lo, n, seps);
        let hi = paths::trim_end(p, lo, n, seps);
        if hi > lo {
            lemma_tail_of_beginning(p, e, lo, hi, seps);
            paths::tail_start_in_bounds(p, lo, hi, seps);
            let t = paths::tail_start(p, lo, hi, seps);
            assert(q.subrange(t, hi) =~= p.subrange(t, hi));
            lemma_trim_of_beginning(p, e, lo, paths::before_tail(lo, t), seps);
            paths::trim_end_in_bounds(p, lo, paths::before_tail(lo, t), seps);
            let k = paths::trim_end(p, lo, paths::before_tail(lo, t), seps);
            assert(q.take(k) =~= p.take(k));
        }
    }
}

/// The directory of something is what stands before the last separator; at the
/// root it is the root, and of a name alone it is the empty path.
pub proof fn the_directory_comes_before_the_last_separator(
    e: Seq<char>,
    s: char,
    d: Seq<char>,
    n: Seq<char>,
    platform: Platform,
)
    requires
        paths::is_separator(s, platform),
        is_name(d, platform),
        is_name(n, platform),
    ensures
        ({
            let p = e + seq![s] + d + seq![s] + n;
            paths::prefix(p, platform) is Absent ==> paths::parent(p, platform) == Some(
                e + seq![s] + d,
            )
        }),
        paths::prefix(d + seq![s] + n, platform) is Absent ==> paths::parent(
            d + seq![s] + n,
            platform,
        ) == Some(d),
        paths::prefix(seq![s] + n, platform) is Absent ==> paths::parent(seq![s] + n, platform)
            == Some(seq![s]),
        paths::prefix(n, platform) is Absent ==> paths::parent(n, platform) == Some(
            Seq::<char>::empty(),
        ),
        paths::prefix(seq![s], platform) is Absent ==> paths::parent(seq![s], platform) is None,
{
    let dir = e + seq![s] + d;
    let p = dir + seq![s] + n;
    if paths::prefix(p, platform) is Absent {
        assert(dir.skip(e.len() + 1int) =~= d);
        lemma_parent(p, dir, s, n, (e.len() + 1) as int, platform);
    }
    let q = d + seq![s] + n;
    if paths::prefix(q, platform) is Absent {
        lemma_separators(q, platform, s);
        assert(q[0] == d[0] && !paths::is_separator(d[0], platform));
        if d[0] == '.' {
            if d.len() == 1 {
                assert(d =~= seq!['.']);
            } else {
                assert(q[1] == d[1] && !paths::is_separator(d[1], platform));
            }
        }
        assert(paths::body_start(q, platform) == 0);
        assert(d.skip(0) =~= d);
        lemma_parent(q, d, s, n, 0, platform);
    }
    let r = seq![s] + n;
    if paths::prefix(r, platform) is Absent {
        let seps = paths::separators(r, platform);
        lemma_separators(r, platform, s);
        assert forall|k: int| 1 <= k < r.len() implies !paths::parts_components(
            #[trigger] r[k],
            seps,
        ) by {
            lemma_separators(r, platform, r[k]);
            assert(r[k] == n[k - 1]);
        }
        lemma_tail(r, 1, r.len() as int, seps, 1);
        assert(r.subrange(1, r.len() as int) =~= n);
        assert(r.take(1) =~= seq![s]);
    }
    if paths::prefix(n, platform) is Absent {
        lemma_name_alone(n, platform);
        assert(n.take(0) =~= seq![]);
    }
}

/// `dir`, a separator and a name, where the last component of `dir` is a name
/// that begins at `t`.
proof fn lemma_parent(
    p: Seq<char>,
    dir: Seq<char>,
    s: char,
    n: Seq<char>,
    t: int,
    platform: Platform,
)
    requires
        paths::prefix(p, platform) is Absent,
        p == dir + seq![s] + n,
        paths::is_separator(s, platform),
        is_name(n, platform),
        0 <= t < dir.len(),
        is_name(dir.skip(t), platform),
        t == 0 || paths::is_separator(dir[t - 1], platform),
        t == 0 ==> paths::body_start(p, platform) == 0,
    ensures
        paths::parent(p, platform) == Some(dir),
{
    let seps = paths::separators(p, platform);
    let lo = paths::body_start(p, platform);
    let m = dir.len() as int;
    lemma_separators(p, platform, s);
    assert(p[m] == s);
    assert forall|k: int| m + 1 <= k < p.len() implies !paths::parts_components(
        #[trigger] p[k],
        seps,
    ) by {
        lemma_separators(p, platform, p[k]);
        assert(p[k] == n[k - m - 1]);
    }
    lemma_tail(p, lo, p.len() as int, seps, m + 1);
    assert(p.subrange(m + 1, p.len() as int) =~= n);
    assert forall|k: int| t <= k < m implies !paths::parts_components(#[trigger] p[k], seps) by {
        lemma_separators(p, platform, p[k]);
        assert(p[k] == dir.skip(t)[k - t]);
    }
    if t > 0 {
        assert(p[t - 1] == dir[t - 1]);
        lemma_separators(p, platform, p[t - 1]);
    }
    lemma_tail(p, lo, m, seps, t);
    assert(p.subrange(t, m) =~= dir.skip(t));
    assert(p.take(m) =~= dir);
}

/// The extension is what follows the last dot of the name, if there is one after
/// its first character.
pub proof fn the_extension_follows_the_last_dot(
    stem: Seq<char>,
    ext: Seq<char>,
    p: Seq<char>,
    platform: Platform,
)
    requires
        laws::lacks(ext, '.'),
    ensures
        stem.len() > 0 ==> paths::name_extension(stem + seq!['.'] + ext) == Some(ext),
        paths::name_extension(seq!['.'] + ext) is None,
        paths::name_extension(ext) is None,
        paths::extension(p, platform) == (match paths::file_name(p, platform) {
            Some(name) => paths::name_extension(name),
            None => None,
        }),
{
    let a = stem + seq!['.'] + ext;
    let b = seq!['.'] + ext;
    assert forall|k: int| stem.len() < k < a.len() implies a[k] != '.' by {
        assert(a[k] == ext[k - stem.len() - 1]);
    }
    lemma_last_dot(a, a.len() as int, stem.len() as int);
    assert(a.skip(stem.len() + 1int) =~= ext);
    assert forall|k: int| 0 < k < b.len() implies b[k] != '.' by {
        assert(b[k] == ext[k - 1]);
    }
    lemma_last_dot(b, b.len() as int, 0);
    lemma_last_dot(ext, ext.len() as int, -1);
}

proof fn lemma_last_dot(s: Seq<char>, to: int, at: int)
    requires
        -1 <= at < to <= s.len() || (at == -1 && to == 0),
        at >= 0 ==> s[at] == '.',
        forall|i: int| at < i < to ==> s[i] != '.',
    ensures
        text::last_char(s, '.', to) == at,
    decreases to - at,
{
    if at < to - 1 {
        lemma_last_dot(s, to - 1, at);
    }
}

/// The directories above a path are the path itself and then those above its
/// directory, to the last one that has none.
pub proof fn each_directory_is_above_the_one_before(p: Seq<char>, platform: Platform)
    ensures
        paths::parent(p, platform) matches Some(q) ==> paths::ancestors(p, platform) == seq![p]
            + paths::ancestors(q, platform),
        paths::parent(p, platform) is None ==> paths::ancestors(p, platform) == seq![p],
{
}

// ── putting paths together ──────────────────────────────────────────────────

/// A path from the root stands by itself; any other one is put after the
/// directory, with one slash between them unless the directory is empty or ends
/// with one.
pub proof fn unix_paths_are_put_together(base: Seq<char>, rel: Seq<char>)
    ensures
        ({
            let r = paths::joined(base, rel, Platform::Unix);
            &&& rel.len() > 0 && rel[0] == '/' ==> r == rel
            &&& !(rel.len() > 0 && rel[0] == '/') && (base.len() == 0 || base.last() == '/')
                ==> r == base + rel
            &&& !(rel.len() > 0 && rel[0] == '/') && base.len() > 0 && base.last() != '/' ==> r
                == base + seq!['/'] + rel
        }),
{
    assert(base.take(0) + rel =~= rel);
}

/// A path with a prefix stands by itself; one from the root is put after the
/// drive of the directory; and any other one after the directory, with one
/// backslash between them unless the directory is empty, ends with a separator,
/// or is a drive alone.
pub proof fn windows_paths_are_put_together(base: Seq<char>, rel: Seq<char>)
    ensures
        ({
            let w = Platform::Windows;
            let r = paths::joined(base, rel, w);
            let rooted = rel.len() > 0 && (rel[0] == '/' || rel[0] == '\\');
            let bare = base.len() == 0 || base.last() == '/' || base.last() == '\\';
            &&& paths::prefix(rel, w) != Prefix::Absent ==> r == rel
            &&& paths::prefix(rel, w) == Prefix::Absent && paths::prefix(base, w)
                == Prefix::Absent ==> {
                &&& rooted ==> r == rel
                &&& !rooted && bare ==> r == base + rel
                &&& !rooted && !bare ==> r == base + seq!['\\'] + rel
            }
            &&& paths::prefix(rel, w) == Prefix::Absent && paths::prefix(base, w) == Prefix::Drive
                ==> {
                &&& rooted ==> r == base.take(2) + rel
                &&& !rooted && (bare || base.len() == 2) ==> r == base + rel
                &&& !rooted && !bare && base.len() > 2 ==> r == base + seq!['\\'] + rel
            }
            &&& paths::prefix(rel, w) == Prefix::Absent && paths::prefix(base, w) == Prefix::Share
                ==> {
                &&& rooted ==> r == base.take(paths::prefix_len(base, w)) + rel
                &&& !rooted && bare ==> r == base + rel
                &&& !rooted && !bare ==> r == base + seq!['\\'] + rel
            }
        }),
{
    assert(base.take(0) + rel =~= rel);
}

// ── what a path of Windows begins with ──────────────────────────────────────

/// A path of Unix has no prefix, and nor has one of Windows that begins neither
/// with two separators nor with a letter and a colon. A letter and a colon are a
/// drive.
pub proof fn drives_are_letters_and_colons(c: char, rest: Seq<char>, p: Seq<char>)
    ensures
        paths::prefix(p, Platform::Unix) == Prefix::Absent,
        paths::prefix_len(p, Platform::Unix) == 0,
        ('a' <= c <= 'z') || ('A' <= c <= 'Z') ==> {
            let drive = seq![c, ':'] + rest;
            &&& paths::prefix(drive, Platform::Windows) == Prefix::Drive
            &&& paths::prefix_len(drive, Platform::Windows) == 2
        },
        !(p.len() >= 2 && (p[0] == '/' || p[0] == '\\') && (p[1] == '/' || p[1] == '\\')) && !(
        p.len() >= 2 && p[1] == ':' && (('a' <= p[0] <= 'z') || ('A' <= p[0] <= 'Z')))
            ==> paths::prefix(p, Platform::Windows) == Prefix::Absent && paths::prefix_len(
            p,
            Platform::Windows,
        ) == 0,
{
    let drive = seq![c, ':'] + rest;
    assert(drive[0] == c && drive[1] == ':');
}

proof fn lemma_component(p: Seq<char>, i: int, end: int, verbatim: bool)
    requires
        0 <= i <= end <= p.len(),
        end < p.len() ==> p[end] == '\\' || (p[end] == '/' && !verbatim),
        forall|k: int| i <= k < end ==> #[trigger] p[k] != '\\' && (p[k] != '/' || verbatim),
    ensures
        paths::component_end(p, i, verbatim) == end,
    decreases end - i,
{
    if i < end {
        lemma_component(p, i + 1, end, verbatim);
    }
}

/// Two separators, a server, a separator and a share are a prefix, as long as
/// they are, whatever follows them after another separator.
pub proof fn shares_are_named_after_two_separators(
    a: char,
    b: char,
    server: Seq<char>,
    c: char,
    share: Seq<char>,
    rest: Seq<char>,
)
    requires
        a == '/' || a == '\\',
        b == '/' || b == '\\',
        c == '/' || c == '\\',
        is_whole(server, Platform::Windows),
        is_whole(share, Platform::Windows),
        server.len() > 0,
        share.len() > 0,
        server != seq!['?'] && server != seq!['.'],
        rest.len() == 0 || rest[0] == '/' || rest[0] == '\\',
    ensures
        ({
            let p = seq![a, b] + server + seq![c] + share + rest;
            &&& paths::prefix(p, Platform::Windows) == Prefix::Share
            &&& paths::prefix_len(p, Platform::Windows) == 3 + server.len() + share.len()
        }),
{
    let w = Platform::Windows;
    let p = seq![a, b] + server + seq![c] + share + rest;
    let (i, j) = ((2 + server.len()) as int, (3 + server.len() + share.len()) as int);
    assert(p[0] == a && p[1] == b);
    assert(p[i] == c);
    assert forall|k: int| 2 <= k < i implies #[trigger] p[k] != '\\' && p[k] != '/' by {
        assert(p[k] == server[k - 2]);
        assert(!paths::is_separator(server[k - 2], w));
    }
    assert forall|k: int| i + 1 <= k < j implies #[trigger] p[k] != '\\' && p[k] != '/' by {
        assert(p[k] == share[k - i - 1]);
        assert(!paths::is_separator(share[k - i - 1], w));
    }
    if rest.len() > 0 {
        assert(p[j] == rest[0]);
    }
    lemma_component(p, 2, i, false);
    lemma_component(p, i + 1, j, false);
    assert(p[2] == server[0]);
    if p.len() >= 4 && (p[2] == '?' || p[2] == '.') {
        if server.len() == 1 {
            assert(server =~= seq![server[0]]);
        } else {
            assert(p[3] == server[1]);
            assert(!paths::is_separator(server[1], w));
        }
    }
}

/// Two separators, a dot and a separator are the mark of a device, which may be
/// missing.
pub proof fn devices_have_their_mark(a: char, b: char, c: char, device: Seq<char>, rest: Seq<char>)
    requires
        a == '/' || a == '\\',
        b == '/' || b == '\\',
        c == '/' || c == '\\',
        is_whole(device, Platform::Windows),
        rest.len() == 0 || rest[0] == '/' || rest[0] == '\\',
    ensures
        ({
            let p = seq![a, b, '.', c] + device + rest;
            &&& paths::prefix(p, Platform::Windows) == Prefix::Share
            &&& paths::prefix_len(p, Platform::Windows) == 4 + device.len()
        }),
{
    let w = Platform::Windows;
    let p = seq![a, b, '.', c] + device + rest;
    let m = (4 + device.len()) as int;
    assert(p[0] == a && p[1] == b && p[2] == '.' && p[3] == c);
    assert forall|k: int| 4 <= k < m implies #[trigger] p[k] != '\\' && p[k] != '/' by {
        assert(p[k] == device[k - 4]);
        assert(!paths::is_separator(device[k - 4], w));
    }
    if rest.len() > 0 {
        assert(p[m] == rest[0]);
    }
    lemma_component(p, 4, m, false);
}

/// Two separators without a server, or with a server and no share, are no
/// prefix.
pub proof fn servers_alone_are_no_prefix(
    a: char,
    b: char,
    server: Seq<char>,
    c: char,
    rest: Seq<char>,
)
    requires
        a == '/' || a == '\\',
        b == '/' || b == '\\',
        c == '/' || c == '\\',
        is_whole(server, Platform::Windows),
        server != seq!['?'] && server != seq!['.'],
        rest.len() == 0 || rest[0] == '/' || rest[0] == '\\',
    ensures
        paths::prefix(seq![a, b] + server, Platform::Windows) == Prefix::Absent,
        paths::prefix(seq![a, b] + server + (seq![c] + rest), Platform::Windows) == Prefix::Absent,
        paths::prefix(seq![a, b, c] + server, Platform::Windows) == Prefix::Absent,
{
    lemma_server(a, b, server, seq![]);
    assert(seq![a, b] + server + seq![] =~= seq![a, b] + server);
    lemma_server(a, b, server, seq![c] + rest);
    let p = seq![a, b, c] + server;
    assert(p[0] == a && p[1] == b && p[2] == c);
    lemma_component(p, 2, 2, false);
}

proof fn lemma_server(a: char, b: char, server: Seq<char>, tail: Seq<char>)
    requires
        a == '/' || a == '\\',
        b == '/' || b == '\\',
        is_whole(server, Platform::Windows),
        server != seq!['?'] && server != seq!['.'],
        tail.len() > 0 ==> tail[0] == '/' || tail[0] == '\\',
        tail.len() > 1 ==> tail[1] == '/' || tail[1] == '\\',
    ensures
        paths::prefix(seq![a, b] + server + tail, Platform::Windows) == Prefix::Absent,
{
    let w = Platform::Windows;
    let p = seq![a, b] + server + tail;
    let i = (2 + server.len()) as int;
    assert(p[0] == a && p[1] == b);
    assert forall|k: int| 2 <= k < i implies #[trigger] p[k] != '\\' && p[k] != '/' by {
        assert(p[k] == server[k - 2]);
        assert(!paths::is_separator(server[k - 2], w));
    }
    if tail.len() > 0 {
        assert(p[i] == tail[0]);
    }
    if tail.len() > 1 {
        assert(p[i + 1] == tail[1]);
    }
    lemma_component(p, 2, i, false);
    if i + 1 <= p.len() {
        lemma_component(p, i + 1, i + 1, false);
    } else {
        paths::component_end_in_bounds(p, i + 1, false);
    }
    if p.len() >= 4 && (p[2] == '?' || p[2] == '.') {
        if server.len() == 0 {
            assert(p[2] == tail[0]);
        } else {
            assert(p[2] == server[0]);
            if server.len() == 1 {
                assert(server =~= seq![server[0]]);
            } else {
                assert(p[3] == server[1]);
                assert(!paths::is_separator(server[1], w));
            }
        }
    }
}

/// Two backslashes, a question mark and a backslash are put before a drive, or
/// before the letters of a share, a server and a share; they and these are the
/// prefix.
pub proof fn verbatim_paths_have_their_mark(
    c: char,
    server: Seq<char>,
    share: Seq<char>,
    rest: Seq<char>,
)
    requires
        rest.len() == 0 || rest[0] == '\\',
        laws::lacks(server, '\\'),
        laws::lacks(share, '\\'),
        share.len() > 0,
    ensures
        ('a' <= c <= 'z') || ('A' <= c <= 'Z') ==> {
            let p = seq!['\\', '\\', '?', '\\', c, ':'] + rest;
            &&& paths::prefix(p, Platform::Windows) == Prefix::Verbatim
            &&& paths::prefix_len(p, Platform::Windows) == 6
        },
        ({
            let p = seq!['\\', '\\', '?', '\\', 'U', 'N', 'C', '\\'] + server + seq!['\\'] + share
                + rest;
            &&& paths::prefix(p, Platform::Windows) == Prefix::Verbatim
            &&& paths::prefix_len(p, Platform::Windows) == 9 + server.len() + share.len()
        }),
{
    let p = seq!['\\', '\\', '?', '\\', c, ':'] + rest;
    assert(p[0] == '\\' && p[1] == '\\' && p[2] == '?' && p[3] == '\\' && p[4] == c && p[5] == ':');
    if rest.len() > 0 {
        assert(p[6] == '\\');
    }
    let q = seq!['\\', '\\', '?', '\\', 'U', 'N', 'C', '\\'] + server + seq!['\\'] + share + rest;
    assert(q[0] == '\\' && q[1] == '\\' && q[2] == '?' && q[3] == '\\');
    assert(q[4] == 'U' && q[5] == 'N' && q[6] == 'C' && q[7] == '\\');
    let (i, j) = ((8 + server.len()) as int, (9 + server.len() + share.len()) as int);
    assert(q[i] == '\\');
    assert forall|k: int| 8 <= k < i implies #[trigger] q[k] != '\\' by {
        assert(q[k] == server[k - 8]);
    }
    assert forall|k: int| i + 1 <= k < j implies #[trigger] q[k] != '\\' by {
        assert(q[k] == share[k - i - 1]);
    }
    if rest.len() > 0 {
        assert(q[j] == '\\');
    }
    lemma_component(q, 8, i, true);
    lemma_component(q, i + 1, j, true);
}

// ── walking in a verbatim path ──────────────────────────────────────────────

/// A step to a name goes into it, and two dots go back from a name, but not
/// from the beginning.
pub proof fn steps_are_walked_one_by_one(
    dir: Seq<Seq<char>>,
    steps: Seq<Seq<char>>,
    name: Seq<char>,
)
    ensures
        paths::walked(dir, seq![]) == dir,
        name != seq!['.', '.'] ==> paths::walked(dir, steps.push(name)) == paths::walked(
            dir,
            steps,
        ).push(name),
        ({
            let at = paths::walked(dir, steps);
            let back = paths::walked(dir, steps.push(seq!['.', '.']));
            &&& at.len() > 0 && at.last() != seq!['.'] && at.last() != seq!['.', '.'] ==> back
                == at.drop_last()
            &&& at.len() == 0 || at.last() == seq!['.'] || at.last() == seq!['.', '.'] ==> back
                == at
        }),
        name.len() > 0 && name != seq!['.'] && name != seq!['.', '.'] ==> paths::walked(
            dir,
            steps.push(name).push(seq!['.', '.']),
        ) == paths::walked(dir, steps),
{
    let up = seq!['.', '.'];
    assert(steps.push(name).drop_last() =~= steps);
    assert(steps.push(up).drop_last() =~= steps);
    let go = steps.push(name);
    assert(go.push(up).drop_last() =~= go);
    assert(go.push(up).last() == up);
    assert(steps.push(name).last() == name);
    assert(name != up ==> paths::walked(dir, go) == paths::walked(dir, steps).push(name));
    if name.len() > 0 && name != seq!['.'] && name != up {
        assert(paths::walked(dir, steps).push(name).drop_last() =~= paths::walked(dir, steps));
    }
}

/// The components of a path are what stands between its separators, without what
/// is empty and, but for a verbatim path, without single dots.
pub proof fn components_are_between_separators(
    a: Seq<char>,
    s: char,
    b: Seq<char>,
    seps: Separators,
)
    requires
        paths::parts_components(s, seps),
        forall|i: int| 0 <= i < a.len() ==> !paths::parts_components(#[trigger] a[i], seps),
    ensures
        ({
            let first = if a.len() == 0 || (a == seq!['.'] && seps != Separators::Backslash) {
                Seq::<Seq<char>>::empty()
            } else {
                seq![a]
            };
            &&& paths::components_from(a, 0, seps) == first
            &&& paths::components_from(a + seq![s] + b, 0, seps) == first
                + paths::components_from(b, 0, seps)
        }),
{
    let n = a.len() as int;
    lemma_next(a, seps, 0, n);
    assert(a.subrange(0, n) =~= a);
    assert(paths::components_from(a, n + 1, seps) =~= seq![]);
    let head = a + seq![s];
    let p = head + b;
    assert forall|k: int| 0 <= k < n implies !paths::parts_components(#[trigger] p[k], seps) by {
        assert(p[k] == a[k]);
    }
    assert(p[n] == s);
    lemma_next(p, seps, 0, n);
    assert(p.subrange(0, n) =~= a);
    lemma_components_shift(head, b, 0, seps);
    let first = if a.len() == 0 || (a == seq!['.'] && seps != Separators::Backslash) {
        Seq::<Seq<char>>::empty()
    } else {
        seq![a]
    };
    assert(paths::components_from(a, 0, seps) =~= first);
    assert(paths::components_from(p, 0, seps) =~= first + paths::components_from(b, 0, seps));
}

proof fn lemma_next(p: Seq<char>, seps: Separators, from: int, end: int)
    requires
        0 <= from <= end <= p.len(),
        end < p.len() ==> paths::parts_components(p[end], seps),
        forall|k: int| from <= k < end ==> !paths::parts_components(#[trigger] p[k], seps),
    ensures
        paths::next_separator(p, from, seps) == end,
    decreases end - from,
{
    if from < end {
        lemma_next(p, seps, from + 1, end);
    }
}

proof fn lemma_next_shift(head: Seq<char>, tail: Seq<char>, from: int, seps: Separators)
    requires
        0 <= from,
    ensures
        paths::next_separator(head + tail, head.len() + from, seps) == head.len()
            + paths::next_separator(tail, from, seps),
    decreases tail.len() - from,
{
    if from < tail.len() {
        assert((head + tail)[head.len() + from] == tail[from]);
        if !paths::parts_components(tail[from], seps) {
            lemma_next_shift(head, tail, from + 1, seps);
        }
    }
}

proof fn lemma_components_shift(head: Seq<char>, tail: Seq<char>, from: int, seps: Separators)
    requires
        0 <= from,
    ensures
        paths::components_from(head + tail, head.len() + from, seps) == paths::components_from(
            tail,
            from,
            seps,
        ),
    decreases tail.len() + 1 - from,
{
    if from < tail.len() {
        let p = head + tail;
        lemma_next_shift(head, tail, from, seps);
        paths::next_separator_in_bounds(tail, from, seps);
        let end = paths::next_separator(tail, from, seps);
        assert(p.subrange(head.len() + from, head.len() + end) =~= tail.subrange(from, end));
        lemma_components_shift(head, tail, end + 1, seps);
    }
}

/// Which characters part the components of a path.
pub proof fn components_are_parted(c: char, p: Seq<char>)
    ensures
        paths::parts_components(c, Separators::Slash) <==> c == '/',
        paths::parts_components(c, Separators::Both) <==> c == '/' || c == '\\',
        paths::parts_components(c, Separators::Backslash) <==> c == '\\',
        paths::separators(p, Platform::Unix) == Separators::Slash,
        paths::separators(p, Platform::Windows) == (if paths::prefix(p, Platform::Windows)
            == Prefix::Verbatim {
            Separators::Backslash
        } else {
            Separators::Both
        }),
{
}

/// After a verbatim path the components of another one are walked, and what is
/// come to is written with backslashes.
pub proof fn verbatim_paths_are_walked(base: Seq<char>, rel: Seq<char>)
    requires
        paths::prefix(base, Platform::Windows) == Prefix::Verbatim,
        paths::prefix(rel, Platform::Windows) == Prefix::Absent,
        rel.len() > 0,
        rel[0] != '/' && rel[0] != '\\',
    ensures
        ({
            let w = Platform::Windows;
            let head = base.take(paths::prefix_len(base, w));
            let within = paths::components_from(
                base,
                paths::body_start(base, w),
                Separators::Backslash,
            );
            let steps = paths::components_from(rel, paths::body_start(rel, w), Separators::Both);
            let names = paths::walked(within, steps);
            let r = paths::joined(base, rel, w);
            &&& names.len() > 0 ==> r == head + seq!['\\'] + lines::joined(names, seq!['\\'])
            &&& names.len() == 0 && base.len() == head.len() ==> r == base
        }),
        paths::joined(base, seq![], Platform::Windows) == (if base.len() == 0 || base.last() == '/'
            || base.last() == '\\' {
            base
        } else {
            base + seq!['\\']
        }),
{
    reveal_strlit("\\");
    assert("\\"@ =~= seq!['\\']);
    assert(base + seq![] =~= base);
    assert(base + seq!['\\'] + seq![] =~= base + seq!['\\']);
    paths::prefix_in_bounds(base, Platform::Windows);
    if base.len() == base.take(paths::prefix_len(base, Platform::Windows)).len() {
        assert(base.take(paths::prefix_len(base, Platform::Windows)) =~= base);
    }
}

/// A path of Windows has a root exactly where a separator follows its prefix, or
/// the prefix is that of a share or a verbatim one.
pub proof fn roots_follow_the_prefix(p: Seq<char>, platform: Platform)
    ensures
        paths::has_root(p, platform) <==> (p.len() > paths::prefix_len(p, platform)
            && paths::is_separator(p[paths::prefix_len(p, platform)], platform)) || paths::prefix(
            p,
            platform,
        ) == Prefix::Share || paths::prefix(p, platform) == Prefix::Verbatim,
{
}

/// A drive before a path from the root changes nothing of its name, and stands
/// before its directory.
pub proof fn drives_stand_before_the_path(c: char, rest: Seq<char>)
    requires
        ('a' <= c <= 'z') || ('A' <= c <= 'Z'),
        rest.len() > 0,
        rest[0] == '\\' || rest[0] == '/',
        paths::prefix(rest, Platform::Windows) is Absent,
    ensures
        ({
            let w = Platform::Windows;
            let p = seq![c, ':'] + rest;
            &&& paths::file_name(p, w) == paths::file_name(rest, w)
            &&& paths::parent(rest, w) matches Some(dir) ==> paths::parent(p, w) == Some(
                seq![c, ':'] + dir,
            )
            &&& paths::parent(rest, w) is None ==> paths::parent(p, w) is None
        }),
{
    let w = Platform::Windows;
    let head = seq![c, ':'];
    let p = head + rest;
    drives_are_letters_and_colons(c, rest, p);
    assert(p[2] == rest[0]);
    let seps = Separators::Both;
    let n = rest.len() as int;
    assert(paths::body_start(p, w) == 3 && paths::body_start(rest, w) == 1);
    lemma_trim_shift(head, rest, 1, n, seps);
    paths::trim_end_in_bounds(rest, 1, n, seps);
    let hi = paths::trim_end(rest, 1, n, seps);
    if hi > 1 {
        lemma_tail_shift(head, rest, 1, hi, seps);
        paths::tail_start_in_bounds(rest, 1, hi, seps);
        let t = paths::tail_start(rest, 1, hi, seps);
        assert(p.subrange(2 + t, 2 + hi) =~= rest.subrange(t, hi));
        lemma_trim_shift(head, rest, 1, paths::before_tail(1, t), seps);
        paths::trim_end_in_bounds(rest, 1, paths::before_tail(1, t), seps);
        let k = paths::trim_end(rest, 1, paths::before_tail(1, t), seps);
        assert(p.take(2 + k) =~= head + rest.take(k));
    }
}

proof fn lemma_tail_shift(head: Seq<char>, p: Seq<char>, lo: int, hi: int, seps: Separators)
    requires
        0 <= lo <= hi <= p.len(),
    ensures
        paths::tail_start(head + p, head.len() + lo, head.len() + hi, seps) == head.len()
            + paths::tail_start(p, lo, hi, seps),
    decreases hi - lo,
{
    if lo < hi {
        assert((head + p)[head.len() + hi - 1] == p[hi - 1]);
        lemma_tail_shift(head, p, lo, hi - 1, seps);
    }
}

proof fn lemma_trim_shift(head: Seq<char>, p: Seq<char>, lo: int, hi: int, seps: Separators)
    requires
        0 <= lo <= hi <= p.len(),
    ensures
        paths::trim_end(head + p, head.len() + lo, head.len() + hi, seps) == head.len()
            + paths::trim_end(p, lo, hi, seps),
    decreases hi - lo,
{
    if lo < hi {
        let h = head.len() as int;
        lemma_tail_shift(head, p, lo, hi, seps);
        paths::tail_start_in_bounds(p, lo, hi, seps);
        let t = paths::tail_start(p, lo, hi, seps);
        assert((head + p).subrange(h + t, h + hi) =~= p.subrange(t, hi));
        lemma_trim_shift(head, p, lo, paths::before_tail(lo, t), seps);
    }
}

} // verus!
