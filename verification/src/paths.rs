//! Paths as text. On Windows a backslash is a separator, too, and a path may
//! begin with a prefix: a drive, a network share, a device, or a verbatim one,
//! after which a slash is a character like any other.
use vstd::prelude::*;
use vstd::string::*;

use crate::lines::{self, join};
use crate::text::{self, append_range, chars_of, past_last_char};

verus! {

/// The two families of systems that paths, the shell and the search path
/// differ on.
#[derive(Debug, Clone, Copy, PartialEq, Eq, Structural)]
pub enum Platform {
    Unix,
    Windows,
}

/// A character that stands between two components of a path.
pub open spec fn is_separator(c: char, platform: Platform) -> bool {
    c == '/' || (platform is Windows && c == '\\')
}

/// The separator that is put in where one is needed.
pub open spec fn main_separator(platform: Platform) -> char {
    match platform {
        Platform::Unix => '/',
        Platform::Windows => '\\',
    }
}

// ── prefixes ────────────────────────────────────────────────────────────────

/// What a path on Windows may begin with.
#[derive(Debug, Clone, Copy, PartialEq, Eq, Structural)]
pub enum Prefix {
    /// Nothing special.
    Absent,
    /// A letter and a colon.
    Drive,
    /// Two separators, and then a server and its share, or a dot and a device.
    Share,
    /// Two backslashes, a question mark and a backslash, and what they are put
    /// before: a share, a drive, or one component.
    Verbatim,
}

/// A slash or a backslash.
pub open spec fn is_slash(c: char) -> bool {
    c == '/' || c == '\\'
}

/// A letter that can name a drive.
pub open spec fn is_drive_letter(c: char) -> bool {
    'a' <= c <= 'z' || 'A' <= c <= 'Z'
}

/// A drive stands in a path at position `i`.
pub open spec fn has_drive(p: Seq<char>, i: int) -> bool {
    i + 2 <= p.len() && is_drive_letter(p[i]) && p[i + 1] == ':'
}

/// Where the component ends that begins at `i`: before the next backslash or,
/// unless the path is verbatim, slash.
pub open spec fn component_end(p: Seq<char>, i: int, verbatim: bool) -> int
    decreases p.len() - i,
{
    if i < 0 || i >= p.len() || p[i] == '\\' || (p[i] == '/' && !verbatim) {
        i
    } else {
        component_end(p, i + 1, verbatim)
    }
}

/// Two slashes of either kind stand at the beginning of a path.
pub open spec fn has_two_slashes(p: Seq<char>) -> bool {
    p.len() >= 2 && is_slash(p[0]) && is_slash(p[1])
}

/// A path begins like a verbatim one. A slash will not do here.
pub open spec fn has_verbatim_mark(p: Seq<char>) -> bool {
    p.len() >= 4 && p[0] == '\\' && p[1] == '\\' && p[2] == '?' && p[3] == '\\'
}

/// A path begins like that of a device.
pub open spec fn has_device_mark(p: Seq<char>) -> bool {
    has_two_slashes(p) && p.len() >= 4 && p[2] == '.' && is_slash(p[3])
}

/// A verbatim path goes on like that of a share.
pub open spec fn has_share_mark(p: Seq<char>) -> bool {
    p.len() >= 8 && p[4] == 'U' && p[5] == 'N' && p[6] == 'C' && is_slash(p[7])
}

/// Where the name of a server ends that begins at `i`, together with that of
/// its share, where one follows.
pub open spec fn share_end(p: Seq<char>, i: int, verbatim: bool) -> int {
    let server = component_end(p, i, verbatim);
    let share = component_end(p, server + 1, verbatim);
    if server + 1 < share {
        share
    } else {
        server
    }
}

/// A server and its share, neither without a name, follow two slashes.
pub open spec fn has_share(p: Seq<char>) -> bool {
    let server = component_end(p, 2, false);
    2 < server && server + 1 < component_end(p, server + 1, false)
}

/// What a path begins with.
pub open spec fn prefix(p: Seq<char>, platform: Platform) -> Prefix {
    if platform is Unix {
        Prefix::Absent
    } else if has_verbatim_mark(p) {
        Prefix::Verbatim
    } else if has_device_mark(p) {
        Prefix::Share
    } else if has_two_slashes(p) {
        if has_share(p) {
            Prefix::Share
        } else {
            Prefix::Absent
        }
    } else if has_drive(p, 0) {
        Prefix::Drive
    } else {
        Prefix::Absent
    }
}

/// How many characters of a path its prefix takes.
pub open spec fn prefix_len(p: Seq<char>, platform: Platform) -> int {
    match prefix(p, platform) {
        Prefix::Absent => 0,
        Prefix::Drive => 2,
        Prefix::Share => if has_device_mark(p) {
            component_end(p, 4, false)
        } else {
            share_end(p, 2, false)
        },
        Prefix::Verbatim => if has_share_mark(p) {
            share_end(p, 8, true)
        } else if has_drive(p, 4) && (p.len() == 6 || is_slash(p[6])) {
            6
        } else {
            component_end(p, 4, true)
        },
    }
}

/// `component_end` does not go back, and stays within the path.
pub proof fn component_end_in_bounds(p: Seq<char>, i: int, verbatim: bool)
    ensures
        i <= component_end(p, i, verbatim),
        0 <= i <= p.len() ==> component_end(p, i, verbatim) <= p.len(),
        i > p.len() ==> component_end(p, i, verbatim) == i,
    decreases p.len() - i,
{
    if 0 <= i < p.len() && !(p[i] == '\\' || (p[i] == '/' && !verbatim)) {
        component_end_in_bounds(p, i + 1, verbatim);
    }
}

/// A prefix is a part of its path.
pub proof fn prefix_in_bounds(p: Seq<char>, platform: Platform)
    ensures
        0 <= prefix_len(p, platform) <= p.len(),
{
    component_end_in_bounds(p, 4, false);
    component_end_in_bounds(p, 4, true);
    lemma_share_end_in_bounds(p, 2, false);
    lemma_share_end_in_bounds(p, 8, true);
}

proof fn lemma_share_end_in_bounds(p: Seq<char>, i: int, verbatim: bool)
    ensures
        0 <= i <= p.len() ==> i <= share_end(p, i, verbatim) <= p.len(),
{
    component_end_in_bounds(p, i, verbatim);
    component_end_in_bounds(p, component_end(p, i, verbatim) + 1, verbatim);
}

/// A path goes on from a root after its prefix.
pub open spec fn has_written_root(p: Seq<char>, platform: Platform) -> bool {
    let q = prefix_len(p, platform);
    p.len() > q && is_separator(p[q], platform)
}

/// A path begins at a root: a written one, or that of a share, a device or a
/// verbatim prefix.
pub open spec fn has_root(p: Seq<char>, platform: Platform) -> bool {
    has_written_root(p, platform) || prefix(p, platform) is Share || prefix(
        p,
        platform,
    ) is Verbatim
}

/// A path begins, after its drive if it has one, with a dot that stands for the
/// current directory.
pub open spec fn has_leading_dot(p: Seq<char>, platform: Platform) -> bool {
    let q = prefix_len(p, platform);
    !has_root(p, platform) && p.len() > q && p[q] == '.' && (p.len() == q + 1 || is_separator(
        p[q + 1],
        platform,
    ))
}

/// Where the components of a path begin: after its prefix, and after the root
/// or a leading dot.
pub open spec fn body_start(p: Seq<char>, platform: Platform) -> int {
    let q = prefix_len(p, platform);
    if has_written_root(p, platform) || has_leading_dot(p, platform) {
        q + 1
    } else {
        q
    }
}

// ── components ──────────────────────────────────────────────────────────────

/// What parts the components of a path from one another.
#[derive(Debug, Clone, Copy, PartialEq, Eq, Structural)]
pub enum Separators {
    Slash,
    Both,
    /// In a verbatim path, in which a dot is a component, too.
    Backslash,
}

/// What parts the components of the given path.
pub open spec fn separators(p: Seq<char>, platform: Platform) -> Separators {
    if platform is Unix {
        Separators::Slash
    } else if prefix(p, platform) is Verbatim {
        Separators::Backslash
    } else {
        Separators::Both
    }
}

/// A character that parts two components.
pub open spec fn parts_components(c: char, seps: Separators) -> bool {
    match seps {
        Separators::Slash => c == '/',
        Separators::Both => is_slash(c),
        Separators::Backslash => c == '\\',
    }
}

/// Where the last component of `p[lo..hi]` begins: after its last separator.
pub open spec fn tail_start(p: Seq<char>, lo: int, hi: int, seps: Separators) -> int
    decreases hi - lo,
{
    if hi <= lo || parts_components(p[hi - 1], seps) {
        hi
    } else {
        tail_start(p, lo, hi - 1, seps)
    }
}

/// Where `p[lo..hi]` ends without its last component, which begins at `t`,
/// and without the separator before it.
pub open spec fn before_tail(lo: int, t: int) -> int {
    if t > lo {
        t - 1
    } else {
        t
    }
}

/// A component that names nothing: an empty one or, unless the path is
/// verbatim, a single dot.
pub open spec fn is_void(c: Seq<char>, seps: Separators) -> bool {
    c.len() == 0 || (c == seq!['.'] && !(seps is Backslash))
}

/// `tail_start` stays within its bounds.
pub proof fn tail_start_in_bounds(p: Seq<char>, lo: int, hi: int, seps: Separators)
    requires
        lo <= hi,
    ensures
        lo <= tail_start(p, lo, hi, seps) <= hi,
    decreases hi - lo,
{
    if hi > lo && !parts_components(p[hi - 1], seps) {
        tail_start_in_bounds(p, lo, hi - 1, seps);
    }
}

/// Where `p[..hi]` ends without the void components at its end.
pub open spec fn trim_end(p: Seq<char>, lo: int, hi: int, seps: Separators) -> int
    decreases hi - lo,
{
    proof {
        if lo < hi {
            tail_start_in_bounds(p, lo, hi, seps);
        }
    }
    if hi <= lo {
        hi
    } else {
        let t = tail_start(p, lo, hi, seps);
        if is_void(p.subrange(t, hi), seps) {
            trim_end(p, lo, before_tail(lo, t), seps)
        } else {
            hi
        }
    }
}

/// `trim_end` does not go below `lo`.
pub proof fn trim_end_in_bounds(p: Seq<char>, lo: int, hi: int, seps: Separators)
    requires
        lo <= hi,
    ensures
        lo <= trim_end(p, lo, hi, seps) <= hi,
    decreases hi - lo,
{
    if lo < hi {
        tail_start_in_bounds(p, lo, hi, seps);
        let t = tail_start(p, lo, hi, seps);
        if is_void(p.subrange(t, hi), seps) {
            trim_end_in_bounds(p, lo, before_tail(lo, t), seps);
        }
    }
}

/// A component that stands for a directory, and is no name: the current or the
/// parent one.
pub open spec fn is_dots(c: Seq<char>) -> bool {
    c == seq!['.'] || c == seq!['.', '.']
}

/// The last component of a path, if it is a name.
pub open spec fn file_name(p: Seq<char>, platform: Platform) -> Option<Seq<char>> {
    let seps = separators(p, platform);
    let lo = body_start(p, platform);
    let hi = trim_end(p, lo, p.len() as int, seps);
    if hi <= lo {
        None
    } else {
        let name = p.subrange(tail_start(p, lo, hi, seps), hi);
        if is_dots(name) {
            None
        } else {
            Some(name)
        }
    }
}

/// A path without its last component. The root has no parent, nor has a prefix
/// or the empty path.
pub open spec fn parent(p: Seq<char>, platform: Platform) -> Option<Seq<char>> {
    let seps = separators(p, platform);
    let lo = body_start(p, platform);
    let hi = trim_end(p, lo, p.len() as int, seps);
    if hi > lo {
        let t = tail_start(p, lo, hi, seps);
        Some(p.take(trim_end(p, lo, before_tail(lo, t), seps)))
    } else if prefix(p, platform) is Absent && has_leading_dot(p, platform) {
        Some(seq![])
    } else {
        None
    }
}

/// A parent is shorter than the path.
pub proof fn parent_is_shorter(p: Seq<char>, platform: Platform)
    ensures
        parent(p, platform) matches Some(q) ==> q.len() < p.len() && q.is_prefix_of(p),
{
    let seps = separators(p, platform);
    let lo = body_start(p, platform);
    prefix_in_bounds(p, platform);
    trim_end_in_bounds(p, lo, p.len() as int, seps);
    let hi = trim_end(p, lo, p.len() as int, seps);
    if hi > lo {
        tail_start_in_bounds(p, lo, hi, seps);
        let t = tail_start(p, lo, hi, seps);
        lemma_trimmed_tail(p, lo, p.len() as int, seps);
        trim_end_in_bounds(p, lo, before_tail(lo, t), seps);
    }
}

/// Where `trim_end` stops above `lo`, a component that is not void ends.
proof fn lemma_trimmed_tail(p: Seq<char>, lo: int, hi: int, seps: Separators)
    requires
        0 <= lo <= hi <= p.len(),
        trim_end(p, lo, hi, seps) > lo,
    ensures
        ({
            let e = trim_end(p, lo, hi, seps);
            tail_start(p, lo, e, seps) < e
        }),
    decreases hi - lo,
{
    tail_start_in_bounds(p, lo, hi, seps);
    let t = tail_start(p, lo, hi, seps);
    if is_void(p.subrange(t, hi), seps) {
        lemma_trimmed_tail(p, lo, before_tail(lo, t), seps);
    } else if t == hi {
        assert(p.subrange(t, hi).len() == 0);
    }
}

/// What follows the last dot of a file name, unless that dot is its first
/// character.
pub open spec fn name_extension(name: Seq<char>) -> Option<Seq<char>> {
    let d = text::last_char(name, '.', name.len() as int);
    if d > 0 {
        Some(name.skip(d + 1))
    } else {
        None
    }
}

/// The extension of the last component of a path.
pub open spec fn extension(p: Seq<char>, platform: Platform) -> Option<Seq<char>> {
    match file_name(p, platform) {
        Some(name) => name_extension(name),
        None => None,
    }
}

/// A path and its parents, up to the one that has none.
pub open spec fn ancestors(p: Seq<char>, platform: Platform) -> Seq<Seq<char>>
    decreases p.len(),
{
    proof {
        parent_is_shorter(p, platform);
    }
    match parent(p, platform) {
        Some(q) => seq![p] + ancestors(q, platform),
        None => seq![p],
    }
}

// ── joining ─────────────────────────────────────────────────────────────────

/// The position of the first separator at or after `from`, or the end.
pub open spec fn next_separator(p: Seq<char>, from: int, seps: Separators) -> int
    decreases p.len() - from,
{
    if from < 0 || from >= p.len() || parts_components(p[from], seps) {
        from
    } else {
        next_separator(p, from + 1, seps)
    }
}

/// `next_separator` does not go back, and stays within the path.
pub proof fn next_separator_in_bounds(p: Seq<char>, from: int, seps: Separators)
    ensures
        from <= next_separator(p, from, seps),
        0 <= from <= p.len() ==> next_separator(p, from, seps) <= p.len(),
    decreases p.len() - from,
{
    if 0 <= from < p.len() && !parts_components(p[from], seps) {
        next_separator_in_bounds(p, from + 1, seps);
    }
}

/// The components of a path from position `from` on, without the void ones.
pub open spec fn components_from(p: Seq<char>, from: int, seps: Separators) -> Seq<Seq<char>>
    decreases p.len() + 1 - from,
{
    proof {
        next_separator_in_bounds(p, from, seps);
    }
    if from < 0 || from >= p.len() {
        seq![]
    } else {
        let end = next_separator(p, from, seps);
        let rest = components_from(p, end + 1, seps);
        let c = p.subrange(from, end);
        if is_void(c, seps) {
            rest
        } else {
            seq![c] + rest
        }
    }
}

/// Where the components `steps` lead from the directory `dir`, one after the
/// other. Two dots lead back from a name, and nowhere else.
pub open spec fn walked(dir: Seq<Seq<char>>, steps: Seq<Seq<char>>) -> Seq<Seq<char>>
    decreases steps.len(),
{
    if steps.len() == 0 {
        dir
    } else {
        let at = walked(dir, steps.drop_last());
        if steps.last() == seq!['.', '.'] {
            if at.len() > 0 && !is_dots(at.last()) {
                at.drop_last()
            } else {
                at
            }
        } else {
            at.push(steps.last())
        }
    }
}

/// `rel`, which has no prefix, seen from the verbatim path `base`: put together
/// anew from the components, since dots have no meaning there.
pub open spec fn verbatim_joined(base: Seq<char>, rel: Seq<char>) -> Seq<char> {
    let w = Platform::Windows;
    let head = base.take(prefix_len(base, w));
    let rooted = has_written_root(base, w) || has_written_root(rel, w);
    let dir = if has_written_root(rel, w) {
        seq![]
    } else {
        components_from(base, body_start(base, w), Separators::Backslash)
    };
    let names = walked(dir, components_from(rel, body_start(rel, w), Separators::Both));
    if rooted || names.len() > 0 {
        head + "\\"@ + lines::joined(names, "\\"@)
    } else {
        head
    }
}

/// `rel`, seen from `base`. A path with a prefix stands for itself, and one
/// that begins at the root keeps the prefix of `base`.
pub open spec fn joined(base: Seq<char>, rel: Seq<char>, platform: Platform) -> Seq<char> {
    let q = prefix_len(base, platform);
    if !(prefix(rel, platform) is Absent) {
        rel
    } else if prefix(base, platform) is Verbatim && rel.len() > 0 {
        verbatim_joined(base, rel)
    } else if has_root(rel, platform) {
        base.take(q) + rel
    } else if base.len() == 0 || is_separator(base.last(), platform) || (prefix(
        base,
        platform,
    ) is Drive && base.len() == q) {
        base + rel
    } else {
        base + seq![main_separator(platform)] + rel
    }
}

// ── executable ──────────────────────────────────────────────────────────────

fn separator(c: char, platform: Platform) -> (r: bool)
    ensures
        r == is_separator(c, platform),
{
    c == '/' || (platform == Platform::Windows && c == '\\')
}

fn slash(c: char) -> (r: bool)
    ensures
        r == is_slash(c),
{
    c == '/' || c == '\\'
}

fn drive_at(v: &[char], i: usize) -> (r: bool)
    requires
        i <= v@.len(),
    ensures
        r == has_drive(v@, i as int),
{
    v.len() - i >= 2 && (('a' <= v[i] && v[i] <= 'z') || ('A' <= v[i] && v[i] <= 'Z')) && v[i + 1]
        == ':'
}

fn end_of_component(v: &[char], i: usize, verbatim: bool) -> (e: usize)
    requires
        i <= v@.len(),
    ensures
        e == component_end(v@, i as int, verbatim),
        i <= e <= v@.len(),
{
    let mut e = i;
    while e < v.len() && v[e] != '\\' && (v[e] != '/' || verbatim)
        invariant
            i <= e <= v@.len(),
            component_end(v@, i as int, verbatim) == component_end(v@, e as int, verbatim),
        decreases v@.len() - e,
    {
        e += 1;
    }
    e
}

fn end_of_share(v: &[char], i: usize, verbatim: bool) -> (e: usize)
    requires
        i <= v@.len(),
    ensures
        e == share_end(v@, i as int, verbatim),
        i <= e <= v@.len(),
{
    let server = end_of_component(v, i, verbatim);
    if server == v.len() {
        proof {
            component_end_in_bounds(v@, server + 1, verbatim);
        }
        return server;
    }
    let share = end_of_component(v, server + 1, verbatim);
    if server + 1 < share {
        share
    } else {
        server
    }
}

/// What a path begins with, and how many characters that takes.
fn prefix_of(v: &[char], platform: Platform) -> (r: (Prefix, usize))
    ensures
        r.0 == prefix(v@, platform),
        r.1 == prefix_len(v@, platform),
        r.1 <= v@.len(),
{
    let n = v.len();
    if platform == Platform::Unix {
        return (Prefix::Absent, 0);
    }
    if n >= 4 && v[0] == '\\' && v[1] == '\\' && v[2] == '?' && v[3] == '\\' {
        let len = if n >= 8 && v[4] == 'U' && v[5] == 'N' && v[6] == 'C' && slash(v[7]) {
            end_of_share(v, 8, true)
        } else if drive_at(v, 4) && (n == 6 || slash(v[6])) {
            6
        } else {
            end_of_component(v, 4, true)
        };
        return (Prefix::Verbatim, len);
    }
    if n >= 2 && slash(v[0]) && slash(v[1]) {
        if n >= 4 && v[2] == '.' && slash(v[3]) {
            return (Prefix::Share, end_of_component(v, 4, false));
        }
        let server = end_of_component(v, 2, false);
        let share = end_of_share(v, 2, false);
        proof {
            component_end_in_bounds(v@, server + 1, false);
        }
        if 2 < server && server < share {
            return (Prefix::Share, share);
        }
        return (Prefix::Absent, 0);
    }
    if drive_at(v, 0) {
        (Prefix::Drive, 2)
    } else {
        (Prefix::Absent, 0)
    }
}

fn rooted(v: &[char], platform: Platform) -> (r: bool)
    ensures
        r == has_written_root(v@, platform),
{
    let q = prefix_of(v, platform).1;
    v.len() > q && separator(v[q], platform)
}

fn dotted(v: &[char], platform: Platform) -> (r: bool)
    ensures
        r == has_leading_dot(v@, platform),
{
    let (kind, q) = prefix_of(v, platform);
    !rooted(v, platform) && kind != Prefix::Share && kind != Prefix::Verbatim && v.len() > q && v[q]
        == '.' && (v.len() - q == 1 || separator(v[q + 1], platform))
}

fn body_of(v: &[char], platform: Platform) -> (lo: usize)
    ensures
        lo == body_start(v@, platform),
        lo <= v@.len(),
{
    let q = prefix_of(v, platform).1;
    assert(v@.len() == v.len());
    if rooted(v, platform) || dotted(v, platform) {
        q + 1
    } else {
        q
    }
}

fn separators_of(v: &[char], platform: Platform) -> (seps: Separators)
    ensures
        seps == separators(v@, platform),
{
    if platform == Platform::Unix {
        Separators::Slash
    } else if prefix_of(v, platform).0 == Prefix::Verbatim {
        Separators::Backslash
    } else {
        Separators::Both
    }
}

fn parts(c: char, seps: Separators) -> (r: bool)
    ensures
        r == parts_components(c, seps),
{
    match seps {
        Separators::Slash => c == '/',
        Separators::Both => slash(c),
        Separators::Backslash => c == '\\',
    }
}

/// Whether `v[from..to]` names nothing.
fn void(v: &[char], from: usize, to: usize, seps: Separators) -> (r: bool)
    requires
        from <= to <= v@.len(),
    ensures
        r == is_void(v@.subrange(from as int, to as int), seps),
{
    let ghost c = v@.subrange(from as int, to as int);
    if from == to {
        return true;
    }
    if to - from == 1 && v[from] == '.' {
        assert(c =~= seq!['.']);
        return seps != Separators::Backslash;
    }
    assert(c.len() == to - from && c[0] == v@[from as int]);
    assert(c != seq!['.']) by {
        if c == seq!['.'] {
            assert(c.len() == 1 && c[0] == '.');
        }
    }
    false
}

/// Whether `v[from..to]` is one dot or two.
fn dots(v: &[char], from: usize, to: usize) -> (r: bool)
    requires
        from <= to <= v@.len(),
    ensures
        r == is_dots(v@.subrange(from as int, to as int)),
{
    let ghost c = v@.subrange(from as int, to as int);
    if to - from == 1 && v[from] == '.' {
        assert(c =~= seq!['.']);
        return true;
    }
    if to - from == 2 && v[from] == '.' && v[from + 1] == '.' {
        assert(c =~= seq!['.', '.']);
        return true;
    }
    assert(c.len() >= 1 ==> c[0] == v@[from as int]);
    assert(c.len() >= 2 ==> c[1] == v@[from + 1]);
    false
}

fn tail_of(v: &[char], lo: usize, hi: usize, seps: Separators) -> (t: usize)
    requires
        lo <= hi <= v.len(),
    ensures
        t == tail_start(v@, lo as int, hi as int, seps),
        lo <= t <= hi,
{
    let mut t = hi;
    while t > lo && !parts(v[t - 1], seps)
        invariant
            lo <= t <= hi <= v.len(),
            tail_start(v@, lo as int, hi as int, seps) == tail_start(
                v@,
                lo as int,
                t as int,
                seps,
            ),
        decreases t,
    {
        t -= 1;
    }
    t
}

fn end_of(v: &[char], lo: usize, hi: usize, seps: Separators) -> (e: usize)
    requires
        lo <= hi <= v.len(),
    ensures
        e == trim_end(v@, lo as int, hi as int, seps),
        lo <= e <= hi,
{
    let mut e = hi;
    loop
        invariant
            lo <= e <= hi <= v.len(),
            trim_end(v@, lo as int, hi as int, seps) == trim_end(v@, lo as int, e as int, seps),
        decreases e,
    {
        if e == lo {
            return e;
        }
        let t = tail_of(v, lo, e, seps);
        if !void(v, t, e, seps) {
            return e;
        }
        e = if t > lo {
            t - 1
        } else {
            t
        };
    }
}

/// The last component of a path, if it is a name.
pub fn path_file_name(p: &str, platform: Platform) -> (r: Option<String>)
    ensures
        text::opt_text(r) == file_name(p@, platform),
{
    let v = chars_of(p);
    let seps = separators_of(&v, platform);
    let lo = body_of(&v, platform);
    let hi = end_of(&v, lo, v.len(), seps);
    if hi <= lo {
        return None;
    }
    let t = tail_of(&v, lo, hi, seps);
    if dots(&v, t, hi) {
        return None;
    }
    let mut s = String::new();
    append_range(&mut s, &v, t, hi);
    assert(s@ =~= v@.subrange(t as int, hi as int));
    Some(s)
}

/// A path without its last component.
pub fn path_parent(p: &str, platform: Platform) -> (r: Option<String>)
    ensures
        text::opt_text(r) == parent(p@, platform),
{
    let v = chars_of(p);
    let seps = separators_of(&v, platform);
    let lo = body_of(&v, platform);
    let hi = end_of(&v, lo, v.len(), seps);
    if hi > lo {
        let t = tail_of(&v, lo, hi, seps);
        let cut: usize = if t > lo {
            t - 1
        } else {
            t
        };
        let e = end_of(&v, lo, cut, seps);
        let mut s = String::new();
        append_range(&mut s, &v, 0, e);
        assert(s@ =~= p@.take(e as int));
        Some(s)
    } else if prefix_of(&v, platform).0 == Prefix::Absent && dotted(&v, platform) {
        Some(String::new())
    } else {
        None
    }
}

/// The extension of the last component of a path.
pub fn path_extension(p: &str, platform: Platform) -> (r: Option<String>)
    ensures
        text::opt_text(r) == extension(p@, platform),
{
    match path_file_name(p, platform) {
        None => None,
        Some(name) => {
            let v = chars_of(name.as_str());
            let d = past_last_char(&v, '.');
            if d <= 1 {
                return None;
            }
            let mut s = String::new();
            append_range(&mut s, &v, d, v.len());
            assert(s@ =~= v@.skip(d as int));
            Some(s)
        },
    }
}

fn split_components(v: &[char], from: usize, seps: Separators) -> (out: Vec<String>)
    requires
        from <= v@.len(),
    ensures
        text::texts(out@) == components_from(v@, from as int, seps),
{
    let mut out: Vec<String> = Vec::new();
    let mut pos = from;
    let ghost all = components_from(v@, from as int, seps);
    assert(text::texts(out@) + all =~= all);
    while pos < v.len()
        invariant
            from <= pos <= v@.len(),
            all == components_from(v@, from as int, seps),
            text::texts(out@) + components_from(v@, pos as int, seps) == all,
        decreases v@.len() - pos,
    {
        let ghost before = out@;
        let mut end = pos;
        while end < v.len() && !parts(v[end], seps)
            invariant
                pos <= end <= v@.len(),
                next_separator(v@, pos as int, seps) == next_separator(v@, end as int, seps),
            decreases v@.len() - end,
        {
            end += 1;
        }
        let ghost rest = components_from(v@, end + 1, seps);
        if !void(v, pos, end, seps) {
            let mut c = String::new();
            append_range(&mut c, v, pos, end);
            assert(c@ =~= v@.subrange(pos as int, end as int));
            out.push(c);
            assert(text::texts(out@) =~= text::texts(before).push(c@));
            assert(text::texts(before) + (seq![c@] + rest) =~= text::texts(out@) + rest);
        }
        if end == v.len() {
            assert(text::texts(out@) + rest =~= text::texts(out@));
            return out;
        }
        pos = end + 1;
    }
    assert(text::texts(out@) + components_from(v@, pos as int, seps) =~= text::texts(out@));
    out
}

fn walk(dir: Vec<String>, steps: Vec<String>) -> (out: Vec<String>)
    ensures
        text::texts(out@) == walked(text::texts(dir@), text::texts(steps@)),
{
    let ghost all = text::texts(steps@);
    let ghost first = text::texts(dir@);
    let mut out = dir;
    assert(all.take(0) =~= seq![]);
    for step in it: steps
        invariant
            it.seq() == steps@,
            all == text::texts(steps@),
            text::texts(out@) == walked(first, all.take(it.index())),
    {
        let ghost before = out@;
        proof {
            let now = all.take(it.index() + 1);
            assert(now.drop_last() =~= all.take(it.index()));
            assert(now.last() == step@);
        }
        let v = chars_of(step.as_str());
        if v.len() == 2 && v[0] == '.' && v[1] == '.' {
            assert(step@ =~= seq!['.', '.']);
            if out.len() > 0 {
                let last = chars_of(out[out.len() - 1].as_str());
                assert(text::texts(before).last() == last@);
                assert(last@.subrange(0, last@.len() as int) =~= last@);
                if !dots(&last, 0, last.len()) {
                    out.pop();
                    assert(text::texts(out@) =~= text::texts(before).drop_last());
                }
            }
        } else {
            assert(step@ != seq!['.', '.']) by {
                if step@ == seq!['.', '.'] {
                    assert(v@[0] == '.' && v@[1] == '.' && v@.len() == 2);
                }
            }
            out.push(step);
            assert(text::texts(out@) =~= text::texts(before).push(step@));
        }
    }
    assert(all.take(all.len() as int) =~= all);
    out
}

fn join_verbatim(bv: &[char], rv: &[char]) -> (r: String)
    ensures
        r@ == verbatim_joined(bv@, rv@),
{
    let w = Platform::Windows;
    let mut r = String::new();
    append_range(&mut r, bv, 0, prefix_of(bv, w).1);
    assert(r@ =~= bv@.take(prefix_len(bv@, w)));
    let anew = rooted(rv, w);
    let dir = if anew {
        let none: Vec<String> = Vec::new();
        assert(text::texts(none@) =~= seq![]);
        none
    } else {
        split_components(bv, body_of(bv, w), Separators::Backslash)
    };
    let names = walk(dir, split_components(rv, body_of(rv, w), Separators::Both));
    assert(text::texts(names@).len() == names@.len());
    if anew || rooted(bv, w) || names.len() > 0 {
        r.append("\\");
        r.append(join(&names, "\\").as_str());
    }
    r
}

/// `rel`, seen from `base`.
pub fn path_join(base: &str, rel: &str, platform: Platform) -> (r: String)
    ensures
        r@ == joined(base@, rel@, platform),
{
    let bv = chars_of(base);
    let rv = chars_of(rel);
    let (kind, q) = prefix_of(&bv, platform);
    if prefix_of(&rv, platform).0 != Prefix::Absent {
        return rel.to_owned();
    }
    if kind == Prefix::Verbatim && rv.len() > 0 {
        return join_verbatim(&bv, &rv);
    }
    let mut r = String::new();
    if rooted(&rv, platform) {
        append_range(&mut r, &bv, 0, q);
        r.append(rel);
        assert(r@ =~= base@.take(q as int) + rel@);
        return r;
    }
    r.append(base);
    if bv.len() > 0 && !separator(bv[bv.len() - 1], platform) && !(kind == Prefix::Drive && bv.len()
        == q) {
        r.push(
            match platform {
                Platform::Unix => '/',
                Platform::Windows => '\\',
            },
        );
    }
    r.append(rel);
    assert(r@ =~= joined(base@, rel@, platform));
    r
}

// ── laws ────────────────────────────────────────────────────────────────────

/// Every one of a path's ancestors is a beginning of the path.
pub proof fn ancestors_are_prefixes(p: Seq<char>, k: int, platform: Platform)
    requires
        0 <= k < ancestors(p, platform).len(),
    ensures
        ancestors(p, platform)[k].is_prefix_of(p),
    decreases p.len(),
{
    parent_is_shorter(p, platform);
    if k > 0 {
        let q = parent(p, platform).unwrap();
        assert(ancestors(p, platform)[k] == ancestors(q, platform)[k - 1]);
        ancestors_are_prefixes(q, k - 1, platform);
    }
}

} // verus!
