//! Directories drawn as trees.
use vstd::prelude::*;
use vstd::string::*;

use crate::number::{self, to_decimal};
use crate::order::{self, in_order};

verus! {

/// How deep a tree goes at most.
pub const MAX_DIR_DEPTH: usize = 5;

/// How deep a tree goes when nothing else is asked for.
pub const DEFAULT_DIR_DEPTH: usize = 3;

/// How many entries of a directory are drawn.
pub const MAX_DIR_ITEMS: usize = 50;

/// What a directory holds.
#[derive(Debug)]
pub enum Listing {
    /// It could not be read.
    Denied,
    /// Its entries.
    Entries(Vec<Entry>),
}

/// An entry of a directory. What is below it counts only where it is a
/// directory that is opened.
#[derive(Debug)]
pub struct Entry {
    pub name: String,
    /// The name as the system has it, which need not be text.
    pub raw: Vec<u8>,
    pub is_dir: bool,
    /// By which it is found again, to be read.
    pub id: usize,
    pub below: Listing,
}

/// An entry of a directory, of which it is not known yet what is below it.
#[derive(Debug)]
pub struct Found {
    pub name: String,
    /// The name as the system has it, which need not be text.
    pub raw: Vec<u8>,
    pub is_dir: bool,
    /// By which it is found again, to be read.
    pub id: usize,
}

// ── depth ───────────────────────────────────────────────────────────────────

/// The depth of a tree when `asked` is the depth that was asked for.
pub open spec fn tree_depth(asked: Option<usize>) -> usize {
    let depth = match asked {
        Some(d) => d,
        None => DEFAULT_DIR_DEPTH,
    };
    if depth < MAX_DIR_DEPTH {
        depth
    } else {
        MAX_DIR_DEPTH
    }
}

/// The depth of a tree when `asked` is the depth that was asked for.
pub fn clamp_depth(asked: Option<usize>) -> (depth: usize)
    ensures
        depth == tree_depth(asked),
{
    let depth = match asked {
        Some(d) => d,
        None => DEFAULT_DIR_DEPTH,
    };
    if depth < MAX_DIR_DEPTH {
        depth
    } else {
        MAX_DIR_DEPTH
    }
}

/// A tree is never deeper than `MAX_DIR_DEPTH`.
pub proof fn depth_is_bounded(asked: Option<usize>)
    ensures
        tree_depth(asked) <= MAX_DIR_DEPTH,
        asked matches Some(d) ==> d <= MAX_DIR_DEPTH ==> tree_depth(asked) == d,
{
}

// ── drawing ─────────────────────────────────────────────────────────────────

/// Entry `i` of a directory with `total` entries is the last thing drawn.
pub open spec fn is_last(i: int, total: int) -> bool {
    i == total - 1 && total <= MAX_DIR_ITEMS
}

/// How many of `total` entries are drawn.
pub open spec fn shown_count(total: int) -> int {
    if total < MAX_DIR_ITEMS {
        total
    } else {
        MAX_DIR_ITEMS as int
    }
}

/// The line of an entry.
pub open spec fn entry_line(name: Seq<char>, is_dir: bool, last: bool, prefix: Seq<char>) -> Seq<
    char,
> {
    prefix + (if last {
        "└── "@
    } else {
        "├── "@
    }) + name + (if is_dir {
        "/\n"@
    } else {
        "\n"@
    })
}

/// What stands before the lines below an entry.
pub open spec fn inner_prefix(prefix: Seq<char>, last: bool) -> Seq<char> {
    prefix + (if last {
        "    "@
    } else {
        "│   "@
    })
}

/// The tree of a directory at the given depth, each line with `prefix` before
/// it.
pub open spec fn tree_text(
    listing: Listing,
    prefix: Seq<char>,
    depth: int,
    max_depth: int,
) -> Seq<char>
    decreases listing, 0int,
{
    if depth > max_depth {
        prefix + "└── ... (max depth reached)\n"@
    } else {
        match listing {
            Listing::Denied => prefix + "└── [access denied]\n"@,
            Listing::Entries(v) => {
                let total = v@.len() as int;
                entries_text(v@, shown_count(total), prefix, depth, max_depth) + (if total
                    > MAX_DIR_ITEMS {
                    prefix + "└── ... ("@ + number::decimal((total - MAX_DIR_ITEMS) as nat)
                        + " more items)\n"@
                } else {
                    seq![]
                })
            },
        }
    }
}

/// The lines of the first `n` entries of a directory, with what is below them.
pub open spec fn entries_text(
    es: Seq<Entry>,
    n: int,
    prefix: Seq<char>,
    depth: int,
    max_depth: int,
) -> Seq<char>
    decreases es, n,
{
    if n <= 0 || n > es.len() {
        seq![]
    } else {
        let e = es[n - 1];
        let last = is_last(n - 1, es.len() as int);
        entries_text(es, n - 1, prefix, depth, max_depth) + entry_line(
            e.name@,
            e.is_dir,
            last,
            prefix,
        ) + (if e.is_dir && depth < max_depth {
            tree_text(e.below, inner_prefix(prefix, last), depth + 1, max_depth)
        } else {
            seq![]
        })
    }
}

fn draw_entry(name: &str, is_dir: bool, last: bool, prefix: &str) -> (s: String)
    ensures
        s@ == entry_line(name@, is_dir, last, prefix@),
{
    let mut s = prefix.to_owned();
    s.append(
        if last {
            "└── "
        } else {
            "├── "
        },
    );
    s.append(name);
    s.append(
        if is_dir {
            "/\n"
        } else {
            "\n"
        },
    );
    s
}

/// The tree of a directory at the given depth, each line with `prefix` before
/// it.
pub fn build_tree(listing: &Listing, prefix: &str, depth: usize, max_depth: usize) -> (s: String)
    ensures
        s@ == tree_text(*listing, prefix@, depth as int, max_depth as int),
    decreases max_depth - depth,
{
    let mut s = String::new();
    if depth > max_depth {
        s.append(prefix);
        s.append("└── ... (max depth reached)\n");
        assert(s@ =~= prefix@ + "└── ... (max depth reached)\n"@);
        return s;
    }
    match listing {
        Listing::Denied => {
            s.append(prefix);
            s.append("└── [access denied]\n");
            assert(s@ =~= prefix@ + "└── [access denied]\n"@);
            s
        },
        Listing::Entries(v) => {
            let total = v.len();
            let count: usize = if total < MAX_DIR_ITEMS {
                total
            } else {
                MAX_DIR_ITEMS
            };
            let mut i: usize = 0;
            while i < count
                invariant
                    *listing == Listing::Entries(*v),
                    depth <= max_depth,
                    total == v@.len(),
                    count == shown_count(total as int),
                    i <= count <= total,
                    s@ == entries_text(v@, i as int, prefix@, depth as int, max_depth as int),
                decreases count - i,
            {
                let e = &v[i];
                let last = i == total - 1 && total <= MAX_DIR_ITEMS;
                s.append(draw_entry(e.name.as_str(), e.is_dir, last, prefix).as_str());
                if e.is_dir && depth < max_depth {
                    let mut inner = prefix.to_owned();
                    inner.append(
                        if last {
                            "    "
                        } else {
                            "│   "
                        },
                    );
                    s.append(build_tree(&e.below, inner.as_str(), depth + 1, max_depth).as_str());
                } else {
                    assert(s@ =~= s@ + Seq::<char>::empty());
                }
                i += 1;
            }
            if total > MAX_DIR_ITEMS {
                let mut more = prefix.to_owned();
                more.append("└── ... (");
                more.append(to_decimal((total - MAX_DIR_ITEMS) as u64).as_str());
                more.append(" more items)\n");
                s.append(more.as_str());
            }
            assert(s@ =~= tree_text(*listing, prefix@, depth as int, max_depth as int));
            s
        },
    }
}

// ── what is opened ──────────────────────────────────────────────────────────

/// What is below entry `i` of a directory at the given depth is drawn.
pub open spec fn is_opened(i: int, is_dir: bool, depth: int, max_depth: int) -> bool {
    is_dir && depth < max_depth && i < MAX_DIR_ITEMS
}

/// Whether what is below entry `i` of a directory at the given depth is drawn.
pub fn opens(i: usize, is_dir: bool, depth: usize, max_depth: usize) -> (r: bool)
    ensures
        r == is_opened(i as int, is_dir, depth as int, max_depth as int),
{
    is_dir && depth < max_depth && i < MAX_DIR_ITEMS
}

/// What is below an entry that is not opened does not matter.
pub proof fn closed_entries_do_not_matter(
    a: Seq<Entry>,
    b: Seq<Entry>,
    n: int,
    prefix: Seq<char>,
    depth: int,
    max_depth: int,
)
    requires
        a.len() == b.len(),
        n <= shown_count(a.len() as int),
        forall|i: int|
            #![trigger a[i], b[i]]
            0 <= i < a.len() ==> a[i].name@ == b[i].name@ && a[i].is_dir == b[i].is_dir && (
            is_opened(i, a[i].is_dir, depth, max_depth) ==> a[i].below == b[i].below),
    ensures
        entries_text(a, n, prefix, depth, max_depth) == entries_text(
            b,
            n,
            prefix,
            depth,
            max_depth,
        ),
    decreases n,
{
    if n > 0 {
        closed_entries_do_not_matter(a, b, n - 1, prefix, depth, max_depth);
        assert(a[n - 1].name@ == b[n - 1].name@);
    }
}

// ── order ───────────────────────────────────────────────────────────────────

/// Entries in the order of their raw names.
pub open spec fn in_name_order(es: Seq<Found>) -> bool {
    forall|i: int, j: int|
        0 <= i <= j < es.len() ==> order::not_after((#[trigger] es[i]).raw@, (#[trigger] es[j]).raw@)
}

/// Where an entry of the given raw name belongs among entries in order: after all
/// that do not come after it.
fn place_for(es: &Vec<Found>, name: &[u8]) -> (at: usize)
    requires
        in_name_order(es@),
    ensures
        at <= es@.len(),
        forall|i: int| 0 <= i < at ==> order::not_after((#[trigger] es@[i]).raw@, name@),
        forall|i: int| at <= i < es@.len() ==> order::not_after(name@, (#[trigger] es@[i]).raw@),
{
    let mut lo: usize = 0;
    let mut hi: usize = es.len();
    while lo < hi
        invariant
            in_name_order(es@),
            lo <= hi <= es@.len(),
            forall|i: int| 0 <= i < lo ==> order::not_after((#[trigger] es@[i]).raw@, name@),
            forall|i: int|
                hi <= i < es@.len() ==> order::not_after(name@, (#[trigger] es@[i]).raw@),
        decreases hi - lo,
    {
        let mid: usize = lo + (hi - lo) / 2;
        let ghost pivot = es@[mid as int].raw@;
        if in_order(&es[mid].raw, name) {
            assert forall|i: int| 0 <= i < mid + 1 implies order::not_after(
                (#[trigger] es@[i]).raw@,
                name@,
            ) by {
                order::order_is_transitive(es@[i].raw@, pivot, name@);
            }
            lo = mid + 1;
        } else {
            assert forall|i: int| mid <= i < es@.len() implies order::not_after(
                name@,
                (#[trigger] es@[i]).raw@,
            ) by {
                order::order_is_total(pivot, name@);
                order::order_is_transitive(name@, pivot, es@[i].raw@);
            }
            hi = mid;
        }
    }
    lo
}

/// The entries of a directory, in the order of their raw names.
pub fn sort_entries(entries: Vec<Found>) -> (out: Vec<Found>)
    ensures
        in_name_order(out@),
        out@.to_multiset() == entries@.to_multiset(),
{
    broadcast use vstd::seq_lib::group_to_multiset_ensures;

    let mut out: Vec<Found> = Vec::new();
    assert(entries@.take(0) =~= out@);
    for e in it: entries
        invariant
            it.seq() == entries@,
            in_name_order(out@),
            out@.to_multiset() == entries@.take(it.index()).to_multiset(),
    {
        let ghost before = out@;
        let at = place_for(&out, &e.raw);
        out.insert(at, e);
        proof {
            assert(entries@.take(it.index() + 1) =~= entries@.take(it.index()).push(e));
            vstd::seq_lib::to_multiset_insert(before, at as int, e);
            vstd::seq_lib::to_multiset_build(entries@.take(it.index()), e);
            order::order_is_total(e.raw@, e.raw@);
            assert forall|i: int, j: int| 0 <= i <= j < out@.len() implies order::not_after(
                (#[trigger] out@[i]).raw@,
                (#[trigger] out@[j]).raw@,
            ) by {
                let old_i = if i < at {
                    i
                } else {
                    i - 1
                };
                let old_j = if j < at {
                    j
                } else {
                    j - 1
                };
                if i != at {
                    assert(out@[i] == before[old_i]);
                }
                if j != at {
                    assert(out@[j] == before[old_j]);
                }
            }
        }
    }
    assert(entries@.take(entries@.len() as int) =~= entries@);
    out
}

/// There is one way to put entries of different raw names in order.
pub proof fn name_order_is_unique(a: Seq<Found>, b: Seq<Found>)
    requires
        in_name_order(a),
        in_name_order(b),
        a.to_multiset() == b.to_multiset(),
        forall|i: int, j: int|
            0 <= i < j < a.len() ==> (#[trigger] a[i]).raw@ != (#[trigger] a[j]).raw@,
    ensures
        a == b,
    decreases a.len(),
{
    broadcast use vstd::seq_lib::group_to_multiset_ensures;

    vstd::seq_lib::to_multiset_len(a);
    vstd::seq_lib::to_multiset_len(b);
    if a.len() > 0 {
        // The last entry of each stands somewhere in the other.
        let x = a.last();
        let y = b.last();
        assert(b.to_multiset().contains(y));
        assert(a.contains(y));
        assert(a.to_multiset().contains(x));
        assert(b.contains(x));
        let i = choose|i: int| 0 <= i < a.len() && a[i] == y;
        let j = choose|j: int| 0 <= j < b.len() && b[j] == x;
        assert(order::not_after(a[i].raw@, a[a.len() - 1].raw@));
        assert(order::not_after(b[j].raw@, b[b.len() - 1].raw@));
        order::order_is_antisymmetric(x.raw@, y.raw@);
        assert(i == a.len() - 1);
        let a0 = a.drop_last();
        let b0 = b.drop_last();
        assert(a =~= a0.push(x));
        assert(b =~= b0.push(x));
        vstd::seq_lib::to_multiset_build(a0, x);
        vstd::seq_lib::to_multiset_build(b0, x);
        assert(a0.to_multiset() =~= a.to_multiset().remove(x));
        assert(b0.to_multiset() =~= b.to_multiset().remove(x));
        name_order_is_unique(a0, b0);
    } else {
        assert(a =~= b);
    }
}

// ── reading ─────────────────────────────────────────────────────────────────

/// Entries without what is below them.
pub open spec fn found_of(es: Seq<Entry>) -> Seq<Found> {
    Seq::new(es.len(), |i: int| Found {
        name: es[i].name,
        raw: es[i].raw,
        is_dir: es[i].is_dir,
        id: es[i].id,
    })
}

/// `raw` may be what `read_dir` gives of the directory `dir`, and `es` are its
/// entries in the order of their raw names.
pub open spec fn are_sorted_entries<F: Fn(usize) -> Option<Vec<Found>>>(
    read_dir: F,
    dir: usize,
    raw: Vec<Found>,
    es: Seq<Entry>,
) -> bool {
    &&& call_ensures(read_dir, (dir,), Some(raw))
    &&& in_name_order(found_of(es))
    &&& found_of(es).to_multiset() == raw@.to_multiset()
}

/// `listing` is what `read_dir` gives of the directory `dir`, in the order of
/// the raw names, and so on for each directory in it that is opened.
pub open spec fn is_listing_of<F: Fn(usize) -> Option<Vec<Found>>>(
    listing: Listing,
    read_dir: F,
    dir: usize,
    depth: int,
    max_depth: int,
) -> bool
    decreases listing,
{
    match listing {
        Listing::Denied => call_ensures(read_dir, (dir,), None::<Vec<Found>>),
        Listing::Entries(v) => {
            &&& exists|raw: Vec<Found>| #[trigger] are_sorted_entries(read_dir, dir, raw, v@)
            &&& forall|i: int|
                #![trigger v@[i]]
                0 <= i < v@.len() && is_opened(i, v@[i].is_dir, depth, max_depth)
                    ==> is_listing_of(v@[i].below, read_dir, v@[i].id, depth + 1, max_depth)
        },
    }
}

/// What the directory `dir` holds, in the order of the raw names, and what each
/// directory in it holds that is opened. `read_dir` gives the entries of a
/// directory in any order, or nothing where it cannot be read.
pub fn list_directory<F: Fn(usize) -> Option<Vec<Found>>>(
    read_dir: &F,
    dir: usize,
    depth: usize,
    max_depth: usize,
) -> (listing: Listing)
    requires
        forall|d: usize| call_requires(*read_dir, (d,)),
    ensures
        is_listing_of(listing, *read_dir, dir, depth as int, max_depth as int),
    decreases max_depth - depth,
{
    let raw = match read_dir(dir) {
        Some(raw) => raw,
        None => {
            return Listing::Denied;
        },
    };
    let ghost given = raw;
    let sorted = sort_entries(raw);
    let total = sorted.len();
    let mut out: Vec<Entry> = Vec::new();
    let mut i: usize = 0;
    assert(found_of(out@) =~= sorted@.take(0));
    for f in it: sorted
        invariant
            it.seq() == sorted@,
            i == it.index(),
            i == out@.len(),
            total == sorted@.len(),
            forall|d: usize| call_requires(*read_dir, (d,)),
            found_of(out@) == sorted@.take(i as int),
            forall|j: int|
                #![trigger out@[j]]
                0 <= j < out@.len() && is_opened(
                    j,
                    out@[j].is_dir,
                    depth as int,
                    max_depth as int,
                ) ==> is_listing_of(
                    out@[j].below,
                    *read_dir,
                    out@[j].id,
                    depth + 1,
                    max_depth as int,
                ),
    {
        let ghost before = out@;
        let below = if opens(i, f.is_dir, depth, max_depth) {
            list_directory(read_dir, f.id, depth + 1, max_depth)
        } else {
            Listing::Denied
        };
        let entry = Entry { name: f.name, raw: f.raw, is_dir: f.is_dir, id: f.id, below };
        out.push(entry);
        proof {
            assert(found_of(out@) =~= found_of(before).push(f));
            assert(sorted@.take(i + 1) =~= sorted@.take(i as int).push(f));
        }
        i += 1;
    }
    assert(sorted@.take(sorted@.len() as int) =~= sorted@);
    assert(are_sorted_entries(*read_dir, dir, given, out@));
    Listing::Entries(out)
}

// ── what is drawn depends on what is there ──────────────────────────────────

/// No two entries have the same raw name.
pub open spec fn distinct_names(es: Seq<Found>) -> bool {
    forall|i: int, j: int|
        0 <= i < j < es.len() ==> (#[trigger] es[i]).raw@ != (#[trigger] es[j]).raw@
}

/// `read_dir` gives the same of a directory whenever it is asked, though it may
/// be in another order, and no name twice.
pub open spec fn is_steady<F: Fn(usize) -> Option<Vec<Found>>>(read_dir: F) -> bool {
    &&& forall|d: usize, a: Vec<Found>, b: Vec<Found>| #[trigger]
        call_ensures(read_dir, (d,), Some(a)) && #[trigger] call_ensures(read_dir, (d,), Some(b))
            ==> a@.to_multiset() == b@.to_multiset()
    &&& forall|d: usize, a: Vec<Found>| #[trigger]
        call_ensures(read_dir, (d,), Some(a)) ==> distinct_names(a@) && !call_ensures(
            read_dir,
            (d,),
            None::<Vec<Found>>,
        )
}

/// Entries in another order have the same names.
proof fn lemma_names_stay_distinct(a: Seq<Found>, b: Seq<Found>)
    requires
        a.to_multiset() == b.to_multiset(),
        distinct_names(b),
    ensures
        distinct_names(a),
{
    broadcast use vstd::seq_lib::group_to_multiset_ensures;

    assert(b.no_duplicates());
    b.lemma_multiset_has_no_duplicates();
    assert forall|i: int, j: int| 0 <= i < j < a.len() implies (#[trigger] a[i]).raw@ != (
    #[trigger] a[j]).raw@ by {
        if a[i].raw@ == a[j].raw@ {
            assert(a.to_multiset().contains(a[i]));
            assert(a.to_multiset().contains(a[j]));
            assert(b.contains(a[i]) && b.contains(a[j]));
            let x = choose|x: int| 0 <= x < b.len() && b[x] == a[i];
            let y = choose|y: int| 0 <= y < b.len() && b[y] == a[j];
            assert(x == y);
            assert(a[i] == a[j]);
            assert(a.to_multiset().count(a[i]) <= 1);
            let rest = a.remove(j);
            assert(rest[i] == a[i]);
            vstd::seq_lib::to_multiset_remove(a, j);
            assert(rest.contains(a[i]));
            assert(rest.to_multiset().count(a[i]) > 0);
        }
    }
}

/// Entries of the same names, of which the opened ones have the same trees,
/// are drawn alike.
proof fn lemma_same_trees(
    a: Seq<Entry>,
    b: Seq<Entry>,
    n: int,
    prefix: Seq<char>,
    depth: int,
    max_depth: int,
)
    requires
        a.len() == b.len(),
        n <= shown_count(a.len() as int),
        forall|i: int|
            #![trigger a[i], b[i]]
            0 <= i < a.len() ==> a[i].name@ == b[i].name@ && a[i].is_dir == b[i].is_dir && (
            is_opened(i, a[i].is_dir, depth, max_depth) ==> forall|p: Seq<char>| #[trigger]
                tree_text(a[i].below, p, depth + 1, max_depth) == tree_text(
                    b[i].below,
                    p,
                    depth + 1,
                    max_depth,
                )),
    ensures
        entries_text(a, n, prefix, depth, max_depth) == entries_text(
            b,
            n,
            prefix,
            depth,
            max_depth,
        ),
    decreases n,
{
    if n > 0 {
        lemma_same_trees(a, b, n - 1, prefix, depth, max_depth);
        let (x, y) = (a[n - 1], b[n - 1]);
        assert(x.name@ == y.name@ && x.is_dir == y.is_dir);
        if x.is_dir && depth < max_depth {
            assert(is_opened(n - 1, x.is_dir, depth, max_depth));
            let p = inner_prefix(prefix, is_last(n - 1, a.len() as int));
            assert(tree_text(x.below, p, depth + 1, max_depth) == tree_text(
                y.below,
                p,
                depth + 1,
                max_depth,
            ));
        }
    }
}

/// How a directory is drawn does not depend on the order in which its entries,
/// and those below, are read.
pub proof fn reading_order_does_not_matter<F: Fn(usize) -> Option<Vec<Found>>>(
    a: Listing,
    b: Listing,
    read_dir: F,
    dir: usize,
    prefix: Seq<char>,
    depth: int,
    max_depth: int,
)
    requires
        is_steady(read_dir),
        is_listing_of(a, read_dir, dir, depth, max_depth),
        is_listing_of(b, read_dir, dir, depth, max_depth),
    ensures
        tree_text(a, prefix, depth, max_depth) == tree_text(b, prefix, depth, max_depth),
    decreases a,
{
    match (a, b) {
        (Listing::Entries(va), Listing::Entries(vb)) => {
            let (ea, eb) = (va@, vb@);
            let ra = choose|raw: Vec<Found>| #[trigger] are_sorted_entries(read_dir, dir, raw, ea);
            let rb = choose|raw: Vec<Found>| #[trigger] are_sorted_entries(read_dir, dir, raw, eb);
            let (fa, fb) = (found_of(ea), found_of(eb));
            assert(ra@.to_multiset() == rb@.to_multiset());
            lemma_names_stay_distinct(fa, ra@);
            name_order_is_unique(fa, fb);
            assert(ea.len() == fa.len() && eb.len() == fb.len());
            assert forall|i: int|
                #![trigger ea[i], eb[i]]
                0 <= i < ea.len() implies ea[i].name@ == eb[i].name@ && ea[i].is_dir
                == eb[i].is_dir && (is_opened(i, ea[i].is_dir, depth, max_depth) ==> forall|
                p: Seq<char>,
            | #[trigger]
                tree_text(ea[i].below, p, depth + 1, max_depth) == tree_text(
                    eb[i].below,
                    p,
                    depth + 1,
                    max_depth,
                )) by {
                assert(fa[i] == fb[i]);
                if is_opened(i, ea[i].is_dir, depth, max_depth) {
                    assert forall|p: Seq<char>| #[trigger]
                        tree_text(ea[i].below, p, depth + 1, max_depth) == tree_text(
                            eb[i].below,
                            p,
                            depth + 1,
                            max_depth,
                        ) by {
                        reading_order_does_not_matter(
                            ea[i].below,
                            eb[i].below,
                            read_dir,
                            ea[i].id,
                            p,
                            depth + 1,
                            max_depth,
                        );
                    }
                }
            }
            lemma_same_trees(
                ea,
                eb,
                shown_count(ea.len() as int),
                prefix,
                depth,
                max_depth,
            );
        },
        (Listing::Denied, Listing::Entries(vb)) => {
            let rb = choose|raw: Vec<Found>| #[trigger]
                are_sorted_entries(read_dir, dir, raw, vb@);
            assert(call_ensures(read_dir, (dir,), Some(rb)));
        },
        (Listing::Entries(va), Listing::Denied) => {
            let ra = choose|raw: Vec<Found>| #[trigger]
                are_sorted_entries(read_dir, dir, raw, va@);
            assert(call_ensures(read_dir, (dir,), Some(ra)));
        },
        (Listing::Denied, Listing::Denied) => {},
    }
}

} // verus!
