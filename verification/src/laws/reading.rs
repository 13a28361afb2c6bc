//! What is read of a file, by lines or by symbols, and of a directory.
use vstd::prelude::*;

use crate::ctags;
use crate::laws::symbols;
use crate::lines;
use crate::number;
use crate::order;
use crate::read;
use crate::read::{PathKind, ReadNext, ReadReply, ReadRequest, ReadStart, ReadWithTags};
use crate::tree;
use crate::tree::{Entry, Found, Listing};

verus! {

// ── requests ────────────────────────────────────────────────────────────────

/// A directory is listed and a file is loaded; where there is neither, the
/// answer says so and names the path.
pub proof fn paths_decide_what_is_done(r: ReadStart, req: ReadRequest, kind: PathKind)
    requires
        read::is_read_start(r, req, kind),
    ensures
        r == ReadStart::List <==> kind == PathKind::Directory,
        r == ReadStart::Load <==> kind == PathKind::File,
        kind == PathKind::Missing ==> (r matches ReadStart::Reply(ReadReply::Error(m)) && m@
            == "file not found: "@ + req.path@),
{
}

/// A file that could not be loaded is told with the reason. Symbols are listed
/// exactly where an outline or a symbol is asked for; else the lines that match
/// are shown where there is a pattern, with two lines around each unless
/// another number is given, and else the lines of the range.
pub proof fn loaded_files_are_shown(r: ReadNext, req: ReadRequest, loaded: Result<&str, &str>)
    requires
        read::is_read_next(r, req, loaded),
    ensures
        loaded matches Err(reason) ==> (r matches ReadNext::Reply(ReadReply::Error(m)) && m@
            == "read failed: "@ + reason@),
        loaded is Ok ==> (r == ReadNext::ListSymbols <==> req.outline_only == Some(true)
            || req.extract_symbol is Some),
        loaded matches Ok(content) ==> (r matches ReadNext::Reply(reply) ==> match req.search_regex {
            Some(pattern) => read::is_search_reply(
                reply,
                content@,
                pattern@,
                match req.context_lines {
                    Some(n) => n as int,
                    None => 2,
                },
            ),
            None => read::is_range_reply(reply, content@, req.start_line, req.end_line),
        }),
{
}

// ── ranges ──────────────────────────────────────────────────────────────────

/// The lines of a range are shown from the first to the last one that is asked
/// for, at most 1000 of them, each with its number and as it is in the file.
/// Without a first line they are shown from the beginning, and without a last
/// one, or with one that the file does not have, to the end.
pub proof fn the_lines_of_a_range_are_shown(
    r: ReadReply,
    content: Seq<char>,
    start_line: Option<usize>,
    end_line: Option<usize>,
    first: int,
    last: int,
    rows: Seq<Seq<char>>,
)
    requires
        read::is_range_reply(r, content, start_line, end_line),
        first == (if start_line is Some && start_line.unwrap() > 1 {
            start_line.unwrap() as int
        } else {
            1
        }),
        start_line is None || first <= lines::lines(content).len(),
        ({
            let total = lines::lines(content).len() as int;
            let asked = if end_line is Some && first - 1 <= end_line.unwrap() <= total {
                end_line.unwrap() as int
            } else {
                total
            };
            last == (if asked - first + 1 > 1000 {
                first + 999
            } else {
                asked
            })
        }),
        rows.len() == last - first + 1,
        forall|i: int|
            0 <= i < rows.len() ==> #[trigger] rows[i] == number::column4((first + i) as nat)
                + seq![' ', '|', ' '] + lines::lines(content)[first - 1 + i],
    ensures
        r matches ReadReply::File(slice) && {
            let total = lines::lines(content).len() as int;
            &&& slice.content@ == lines::joined(rows, seq!['\n'])
            &&& slice.start_line == first
            &&& slice.end_line == last
            &&& slice.total_lines == total
            &&& slice.truncated <==> last < total && !(end_line is Some && end_line.unwrap()
                == last)
        },
{
    reveal_strlit("\n");
    reveal_strlit(" | ");
    assert("\n"@ =~= seq!['\n']);
    assert(" | "@ =~= seq![' ', '|', ' ']);
    let ls = lines::lines(content);
    let count = last - first + 1;
    let part = ls.subrange(first - 1, first - 1 + count);
    assert(lines::numbered(part, first) =~= rows);
}

/// A first line after the end of the file is told with its number and with that
/// of the lines that there are.
pub proof fn ranges_after_the_end_are_told(
    r: ReadReply,
    content: Seq<char>,
    start_line: usize,
    end_line: Option<usize>,
)
    requires
        read::is_range_reply(r, content, Some(start_line), end_line),
    ensures
        r is Error <==> (if start_line > 1 {
            start_line as int
        } else {
            1
        }) > lines::lines(content).len(),
        r matches ReadReply::Error(m) ==> m@ == "start_line "@ + number::decimal(
            start_line as nat,
        ) + " exceeds file length ("@ + number::decimal(lines::lines(content).len()) + ")"@,
{
}

/// Without a first line there is always an answer.
pub proof fn files_are_always_shown_from_the_beginning(
    r: ReadReply,
    content: Seq<char>,
    end_line: Option<usize>,
)
    requires
        read::is_range_reply(r, content, None, end_line),
    ensures
        r matches ReadReply::File(slice) && slice.start_line == 1,
{
}

// ── symbols ─────────────────────────────────────────────────────────────────

/// An outline shows every symbol that ctags lists, one below the other, or says
/// that there are none to be had. A symbol is read where ctags lists one of its
/// name, and else told to be missing.
pub proof fn listed_symbols_are_used(r: ReadWithTags, req: ReadRequest, tags: Option<&str>)
    requires
        read::is_read_with_tags(r, req, tags),
        req.outline_only == Some(true) || req.extract_symbol is Some,
    ensures
        req.outline_only == Some(true) ==> (r matches ReadWithTags::Reply(
            ReadReply::Outline { outline },
        ) && outline@ == (match tags {
            Some(t) => lines::joined(
                ctags::outline_lines(ctags::tags_of(lines::lines(t@))),
                seq!['\n'],
            ),
            None => "(ctags not available or no symbols found)"@,
        })),
        req.outline_only != Some(true) ==> ({
            let symbol = req.extract_symbol.unwrap()@;
            let known = tags matches Some(t) && exists|i: int| #[trigger]
                symbols::is_first_of_name(ctags::tags_of(lines::lines(t@)), symbol, i);
            &&& r == ReadWithTags::Reload <==> known
            &&& !known ==> (r matches ReadWithTags::Reply(ReadReply::Error(m)) && m@ == "symbol '"@
                + symbol + "' not found"@)
        }),
{
    reveal_strlit("\n");
    assert("\n"@ =~= seq!['\n']);
    if req.outline_only != Some(true) {
        let symbol = req.extract_symbol.unwrap()@;
        if let Some(t) = tags {
            let list = ctags::tags_of(lines::lines(t@));
            symbols::the_first_symbol_of_a_name_counts(list, symbol);
            if ctags::symbol_line(list, symbol) is None {
                assert forall|i: int| !symbols::is_first_of_name(list, symbol, i) by {}
            }
        }
    }
}

/// The body of a symbol is shown with numbers from one on, and with the number
/// of its lines; a symbol without a body is told to be missing.
pub proof fn bodies_are_shown_with_numbers(
    r: ReadReply,
    symbol: Seq<char>,
    tags: Seq<char>,
    content: Option<&str>,
    rows: Seq<Seq<char>>,
)
    requires
        read::is_symbol_reply(r, symbol, tags, content),
    ensures
        ({
            let body = if content is Some {
                ctags::symbol_body(ctags::tags_of(lines::lines(tags)), symbol, content.unwrap()@)
            } else {
                None
            };
            &&& body is None ==> (r matches ReadReply::Error(m) && m@ == "symbol '"@ + symbol
                + "' not found"@)
            &&& body matches Some(b) ==> {
                let ls = lines::lines(b);
                &&& r matches ReadReply::Symbol { content: shown, line_count }
                &&& line_count == ls.len()
                &&& rows.len() == ls.len() && (forall|i: int|
                    0 <= i < rows.len() ==> #[trigger] rows[i] == number::column4((i + 1) as nat)
                        + seq![' ', '|', ' '] + ls[i]) ==> shown@ == lines::joined(
                    rows,
                    seq!['\n'],
                )
            }
        }),
{
    reveal_strlit("\n");
    reveal_strlit(" | ");
    assert("\n"@ =~= seq!['\n']);
    assert(" | "@ =~= seq![' ', '|', ' ']);
    if content is Some {
        if let Some(b) = ctags::symbol_body(
            ctags::tags_of(lines::lines(tags)),
            symbol,
            content.unwrap()@,
        ) {
            let ls = lines::lines(b);
            if rows.len() == ls.len() && (forall|i: int|
                0 <= i < rows.len() ==> #[trigger] rows[i] == number::column4((i + 1) as nat)
                    + seq![' ', '|', ' '] + ls[i]) {
                assert(lines::numbered(ls, 1) =~= rows);
            }
        }
    }
}

// ── directories ─────────────────────────────────────────────────────────────

/// A tree goes three levels deep, or as deep as is asked for, but five at most.
pub proof fn trees_are_as_deep_as_asked(asked: usize)
    ensures
        tree::tree_depth(None) == 3,
        asked <= 5 ==> tree::tree_depth(Some(asked)) == asked,
        asked > 5 ==> tree::tree_depth(Some(asked)) == 5,
{
}

/// The answer for a directory is the tree of all that is in it, as deep as is
/// asked for, from the directory itself on.
pub proof fn directories_are_drawn<F: Fn(usize) -> Option<Vec<Found>>>(
    r: ReadReply,
    req: ReadRequest,
    read_dir: F,
    dir: usize,
    listing: Listing,
)
    requires
        read::is_directory_reply(r, req, read_dir, dir, listing),
    ensures
        ({
            let depth: int = match req.max_depth {
                None => 3,
                Some(d) => if d <= 5 {
                    d as int
                } else {
                    5
                },
            };
            &&& tree::is_listing_of(listing, read_dir, dir, 0, depth)
            &&& r matches ReadReply::Directory { tree: drawn }
            &&& drawn@ == tree::tree_text(listing, seq![], 0, depth)
        }),
{
}

/// A directory that is too deep, and one that could not be read, are drawn as
/// one line that says so.
pub proof fn hidden_directories_are_told(
    listing: Listing,
    prefix: Seq<char>,
    depth: int,
    max_depth: int,
)
    ensures
        depth > max_depth ==> tree::tree_text(listing, prefix, depth, max_depth) == prefix
            + "└── ... (max depth reached)\n"@,
        depth <= max_depth && listing is Denied ==> tree::tree_text(
            listing,
            prefix,
            depth,
            max_depth,
        ) == prefix + "└── [access denied]\n"@,
{
}

/// Of a directory the first 50 entries are drawn, and it is said how many more
/// there are, if any.
pub proof fn fifty_entries_are_drawn(
    v: Vec<Entry>,
    prefix: Seq<char>,
    depth: int,
    max_depth: int,
)
    requires
        depth <= max_depth,
    ensures
        ({
            let drawn = tree::tree_text(Listing::Entries(v), prefix, depth, max_depth);
            let n = v@.len() as int;
            &&& n <= 50 ==> drawn == tree::entries_text(v@, n, prefix, depth, max_depth)
            &&& n > 50 ==> drawn == tree::entries_text(v@, 50, prefix, depth, max_depth) + (prefix
                + "└── ... ("@ + number::decimal((n - 50) as nat) + " more items)\n"@)
        }),
{
    let n = v@.len() as int;
    if n <= 50 {
        assert(tree::tree_text(Listing::Entries(v), prefix, depth, max_depth)
            =~= tree::entries_text(v@, n, prefix, depth, max_depth));
    }
}

/// Each entry is drawn after those before it: a line with a corner where it is
/// the last one and with a branch otherwise, its name and, for a directory, a
/// slash; and below a directory that is not too deep, what is in it, moved in
/// by four characters.
pub proof fn entries_are_drawn_one_by_one(
    es: Seq<Entry>,
    k: int,
    prefix: Seq<char>,
    depth: int,
    max_depth: int,
)
    requires
        0 <= k < es.len(),
    ensures
        tree::entries_text(es, 0, prefix, depth, max_depth).len() == 0,
        ({
            let e = es[k];
            let last = k + 1 == es.len() && es.len() <= 50;
            let line = prefix + (if last {
                "└── "@
            } else {
                "├── "@
            }) + e.name@ + (if e.is_dir {
                "/\n"@
            } else {
                "\n"@
            });
            let inner = prefix + (if last {
                "    "@
            } else {
                "│   "@
            });
            let before = tree::entries_text(es, k, prefix, depth, max_depth);
            let after = tree::entries_text(es, k + 1, prefix, depth, max_depth);
            &&& e.is_dir && depth < max_depth ==> after == before + line + tree::tree_text(
                e.below,
                inner,
                depth + 1,
                max_depth,
            )
            &&& !(e.is_dir && depth < max_depth) ==> after == before + line
        }),
{
    let e = es[k];
    let before = tree::entries_text(es, k, prefix, depth, max_depth);
    let line = tree::entry_line(e.name@, e.is_dir, tree::is_last(k, es.len() as int), prefix);
    if !(e.is_dir && depth < max_depth) {
        assert(tree::entries_text(es, k + 1, prefix, depth, max_depth) =~= before + line);
    }
}

/// A directory is read once, its entries come in the order of their names, and
/// of these the directories among the first 50 that are not too deep are read
/// likewise.
pub proof fn listings_are_what_was_read<F: Fn(usize) -> Option<Vec<Found>>>(
    listing: Listing,
    read_dir: F,
    dir: usize,
    depth: int,
    max_depth: int,
    i: int,
    j: int,
)
    requires
        tree::is_listing_of(listing, read_dir, dir, depth, max_depth),
    ensures
        listing is Denied ==> call_ensures(read_dir, (dir,), None::<Vec<Found>>),
        listing matches Listing::Entries(v) ==> {
            &&& exists|raw: Vec<Found>| #[trigger]
                call_ensures(read_dir, (dir,), Some(raw)) && raw@.to_multiset() == tree::found_of(
                    v@,
                ).to_multiset()
            &&& 0 <= i <= j < v@.len() ==> order::not_after(v@[i].raw@, v@[j].raw@)
            &&& 0 <= i < v@.len() && i < 50 && v@[i].is_dir && depth < max_depth
                ==> tree::is_listing_of(v@[i].below, read_dir, v@[i].id, depth + 1, max_depth)
        },
{
    if let Listing::Entries(v) = listing {
        let raw = choose|raw: Vec<Found>| #[trigger]
            tree::are_sorted_entries(read_dir, dir, raw, v@);
        assert(tree::are_sorted_entries(read_dir, dir, raw, v@));
        assert(call_ensures(read_dir, (dir,), Some(raw)));
        if 0 <= i <= j < v@.len() {
            let fs = tree::found_of(v@);
            assert(order::not_after(fs[i].raw@, fs[j].raw@));
        }
    }
}

/// An entry keeps what was found: its name, as text and as the system has it,
/// whether it is a directory, and by what it is found again.
pub proof fn entries_keep_what_was_found(es: Seq<Entry>, i: int)
    requires
        0 <= i < es.len(),
    ensures
        tree::found_of(es).len() == es.len(),
        ({
            let (f, e) = (tree::found_of(es)[i], es[i]);
            f.name == e.name && f.raw == e.raw && f.is_dir == e.is_dir && f.id == e.id
        }),
{
}

/// Entries in the order of their names come by the first byte in which the names
/// differ, whichever two are taken.
pub proof fn names_come_in_order(es: Seq<Found>, i: int, j: int)
    ensures
        tree::in_name_order(es) && 0 <= i <= j < es.len() ==> order::not_after(
            es[i].raw@,
            es[j].raw@,
        ),
{
}

/// An entry is read further exactly where it is a directory, not too deep, and
/// among the first 50.
pub proof fn directories_are_opened(i: int, is_dir: bool, depth: int, max_depth: int)
    ensures
        tree::is_opened(i, is_dir, depth, max_depth) <==> is_dir && depth < max_depth && i < 50,
{
}

} // verus!
