//! Reading a file or a directory in one of several ways.
use vstd::prelude::*;
use vstd::string::*;

use crate::ctags::{self, extract_outline_ctags, extract_symbol_ctags, listed_line};
use crate::lines::{self, add_line_numbers, number_lines, split_lines};
use crate::number::{self, to_decimal};
use crate::search::{self, search_lines, Hits};
use crate::tree::{self, build_tree, clamp_depth, list_directory, Found, Listing};
use crate::write::WriteRequest;

verus! {

/// How many lines of a file are shown at most.
pub const MAX_LINES: usize = 1000;

/// What is to be read, and how.
#[derive(Debug)]
pub struct ReadRequest {
    pub path: String,
    pub start_line: Option<usize>,
    pub end_line: Option<usize>,
    pub search_regex: Option<String>,
    pub context_lines: Option<usize>,
    pub outline_only: Option<bool>,
    pub extract_symbol: Option<String>,
    pub max_depth: Option<usize>,
}

/// What stands at a path.
#[derive(Debug, Clone, Copy, PartialEq, Eq, Structural)]
pub enum PathKind {
    Directory,
    File,
    Missing,
}

/// Some lines of a file.
#[derive(Debug)]
pub struct FileSlice {
    pub content: String,
    pub start_line: usize,
    pub end_line: usize,
    pub total_lines: usize,
    pub truncated: bool,
}

/// The answer to a request.
#[derive(Debug)]
pub enum ReadReply {
    Error(String),
    Directory { tree: String },
    Outline { outline: String },
    Symbol { content: String, line_count: usize },
    /// No line matches.
    NoMatches,
    Search(Hits),
    File(FileSlice),
}

// ── a range of lines ────────────────────────────────────────────────────────

/// The position of the first line that is asked for.
pub open spec fn range_start(start_line: Option<usize>) -> int {
    match start_line {
        Some(n) => if n > 0 {
            n - 1
        } else {
            0
        },
        None => 0,
    }
}

/// The end of the lines that are asked for, in a file of `total` lines, when
/// they begin at `start`. An end before the start does not count.
pub open spec fn range_end(start: int, end_line: Option<usize>, total: int) -> int {
    match end_line {
        Some(n) => if start <= n < total {
            n as int
        } else {
            total
        },
        None => total,
    }
}

/// How many of the lines from `start` to `end` are shown.
pub open spec fn shown_lines(start: int, end: int) -> int {
    if end - start > MAX_LINES {
        MAX_LINES as int
    } else {
        end - start
    }
}

/// The text that is shown of `count` lines from `start` on: each line with its
/// number in the file.
pub open spec fn range_text(ls: Seq<Seq<char>>, start: int, count: int) -> Seq<char> {
    lines::joined(lines::numbered(ls.subrange(start, start + count), start + 1), "\n"@)
}

/// `r` is the answer to a request for the lines from `start_line` to
/// `end_line` of a file. A start that is asked for has to be within the file;
/// without one, an empty file is shown as what it is.
pub open spec fn is_range_reply(
    r: ReadReply,
    content: Seq<char>,
    start_line: Option<usize>,
    end_line: Option<usize>,
) -> bool {
    let ls = lines::lines(content);
    let total = ls.len() as int;
    let start = range_start(start_line);
    let end = range_end(start, end_line, total);
    if start_line is Some && start >= total {
        r matches ReadReply::Error(message) && message@ == "start_line "@ + number::decimal(
            start_line.unwrap() as nat,
        ) + " exceeds file length ("@ + number::decimal(total as nat) + ")"@
    } else {
        let count = shown_lines(start, end);
        &&& r matches ReadReply::File(slice)
        &&& slice.content@ == range_text(ls, start, count)
        &&& slice.start_line == start + 1
        &&& slice.end_line == start + count
        &&& slice.total_lines == total
        &&& slice.truncated == (end - start > MAX_LINES)
    }
}

fn first_position(start_line: Option<usize>) -> (start: usize)
    ensures
        start == range_start(start_line),
{
    match start_line {
        Some(n) => if n > 0 {
            n - 1
        } else {
            0
        },
        None => 0,
    }
}

fn end_position(start: usize, end_line: Option<usize>, total: usize) -> (end: usize)
    ensures
        end == range_end(start as int, end_line, total as int),
{
    match end_line {
        Some(n) => if start <= n && n < total {
            n
        } else {
            total
        },
        None => total,
    }
}

/// The lines from `start_line` to `end_line` of a file, with their numbers,
/// and at most `MAX_LINES` of them.
pub fn read_range(content: &str, start_line: Option<usize>, end_line: Option<usize>) -> (r:
    ReadReply)
    ensures
        is_range_reply(r, content@, start_line, end_line),
{
    let ls = split_lines(content);
    let ghost all = lines::lines(content@);
    let total = ls.len();
    assert(total == all.len());
    let start = first_position(start_line);
    let end = end_position(start, end_line, total);
    if let Some(asked) = start_line {
        if start >= total {
            let mut message = "start_line ".to_owned();
            message.append(to_decimal(asked as u64).as_str());
            message.append(" exceeds file length (");
            message.append(to_decimal(total as u64).as_str());
            message.append(")");
            return ReadReply::Error(message);
        }
    }
    let truncated = end - start > MAX_LINES;
    let count: usize = if truncated {
        MAX_LINES
    } else {
        end - start
    };
    ReadReply::File(
        FileSlice {
            content: number_lines(&ls, start, start + count, start + 1),
            start_line: start + 1,
            end_line: start + count,
            total_lines: total,
            truncated,
        },
    )
}

/// When an answer was cut, the answer to a request from the line after its end
/// on goes on where the first one stopped.
pub proof fn next_page_follows(
    slice: FileSlice,
    content: Seq<char>,
    start_line: Option<usize>,
    end_line: Option<usize>,
    next: ReadReply,
)
    requires
        is_range_reply(ReadReply::File(slice), content, start_line, end_line),
        slice.truncated,
        is_range_reply(next, content, Some((slice.end_line + 1) as usize), end_line),
    ensures
        slice.end_line - slice.start_line + 1 == MAX_LINES,
        next matches ReadReply::File(page) && page.start_line == slice.end_line + 1
            && page.start_line <= page.end_line && page.total_lines == slice.total_lines,
{
}

/// An answer shows at most `MAX_LINES` lines, and says so when there are more.
pub proof fn answers_are_bounded(
    slice: FileSlice,
    content: Seq<char>,
    start_line: Option<usize>,
    end_line: Option<usize>,
)
    requires
        is_range_reply(ReadReply::File(slice), content, start_line, end_line),
    ensures
        slice.end_line - slice.start_line + 1 <= MAX_LINES,
        !slice.truncated ==> slice.end_line == range_end(
            range_start(start_line),
            end_line,
            slice.total_lines as int,
        ),
{
}

/// A file that was overwritten is read as it was written: where its lines are
/// not too many, all of them are shown, each with its number.
pub proof fn written_lines_are_read_back(req: WriteRequest, reply: ReadReply)
    requires
        is_range_reply(reply, crate::write::text_to_write(req), None, None),
        lines::lines(crate::write::text_to_write(req)).len() <= MAX_LINES,
    ensures
        ({
            let ls = lines::lines(crate::write::text_to_write(req));
            &&& reply matches ReadReply::File(slice)
            &&& slice.content@ == lines::joined(lines::numbered(ls, 1), "\n"@)
            &&& slice.start_line == 1
            &&& slice.end_line == ls.len()
            &&& slice.total_lines == ls.len()
            &&& !slice.truncated
        }),
{
    let ls = lines::lines(crate::write::text_to_write(req));
    assert(ls.subrange(0, ls.len() as int) =~= ls);
}

// ── the course of a request ─────────────────────────────────────────────────

/// What is to be done first.
#[derive(Debug)]
pub enum ReadStart {
    /// List the directory.
    List,
    /// Load the file.
    Load,
    /// Nothing: this is the answer.
    Reply(ReadReply),
}

/// What is to be done when the file was loaded.
#[derive(Debug)]
pub enum ReadNext {
    /// Have ctags list the symbols of the file.
    ListSymbols,
    /// Nothing: this is the answer.
    Reply(ReadReply),
}

/// What is to be done when the symbols were listed.
#[derive(Debug)]
pub enum ReadWithTags {
    /// Load the file once more.
    Reload,
    /// Nothing: this is the answer.
    Reply(ReadReply),
}

/// `r` is the error with the given message.
pub open spec fn is_error(r: ReadReply, message: Seq<char>) -> bool {
    r matches ReadReply::Error(m) && m@ == message
}

fn error_reply(before: &str, subject: &str, after: &str) -> (r: ReadReply)
    ensures
        is_error(r, before@ + subject@ + after@),
{
    let mut m = before.to_owned();
    m.append(subject);
    m.append(after);
    ReadReply::Error(m)
}

/// `r` is what is to be done first for a request, when its path names such a
/// thing.
pub open spec fn is_read_start(r: ReadStart, req: ReadRequest, kind: PathKind) -> bool {
    match kind {
        PathKind::Directory => r == ReadStart::List,
        PathKind::Missing => r matches ReadStart::Reply(reply) && is_error(
            reply,
            "file not found: "@ + req.path@,
        ),
        PathKind::File => r == ReadStart::Load,
    }
}

/// What is to be done first, when `kind` is what stands at the path.
pub fn start_read(req: &ReadRequest, kind: PathKind) -> (r: ReadStart)
    ensures
        is_read_start(r, *req, kind),
{
    match kind {
        PathKind::Directory => ReadStart::List,
        PathKind::Missing => {
            let reply = error_reply("file not found: ", req.path.as_str(), "");
            proof {
                reveal_strlit("");
                assert("file not found: "@ + req.path@ + ""@ =~= "file not found: "@ + req.path@);
            }
            ReadStart::Reply(reply)
        },
        PathKind::File => ReadStart::Load,
    }
}

/// `r` is the answer for the directory `dir`, of which `read_dir` gives the
/// entries: a tree of the depth that is asked for, in the order of the names.
pub open spec fn is_directory_reply<F: Fn(usize) -> Option<Vec<Found>>>(
    r: ReadReply,
    req: ReadRequest,
    read_dir: F,
    dir: usize,
    listing: Listing,
) -> bool {
    let depth = tree::tree_depth(req.max_depth) as int;
    &&& tree::is_listing_of(listing, read_dir, dir, 0, depth)
    &&& r matches ReadReply::Directory { tree: drawn }
    &&& drawn@ == tree::tree_text(listing, seq![], 0, depth)
}

/// The answer for the directory `dir`. `read_dir` gives the entries of a
/// directory in any order, or nothing where it cannot be read.
pub fn finish_directory<F: Fn(usize) -> Option<Vec<Found>>>(
    req: &ReadRequest,
    read_dir: &F,
    dir: usize,
) -> (r: ReadReply)
    requires
        forall|d: usize| call_requires(*read_dir, (d,)),
    ensures
        exists|listing: Listing| #[trigger] is_directory_reply(r, *req, *read_dir, dir, listing),
{
    let depth = clamp_depth(req.max_depth);
    let listing = list_directory(read_dir, dir, 0, depth);
    proof {
        reveal_strlit("");
        assert(""@ =~= Seq::<char>::empty());
    }
    let r = ReadReply::Directory { tree: build_tree(&listing, "", 0, depth) };
    assert(is_directory_reply(r, *req, *read_dir, dir, listing));
    r
}

/// The symbols of the file are asked for.
pub open spec fn wants_symbols(req: ReadRequest) -> bool {
    req.outline_only == Some(true) || req.extract_symbol is Some
}

/// How many lines around a match are asked for.
pub open spec fn context_of(req: ReadRequest) -> int {
    match req.context_lines {
        Some(n) => n as int,
        None => search::DEFAULT_CONTEXT_LINES as int,
    }
}

/// `r` is the answer to a search for `pattern`, with `ctx` lines around each
/// match.
pub open spec fn is_search_reply(r: ReadReply, content: Seq<char>, pattern: Seq<char>, ctx: int) -> bool {
    let ls = lines::lines(content);
    let flags = search::match_flags(pattern, ls);
    match search::regex_error(pattern) {
        Some(reason) => is_error(r, "invalid regex: "@ + reason),
        None => if search::match_count(flags, flags.len() as int) == 0 {
            r is NoMatches
        } else {
            r matches ReadReply::Search(hits) && search::shows_hits(hits, ls, flags, ctx)
        },
    }
}

/// `r` is what is to be done when the file was loaded, or could not be.
pub open spec fn is_read_next(r: ReadNext, req: ReadRequest, loaded: Result<&str, &str>) -> bool {
    match loaded {
        Err(reason) => r matches ReadNext::Reply(reply) && is_error(
            reply,
            "read failed: "@ + reason@,
        ),
        Ok(content) => if wants_symbols(req) {
            r == ReadNext::ListSymbols
        } else {
            r matches ReadNext::Reply(reply) && match req.search_regex {
                Some(pattern) => is_search_reply(
                    reply,
                    content@,
                    pattern@,
                    context_of(req),
                ),
                None => is_range_reply(reply, content@, req.start_line, req.end_line),
            }
        },
    }
}

/// What is to be done when the file was loaded, or could not be for the given
/// reason.
pub fn continue_read(req: &ReadRequest, loaded: Result<&str, &str>) -> (r: ReadNext)
    ensures
        is_read_next(r, *req, loaded),
{
    let content = match loaded {
        Ok(content) => content,
        Err(reason) => {
            let reply = error_reply("read failed: ", reason, "");
            proof {
                reveal_strlit("");
                assert("read failed: "@ + reason@ + ""@ =~= "read failed: "@ + reason@);
            }
            return ReadNext::Reply(reply);
        },
    };
    let outline = match req.outline_only {
        Some(b) => b,
        None => false,
    };
    if outline || req.extract_symbol.is_some() {
        return ReadNext::ListSymbols;
    }
    match &req.search_regex {
        Some(pattern) => {
            let ctx: usize = match req.context_lines {
                Some(n) => n,
                None => search::DEFAULT_CONTEXT_LINES,
            };
            match search_lines(content, pattern.as_str(), ctx) {
                Err(reason) => {
                    let reply = error_reply("invalid regex: ", reason.as_str(), "");
                    proof {
                        reveal_strlit("");
                        assert("invalid regex: "@ + reason@ + ""@ =~= "invalid regex: "@ + reason@);
                    }
                    ReadNext::Reply(reply)
                },
                Ok(hits) => if hits.total_matches == 0 {
                    ReadNext::Reply(ReadReply::NoMatches)
                } else {
                    ReadNext::Reply(ReadReply::Search(hits))
                },
            }
        },
        None => ReadNext::Reply(read_range(content, req.start_line, req.end_line)),
    }
}

/// The symbols in a list that ctags wrote.
pub open spec fn listed(tags: Seq<char>) -> Seq<ctags::TagModel> {
    ctags::tags_of(lines::lines(tags))
}

/// `r` says that there is no symbol of the given name.
pub open spec fn is_symbol_error(r: ReadReply, symbol: Seq<char>) -> bool {
    is_error(r, "symbol '"@ + symbol + "' not found"@)
}

/// `r` is what is to be done when ctags has listed the symbols, or has not.
pub open spec fn is_read_with_tags(
    r: ReadWithTags,
    req: ReadRequest,
    tags: Option<&str>,
) -> bool {
    if req.outline_only == Some(true) {
        r matches ReadWithTags::Reply(reply) && reply matches ReadReply::Outline { outline }
            && outline@ == (match tags {
            Some(t) => lines::joined(ctags::outline_lines(listed(t@)), "\n"@),
            None => "(ctags not available or no symbols found)"@,
        })
    } else {
        let symbol = req.extract_symbol.unwrap()@;
        if tags matches Some(t) && ctags::symbol_line(listed(t@), symbol) is Some {
            r == ReadWithTags::Reload
        } else {
            r matches ReadWithTags::Reply(reply) && is_symbol_error(reply, symbol)
        }
    }
}

/// What is to be done when ctags listed the symbols, or could not.
pub fn continue_with_tags(req: &ReadRequest, tags: Option<&str>) -> (r: ReadWithTags)
    requires
        wants_symbols(*req),
    ensures
        is_read_with_tags(r, *req, tags),
{
    let outline = match req.outline_only {
        Some(b) => b,
        None => false,
    };
    if outline {
        let outline = match tags {
            Some(t) => extract_outline_ctags(t),
            None => "(ctags not available or no symbols found)".to_owned(),
        };
        return ReadWithTags::Reply(ReadReply::Outline { outline });
    }
    match &req.extract_symbol {
        Some(symbol) => {
            match tags {
                Some(t) => {
                    if listed_line(t, symbol.as_str()).is_some() {
                        return ReadWithTags::Reload;
                    }
                },
                None => {},
            }
            ReadWithTags::Reply(error_reply("symbol '", symbol.as_str(), "' not found"))
        },
        None => ReadWithTags::Reload,
    }
}

/// `r` is the answer with the body of a symbol, when the file was loaded once
/// more, or could not be.
pub open spec fn is_symbol_reply(
    r: ReadReply,
    symbol: Seq<char>,
    tags: Seq<char>,
    content: Option<&str>,
) -> bool {
    match content {
        None => is_symbol_error(r, symbol),
        Some(c) => match ctags::symbol_body(listed(tags), symbol, c@) {
            None => is_symbol_error(r, symbol),
            Some(body) => r matches ReadReply::Symbol { content: shown, line_count }
                && shown@ == lines::joined(lines::numbered(lines::lines(body), 1), "\n"@)
                && line_count == lines::lines(body).len(),
        },
    }
}

/// The answer for a symbol that ctags listed, when the file was loaded once
/// more, or could not be.
pub fn finish_symbol(symbol: &str, tags: &str, content: Option<&str>) -> (r: ReadReply)
    ensures
        is_symbol_reply(r, symbol@, tags@, content),
{
    let body = match content {
        Some(c) => extract_symbol_ctags(tags, c, symbol),
        None => None,
    };
    match body {
        Some(body) => {
            let line_count = split_lines(body.as_str()).len();
            assert(line_count == lines::lines(body@).len());
            ReadReply::Symbol { content: add_line_numbers(body.as_str(), 1), line_count }
        },
        None => error_reply("symbol '", symbol, "' not found"),
    }
}

} // verus!
