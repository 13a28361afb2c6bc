//! The symbols of a file, as ctags lists them.
use vstd::prelude::*;
use vstd::string::*;
use vstd::utf8;

use crate::lines::{self, join, join_range, split_lines};
use crate::number::{self, parse_usize, to_column4};
use crate::text::{self, chars_of, same_text, split_fields, string_of, strip_prefix};

verus! {

/// A symbol: its name, its kind, and the line on which it begins, or zero
/// where that is not known.
#[verifier::ext_equal]
pub struct TagModel {
    pub name: Seq<char>,
    pub kind: Seq<char>,
    pub line: usize,
}

/// A symbol, with its texts as sequences of characters.
pub open spec fn tag_model(t: (String, String, usize)) -> TagModel {
    TagModel { name: t.0@, kind: t.1@, line: t.2 }
}

/// A list of symbols, with their texts as sequences of characters.
pub open spec fn tag_models(tags: Seq<(String, String, usize)>) -> Seq<TagModel> {
    Seq::new(tags.len(), |i: int| tag_model(tags[i]))
}

// ── reading the list ────────────────────────────────────────────────────────

/// `String::from_utf8`: the text that bytes hold, where they are UTF-8.
#[verifier::external_body]
fn decode(bytes: Vec<u8>) -> (r: Option<String>)
    ensures
        match r {
            Some(s) => utf8::valid_utf8(bytes@) && s@ == utf8::decode_utf8(bytes@),
            None => !utf8::valid_utf8(bytes@),
        },
{
    String::from_utf8(bytes).ok()
}

/// The list that a run of ctags wrote, if it ended well and wrote UTF-8.
pub fn ctags_output(success: bool, stdout: Vec<u8>) -> (r: Option<String>)
    ensures
        match r {
            Some(s) => success && utf8::valid_utf8(stdout@) && s@ == utf8::decode_utf8(stdout@),
            None => !success || !utf8::valid_utf8(stdout@),
        },
{
    if success {
        decode(stdout)
    } else {
        None
    }
}

/// The arguments with which ctags lists the symbols of a file.
pub fn ctags_args(path: &str) -> (args: Vec<String>)
    ensures
        text::texts(args@) == seq!["-f"@, "-"@, "--fields=n"@, "--sort=no"@, path@],
{
    let mut args: Vec<String> = Vec::new();
    args.push("-f".to_owned());
    args.push("-".to_owned());
    args.push("--fields=n".to_owned());
    args.push("--sort=no".to_owned());
    args.push(path.to_owned());
    assert(text::texts(args@) =~= seq!["-f"@, "-"@, "--fields=n"@, "--sort=no"@, path@]);
    args
}

/// The kind of a symbol whose line has the given fields.
pub open spec fn tag_kind(fields: Seq<Seq<char>>) -> Seq<char> {
    if fields.len() > 3 {
        match text::after_prefix(fields[3], "kind:"@) {
            Some(kind) => kind,
            None => "?"@,
        }
    } else {
        "?"@
    }
}

/// The line number of a symbol whose line has the given fields.
pub open spec fn tag_line(fields: Seq<Seq<char>>) -> usize {
    match text::after_prefix(fields.last(), "line:"@) {
        Some(digits) => match number::parsed_usize(digits) {
            Some(n) => n,
            None => 0,
        },
        None => 0,
    }
}

/// The symbol on a line of the list, if the line has three fields at least.
pub open spec fn tag_of(line: Seq<char>) -> Option<TagModel> {
    let fields = text::fields(line, '\t');
    if fields.len() >= 3 {
        Some(TagModel { name: fields[0], kind: tag_kind(fields), line: tag_line(fields) })
    } else {
        None
    }
}

/// The symbols on the lines of a list.
pub open spec fn tags_of(ls: Seq<Seq<char>>) -> Seq<TagModel>
    decreases ls.len(),
{
    if ls.len() == 0 {
        seq![]
    } else {
        let init = tags_of(ls.drop_last());
        match tag_of(ls.last()) {
            Some(tag) => init.push(tag),
            None => init,
        }
    }
}

fn parse_tag(line: &str) -> (r: Option<(String, String, usize)>)
    ensures
        match r {
            Some(tag) => tag_of(line@) == Some(tag_model(tag)),
            None => tag_of(line@) is None,
        },
{
    let parts = split_fields(&chars_of(line), '\t');
    let ghost fields = text::fields(line@, '\t');
    assert(fields == text::texts(parts@));
    assert(parts@.len() == fields.len());
    if parts.len() < 3 {
        return None;
    }
    let mut kind = "?".to_owned();
    if parts.len() > 3 {
        assert(fields[3] == parts@[3]@);
        match strip_prefix(&chars_of(parts[3].as_str()), &chars_of("kind:")) {
            Some(k) => {
                kind = string_of(k);
            },
            None => {},
        }
    }
    assert(kind@ == tag_kind(fields));
    let last = parts.len() - 1;
    assert(fields.last() == parts@[last as int]@);
    let mut line_num: usize = 0;
    match strip_prefix(&chars_of(parts[last].as_str()), &chars_of("line:")) {
        Some(digits) => {
            match parse_usize(digits) {
                Some(n) => {
                    line_num = n;
                },
                None => {},
            }
        },
        None => {},
    }
    assert(fields[0] == parts@[0]@);
    let tag = (parts[0].clone(), kind, line_num);
    assert(tag_of(line@) == Some(tag_model(tag)));
    Some(tag)
}

/// The symbols in a list that ctags wrote.
pub fn parse_ctags_output(ctags_output: &str) -> (out: Vec<(String, String, usize)>)
    ensures
        tag_models(out@) == tags_of(lines::lines(ctags_output@)),
{
    let ls = split_lines(ctags_output);
    let ghost all = lines::lines(ctags_output@);
    let mut out: Vec<(String, String, usize)> = Vec::new();
    let mut i: usize = 0;
    while i < ls.len()
        invariant
            i <= ls@.len(),
            all == text::texts(ls@),
            tag_models(out@) == tags_of(all.take(i as int)),
        decreases ls@.len() - i,
    {
        let ghost before = out@;
        proof {
            assert(all.take(i + 1).drop_last() =~= all.take(i as int));
            assert(all.take(i + 1).last() == ls@[i as int]@);
        }
        match parse_tag(ls[i].as_str()) {
            Some(tag) => {
                out.push(tag);
                assert(tag_models(out@) =~= tag_models(before).push(tag_model(tag)));
            },
            None => {},
        }
        i += 1;
    }
    assert(all.take(i as int) =~= all);
    out
}

// ── outline ─────────────────────────────────────────────────────────────────

/// The line of a symbol in an outline.
pub open spec fn outline_line(t: TagModel) -> Seq<char> {
    number::column4(t.line as nat) + " | ["@ + t.kind + "] "@ + t.name
}

/// The lines of an outline.
pub open spec fn outline_lines(tags: Seq<TagModel>) -> Seq<Seq<char>> {
    Seq::new(tags.len(), |i: int| outline_line(tags[i]))
}

/// The outline of a file, from the list that ctags wrote of it.
pub fn extract_outline_ctags(ctags_output: &str) -> (out: String)
    ensures
        out@ == lines::joined(outline_lines(tags_of(lines::lines(ctags_output@))), "\n"@),
{
    let tags = parse_ctags_output(ctags_output);
    let ghost want = outline_lines(tags_of(lines::lines(ctags_output@)));
    let mut rows: Vec<String> = Vec::new();
    let mut i: usize = 0;
    while i < tags.len()
        invariant
            i <= tags@.len(),
            want == outline_lines(tag_models(tags@)),
            text::texts(rows@) == want.take(i as int),
        decreases tags@.len() - i,
    {
        let ghost before = rows@;
        let mut row = to_column4(tags[i].2);
        row.append(" | [");
        row.append(tags[i].1.as_str());
        row.append("] ");
        row.append(tags[i].0.as_str());
        assert(row@ == want[i as int]);
        rows.push(row);
        i += 1;
        assert(text::texts(rows@) =~= text::texts(before).push(row@));
        assert(want.take(i as int) =~= want.take(i - 1).push(want[i - 1]));
    }
    assert(want.take(i as int) =~= want);
    join(&rows, "\n")
}

// ── one symbol ──────────────────────────────────────────────────────────────

/// The line on which the first symbol of the given name begins.
pub open spec fn symbol_line(tags: Seq<TagModel>, symbol: Seq<char>) -> Option<usize>
    decreases tags.len(),
{
    if tags.len() == 0 {
        None
    } else if tags[0].name == symbol {
        Some(tags[0].line)
    } else {
        symbol_line(tags.drop_first(), symbol)
    }
}

/// The least line after `line` on which one of the symbols begins.
pub open spec fn next_symbol_line(tags: Seq<TagModel>, line: usize) -> Option<usize>
    decreases tags.len(),
{
    if tags.len() == 0 {
        None
    } else {
        let init = next_symbol_line(tags.drop_last(), line);
        let here = tags.last().line;
        if here > line && (init matches Some(n) ==> here < n) {
            Some(here)
        } else {
            init
        }
    }
}

/// The lines of a symbol that begins on `line`: up to the line before the next
/// symbol, or to the end of the file. There are none where the symbol is said
/// to begin after the end, or where its line is not known; one on the first line
/// of an empty file has an empty body.
pub open spec fn symbol_lines(tags: Seq<TagModel>, line: usize, ls: Seq<Seq<char>>) -> Option<
    Seq<Seq<char>>,
> {
    let end = match next_symbol_line(tags, line) {
        Some(n) => n - 1,
        None => ls.len() as int,
    };
    if 0 < line && (line <= end <= ls.len() || (line == 1 && end == 0)) {
        Some(ls.subrange(line - 1, end))
    } else {
        None
    }
}

/// The body of the first symbol of the given name.
pub open spec fn symbol_body(tags: Seq<TagModel>, symbol: Seq<char>, content: Seq<char>) -> Option<
    Seq<char>,
> {
    match symbol_line(tags, symbol) {
        None => None,
        Some(line) => match symbol_lines(tags, line, lines::lines(content)) {
            None => None,
            Some(body) => Some(lines::joined(body, "\n"@)),
        },
    }
}

fn find_symbol(tags: &Vec<(String, String, usize)>, symbol: &str) -> (r: Option<usize>)
    ensures
        r == symbol_line(tag_models(tags@), symbol@),
{
    let mut i: usize = 0;
    let ghost all = tag_models(tags@);
    assert(all.skip(0) =~= all);
    while i < tags.len()
        invariant
            i <= tags@.len(),
            all == tag_models(tags@),
            symbol_line(all, symbol@) == symbol_line(all.skip(i as int), symbol@),
        decreases tags@.len() - i,
    {
        assert(all.skip(i as int)[0] == tag_model(tags@[i as int]));
        if same_text(tags[i].0.as_str(), symbol) {
            return Some(tags[i].2);
        }
        assert(all.skip(i as int).drop_first() =~= all.skip(i + 1));
        i += 1;
    }
    None
}

fn find_next(tags: &Vec<(String, String, usize)>, line: usize) -> (r: Option<usize>)
    ensures
        r == next_symbol_line(tag_models(tags@), line),
{
    let mut best: Option<usize> = None;
    let mut i: usize = 0;
    let ghost all = tag_models(tags@);
    while i < tags.len()
        invariant
            i <= tags@.len(),
            all == tag_models(tags@),
            best == next_symbol_line(all.take(i as int), line),
        decreases tags@.len() - i,
    {
        proof {
            assert(all.take(i + 1).drop_last() =~= all.take(i as int));
            assert(all.take(i + 1).last() == tag_model(tags@[i as int]));
        }
        let here = tags[i].2;
        let nearer = match best {
            Some(n) => here < n,
            None => true,
        };
        if here > line && nearer {
            best = Some(here);
        }
        i += 1;
    }
    assert(all.take(i as int) =~= all);
    best
}

/// The line that the list gives for the first symbol of the given name.
pub fn listed_line(ctags_output: &str, symbol: &str) -> (r: Option<usize>)
    ensures
        r == symbol_line(tags_of(lines::lines(ctags_output@)), symbol@),
{
    find_symbol(&parse_ctags_output(ctags_output), symbol)
}

/// The body of the first symbol of the given name, from the list that ctags
/// wrote and the content of the file.
pub fn extract_symbol_ctags(ctags_output: &str, content: &str, symbol: &str) -> (r: Option<String>)
    ensures
        text::opt_text(r) == symbol_body(
            tags_of(lines::lines(ctags_output@)),
            symbol@,
            content@,
        ),
{
    let tags = parse_ctags_output(ctags_output);
    let line = match find_symbol(&tags, symbol) {
        Some(line) => line,
        None => {
            return None;
        },
    };
    let ls = split_lines(content);
    proof {
        lemma_next_is_later(tag_models(tags@), line);
        assert(ls@.len() == lines::lines(content@).len());
    }
    let end: usize = match find_next(&tags, line) {
        Some(n) => n - 1,
        None => ls.len(),
    };
    if line > 0 && ((line <= end && end <= ls.len()) || (line == 1 && end == 0)) {
        Some(join_range(&ls, line - 1, end, "\n"))
    } else {
        None
    }
}

proof fn lemma_next_is_later(tags: Seq<TagModel>, line: usize)
    ensures
        next_symbol_line(tags, line) matches Some(n) ==> n > line,
    decreases tags.len(),
{
    if tags.len() > 0 {
        lemma_next_is_later(tags.drop_last(), line);
    }
}

/// The symbols of two lists, one after the other, are those of the first and
/// then those of the second, where the first ends with a line feed.
pub proof fn tags_of_two_lists(a: Seq<char>, b: Seq<char>)
    requires
        a.len() == 0 || a.last() == '\n',
    ensures
        tags_of(lines::lines(a + b)) == tags_of(lines::lines(a)) + tags_of(lines::lines(b)),
{
    lines::lines_of_two_texts(a, b);
    lemma_tags_concat(lines::lines(a), lines::lines(b));
}

proof fn lemma_tags_concat(a: Seq<Seq<char>>, b: Seq<Seq<char>>)
    ensures
        tags_of(a + b) == tags_of(a) + tags_of(b),
    decreases b.len(),
{
    if b.len() == 0 {
        assert(a + b =~= a);
        assert(tags_of(a) + tags_of(b) =~= tags_of(a));
    } else {
        assert((a + b).drop_last() =~= a + b.drop_last());
        assert((a + b).last() == b.last());
        lemma_tags_concat(a, b.drop_last());
        assert(tags_of(a + b) =~= tags_of(a) + tags_of(b));
    }
}

} // verus!
