//! The symbols that ctags lists, and their bodies.
use vstd::prelude::*;

use crate::ctags;
use crate::ctags::TagModel;
use crate::laws;
use crate::laws::texts;
use crate::lines;
use crate::number;
use crate::text;

verus! {

/// One of the symbols begins on the given line.
pub open spec fn begins_on(tags: Seq<TagModel>, line: int) -> bool {
    exists|i: int| 0 <= i < tags.len() && (#[trigger] tags[i]).line == line
}

/// The next symbol is the nearest one: one of the symbols begins there, after
/// the line, and none begins between the two. There is none exactly where no
/// symbol begins after the line.
pub proof fn the_next_symbol_is_the_nearest(tags: Seq<TagModel>, line: usize)
    ensures
        match ctags::next_symbol_line(tags, line) {
            Some(n) => n > line && begins_on(tags, n as int) && forall|l: int|
                line < l < n ==> !#[trigger] begins_on(tags, l),
            None => forall|l: int| line < l ==> !#[trigger] begins_on(tags, l),
        },
    decreases tags.len(),
{
    if tags.len() > 0 {
        let init = tags.drop_last();
        let last = tags.last();
        the_next_symbol_is_the_nearest(init, line);
        assert forall|l: int| #[trigger] begins_on(tags, l) == (begins_on(init, l) || last.line
            == l) by {
            if begins_on(init, l) {
                let i = choose|i: int| 0 <= i < init.len() && (#[trigger] init[i]).line == l;
                assert(tags[i].line == l);
            }
            if last.line == l {
                assert(tags[tags.len() - 1].line == l);
            }
            if begins_on(tags, l) && last.line != l {
                let i = choose|i: int| 0 <= i < tags.len() && (#[trigger] tags[i]).line == l;
                assert(init[i].line == l);
            }
        }
        assert(begins_on(tags, last.line as int));
    }
}

/// `i` is the place of the first symbol of the given name.
pub open spec fn is_first_of_name(tags: Seq<TagModel>, symbol: Seq<char>, i: int) -> bool {
    &&& 0 <= i < tags.len()
    &&& tags[i].name == symbol
    &&& forall|j: int| 0 <= j < i ==> (#[trigger] tags[j]).name != symbol
}

/// The line of a symbol is that of the first one of its name; there is none
/// exactly where no symbol has the name.
pub proof fn the_first_symbol_of_a_name_counts(tags: Seq<TagModel>, symbol: Seq<char>)
    ensures
        match ctags::symbol_line(tags, symbol) {
            Some(line) => exists|i: int| #[trigger]
                is_first_of_name(tags, symbol, i) && tags[i].line == line,
            None => forall|i: int| 0 <= i < tags.len() ==> (#[trigger] tags[i]).name != symbol,
        },
    decreases tags.len(),
{
    if tags.len() > 0 {
        if tags[0].name == symbol {
            assert(is_first_of_name(tags, symbol, 0));
        } else {
            let rest = tags.drop_first();
            the_first_symbol_of_a_name_counts(rest, symbol);
            if ctags::symbol_line(tags, symbol) is Some {
                let i = choose|i: int| #[trigger]
                    is_first_of_name(rest, symbol, i) && rest[i].line == ctags::symbol_line(
                        rest,
                        symbol,
                    ).unwrap();
                assert(rest[i] == tags[i + 1]);
                assert forall|j: int| 0 <= j < i + 1 implies (#[trigger] tags[j]).name
                    != symbol by {
                    if j > 0 {
                        assert(rest[j - 1] == tags[j]);
                    }
                }
                assert(is_first_of_name(tags, symbol, i + 1));
            } else {
                assert forall|j: int| 0 <= j < tags.len() implies (#[trigger] tags[j]).name
                    != symbol by {
                    if j > 0 {
                        assert(rest[j - 1] == tags[j]);
                    }
                }
            }
        }
    }
}

/// `body` are the lines of a file from line `line` to line `end`.
pub open spec fn is_stretch(
    body: Seq<char>,
    ls: Seq<Seq<char>>,
    line: int,
    end: int,
) -> bool {
    body == lines::joined(ls.subrange(line - 1, end), seq!['\n'])
}

/// The body of a symbol is made up of the lines of the file from its own on. No
/// symbol begins on one of the others, and the body ends with the file or where
/// the next symbol begins on the next line.
pub proof fn a_body_ends_before_the_next_symbol(
    tags: Seq<TagModel>,
    symbol: Seq<char>,
    content: Seq<char>,
)
    ensures
        ctags::symbol_body(tags, symbol, content) matches Some(body) ==> exists|i: int, end: int|
            {
                let ls = lines::lines(content);
                &&& #[trigger] is_first_of_name(tags, symbol, i)
                &&& #[trigger] is_stretch(body, lines::lines(content), tags[i].line as int, end)
                &&& 1 <= tags[i].line <= end + 1
                &&& end <= ls.len()
                &&& end == ls.len() || begins_on(tags, end + 1)
                &&& forall|l: int| tags[i].line < l <= end ==> !#[trigger] begins_on(tags, l)
                &&& tags[i].line == end + 1 ==> ls.len() == 0
            },
{
    reveal_strlit("\n");
    assert("\n"@ =~= seq!['\n']);
    the_first_symbol_of_a_name_counts(tags, symbol);
    if let Some(body) = ctags::symbol_body(tags, symbol, content) {
        let line = ctags::symbol_line(tags, symbol).unwrap();
        the_next_symbol_is_the_nearest(tags, line);
        let i = choose|i: int| #[trigger]
            is_first_of_name(tags, symbol, i) && tags[i].line == line;
        let ls = lines::lines(content);
        let end = match ctags::next_symbol_line(tags, line) {
            Some(n) => n - 1,
            None => ls.len() as int,
        };
        assert(is_stretch(body, ls, tags[i].line as int, end));
        assert(is_first_of_name(tags, symbol, i));
    }
}

/// A symbol has a body wherever its line, and that before the next symbol, are
/// within the file.
pub proof fn symbols_within_the_file_have_a_body(
    tags: Seq<TagModel>,
    symbol: Seq<char>,
    content: Seq<char>,
    i: int,
)
    requires
        is_first_of_name(tags, symbol, i),
        1 <= tags[i].line <= lines::lines(content).len(),
        forall|j: int|
            0 <= j < tags.len() ==> (#[trigger] tags[j]).line <= lines::lines(content).len() + 1,
    ensures
        ctags::symbol_body(tags, symbol, content) is Some,
{
    the_first_symbol_of_a_name_counts(tags, symbol);
    let line = ctags::symbol_line(tags, symbol);
    assert(line is Some);
    let k = choose|k: int| #[trigger]
        is_first_of_name(tags, symbol, k) && tags[k].line == line.unwrap();
    assert(k == i) by {
        if k < i {
            assert(tags[k].name != symbol);
        } else if i < k {
            assert(tags[i].name != symbol);
        }
    }
    the_next_symbol_is_the_nearest(tags, line.unwrap());
}

/// A line of the list with fewer than three fields names no symbol. Another one
/// names the symbol in its first field; the kind is what follows `kind:` in the
/// fourth field, and the line what follows `line:` in the last one.
pub proof fn symbols_are_read_from_their_fields(line: Seq<char>, x: Seq<char>)
    ensures
        ({
            let fs = text::fields(line, '\t');
            &&& ctags::tag_of(line) is Some <==> fs.len() >= 3
            &&& ctags::tag_of(line) matches Some(tag) ==> {
                &&& tag.name == fs[0]
                &&& fs.len() > 3 && fs[3] == "kind:"@ + x ==> tag.kind == x
                &&& fs.len() == 3 || !laws::starts(fs[3], "kind:"@) ==> tag.kind == seq!['?']
                &&& fs.last() == "line:"@ + x ==> tag.line == (match number::parsed_usize(x) {
                    Some(n) => n,
                    None => 0,
                })
                &&& !laws::starts(fs.last(), "line:"@) ==> tag.line == 0
            }
        }),
{
    reveal_strlit("?");
    assert("?"@ =~= seq!['?']);
    let fs = text::fields(line, '\t');
    if fs.len() >= 3 {
        texts::prefix_and_rest_make_the_text(fs.last(), "line:"@, x);
        texts::beginnings_are_parts(fs.last(), "line:"@);
        if fs.len() > 3 {
            texts::prefix_and_rest_make_the_text(fs[3], "kind:"@, x);
            texts::beginnings_are_parts(fs[3], "kind:"@);
        }
    }
}

/// A list of one line has its symbol, if it names one, and no other.
pub proof fn one_line_has_one_symbol(line: Seq<char>)
    ensures
        ctags::tags_of(seq![line]) == (match ctags::tag_of(line) {
            Some(tag) => seq![tag],
            None => seq![],
        }),
        ctags::tags_of(seq![]) == Seq::<TagModel>::empty(),
{
    let one = seq![line];
    assert(one.drop_last() =~= seq![]);
    assert(ctags::tags_of(one.drop_last()) =~= seq![]);
    assert(one.last() == line);
}

/// An outline has one line for each symbol: its line number, its kind in square
/// brackets, and its name.
pub proof fn outlines_show_every_symbol(tags: Seq<TagModel>, i: int)
    requires
        0 <= i < tags.len(),
    ensures
        ctags::outline_lines(tags).len() == tags.len(),
        ctags::outline_lines(tags)[i] == number::column4(tags[i].line as nat) + seq![
            ' ', '|', ' ', '[',
        ] + tags[i].kind + seq![']', ' '] + tags[i].name,
{
    reveal_strlit(" | [");
    reveal_strlit("] ");
    assert(" | ["@ =~= seq![' ', '|', ' ', '[']);
    assert("] "@ =~= seq![']', ' ']);
}

} // verus!
