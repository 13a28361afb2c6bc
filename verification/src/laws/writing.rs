//! What a write stores, and how it is answered.
use vstd::prelude::*;
use vstd::utf8;

use crate::clip;
use crate::edit;
use crate::laws;
use crate::laws::editing;
use crate::laws::texts;
use crate::number;
use crate::paths;
use crate::paths::Platform;
use crate::text;
use crate::write::{EditStep, StoreFailure, WriteReply, WriteRequest, WriteStart};

verus! {

/// The text that a request writes is its new text, character by character, or
/// ends with it; with a first line of a script, that line and a line feed stand
/// before it, and nothing else does.
pub proof fn new_text_is_written_as_it_is(req: WriteRequest)
    ensures
        ({
            let text = crate::write::text_to_write(req);
            let new = req.new_string@;
            &&& req.shebang is None ==> text == new
            &&& text.len() >= new.len() && text.skip(text.len() - new.len()) == new
            &&& req.shebang matches Some(line) ==> {
                ||| text == line@ + seq!['\n'] + new && line@.len() >= 2 && line@[0] == '#'
                    && line@[1] == '!'
                ||| text == seq!['#', '!'] + line@ + seq!['\n'] + new && !(line@.len() >= 2
                    && line@[0] == '#' && line@[1] == '!')
            }
        }),
{
    reveal_strlit("\n");
    reveal_strlit("#!");
    assert("\n"@ =~= seq!['\n']);
    assert("#!"@ =~= seq!['#', '!']);
    let new = req.new_string@;
    let t = crate::write::text_to_write(req);
    if let Some(line) = req.shebang {
        let l = line@;
        texts::occurrence_is_character_by_character(l, "#!"@, 0);
        assert(text::begins_with(l, "#!"@) <==> l.len() >= 2 && l[0] == '#' && l[1] == '!') by {
            if l.len() >= 2 && l[0] == '#' && l[1] == '!' {
                assert forall|k: int| 0 <= k < "#!"@.len() implies l[0 + k] == #[trigger] "#!"@[k] by {}
            }
            if text::begins_with(l, "#!"@) {
                assert("#!"@[0] == '#' && "#!"@[1] == '!');
                assert(l[0 + 0int] == "#!"@[0] && l[0 + 1int] == "#!"@[1]);
            }
        }
    }
    assert(t.skip(t.len() - new.len()) =~= new);
}

/// The size of a text is that of its encoding.
pub proof fn sizes_are_those_of_the_encoding(s: Seq<char>)
    ensures
        clip::byte_len(s) == utf8::encode_utf8(s).len(),
{
}

/// Where the text to be found stands in the file once, it and nothing else is
/// replaced by the new text; where it stands nowhere, nothing is stored.
pub proof fn one_occurrence_is_replaced(
    step: EditStep,
    req: WriteRequest,
    a: Seq<char>,
    old: Seq<char>,
    b: Seq<char>,
    content: Seq<char>,
)
    requires
        old.len() > 0,
        req.count is None || req.count == Some(1usize) || req.count == Some(0usize),
    ensures
        content == laws::between(a, old, b) && editing::is_first_part(a, old, b) && !laws::holds(
            b,
            old,
        ) && crate::write::is_replacement(step, req, old, content) ==> {
            &&& step matches EditStep::Store { text, then }
            &&& req.shebang is None ==> text@ == a + req.new_string@ + b
            &&& then == (WriteReply::Replaced { occurrences: 1 })
        },
        !laws::holds(content, old) && crate::write::is_replacement(step, req, old, content) ==> {
            &&& step matches EditStep::Reply(r)
            &&& r is NotFound
        },
{
    let new = crate::write::text_to_write(req);
    new_text_is_written_as_it_is(req);
    editing::occurrences_one_by_one(a, old, b, b);
    editing::replacing_one_by_one(a, old, b, b, new, ' ');
    editing::occurrences_one_by_one(a, old, b, content);
}

/// A replacement stores all of the content with every occurrence replaced, and
/// says how many there were; it does so exactly where there are as many as
/// expected (one, where nothing is said), or where none are expected and there
/// is at least one. A wrong number is told with both numbers.
pub proof fn replacements_are_counted(
    step: EditStep,
    req: WriteRequest,
    old: Seq<char>,
    content: Seq<char>,
)
    requires
        crate::write::is_replacement(step, req, old, content),
        content.len() < usize::MAX,
    ensures
        ({
            let found = edit::occurrences(content, old);
            let expected = match req.count {
                Some(n) => n as nat,
                None => 1,
            };
            let stores = found > 0 && (expected == 0 || found == expected);
            &&& step is Store <==> stores
            &&& step matches EditStep::Store { text, then } ==> (req.shebang is None ==> text@
                == edit::replaced(content, old, req.new_string@)) && (then
                matches WriteReply::Replaced { occurrences } && occurrences == found)
            &&& found > 0 && !stores ==> (step matches EditStep::Reply(WriteReply::Error(m)) && m@
                == seq!['e', 'x', 'p', 'e', 'c', 't', 'e', 'd', ' '] + number::decimal(expected)
                + seq![
                ' ', 'o', 'c', 'c', 'u', 'r', 'r', 'e', 'n', 'c', 'e', '(', 's', ')', ' ', 'b', 'u',
                't', ' ', 'f', 'o', 'u', 'n', 'd', ' ',
            ] + number::decimal(found))
            &&& found == 0 ==> (step matches EditStep::Reply(r) && r is NotFound)
        }),
{
    reveal_strlit("expected ");
    reveal_strlit(" occurrence(s) but found ");
    assert("expected "@ =~= seq!['e', 'x', 'p', 'e', 'c', 't', 'e', 'd', ' ']);
    assert(" occurrence(s) but found "@ =~= seq![
        ' ', 'o', 'c', 'c', 'u', 'r', 'r', 'e', 'n', 'c', 'e', '(', 's', ')', ' ', 'b', 'u', 't', ' ',
        'f', 'o', 'u', 'n', 'd', ' ',
    ]);
    new_text_is_written_as_it_is(req);
    occurrences_are_bounded(content, old);
}

/// There are not more occurrences than characters, but for an empty text.
pub proof fn occurrences_are_bounded(s: Seq<char>, p: Seq<char>)
    ensures
        edit::occurrences(s, p) <= s.len() + 1,
{
    if p.len() > 0 {
        lemma_occurrences_bounded(s, p, 0);
    }
}

proof fn lemma_occurrences_bounded(s: Seq<char>, p: Seq<char>, from: int)
    requires
        0 < p.len(),
        0 <= from <= s.len(),
    ensures
        edit::occurrences_from(s, p, from) <= s.len() - from,
    decreases s.len() - from,
{
    text::first_occurrence_is_least(s, p, from);
    if let Some(i) = text::first_occurrence(s, p, from) {
        lemma_occurrences_bounded(s, p, i + p.len());
    }
}

/// An insertion puts the new text right after the first anchor, and stores all
/// else as it was; it says how many bytes were put in.
pub proof fn new_text_is_inserted_after_the_anchor(
    step: EditStep,
    req: WriteRequest,
    a: Seq<char>,
    anchor: Seq<char>,
    b: Seq<char>,
    content: Seq<char>,
)
    ensures
        content == laws::between(a, anchor, b) && editing::is_first_part(a, anchor, b)
            && crate::write::is_insertion(step, req, anchor, content) ==> {
            &&& step matches EditStep::Store { text, then }
            &&& req.shebang is None ==> text@ == a + anchor + req.new_string@ + b && then == (
            WriteReply::InsertedAfter { bytes: utf8::encode_utf8(req.new_string@).len() as usize })
        },
        !laws::holds(content, anchor) && crate::write::is_insertion(step, req, anchor, content)
            ==> {
            &&& step matches EditStep::Reply(r)
            &&& r is NotFound
        },
{
    let new = crate::write::text_to_write(req);
    new_text_is_written_as_it_is(req);
    editing::insertion_is_after_the_first_anchor(a, anchor, b, content, new);
}

/// When a text is not found, the beginning of the file is shown: all of it, or
/// as many whole characters as fit in 8000 bytes; and its size is told.
pub proof fn a_missing_text_shows_the_file(r: WriteReply, content: Seq<char>)
    requires
        crate::write::is_not_found(r, content),
    ensures
        r matches WriteReply::NotFound { file_content, truncated, total_bytes } && {
            let bytes = utf8::encode_utf8(content).len();
            &&& total_bytes == bytes
            &&& bytes <= 8000 ==> file_content@ == content && !truncated
            &&& bytes > 8000 ==> truncated && file_content@.len() < content.len()
                && utf8::encode_utf8(content.take(file_content@.len() + 1int)).len() > 8000
            &&& file_content@ == content.take(file_content@.len() as int)
            &&& utf8::encode_utf8(file_content@).len() <= 8000
        },
{
    let shown = clip::clipped(content, 8000);
    clip::clipped_is_longest_fitting(content, 8000);
    if clip::byte_len(content) <= 8000 {
        clip::fitting_text_is_kept(content, 8000);
    }
    assert(shown =~= content.take(shown.len() as int));
    if clip::byte_len(content) > 8000 {
        assert(content.take(content.len() as int) =~= content);
        assert(shown.len() < content.len()) by {
            if shown.len() == content.len() {
                assert(shown =~= content);
            }
        }
        assert(clip::byte_len(content.take(shown.len() + 1int)) > 8000);
    }
}

/// An error says what it is said to say, and errors and texts that are not
/// found are the only failures.
pub proof fn failures_are_told(r: WriteReply, message: Seq<char>)
    ensures
        crate::write::is_error(r, message) <==> (r matches WriteReply::Error(m) && m@ == message),
        crate::write::is_failure(r) <==> !(r is InsertedAfter || r is Appended || r is Replaced
            || r is Written),
{
}

/// A request without a text to be found is carried out at once: it stores its
/// new text, at the end of the file where it is to be added, and says how many
/// bytes that are. Another one has the file loaded first.
pub proof fn requests_are_carried_out(r: WriteStart, req: WriteRequest, platform: Platform)
    requires
        crate::write::is_write_start(r, req, platform),
    ensures
        r is Load <==> req.old_string is Some,
        r is Append <==> req.old_string is None && req.append == Some(true),
        r matches WriteStart::Append { parent, text, then } ==> {
            &&& req.shebang is None ==> text@ == req.new_string@
            &&& text@ == crate::write::text_to_write(req)
            &&& then == (WriteReply::Appended { bytes: utf8::encode_utf8(text@).len() as usize })
            &&& parent is Some <==> (paths::parent(req.path@, platform) matches Some(dir)
                && dir.len() > 0)
            &&& parent matches Some(dir) ==> Some(dir@) == paths::parent(req.path@, platform)
        },
        r matches WriteStart::Overwrite { parent, text, then } ==> {
            &&& req.shebang is None ==> text@ == req.new_string@
            &&& text@ == crate::write::text_to_write(req)
            &&& then == (WriteReply::Written { bytes: utf8::encode_utf8(text@).len() as usize })
            &&& parent is Some <==> (paths::parent(req.path@, platform) matches Some(dir)
                && dir.len() > 0)
            &&& parent matches Some(dir) ==> Some(dir@) == paths::parent(req.path@, platform)
        },
{
    new_text_is_written_as_it_is(req);
}

/// A file that could not be loaded is told with the reason. In another one the
/// new text is put in after the text to be found where it is to be added, and
/// else in place of it.
pub proof fn loaded_files_are_edited(r: EditStep, req: WriteRequest, loaded: Result<&str, &str>)
    requires
        req.old_string is Some,
        crate::write::is_edit(r, req, loaded),
    ensures
        loaded matches Err(reason) ==> (r matches EditStep::Reply(WriteReply::Error(m)) && m@
            == "read failed: "@ + reason@),
        loaded matches Ok(content) ==> if req.append == Some(true) {
            crate::write::is_insertion(r, req, req.old_string.unwrap()@, content@)
        } else {
            crate::write::is_replacement(r, req, req.old_string.unwrap()@, content@)
        },
{
}

/// A file is run exactly where a first line of a script is given.
pub proof fn scripts_are_run(req: WriteRequest)
    ensures
        crate::write::runs(req) <==> req.shebang is Some,
{
}

/// A text that could not be stored is told with what failed and why.
pub proof fn failed_stores_are_told(r: WriteReply, failure: StoreFailure)
    requires
        crate::write::is_store_error(r, failure),
    ensures
        r matches WriteReply::Error(m) && m@ == (match failure {
            StoreFailure::MakeDirectory(reason) => "mkdir failed: "@ + reason@,
            StoreFailure::Open(reason) => "open failed: "@ + reason@,
            StoreFailure::Write(reason) => "write failed: "@ + reason@,
        }),
        crate::write::is_failure(r),
{
}

} // verus!
