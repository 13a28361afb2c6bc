//! Writing a file, or changing a part of it.
use vstd::prelude::*;
use vstd::string::*;

use crate::clip::{self, clip, count_bytes};
use crate::edit::{self, count_occurrences, insert_after, replace_all};
use crate::number::{self, to_decimal};
use crate::paths::{self, path_parent, Platform};
use crate::text::{self, chars_of, starts_with};
use crate::utils::OUTPUT_LIMIT;

verus! {

/// What is to be written, and how.
#[derive(Debug)]
pub struct WriteRequest {
    pub path: String,
    pub new_string: String,
    pub old_string: Option<String>,
    pub count: Option<usize>,
    pub append: Option<bool>,
    pub shebang: Option<String>,
}

/// The answer to a request.
#[derive(Debug)]
pub enum WriteReply {
    Error(String),
    /// The text to be found is not in the file, which begins as given.
    NotFound { file_content: String, truncated: bool, total_bytes: usize },
    InsertedAfter { bytes: usize },
    Appended { bytes: usize },
    Replaced { occurrences: usize },
    Written { bytes: usize },
}

// ── what is written ─────────────────────────────────────────────────────────

/// The first line of a script.
pub open spec fn shebang_line(shebang: Seq<char>) -> Seq<char> {
    if text::begins_with(shebang, "#!"@) {
        shebang
    } else {
        "#!"@ + shebang
    }
}

/// The text that a request writes: the new text, after the first line of a
/// script where one is given.
pub open spec fn text_to_write(req: WriteRequest) -> Seq<char> {
    match req.shebang {
        Some(s) => shebang_line(s@) + "\n"@ + req.new_string@,
        None => req.new_string@,
    }
}

/// The text that a request writes.
pub fn compose_text(req: &WriteRequest) -> (s: String)
    ensures
        s@ == text_to_write(*req),
{
    match &req.shebang {
        None => req.new_string.clone(),
        Some(shebang) => {
            let mut s = String::new();
            if !starts_with(&chars_of(shebang.as_str()), &chars_of("#!")) {
                s.append("#!");
            }
            s.append(shebang.as_str());
            assert(s@ =~= shebang_line(shebang@));
            s.append("\n");
            s.append(req.new_string.as_str());
            s
        },
    }
}

/// The file is run when it was written.
pub open spec fn runs(req: WriteRequest) -> bool {
    req.shebang is Some
}

/// Whether the file is run when it was written.
pub fn is_run(req: &WriteRequest) -> (r: bool)
    ensures
        r == runs(*req),
{
    req.shebang.is_some()
}

// ── where to begin ──────────────────────────────────────────────────────────

/// A request adds to a file.
pub open spec fn appends(req: WriteRequest) -> bool {
    req.append == Some(true)
}

/// What is to be done first. Where a text is stored, `then` is the answer when
/// that went well.
#[derive(Debug)]
pub enum WriteStart {
    /// Load the file, to change a part of it.
    Load,
    /// Make the directory, where one is given, and add the text to the end of
    /// the file, which is made if it is missing.
    Append { parent: Option<String>, text: String, then: WriteReply },
    /// Make the directory, where one is given, and write the text to the file.
    Overwrite { parent: Option<String>, text: String, then: WriteReply },
}

/// The directory that has to be there for a file to be written.
pub open spec fn needed_directory(path: Seq<char>, platform: Platform) -> Option<Seq<char>> {
    match paths::parent(path, platform) {
        Some(dir) => if dir.len() > 0 {
            Some(dir)
        } else {
            None
        },
        None => None,
    }
}

/// `r` is what is to be done first for a request.
pub open spec fn is_write_start(r: WriteStart, req: WriteRequest, platform: Platform) -> bool {
    if req.old_string is Some {
        r == WriteStart::Load
    } else if appends(req) {
        r matches WriteStart::Append { parent, text, then } && text::opt_text(parent)
            == needed_directory(req.path@, platform) && text@ == text_to_write(req) && then == (
        WriteReply::Appended { bytes: clip::byte_len(text@) as usize })
    } else {
        r matches WriteStart::Overwrite { parent, text, then } && text::opt_text(parent)
            == needed_directory(req.path@, platform) && text@ == text_to_write(req) && then == (
        WriteReply::Written { bytes: clip::byte_len(text@) as usize })
    }
}

/// What is to be done first.
pub fn start_write(req: &WriteRequest, platform: Platform) -> (r: WriteStart)
    ensures
        is_write_start(r, *req, platform),
        r matches WriteStart::Append { text, .. } ==> text@.len() >= req.new_string@.len() && text@.skip(
            text@.len() - req.new_string@.len(),
        ) == req.new_string@ && (req.shebang is None ==> text@ == req.new_string@),
        r matches WriteStart::Overwrite { text, .. } ==> text@.len() >= req.new_string@.len()
            && text@.skip(text@.len() - req.new_string@.len()) == req.new_string@ && (
        req.shebang is None ==> text@ == req.new_string@),
{
    proof {
        crate::laws::writing::new_text_is_written_as_it_is(*req);
    }
    if req.old_string.is_some() {
        return WriteStart::Load;
    }
    let text = compose_text(req);
    let bytes = count_bytes(text.as_str());
    let append = match req.append {
        Some(b) => b,
        None => false,
    };
    let parent = match path_parent(req.path.as_str(), platform) {
        Some(dir) => if dir.as_str().is_empty() {
            None
        } else {
            Some(dir)
        },
        None => None,
    };
    if append {
        return WriteStart::Append { parent, text, then: WriteReply::Appended { bytes } };
    }
    WriteStart::Overwrite { parent, text, then: WriteReply::Written { bytes } }
}

// ── changing a part ─────────────────────────────────────────────────────────

/// What is to be done when the file was loaded.
#[derive(Debug)]
pub enum EditStep {
    /// Write the text to the file; `then` is the answer when that went well.
    Store { text: String, then: WriteReply },
    /// Nothing: this is the answer.
    Reply(WriteReply),
}

/// `r` says that the text to be found is not in a file with the given content,
/// and shows as much of the content as fits in `OUTPUT_LIMIT` bytes.
pub open spec fn is_not_found(r: WriteReply, content: Seq<char>) -> bool {
    let shown = clip::clipped(content, OUTPUT_LIMIT as int);
    &&& r matches WriteReply::NotFound { file_content, truncated, total_bytes }
    &&& file_content@ == shown
    &&& truncated == (clip::byte_len(content) > clip::byte_len(shown))
    &&& total_bytes == clip::byte_len(content)
}

/// The answer when the text to be found is not in a file with the given
/// content.
pub fn not_found_error(content: &str) -> (r: WriteReply)
    ensures
        is_not_found(r, content@),
{
    let total = count_bytes(content);
    let file_content = clip(content, OUTPUT_LIMIT);
    let shown = count_bytes(file_content.as_str());
    WriteReply::NotFound { file_content, truncated: total > shown, total_bytes: total }
}

/// How many occurrences are expected.
pub open spec fn expected_count(req: WriteRequest) -> usize {
    match req.count {
        Some(n) => n,
        None => 1,
    }
}

/// `r` is the error with the given message.
pub open spec fn is_error(r: WriteReply, message: Seq<char>) -> bool {
    r matches WriteReply::Error(m) && m@ == message
}

/// `step` puts the new text in right after the first occurrence of `old`.
pub open spec fn is_insertion(
    step: EditStep,
    req: WriteRequest,
    old: Seq<char>,
    content: Seq<char>,
) -> bool {
    match edit::inserted_after(content, old, text_to_write(req)) {
        None => step matches EditStep::Reply(r) && is_not_found(r, content),
        Some(updated) => step matches EditStep::Store { text, then } && text@ == updated && then
            == (WriteReply::InsertedAfter {
            bytes: clip::byte_len(text_to_write(req)) as usize,
        }),
    }
}

/// `step` replaces every occurrence of `old` by the new text, if there are as
/// many as expected. When none are expected, any number of them will do.
pub open spec fn is_replacement(
    step: EditStep,
    req: WriteRequest,
    old: Seq<char>,
    content: Seq<char>,
) -> bool {
    let found = edit::occurrences(content, old);
    let expected = expected_count(req);
    if found == 0 {
        step matches EditStep::Reply(r) && is_not_found(r, content)
    } else if expected != 0 && found != expected {
        step matches EditStep::Reply(r) && is_error(
            r,
            "expected "@ + number::decimal(expected as nat) + " occurrence(s) but found "@
                + number::decimal(found),
        )
    } else {
        step matches EditStep::Store { text, then } && text@ == edit::replaced(
            content,
            old,
            text_to_write(req),
        ) && then == (WriteReply::Replaced { occurrences: found as usize })
    }
}

fn prefixed_error(before: &str, reason: &str) -> (r: WriteReply)
    ensures
        is_error(r, before@ + reason@),
{
    let mut m = before.to_owned();
    m.append(reason);
    WriteReply::Error(m)
}

/// `r` is what is to be done when the file was loaded, or could not be.
pub open spec fn is_edit(r: EditStep, req: WriteRequest, loaded: Result<&str, &str>) -> bool {
    match loaded {
        Err(reason) => r matches EditStep::Reply(reply) && is_error(
            reply,
            "read failed: "@ + reason@,
        ),
        Ok(content) => if appends(req) {
            is_insertion(r, req, req.old_string.unwrap()@, content@)
        } else {
            is_replacement(r, req, req.old_string.unwrap()@, content@)
        },
    }
}

/// What is to be done when the file was loaded, or could not be for the given
/// reason.
pub fn continue_write(req: &WriteRequest, loaded: Result<&str, &str>) -> (r: EditStep)
    requires
        req.old_string is Some,
        loaded matches Ok(content) ==> content@.len() < usize::MAX,
    ensures
        is_edit(r, *req, loaded),
{
    let content = match loaded {
        Ok(content) => content,
        Err(reason) => {
            return EditStep::Reply(prefixed_error("read failed: ", reason));
        },
    };
    let old = match &req.old_string {
        Some(old) => old.as_str(),
        None => "",
    };
    let new = compose_text(req);
    let append = match req.append {
        Some(b) => b,
        None => false,
    };
    if append {
        return match insert_after(content, old, new.as_str()) {
            None => EditStep::Reply(not_found_error(content)),
            Some(text) => EditStep::Store {
                text,
                then: WriteReply::InsertedAfter { bytes: count_bytes(new.as_str()) },
            },
        };
    }
    let found = count_occurrences(content, old);
    if found == 0 {
        return EditStep::Reply(not_found_error(content));
    }
    let expected: usize = match req.count {
        Some(n) => n,
        None => 1,
    };
    if expected != 0 && found != expected {
        let mut m = "expected ".to_owned();
        m.append(to_decimal(expected as u64).as_str());
        m.append(" occurrence(s) but found ");
        m.append(to_decimal(found as u64).as_str());
        return EditStep::Reply(WriteReply::Error(m));
    }
    EditStep::Store {
        text: replace_all(content, old, new.as_str()),
        then: WriteReply::Replaced { occurrences: found },
    }
}

// ── failures ────────────────────────────────────────────────────────────────

/// What went wrong when a text was stored, with the reason.
#[derive(Debug)]
pub enum StoreFailure {
    MakeDirectory(String),
    Open(String),
    Write(String),
}

/// `r` is the answer when a text could not be stored.
pub open spec fn is_store_error(r: WriteReply, failure: StoreFailure) -> bool {
    match failure {
        StoreFailure::MakeDirectory(reason) => is_error(r, "mkdir failed: "@ + reason@),
        StoreFailure::Open(reason) => is_error(r, "open failed: "@ + reason@),
        StoreFailure::Write(reason) => is_error(r, "write failed: "@ + reason@),
    }
}

/// The answer when a text could not be stored.
pub fn store_failed(failure: &StoreFailure) -> (r: WriteReply)
    ensures
        is_store_error(r, *failure),
{
    match failure {
        StoreFailure::MakeDirectory(reason) => prefixed_error("mkdir failed: ", reason.as_str()),
        StoreFailure::Open(reason) => prefixed_error("open failed: ", reason.as_str()),
        StoreFailure::Write(reason) => prefixed_error("write failed: ", reason.as_str()),
    }
}

/// A request failed.
pub open spec fn is_failure(r: WriteReply) -> bool {
    r is Error || r is NotFound
}

/// Whether a request failed.
pub fn has_failed(r: &WriteReply) -> (b: bool)
    ensures
        b == is_failure(*r),
{
    match r {
        WriteReply::Error(_) => true,
        WriteReply::NotFound { .. } => true,
        _ => false,
    }
}

// ── laws ────────────────────────────────────────────────────────────────────

/// A script begins with the mark of its first line, whether or not the mark
/// was given.
pub proof fn scripts_begin_with_their_mark(req: WriteRequest)
    requires
        req.shebang is Some,
    ensures
        text::begins_with(text_to_write(req), "#!"@),
{
    let line = shebang_line(req.shebang.unwrap()@);
    let s = text_to_write(req);
    let mark = "#!"@;
    assert(line.subrange(0, mark.len() as int) =~= mark);
    assert(s.subrange(0, mark.len() as int) =~= mark);
}

/// `updated` is `content` with `new` put in right after the first `anchor`,
/// which stands at position `i`, and nothing else changed.
pub open spec fn is_inserted_at(
    updated: Seq<char>,
    content: Seq<char>,
    anchor: Seq<char>,
    new: Seq<char>,
    i: int,
) -> bool {
    let end = i + anchor.len();
    &&& text::occurs_at(content, anchor, i)
    &&& forall|j: int| 0 <= j < i ==> !text::occurs_at(content, anchor, j)
    &&& text::occurs_at(updated, anchor, i)
    &&& text::occurs_at(updated, new, end)
    &&& updated.take(end) + updated.skip(end + new.len()) == content
}

/// An insertion keeps all that was there: taking the new text out again gives
/// the old content. The new text stands right after the first anchor.
pub proof fn insertion_keeps_the_rest(content: Seq<char>, anchor: Seq<char>, new: Seq<char>)
    requires
        text::contains_text(content, anchor),
    ensures
        edit::inserted_after(content, anchor, new) is Some,
        exists|i: int| #[trigger]
            is_inserted_at(
                edit::inserted_after(content, anchor, new).unwrap(),
                content,
                anchor,
                new,
                i,
            ),
{
    text::first_occurrence_is_least(content, anchor, 0);
    let i = text::first_occurrence(content, anchor, 0).unwrap();
    let end = i + anchor.len();
    let updated = content.take(end) + new + content.skip(end);
    assert(updated.subrange(i, end) =~= content.subrange(i, end));
    assert(updated.subrange(end, end + new.len()) =~= new);
    assert(updated.take(end) + updated.skip(end + new.len()) =~= content);
    assert(edit::inserted_after(content, anchor, new).unwrap() == updated);
    assert(is_inserted_at(
        edit::inserted_after(content, anchor, new).unwrap(),
        content,
        anchor,
        new,
        i,
    ));
}

/// A change of a part either stores a text, and then is answered as done, or
/// stores nothing, and then is answered as failed.
pub proof fn edits_store_or_fail(
    step: EditStep,
    req: WriteRequest,
    old: Seq<char>,
    content: Seq<char>,
)
    requires
        is_insertion(step, req, old, content) || is_replacement(step, req, old, content),
    ensures
        match step {
            EditStep::Store { text, then } => !is_failure(then) && text::contains_text(
                content,
                old,
            ),
            EditStep::Reply(r) => is_failure(r),
        },
{
    edit::occurrences_positive_iff_contained(content, old);
    text::first_occurrence_is_least(content, old, 0);
}

/// A replacement of one occurrence can be undone, where the new text then
/// stands in the file at one position only: the request that replaces the new
/// text by the old one stores the old content again.
pub proof fn replacing_can_be_undone(
    content: Seq<char>,
    old: Seq<char>,
    new: Seq<char>,
    req: WriteRequest,
    undo: WriteRequest,
    first: EditStep,
    second: EditStep,
)
    requires
        old.len() > 0,
        new.len() > 0,
        text_to_write(req) == new,
        text_to_write(undo) == old,
        expected_count(req) == 1,
        expected_count(undo) == 1,
        is_replacement(first, req, old, content),
        first matches EditStep::Store { text, .. } && edit::occurs_once(text@, new)
            && is_replacement(second, undo, new, text@),
    ensures
        second matches EditStep::Store { text, then } && text@ == content && then
            == (WriteReply::Replaced { occurrences: 1 }),
{
    edit::single_replacement_can_be_undone(content, old, new);
}

/// A replacement replaces as many occurrences as were expected, and at least
/// one where any number will do.
pub proof fn replacements_are_as_expected(
    step: EditStep,
    req: WriteRequest,
    old: Seq<char>,
    content: Seq<char>,
)
    requires
        is_replacement(step, req, old, content),
        step is Store,
    ensures
        if expected_count(req) == 0 {
            edit::occurrences(content, old) > 0
        } else {
            edit::occurrences(content, old) == expected_count(req)
        },
{
}

} // verus!
