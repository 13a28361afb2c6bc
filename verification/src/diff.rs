//! The difference of two files.
use vstd::prelude::*;
use vstd::string::*;

use crate::clip::{self, clip, count_bytes};
use crate::text;
use crate::utils::OUTPUT_LIMIT;

verus! {

/// The difference of two texts in the unified format, under the given names.
pub uninterp spec fn unified(
    old_name: Seq<char>,
    old: Seq<char>,
    new_name: Seq<char>,
    new: Seq<char>,
) -> Seq<char>;

/// The two lines that name the files of a difference.
pub open spec fn header_lines(old_name: Seq<char>, new_name: Seq<char>) -> Seq<char> {
    "--- "@ + old_name + "\n+++ "@ + new_name + "\n"@
}

/// `TextDiff::from_lines` and its `unified_diff`, with `header` set to the two
/// names. Equal texts give an empty result. Other texts do not, as long as
/// their lines can be numbered with 32 bits. A result that is not empty begins
/// with the header. How the lines are matched up is left to `unified`.
#[verifier::external_body]
fn unified_diff(old_name: &str, old: &str, new_name: &str, new: &str) -> (r: String)
    ensures
        r@ == unified(old_name@, old@, new_name@, new@),
        old@ == new@ ==> r@.len() == 0,
        old@.len() + new@.len() < 0x1_0000_0000 && r@.len() == 0 ==> old@ == new@,
        r@.len() > 0 ==> text::begins_with(r@, header_lines(old_name@, new_name@)),
{
    let diff = similar::TextDiff::from_lines(old, new);
    diff.unified_diff().header(old_name, new_name).to_string()
}

/// What is answered when `result` is the difference of two files.
pub open spec fn diff_answer(result: Seq<char>) -> Seq<char> {
    if result.len() == 0 {
        "(no changes)"@
    } else if clip::byte_len(result) > OUTPUT_LIMIT {
        clip::clipped(result, OUTPUT_LIMIT as int) + "... (truncated)"@
    } else {
        result
    }
}

/// What is answered when `result` is the difference of two files: at most
/// `OUTPUT_LIMIT` bytes of it.
pub fn present_diff(result: String) -> (r: String)
    ensures
        r@ == diff_answer(result@),
{
    if result.as_str().is_empty() {
        return "(no changes)".to_owned();
    }
    if count_bytes(result.as_str()) > OUTPUT_LIMIT {
        let mut r = clip(result.as_str(), OUTPUT_LIMIT);
        r.append("... (truncated)");
        return r;
    }
    result
}

/// The text of a file; a file that could not be read counts as empty.
pub open spec fn text_or_empty(text: Option<&str>) -> Seq<char> {
    match text {
        Some(t) => t@,
        None => seq![],
    }
}

/// The difference of two texts in the unified format, under the names that the
/// files at two paths have in it.
pub open spec fn unified_files(
    path1: Seq<char>,
    text1: Seq<char>,
    path2: Seq<char>,
    text2: Seq<char>,
) -> Seq<char> {
    unified("a/"@ + path1, text1, "b/"@ + path2, text2)
}

/// The answer to a request for the difference of the files at two paths, of
/// which the texts are given where they could be read.
pub fn diff(path1: &str, text1: Option<&str>, path2: &str, text2: Option<&str>) -> (r: String)
    ensures
        ({
            let (a, b) = (text_or_empty(text1), text_or_empty(text2));
            let result = unified_files(path1@, a, path2@, b);
            &&& r@ == diff_answer(result)
            &&& a == b ==> r@ == "(no changes)"@
            &&& a != b && a.len() + b.len() < 0x1_0000_0000 ==> r@ != "(no changes)"@
            &&& result.len() > 0 ==> text::begins_with(
                result,
                header_lines("a/"@ + path1@, "b/"@ + path2@),
            )
        }),
{
    let old = match text1 {
        Some(t) => t,
        None => "",
    };
    let new = match text2 {
        Some(t) => t,
        None => "",
    };
    proof {
        reveal_strlit("");
        assert(old@ =~= text_or_empty(text1));
        assert(new@ =~= text_or_empty(text2));
    }
    let mut old_name = "a/".to_owned();
    old_name.append(path1);
    let mut new_name = "b/".to_owned();
    new_name.append(path2);
    let result = unified_diff(old_name.as_str(), old, new_name.as_str(), new);
    proof {
        if result@.len() > 0 {
            lemma_header_is_no_remark(result@, old_name@, new_name@);
        }
    }
    present_diff(result)
}

/// A difference with a header is not answered with the words for no changes.
proof fn lemma_header_is_no_remark(result: Seq<char>, old_name: Seq<char>, new_name: Seq<char>)
    requires
        text::begins_with(result, header_lines(old_name, new_name)),
    ensures
        diff_answer(result) != "(no changes)"@,
{
    reveal_strlit("--- ");
    reveal_strlit("(no changes)");
    let head = header_lines(old_name, new_name);
    assert(result.subrange(0, head.len() as int)[0] == head[0]);
    assert(result[0] == '-');
    assert(clip::width('-') == 1);
    clip::fitting_in_bounds(result.drop_first(), OUTPUT_LIMIT - 1);
    assert(clip::fitting(result, OUTPUT_LIMIT as int) >= 1);
    assert(diff_answer(result)[0] == '-');
    assert("(no changes)"@[0] == '(');
}

/// A difference that is cut stays within the limit, but for the words that say
/// so, and is a beginning of the whole.
pub proof fn cut_diff_is_bounded(result: Seq<char>)
    requires
        clip::byte_len(result) > OUTPUT_LIMIT,
    ensures
        ({
            let shown = clip::clipped(result, OUTPUT_LIMIT as int);
            &&& diff_answer(result) == shown + "... (truncated)"@
            &&& clip::byte_len(shown) <= OUTPUT_LIMIT
            &&& shown.is_prefix_of(result)
        }),
{
    clip::clipped_is_longest_fitting(result, OUTPUT_LIMIT as int);
}

} // verus!
