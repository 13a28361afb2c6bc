//! Text cut to a number of bytes in UTF-8, between two characters.
use vstd::prelude::*;
use vstd::utf8;

use crate::text::{append_range, chars_of};

verus! {

/// The bytes that a character takes in UTF-8.
pub open spec fn width(c: char) -> nat {
    utf8::encode_scalar(c as u32).len()
}

/// The bytes that a text takes in UTF-8.
pub open spec fn byte_len(s: Seq<char>) -> nat {
    utf8::encode_utf8(s).len()
}

/// How many characters from the start of `s` fit in `limit` bytes.
pub open spec fn fitting(s: Seq<char>, limit: int) -> int
    decreases s.len(),
{
    if s.len() == 0 || width(s[0]) > limit {
        0
    } else {
        1 + fitting(s.drop_first(), limit - width(s[0]))
    }
}

/// The longest beginning of `s` that fits in `limit` bytes.
pub open spec fn clipped(s: Seq<char>, limit: int) -> Seq<char> {
    s.take(fitting(s, limit))
}

proof fn lemma_byte_len_concat(a: Seq<char>, b: Seq<char>)
    ensures
        byte_len(a + b) == byte_len(a) + byte_len(b),
    decreases a.len(),
{
    if a.len() == 0 {
        assert(a + b =~= b);
    } else {
        assert((a + b).drop_first() =~= a.drop_first() + b);
        lemma_byte_len_concat(a.drop_first(), b);
    }
}

proof fn lemma_byte_len_one(c: char)
    ensures
        byte_len(seq![c]) == width(c),
{
    assert(seq![c].drop_first() =~= Seq::<char>::empty());
    assert(utf8::encode_utf8(seq![c].drop_first()).len() == 0);
}

/// A text has at least as many bytes as characters.
pub proof fn bytes_cover_characters(s: Seq<char>)
    ensures
        s.len() <= byte_len(s),
    decreases s.len(),
{
    if s.len() > 0 {
        bytes_cover_characters(s.drop_first());
    }
}

/// No more characters fit than there are.
pub proof fn fitting_in_bounds(s: Seq<char>, limit: int)
    ensures
        0 <= fitting(s, limit) <= s.len(),
    decreases s.len(),
{
    if s.len() > 0 && width(s[0]) <= limit {
        fitting_in_bounds(s.drop_first(), limit - width(s[0]));
    }
}

proof fn lemma_fitting(s: Seq<char>, limit: int)
    requires
        0 <= limit,
    ensures
        0 <= fitting(s, limit) <= s.len(),
        byte_len(clipped(s, limit)) <= limit,
        fitting(s, limit) < s.len() ==> byte_len(clipped(s, limit)) + width(
            s[fitting(s, limit)],
        ) > limit,
    decreases s.len(),
{
    if s.len() == 0 || width(s[0]) > limit {
        assert(clipped(s, limit) =~= Seq::<char>::empty());
    } else {
        let rest = s.drop_first();
        let left = limit - width(s[0]);
        lemma_fitting(rest, left);
        assert(clipped(s, limit).drop_first() =~= clipped(rest, left));
        assert(clipped(s, limit)[0] == s[0]);
        if fitting(rest, left) < rest.len() {
            assert(s[fitting(s, limit)] == rest[fitting(rest, left)]);
        }
    }
}

// ── executable ──────────────────────────────────────────────────────────────

fn char_width(c: char) -> (n: usize)
    ensures
        n == width(c),
        1 <= n <= 4,
{
    let code = c as u32;
    if code < 0x80 {
        1
    } else if code < 0x800 {
        2
    } else if code < 0x10000 {
        3
    } else {
        4
    }
}

/// The bytes that a text takes in UTF-8.
pub fn count_bytes(s: &str) -> (n: usize)
    ensures
        n == byte_len(s@),
{
    s.as_bytes().len()
}

/// The longest beginning of `s` that fits in `limit` bytes.
pub fn clip(s: &str, limit: usize) -> (out: String)
    ensures
        out@ == clipped(s@, limit as int),
{
    let v = chars_of(s);
    let mut i: usize = 0;
    let mut left = limit;
    assert(s@.skip(0) =~= s@);
    while i < v.len() && char_width(v[i]) <= left
        invariant
            v@ == s@,
            i <= v.len(),
            left <= limit,
            fitting(s@, limit as int) == i + fitting(s@.skip(i as int), left as int),
        decreases v.len() - i,
    {
        let w = char_width(v[i]);
        assert(s@.skip(i as int).drop_first() =~= s@.skip(i + 1));
        left -= w;
        i += 1;
    }
    assert(fitting(s@.skip(i as int), left as int) == 0);
    let mut out = String::new();
    append_range(&mut out, &v, 0, i);
    assert(out@ =~= clipped(s@, limit as int));
    out
}

// ── laws ────────────────────────────────────────────────────────────────────

/// A clipped text is a beginning of the text, fits in the limit, and the next
/// character would not fit any more.
pub proof fn clipped_is_longest_fitting(s: Seq<char>, limit: int)
    requires
        0 <= limit,
    ensures
        clipped(s, limit).is_prefix_of(s),
        byte_len(clipped(s, limit)) <= limit,
        forall|k: int|
            clipped(s, limit).len() < k <= s.len() ==> byte_len(#[trigger] s.take(k)) > limit,
{
    lemma_fitting(s, limit);
    let n = fitting(s, limit);
    assert forall|k: int| n < k <= s.len() implies byte_len(#[trigger] s.take(k)) > limit by {
        assert(s.take(k) =~= s.take(n) + (seq![s[n]] + s.subrange(n + 1, k)));
        lemma_byte_len_concat(s.take(n), seq![s[n]] + s.subrange(n + 1, k));
        lemma_byte_len_concat(seq![s[n]], s.subrange(n + 1, k));
        lemma_byte_len_one(s[n]);
    }
}

/// A text that fits in the limit is not cut.
pub proof fn fitting_text_is_kept(s: Seq<char>, limit: int)
    requires
        byte_len(s) <= limit,
    ensures
        clipped(s, limit) == s,
{
    lemma_fitting(s, limit);
    clipped_is_longest_fitting(s, limit);
    assert(s.take(s.len() as int) =~= s);
}

} // verus!
