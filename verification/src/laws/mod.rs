//! What the operations are for, in the plainest terms: which results they must
//! give on which inputs, and how two results relate. Each law speaks of texts
//! as they are put together, not of how they are searched.
use vstd::prelude::*;

pub mod checking;
pub mod conversing;
pub mod diagnosing;
pub mod editing;
pub mod pathing;
pub mod reading;
pub mod running;
pub mod searching;
pub mod symbols;
pub mod texts;
pub mod writing;

verus! {

/// `p` between two texts.
pub open spec fn between(a: Seq<char>, p: Seq<char>, b: Seq<char>) -> Seq<char> {
    a + p + b
}

/// `s` is made up of some text, `p`, and some text.
pub open spec fn holds(s: Seq<char>, p: Seq<char>) -> bool {
    exists|a: Seq<char>, b: Seq<char>| s == #[trigger] between(a, p, b)
}

/// `c` stands nowhere in `s`.
pub open spec fn lacks(s: Seq<char>, c: char) -> bool {
    forall|i: int| 0 <= i < s.len() ==> #[trigger] s[i] != c
}

/// The text begins with the given one.
pub open spec fn starts(s: Seq<char>, p: Seq<char>) -> bool {
    exists|r: Seq<char>| s == #[trigger] between(seq![], p, r)
}

} // verus!
