//! Dropping a fixed number of leading characters from a string.

use vstd::prelude::*;

verus! {

/// `text` without its first `count` characters; empty where `text` has no
/// more than `count`.
pub open spec fn without_prefix(text: Seq<char>, count: nat) -> Seq<char> {
    if count <= text.len() {
        text.skip(count as int)
    } else {
        Seq::empty()
    }
}

/// Strings that can hand out what follows their first `b` characters.
pub trait Substring {
    /// The characters of the string.
    spec fn characters(&self) -> Seq<char>;

    /// The part of the string after its first `b` characters.
    fn substring(&self, b: usize) -> (rest: &str)
        ensures
            rest@ == without_prefix(self.characters(), b as nat),
    ;
}

impl Substring for String {
    open spec fn characters(&self) -> Seq<char> {
        self@
    }

    fn substring(&self, b: usize) -> (rest: &str) {
        let text = self.as_str();
        let len = text.unicode_len();
        let from = if b < len { b } else { len };
        text.substring_char(from, len)
    }
}

impl Substring for &str {
    open spec fn characters(&self) -> Seq<char> {
        self@
    }

    fn substring(&self, b: usize) -> (rest: &str) {
        let len = self.unicode_len();
        let from = if b < len { b } else { len };
        self.substring_char(from, len)
    }
}

} // verus!
