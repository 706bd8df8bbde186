//! The labels under which requests are counted.

use vstd::prelude::*;
use vstd::string::*;

verus! {

/// Whether the word stands somewhere in the text.
pub open spec fn holds_word(text: Seq<char>, word: Seq<char>) -> bool {
    exists|i: int| #[trigger] stands_at(text, word, i)
}

/// Whether the word stands in the text at the position `i`.
pub open spec fn stands_at(text: Seq<char>, word: Seq<char>, i: int) -> bool {
    0 <= i && i + word.len() <= text.len() && text.subrange(i, i + word.len()) == word
}

/// Whether the text has its last slash at the position `i`.
pub open spec fn last_slash(text: Seq<char>, i: int) -> bool {
    &&& 0 <= i < text.len()
    &&& text[i] == '/'
    &&& forall|j: int| i < j < text.len() ==> text[j] != '/'
}

/// The path under which a request is counted. The path of a profile request
/// ends in the player; it is counted under what stands before its last
/// slash, so that all profile requests are counted together. Every other
/// path is counted as it is.
pub open spec fn label_text(path: Seq<char>) -> Seq<char> {
    if holds_word(path, "profile"@) && exists|i: int| last_slash(path, i) {
        path.take(choose|i: int| last_slash(path, i))
    } else {
        path
    }
}

/// Whether the word stands somewhere in the text.
pub fn contains_word(text: &str, word: &str) -> (r: bool)
    ensures
        r == holds_word(text@, word@),
{
    let text_len = text.unicode_len();
    let word_len = word.unicode_len();
    if word_len > text_len {
        assert forall|i: int| !stands_at(text@, word@, i) by {}
        return false;
    }
    let wanted = word.to_owned();
    let last = text_len - word_len;
    let mut i: usize = 0;
    loop
        invariant
            text_len == text@.len(),
            word_len == word@.len(),
            last == text_len - word_len,
            wanted@ == word@,
            i <= last,
            forall|j: int| 0 <= j < i ==> !stands_at(text@, word@, j),
        decreases last - i,
    {
        if text.substring_char(i, i + word_len).to_owned() == wanted {
            assert(stands_at(text@, word@, i as int));
            return true;
        }
        if i == last {
            assert forall|j: int| !stands_at(text@, word@, j) by {}
            return false;
        }
        i += 1;
    }
}

/// The path under which a request is counted.
pub fn path_label(path: &str) -> (r: String)
    ensures
        r@ == label_text(path@),
{
    if !contains_word(path, "profile") {
        return path.to_owned();
    }
    let mut i: usize = path.unicode_len();
    while i > 0
        invariant
            i <= path@.len(),
            holds_word(path@, "profile"@),
            forall|j: int| i <= j < path@.len() ==> path@[j] != '/',
        decreases i,
    {
        i -= 1;
        if path.get_char(i) == '/' {
            proof {
                assert(last_slash(path@, i as int));
                let chosen = choose|c: int| last_slash(path@, c);
                assert(chosen == i);
                assert(path@.take(i as int) =~= path@.subrange(0, i as int));
            }
            return path.substring_char(0, i).to_owned();
        }
    }
    assert forall|j: int| !last_slash(path@, j) by {}
    path.to_owned()
}

} // verus!
