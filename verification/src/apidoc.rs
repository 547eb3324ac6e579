//! Where the description of a package's public interface is found: the
//! documentation tool writes one file per crate, named after the crate.

use crate::ident::PackageId;
use vstd::prelude::*;
use vstd::string::{StrSliceExecFns, StringExecFns};

verus! {

/// White space that separates the words of an identity.
pub open spec fn is_blank(c: char) -> bool {
    c == ' ' || c == '\t' || c == '\n' || c == '\r' || c == '\u{c}'
}

/// The first word of `text` stands from `start` up to `end`.
pub open spec fn first_word_at(text: Seq<char>, start: int, end: int) -> bool {
    &&& 0 <= start < end <= text.len()
    &&& forall|k: int| 0 <= k < start ==> is_blank(#[trigger] text[k])
    &&& forall|k: int| start <= k < end ==> !is_blank(#[trigger] text[k])
    &&& end < text.len() ==> is_blank(text[end])
}

/// `word` is the first word of `text`.
pub open spec fn is_first_word(text: Seq<char>, word: Seq<char>) -> bool {
    exists|start: int, end: int|
        first_word_at(text, start, end) && word == #[trigger] text.subrange(start, end)
}

/// `text` has no word.
pub open spec fn all_blank(text: Seq<char>) -> bool {
    forall|k: int| 0 <= k < text.len() ==> is_blank(#[trigger] text[k])
}

/// A text has at most one first word.
pub proof fn lemma_first_word_unique(text: Seq<char>, a: Seq<char>, b: Seq<char>)
    requires
        is_first_word(text, a),
        is_first_word(text, b),
    ensures
        a == b,
        !all_blank(text),
{
    let (s1, e1) = choose|start: int, end: int|
        first_word_at(text, start, end) && a == #[trigger] text.subrange(start, end);
    let (s2, e2) = choose|start: int, end: int|
        first_word_at(text, start, end) && b == #[trigger] text.subrange(start, end);
    assert(!is_blank(text[s1]));
    assert(!is_blank(text[s2]));
    assert(s1 == s2);
    if e1 < e2 {
        assert(!is_blank(text[e1]));
    } else if e2 < e1 {
        assert(!is_blank(text[e2]));
    }
}

fn blank(c: char) -> (r: bool)
    ensures
        r == is_blank(c),
{
    c == ' ' || c == '\t' || c == '\n' || c == '\r' || c == '\u{c}'
}

/// The first word of `text`, or `None` where `text` has no word.
pub fn first_word(text: &str) -> (r: Option<String>)
    ensures
        match r {
            Some(word) => is_first_word(text@, word@),
            None => all_blank(text@),
        },
{
    let n: usize = text.unicode_len();
    let mut start: usize = 0;
    while start < n && blank(text.get_char(start))
        invariant
            start <= n,
            n == text@.len(),
            forall|k: int| 0 <= k < start ==> is_blank(#[trigger] text@[k]),
        decreases n - start,
    {
        start += 1;
    }
    if start == n {
        return None;
    }
    let mut end: usize = start + 1;
    while end < n && !blank(text.get_char(end))
        invariant
            start < end <= n,
            n == text@.len(),
            forall|k: int| start <= k < end ==> !is_blank(#[trigger] text@[k]),
        decreases n - end,
    {
        end += 1;
    }
    let word = String::from_str(text.substring_char(start, end));
    assert(first_word_at(text@, start as int, end as int));
    Some(word)
}

/// The name of the file that describes the public interface of the crate
/// called `name`.
pub open spec fn api_file_name(name: Seq<char>) -> Seq<char> {
    name + ".json"@
}

/// The name of the file that describes the public interface of the
/// package `id`: the first word of the identity is the name of the crate.
/// The result is `None` where the identity has no word.
pub fn api_doc_file(id: &PackageId) -> (r: Option<String>)
    ensures
        match r {
            Some(file) => exists|name: Seq<char>|
                #[trigger] is_first_word(id@, name) && file@ == api_file_name(name),
            None => all_blank(id@),
        },
{
    match first_word(id.as_str()) {
        Some(mut name) => {
            let ghost word = name@;
            name.append(".json");
            assert(is_first_word(id@, word) && name@ == api_file_name(word));
            Some(name)
        },
        None => None,
    }
}

} // verus!
