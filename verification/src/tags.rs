//! A task's tags as they are kept in a row: one text that encodes a list.

use vstd::prelude::*;

verus! {

/// What `serde_json::from_str` reads from a text as a list of strings: the
/// list, or nothing where the text is not the JSON form of one.
pub uninterp spec fn json_string_list(text: Seq<char>) -> Option<Seq<Seq<char>>>;

/// The tags that an encoded text stands for: the list it encodes, and no tags
/// at all where it encodes none.
pub open spec fn tags_of(text: Seq<char>) -> Seq<Seq<char>> {
    match json_string_list(text) {
        Some(list) => list,
        None => Seq::empty(),
    }
}

/// Calls `serde_json::from_str` for a `Vec<String>`. Trusted: the result is
/// named, and the error, where there is one, is dropped.
#[verifier::external_body]
pub(crate) fn read_string_list(text: &str) -> (r: Option<Vec<String>>)
    ensures
        r.deep_view() == json_string_list(text@),
{
    serde_json::from_str::<Vec<String>>(text).ok()
}

/// The list that was read, or an empty one where none was.
pub fn list_or_empty(read: Option<Vec<String>>) -> (r: Vec<String>)
    ensures
        r.deep_view() == match read.deep_view() {
            Some(list) => list,
            None => Seq::<Seq<char>>::empty(),
        },
{
    match read {
        Some(list) => list,
        None => {
            let r: Vec<String> = Vec::new();
            assert(r.deep_view() =~= Seq::<Seq<char>>::empty());
            r
        },
    }
}

/// Decodes the tags of a row. A text that is not the encoding of a list of
/// strings gives no tags, and is no error.
pub fn decode_tags(text: &str) -> (r: Vec<String>)
    ensures
        r.deep_view() == tags_of(text@),
{
    list_or_empty(read_string_list(text))
}

} // verus!
