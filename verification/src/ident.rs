//! Readable task identifiers: the kind's written form, a hyphen, and four
//! characters taken from a fresh random identifier.

use crate::task_type::TaskType;
use vstd::prelude::*;
use vstd::string::StrSliceExecFns;
use vstd::string::StringExecFns;

verus! {

/// A digit or one of the letters `a` to `f`.
pub open spec fn is_hex_digit(c: char) -> bool {
    ('0' <= c && c <= '9') || ('a' <= c && c <= 'f')
}

/// The hyphenated lower-case form of a 128-bit identifier: 36 characters, a
/// hyphen at places 8, 13, 18 and 23 and a hexadecimal digit everywhere else.
pub open spec fn is_uuid_text(s: Seq<char>) -> bool {
    &&& s.len() == 36
    &&& forall|i: int|
        0 <= i < 36 ==> if i == 8 || i == 13 || i == 18 || i == 23 {
            #[trigger] s[i] == '-'
        } else {
            is_hex_digit(s[i])
        }
}

/// The first four characters of `source`, or all of it where it is shorter.
pub open spec fn suffix_of(source: Seq<char>) -> Seq<char> {
    if source.len() < 4 {
        source
    } else {
        source.take(4)
    }
}

/// The identifier made for a task of kind `kind` from the text `source`.
pub open spec fn task_id_of(kind: TaskType, source: Seq<char>) -> Seq<char> {
    kind.name() + seq!['-'] + suffix_of(source)
}

/// Whether `id` is the written form of `kind`, a hyphen and four hexadecimal
/// digits.
pub open spec fn is_task_id(id: Seq<char>, kind: TaskType) -> bool {
    let n = kind.name().len() as int;
    &&& id.len() == n + 5
    &&& id.take(n) == kind.name()
    &&& id[n] == '-'
    &&& forall|j: int| n < j < n + 5 ==> is_hex_digit(#[trigger] id[j])
}

/// Draws a random identifier with `uuid::Uuid::new_v4` and writes it with the
/// crate's `Display`. Trusted: the text has the hyphenated lower-case form,
/// whatever was drawn.
#[verifier::external_body]
pub(crate) fn random_uuid_text() -> (r: String)
    ensures
        is_uuid_text(r@),
{
    uuid::Uuid::new_v4().to_string()
}

/// A fresh surrogate key for a row.
pub fn fresh_key() -> (r: String)
    ensures
        is_uuid_text(r@),
{
    random_uuid_text()
}

/// Builds the identifier of a task of kind `task_type` from `source`: the
/// kind's prefix, a hyphen, and the first four characters of `source`.
pub fn task_id_from(task_type: &TaskType, source: &str) -> (r: String)
    ensures
        r@ == task_id_of(*task_type, source@),
        is_uuid_text(source@) ==> is_task_id(r@, *task_type),
{
    let n = source.unicode_len();
    let k: usize = if n < 4 { n } else { 4 };
    let suffix = source.substring_char(0, k);
    proof {
        reveal_strlit("-");
        assert("-"@ =~= seq!['-']);
        assert(suffix@ =~= suffix_of(source@));
    }
    let r = String::from_str(task_type.prefix()).concat("-").concat(suffix);
    proof {
        if is_uuid_text(source@) {
            let m = task_type.name().len() as int;
            assert(r@.take(m) =~= task_type.name());
            assert forall|j: int| m < j < m + 5 implies is_hex_digit(#[trigger] r@[j]) by {
                assert(r@[j] == source@[j - m - 1]);
            }
        }
    }
    r
}

/// Makes the identifier of a new task of kind `task_type`, with a freshly
/// drawn suffix. Two calls may give the same identifier: nothing here looks at
/// the identifiers already in use.
pub fn generate_task_id(task_type: &TaskType) -> (r: String)
    ensures
        is_task_id(r@, *task_type),
{
    let source = random_uuid_text();
    task_id_from(task_type, source.as_str())
}

} // verus!
