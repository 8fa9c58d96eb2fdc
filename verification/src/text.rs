//! Strings as sequences of characters: the order and the matching that the
//! store's listings and search are stated over.

use vstd::prelude::*;
use vstd::string::StringSliceAdditionalSpecFns;

verus! {

/// The characters of `s`, in order.
pub fn chars_of(s: &str) -> (out: Vec<char>)
    ensures
        out@ == s@,
{
    let mut out: Vec<char> = Vec::new();
    for c in it: s.chars()
        invariant
            it.seq() == s@,
            out@ == s@.take(it.index()),
    {
        out.push(c);
    }
    out
}

/// `c` with the letters `A` to `Z` turned into `a` to `z`, every other
/// character left as it is.
pub open spec fn fold_ascii(c: char) -> char {
    if 'A' <= c && c <= 'Z' {
        ((c as u8 + 32) as u8) as char
    } else {
        c
    }
}

/// Computes `fold_ascii`.
pub fn fold_char(c: char) -> (r: char)
    ensures
        r == fold_ascii(c),
{
    if 'A' <= c && c <= 'Z' {
        let b: u8 = c as u8;
        (b + 32) as char
    } else {
        c
    }
}

/// Code point order on characters.
pub open spec fn char_lt(a: char, b: char) -> bool {
    (a as u32) < (b as u32)
}

/// Decides `char_lt`.
pub fn char_before(a: char, b: char) -> (r: bool)
    ensures
        r == char_lt(a, b),
{
    a < b
}

/// Whether `a` and `b` hold the same characters at every place below `k`.
pub open spec fn same_prefix(a: Seq<char>, b: Seq<char>, k: int) -> bool {
    forall|j: int| 0 <= j < k ==> a[j] == b[j]
}

/// Whether `a` and `b` part ways at place `k` with `a` the smaller: `a` ends
/// there and `b` goes on, or `a` holds the smaller character.
pub open spec fn parts_below(a: Seq<char>, b: Seq<char>, k: int) -> bool {
    &&& 0 <= k <= a.len()
    &&& k < b.len()
    &&& same_prefix(a, b, k)
    &&& (k < a.len() ==> char_lt(a[k], b[k]))
}

/// The dictionary order on texts, character by character in code point order,
/// a text coming before every longer text that begins with it.
pub open spec fn text_lt(a: Seq<char>, b: Seq<char>) -> bool {
    exists|k: int| parts_below(a, b, k)
}

/// No text comes before itself, and of two texts at most one comes before
/// the other.
pub proof fn lemma_text_lt_asymmetric(a: Seq<char>, b: Seq<char>)
    ensures
        !(text_lt(a, b) && text_lt(b, a)),
{
    if text_lt(a, b) && text_lt(b, a) {
        let k1 = choose|k: int| parts_below(a, b, k);
        let k2 = choose|k: int| parts_below(b, a, k);
        if k1 < k2 {
            assert(b[k1] == a[k1]);
        } else if k2 < k1 {
            assert(a[k2] == b[k2]);
        }
    }
}

/// What comes before a text comes before everything that the text comes
/// before.
pub proof fn lemma_text_lt_transitive(a: Seq<char>, b: Seq<char>, c: Seq<char>)
    requires
        text_lt(a, b),
        text_lt(b, c),
    ensures
        text_lt(a, c),
{
    let k1 = choose|k: int| parts_below(a, b, k);
    let k2 = choose|k: int| parts_below(b, c, k);
    if k1 <= k2 {
        assert forall|j: int| 0 <= j < k1 implies a[j] == c[j] by {
            assert(a[j] == b[j]);
            assert(b[j] == c[j]);
        }
        if k1 < k2 {
            assert(b[k1] == c[k1]);
        }
        assert(parts_below(a, c, k1));
    } else {
        assert forall|j: int| 0 <= j < k2 implies a[j] == c[j] by {
            assert(a[j] == b[j]);
            assert(b[j] == c[j]);
        }
        assert(a[k2] == b[k2]);
        assert(parts_below(a, c, k2));
    }
}

/// Of two different texts one comes before the other.
pub proof fn lemma_text_lt_total(a: Seq<char>, b: Seq<char>)
    ensures
        a == b || text_lt(a, b) || text_lt(b, a),
{
    if a != b {
        if exists|k: int| 0 <= k < a.len() && k < b.len() && a[k] != b[k] {
            let k = first_difference(a, b, 0);
            lemma_first_difference(a, b, 0);
            if char_lt(a[k], b[k]) {
                assert(parts_below(a, b, k));
            } else {
                vstd::utf8::char_u32_cast(a[k], a[k] as u32);
                vstd::utf8::char_u32_cast(b[k], b[k] as u32);
                assert forall|j: int| 0 <= j < k implies b[j] == a[j] by {
                    assert(a[j] == b[j]);
                }
                assert(parts_below(b, a, k));
            }
        } else {
            assert(a.len() != b.len()) by {
                if a.len() == b.len() {
                    assert(a =~= b);
                }
            }
            if a.len() < b.len() {
                assert(parts_below(a, b, a.len() as int));
            } else {
                assert(parts_below(b, a, b.len() as int));
            }
        }
    }
}

/// The first place from `from` on at which `a` and `b` both hold a character
/// and the two differ, or the length of the shorter text where there is none.
pub open spec fn first_difference(a: Seq<char>, b: Seq<char>, from: int) -> int
    decreases a.len() - from,
{
    if from < 0 || from >= a.len() || from >= b.len() || a[from] != b[from] {
        from
    } else {
        first_difference(a, b, from + 1)
    }
}

/// Where the texts differ at some common place and agree below `from`, the
/// first difference is such a place, and they agree below it.
proof fn lemma_first_difference(a: Seq<char>, b: Seq<char>, from: int)
    requires
        0 <= from,
        same_prefix(a, b, from),
        exists|k: int| 0 <= k < a.len() && k < b.len() && a[k] != b[k],
    ensures
        from <= first_difference(a, b, from) < a.len(),
        first_difference(a, b, from) < b.len(),
        a[first_difference(a, b, from)] != b[first_difference(a, b, from)],
        same_prefix(a, b, first_difference(a, b, from)),
    decreases a.len() - from,
{
    let k = choose|k: int| 0 <= k < a.len() && k < b.len() && a[k] != b[k];
    if from > k {
        assert(a[k] == b[k]);
    }
    if a[from] == b[from] {
        assert forall|j: int| 0 <= j < from + 1 implies a[j] == b[j] by {
            if j < from {
                assert(a[j] == b[j]);
            }
        }
        lemma_first_difference(a, b, from + 1);
    }
}

/// Decides `text_lt` on two texts given by their characters.
pub fn text_before(a: &Vec<char>, b: &Vec<char>) -> (r: bool)
    ensures
        r == text_lt(a@, b@),
{
    let mut i: usize = 0;
    while i < a.len() && i < b.len() && a[i] == b[i]
        invariant
            i <= a.len(),
            i <= b.len(),
            same_prefix(a@, b@, i as int),
        decreases a.len() - i,
    {
        i += 1;
    }
    let r = if i == b.len() {
        false
    } else if i == a.len() {
        true
    } else {
        char_before(a[i], b[i])
    };
    proof {
        let n = i as int;
        if r {
            assert(parts_below(a@, b@, n));
        } else {
            assert forall|k: int| !parts_below(a@, b@, k) by {
                if parts_below(a@, b@, k) {
                    if k < n {
                        assert(a@[k] == b@[k]);
                    } else if k > n {
                        assert(a@[n] == b@[n]);
                    }
                }
            }
        }
    }
    r
}

/// Whether `needle` stands in `hay` from place `i` on, letters of either case
/// taken as equal.
pub open spec fn matches_at(hay: Seq<char>, needle: Seq<char>, i: int) -> bool {
    &&& 0 <= i
    &&& i + needle.len() <= hay.len()
    &&& forall|j: int| 0 <= j < needle.len() ==> fold_ascii(hay[i + j]) == fold_ascii(needle[j])
}

/// Whether `needle` occurs somewhere in `hay`, letters of either case taken
/// as equal. The empty text occurs in every text.
pub open spec fn contains_folded(hay: Seq<char>, needle: Seq<char>) -> bool {
    exists|i: int| matches_at(hay, needle, i)
}

/// Whether two texts are the same once the case of letters is set aside.
pub open spec fn same_folded(a: Seq<char>, b: Seq<char>) -> bool {
    &&& a.len() == b.len()
    &&& forall|j: int| 0 <= j < a.len() ==> fold_ascii(#[trigger] a[j]) == fold_ascii(b[j])
}

/// Two needles that differ in the case of letters only occur in the same
/// texts.
pub proof fn lemma_contains_folded_same(hay: Seq<char>, a: Seq<char>, b: Seq<char>)
    requires
        same_folded(a, b),
    ensures
        contains_folded(hay, a) == contains_folded(hay, b),
{
    assert forall|i: int| matches_at(hay, a, i) == matches_at(hay, b, i) by {
        if matches_at(hay, a, i) {
            assert forall|j: int| 0 <= j < b.len() implies fold_ascii(hay[i + j]) == fold_ascii(
                b[j],
            ) by {
                assert(fold_ascii(a[j]) == fold_ascii(b[j]));
            }
        }
        if matches_at(hay, b, i) {
            assert forall|j: int| 0 <= j < a.len() implies fold_ascii(hay[i + j]) == fold_ascii(
                a[j],
            ) by {
                assert(fold_ascii(a[j]) == fold_ascii(b[j]));
            }
        }
    }
    if contains_folded(hay, a) {
        let i = choose|i: int| matches_at(hay, a, i);
        assert(matches_at(hay, b, i));
    }
    if contains_folded(hay, b) {
        let i = choose|i: int| matches_at(hay, b, i);
        assert(matches_at(hay, a, i));
    }
}

/// Decides `matches_at`, for a place at which `needle` still fits.
fn matches_here(hay: &Vec<char>, needle: &Vec<char>, i: usize) -> (r: bool)
    requires
        i + needle.len() <= hay.len(),
    ensures
        r == matches_at(hay@, needle@, i as int),
{
    let mut j: usize = 0;
    while j < needle.len()
        invariant
            j <= needle.len(),
            i + needle.len() <= hay.len(),
            forall|k: int| 0 <= k < j ==> fold_ascii(hay@[i + k]) == fold_ascii(needle@[k]),
        decreases needle.len() - j,
    {
        if fold_char(hay[i + j]) != fold_char(needle[j]) {
            return false;
        }
        j += 1;
    }
    true
}

/// Decides `contains_folded` on two texts given by their characters.
pub fn occurs_in(hay: &Vec<char>, needle: &Vec<char>) -> (r: bool)
    ensures
        r == contains_folded(hay@, needle@),
{
    if needle.len() > hay.len() {
        return false;
    }
    let last: usize = hay.len() - needle.len();
    let mut i: usize = 0;
    while i <= last
        invariant
            last == hay.len() - needle.len(),
            i <= last + 1,
            forall|k: int| 0 <= k < i ==> !matches_at(hay@, needle@, k),
        decreases last + 1 - i,
    {
        if matches_here(hay, needle, i) {
            return true;
        }
        i += 1;
    }
    false
}

/// Whether two texts hold the same characters. The texts are compared byte by
/// byte: two texts with the same bytes hold the same characters.
pub fn same_text(a: &str, b: &str) -> (r: bool)
    ensures
        r == (a@ == b@),
{
    let x = a.as_bytes();
    let y = b.as_bytes();
    proof {
        vstd::utf8::encode_utf8_decode_utf8(a@);
        vstd::utf8::encode_utf8_decode_utf8(b@);
    }
    if x.len() != y.len() {
        return false;
    }
    let mut i: usize = 0;
    while i < x.len()
        invariant
            i <= x.len(),
            x.len() == y.len(),
            x@ == a.spec_bytes(),
            y@ == b.spec_bytes(),
            forall|j: int| 0 <= j < i ==> x@[j] == y@[j],
        decreases x.len() - i,
    {
        if x[i] != y[i] {
            return false;
        }
        i += 1;
    }
    assert(x@ =~= y@);
    true
}

/// What `str::to_uppercase` makes of a text: its upper-case form by the
/// Unicode tables that std carries.
pub uninterp spec fn uppercase_of(s: Seq<char>) -> Seq<char>;

/// What `str::to_lowercase` makes of a text: its lower-case form by the
/// Unicode tables that std carries.
pub uninterp spec fn lowercase_of(s: Seq<char>) -> Seq<char>;

/// Calls `str::to_uppercase`. Trusted: the result is named, nothing is said
/// of what it holds.
#[verifier::external_body]
pub(crate) fn uppercase(s: &str) -> (r: String)
    ensures
        r@ == uppercase_of(s@),
{
    s.to_uppercase()
}

/// Calls `str::to_lowercase`. Trusted: the result is named, nothing is said
/// of what it holds.
#[verifier::external_body]
pub(crate) fn lowercase(s: &str) -> (r: String)
    ensures
        r@ == lowercase_of(s@),
{
    s.to_lowercase()
}

} // verus!
