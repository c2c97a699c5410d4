//! Small text operations the rest of the library is stated over.
use vstd::prelude::*;

use crate::codec::{append_bytes, utf8_string};
use vstd::string::StringSliceAdditionalSpecFns;
use vstd::utf8::*;

verus! {

broadcast use vstd::utf8::group_utf8_lib;

/// Encoding a concatenation is concatenating the encodings.
pub proof fn lemma_encode_concat(a: Seq<char>, b: Seq<char>)
    ensures
        encode_utf8(a + b) == encode_utf8(a) + encode_utf8(b),
    decreases a.len(),
{
    if a.len() > 0 {
        lemma_encode_concat(a.drop_first(), b);
        assert((a + b).drop_first() =~= a.drop_first() + b);
        assert((a + b)[0] == a[0]);
        assert(encode_utf8(a + b) =~= encode_utf8(a) + encode_utf8(b));
    } else {
        assert(a + b =~= b);
    }
}

/// `a` followed by `b`.
pub fn join_text(a: &str, b: &str) -> (r: String)
    ensures
        r@ == a@ + b@,
{
    let mut bytes: Vec<u8> = Vec::new();
    append_bytes(&mut bytes, a.as_bytes());
    append_bytes(&mut bytes, b.as_bytes());
    proof {
        lemma_encode_concat(a@, b@);
        assert(bytes@ == encode_utf8(a@ + b@));
    }
    match utf8_string(bytes) {
        Some(s) => s,
        None => String::new(),
    }
}

/// The texts of a list of strings.
pub open spec fn views(ws: Seq<String>) -> Seq<Seq<char>> {
    ws.map_values(|w: String| w@)
}

/// The texts `ws` with `sep` between each two of them.
pub open spec fn joined_by(ws: Seq<Seq<char>>, sep: Seq<char>) -> Seq<char>
    decreases ws.len(),
{
    if ws.len() == 0 {
        Seq::empty()
    } else if ws.len() == 1 {
        ws[0]
    } else {
        joined_by(ws.drop_last(), sep) + sep + ws.last()
    }
}

/// The texts `ws` joined by `sep`.
pub fn join_all(ws: &Vec<String>, sep: &str) -> (r: String)
    ensures
        r@ == joined_by(views(ws@), sep@),
{
    let ghost vs = views(ws@);
    if ws.len() == 0 {
        return String::new();
    }
    let mut acc = ws[0].clone();
    let mut i: usize = 1;
    assert(vs.subrange(0, 1).drop_last() =~= Seq::<Seq<char>>::empty());
    while i < ws.len()
        invariant
            1 <= i <= ws@.len(),
            vs == views(ws@),
            acc@ == joined_by(vs.subrange(0, i as int), sep@),
        decreases ws@.len() - i,
    {
        let spaced = join_text(acc.as_str(), sep);
        acc = join_text(spaced.as_str(), ws[i].as_str());
        proof {
            assert(vs.subrange(0, i + 1).drop_last() =~= vs.subrange(0, i as int));
        }
        i = i + 1;
    }
    assert(vs.subrange(0, ws@.len() as int) =~= vs);
    acc
}

/// What `str::to_lowercase` gives for a text.
pub uninterp spec fn lower_of(s: Seq<char>) -> Seq<char>;

/// Relies on `str::to_lowercase`: the result depends on the characters alone,
/// and the empty text stays empty.
#[verifier::external_body]
pub(crate) fn lowercase(s: &str) -> (r: String)
    ensures
        r@ == lower_of(s@),
        s@.len() == 0 ==> r@.len() == 0,
{
    s.to_lowercase()
}

/// What `str::trim` leaves of a text.
pub uninterp spec fn trim_of(s: Seq<char>) -> Seq<char>;

/// Relies on `str::trim`: the result depends on the characters alone (Unicode
/// whitespace is dropped at both ends), and the empty text stays empty.
#[verifier::external_body]
pub(crate) fn trim(s: &str) -> (r: &str)
    ensures
        r@ == trim_of(s@),
        s@.len() == 0 ==> r@.len() == 0,
{
    s.trim()
}

/// Whether a text holds no line feed.
pub open spec fn no_newline(s: Seq<char>) -> bool {
    forall|i: int| 0 <= i < s.len() ==> s[i] != '\n'
}

/// Relies on `str::split` with `'\n'`: the pieces, joined by line feeds, give
/// the text back, none holds a line feed, and there is at least one.
#[verifier::external_body]
pub(crate) fn split_lines(s: &str) -> (r: Vec<String>)
    ensures
        r@.len() >= 1,
        joined_by(views(r@), "\n"@) == s@,
        forall|i: int| 0 <= i < r@.len() ==> no_newline(#[trigger] r@[i]@),
{
    s.split('\n').map(|p| p.to_owned()).collect()
}

/// The whitespace-separated words of a text, as `str::split_whitespace` gives them.
pub uninterp spec fn words_of(s: Seq<char>) -> Seq<Seq<char>>;

/// Relies on `str::split_whitespace`: the words depend on the characters alone.
#[verifier::external_body]
pub(crate) fn split_words(s: &str) -> (r: Vec<String>)
    ensures
        views(r@) == words_of(s@),
{
    s.split_whitespace().map(|w| w.to_owned()).collect()
}

} // verus!
