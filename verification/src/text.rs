//! What the library takes on trust from the crates that handle text:
//! `unicode-segmentation` finds the grapheme clusters, `smol_str` stores them.

use smol_str::SmolStr;
use unicode_segmentation::UnicodeSegmentation;
use vstd::prelude::*;
use vstd::utf8::encode_utf8;

verus! {

/// `smol_str::SmolStr`, a string that is stored in place while it is short.
#[verifier::external_type_specification]
#[verifier::external_body]
pub struct ExSmolStr(SmolStr);

/// The characters that a `SmolStr` holds.
pub uninterp spec fn smol_str_text(s: SmolStr) -> Seq<char>;

/// `SmolStr::new` copies the text it is given: the new value holds the same
/// characters.
#[verifier::external_body]
pub(crate) fn smol_str_new(text: &str) -> (r: SmolStr)
    ensures
        smol_str_text(r) == text@,
{
    SmolStr::new(text)
}

/// `SmolStr::as_str` lends the characters that the value holds.
#[verifier::external_body]
pub(crate) fn smol_str_as_str(s: &SmolStr) -> (r: &str)
    ensures
        r@ == smol_str_text(*s),
{
    s.as_str()
}

/// `SmolStr::clone` gives a value that holds the same characters.
pub assume_specification[ <SmolStr as Clone>::clone ](s: &SmolStr) -> (r: SmolStr)
    ensures
        smol_str_text(r) == smol_str_text(*s),
;

/// The grapheme clusters of `text`, each with the byte offset at which it
/// starts, as `UnicodeSegmentation::grapheme_indices` yields them in order.
/// Where the clusters end is a matter of the Unicode tables of that crate;
/// it is not spelled out here.
pub uninterp spec fn grapheme_indices(text: Seq<char>, is_extended: bool) -> Seq<(usize, Seq<char>)>;

/// The number of bytes that `text` takes in UTF-8.
pub open spec fn byte_len(text: Seq<char>) -> nat {
    encode_utf8(text).len()
}

/// The second component of each pair.
pub open spec fn texts_of(clusters: Seq<(usize, Seq<char>)>) -> Seq<Seq<char>> {
    clusters.map_values(|c: (usize, Seq<char>)| c.1)
}

/// `clusters` cuts `text` into pieces: the pieces are not empty, together
/// they are the text, the first starts at byte 0, each next one starts where
/// the one before it ends, and the last one ends where the text ends.
pub open spec fn is_segmentation(text: Seq<char>, clusters: Seq<(usize, Seq<char>)>) -> bool {
    &&& texts_of(clusters).flatten() == text
    &&& byte_len(text) <= usize::MAX
    &&& forall|i: int| 0 <= i < clusters.len() ==> (#[trigger] clusters[i]).1.len() > 0
    &&& clusters.len() > 0 ==> clusters[0].0 == 0
    &&& forall|i: int|
        0 <= i < clusters.len() - 1 ==> (#[trigger] clusters[i + 1]).0 == clusters[i].0 + byte_len(
            clusters[i].1,
        )
    &&& clusters.len() > 0 ==> clusters.last().0 + byte_len(clusters.last().1) == byte_len(text)
}

/// `UnicodeSegmentation::grapheme_indices` on a `str`, collected.
///
/// Its iterator hands out one slice of the text after the other, from the
/// cursor to the next cluster boundary, which lies behind the cursor, until
/// the cursor is at the end; with each slice comes the byte offset of its
/// start. The contract claims that, and that the result is a function of
/// the text and the flag.
#[verifier::external_body]
pub(crate) fn grapheme_clusters(text: &str, is_extended: bool) -> (r: Vec<(usize, String)>)
    ensures
        r.deep_view() == grapheme_indices(text@, is_extended),
        is_segmentation(text@, r.deep_view()),
{
    text.grapheme_indices(is_extended).map(|(idx, uc)| (idx, uc.to_owned())).collect()
}

} // verus!
