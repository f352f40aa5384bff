//! Grapheme segmentation and terminal display width, as the
//! `unicode-segmentation` and `unicode-width` crates compute them.
use vstd::prelude::*;

use crate::text::strs_view;
use unicode_segmentation::UnicodeSegmentation;
use unicode_width::UnicodeWidthStr;
use unicode_script::{Script, UnicodeScript};

verus! {

/// The concatenation of a sequence of character sequences.
pub open spec fn flatten_chars(parts: Seq<Seq<char>>) -> Seq<char>
    decreases parts.len(),
{
    if parts.len() == 0 {
        Seq::empty()
    } else {
        flatten_chars(parts.drop_last()) + parts.last()
    }
}

/// The extended grapheme clusters of a string, in order.
pub uninterp spec fn grapheme_clusters(s: Seq<char>) -> Seq<Seq<char>>;

/// Calls `UnicodeSegmentation::graphemes(s, true)` and collects the clusters.
/// The clusters are named `grapheme_clusters` of the input; as the crate's
/// iterator hands out consecutive non-empty slices of the input, they are
/// non-empty and together spell the input. Where the cluster boundaries fall
/// is not stated.
#[verifier::external_body]
pub fn graphemes(s: &str) -> (r: Vec<String>)
    ensures
        strs_view(r@) == grapheme_clusters(s@),
        flatten_chars(strs_view(r@)) == s@,
        forall|k: int| 0 <= k < r@.len() ==> (#[trigger] r@[k])@.len() > 0,
{
    s.graphemes(true).map(|g| g.to_string()).collect()
}

/// The terminal display width `unicode-width` gives a string.
pub uninterp spec fn text_width(s: Seq<char>) -> nat;

/// Calls `UnicodeWidthStr::width(s)`: the terminal columns the string takes.
/// The width is named `text_width` of the input; how the crate's tables
/// assign columns to each character is not stated.
#[verifier::external_body]
pub fn str_width(s: &str) -> (r: usize)
    ensures
        r == text_width(s@),
{
    UnicodeWidthStr::width(s)
}

/// The scripts spelled without spaces between words.
#[derive(Debug, Clone, Copy, PartialEq, Eq, Structural)]
pub enum CjkScript {
    Han,
    Hiragana,
    Katakana,
}

/// The `unicode-script` code of a script: its `Script` enum is `repr(u8)`
/// with Han 50, Hiragana 54 and Katakana 63.
pub open spec fn cjk_code(script: CjkScript) -> u8 {
    match script {
        CjkScript::Han => 50,
        CjkScript::Hiragana => 54,
        CjkScript::Katakana => 63,
    }
}

/// The code `unicode-script` gives one of the scripts, `Script::X as u8`;
/// the contract states the enum's declared discriminants.
#[verifier::external_body]
pub fn script_code(script: CjkScript) -> (r: u8)
    ensures
        r == cjk_code(script),
{
    match script {
        CjkScript::Han => Script::Han as u8,
        CjkScript::Hiragana => Script::Hiragana as u8,
        CjkScript::Katakana => Script::Katakana as u8,
    }
}

/// The scripts `unicode-script` lists for a character, as codes.
pub uninterp spec fn script_codes(c: char) -> Seq<u8>;

/// Calls `UnicodeScript::script_extension(c)` and lists the scripts its
/// iterator yields, each as its `u8` code. The codes are named
/// `script_codes` of the character; the crate's script tables are not
/// stated.
#[verifier::external_body]
pub fn script_extension_codes(c: char) -> (r: Vec<u8>)
    ensures
        r@ == script_codes(c),
{
    c.script_extension().iter().map(|script| script as u8).collect()
}

} // verus!
