//! Display width and grapheme segmentation of text, as computed by the
//! `unicode-width` and `unicode-segmentation` crates.
use vstd::prelude::*;

verus! {

/// The number of terminal cells `UnicodeWidthStr::width` assigns to the text `s`.
pub uninterp spec fn text_width(s: Seq<char>) -> nat;

/// The extended grapheme clusters `UnicodeSegmentation::graphemes(s, true)`
/// splits the text `s` into, in order.
pub uninterp spec fn grapheme_clusters(s: Seq<char>) -> Seq<Seq<char>>;

/// Concatenation of a sequence of character sequences.
pub open spec fn concat(parts: Seq<Seq<char>>) -> Seq<char>
    decreases parts.len(),
{
    if parts.len() == 0 {
        Seq::empty()
    } else {
        concat(parts.drop_last()) + parts.last()
    }
}

/// The character sequences of a sequence of strings.
pub open spec fn string_views(v: Seq<String>) -> Seq<Seq<char>> {
    v.map_values(|x: String| x@)
}

/// Display width of `s` in terminal cells.
///
/// Calls `unicode_width::UnicodeWidthStr::width`; the contract only names
/// its result, which depends on nothing but the text.
#[verifier::external_body]
pub(crate) fn str_width(s: &str) -> (w: usize)
    ensures
        w == text_width(s@),
{
    unicode_width::UnicodeWidthStr::width(s)
}

/// The grapheme clusters of `s`.
///
/// Calls `unicode_segmentation::UnicodeSegmentation::graphemes(s, true)`.
/// The contract names the clusters and states what the crate documents of
/// them: they are non-empty and, joined in order, give back `s`.
#[verifier::external_body]
pub(crate) fn graphemes(s: &str) -> (r: Vec<String>)
    ensures
        r@.len() == grapheme_clusters(s@).len(),
        forall|k: int| 0 <= k < r@.len() ==> (#[trigger] r@[k])@ == grapheme_clusters(s@)[k],
        forall|k: int| 0 <= k < r@.len() ==> (#[trigger] r@[k])@.len() > 0,
        concat(string_views(r@)) == s@,
{
    unicode_segmentation::UnicodeSegmentation::graphemes(s, true).map(|g| g.to_string()).collect()
}

/// `String::push`: append the character `c`.
#[verifier::external_body]
pub(crate) fn push_char(s: &mut String, c: char)
    ensures
        final(s)@ == old(s)@.push(c),
{
    s.push(c);
}

/// The characters of `s`, in order.
pub(crate) fn chars_of(s: &str) -> (r: Vec<char>)
    ensures
        r@ == s@,
{
    let n = s.unicode_len();
    let mut out: Vec<char> = Vec::new();
    let mut i: usize = 0;
    while i < n
        invariant
            n == s@.len(),
            i <= n,
            out@ == s@.take(i as int),
        decreases n - i,
    {
        out.push(s.get_char(i));
        proof {
            assert(s@.take(i + 1) == s@.take(i as int).push(s@[i as int]));
        }
        i = i + 1;
    }
    assert(s@.take(n as int) == s@);
    out
}


/// Whether `c` has the Unicode `White_Space` property (what
/// `char::is_whitespace` tests): tab through carriage return, space, next
/// line, no-break space, ogham space mark, the spaces U+2000 to U+200A, the
/// line and paragraph separators, narrow no-break space, medium
/// mathematical space and ideographic space.
pub open spec fn white_space(c: char) -> bool {
    let u = c as u32;
    (0x09 <= u <= 0x0d) || u == 0x20 || u == 0x85 || u == 0xa0 || u == 0x1680 || (0x2000 <= u <= 0x200a)
        || u == 0x2028 || u == 0x2029 || u == 0x202f || u == 0x205f || u == 0x3000
}

/// Whether `c` is white space (see [`white_space`]).
pub(crate) fn is_space(c: char) -> (r: bool)
    ensures
        r == white_space(c),
{
    let u = c as u32;
    (0x09 <= u && u <= 0x0d) || u == 0x20 || u == 0x85 || u == 0xa0 || u == 0x1680 || (0x2000 <= u && u <= 0x200a)
        || u == 0x2028 || u == 0x2029 || u == 0x202f || u == 0x205f || u == 0x3000
}

} // verus!
