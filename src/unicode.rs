//! Grapheme clusters, display widths and small string helpers.
use vstd::prelude::*;
use unicode_segmentation::UnicodeSegmentation;
use unicode_width::UnicodeWidthStr;

verus! {

/// The extended grapheme clusters of a text, in order.
pub uninterp spec fn graphemes_of(s: Seq<char>) -> Seq<Seq<char>>;

/// The number of terminal columns a text occupies.
pub uninterp spec fn display_width(s: Seq<char>) -> usize;

/// Relies on `UnicodeSegmentation::graphemes(s, true)`: the extended grapheme
/// clusters of `s`, each a non-empty slice, which together spell `s` out.
#[verifier::external_body]
pub(crate) fn graphemes(s: &str) -> (r: Vec<Vec<char>>)
    ensures
        r.deep_view() == graphemes_of(s@),
        r.deep_view().flatten() == s@,
        forall|i: int| 0 <= i < r.deep_view().len() ==> #[trigger] r.deep_view()[i].len() > 0,
{
    s.graphemes(true).map(|g| g.chars().collect()).collect()
}

/// Relies on `UnicodeWidthStr::width`: the display width, in columns, of the
/// text made of the characters `c`.
#[verifier::external_body]
pub(crate) fn width(c: &Vec<char>) -> (r: usize)
    ensures
        r == display_width(c@),
{
    let s: String = c.iter().collect();
    UnicodeWidthStr::width(s.as_str())
}

/// Appends the characters `v` to `s`.
pub(crate) fn push_chars(s: &mut String, v: &Vec<char>)
    ensures
        final(s)@ == old(s)@ + v@,
{
    let mut k: usize = 0;
    while k < v.len()
        invariant
            k <= v.len(),
            s@ == old(s)@ + v@.take(k as int),
        decreases v.len() - k,
    {
        push_char(s, v[k]);
        assert(v@.take(k + 1) =~= v@.take(k as int).push(v@[k as int]));
        k += 1;
    }
    assert(v@.take(k as int) =~= v@);
}

/// Relies on `String::push`: appends one character.
#[verifier::external_body]
pub(crate) fn push_char(s: &mut String, c: char)
    ensures
        final(s)@ == old(s)@.push(c),
{
    s.push(c)
}

/// The characters of `s`, in order.
pub fn chars_of(s: &str) -> (r: Vec<char>)
    ensures
        r@ == s@,
{
    let mut r: Vec<char> = Vec::new();
    for c in it: s.chars()
        invariant
            r@ == it.seq().take(it.index() as int),
            it.seq() == s@,
    {
        r.push(c);
    }
    r
}

} // verus!
