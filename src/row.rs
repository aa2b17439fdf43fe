//! One line of text, edited by grapheme-cluster index, with one highlight
//! tag per cluster.
use vstd::prelude::*;
use vstd::seq_lib::lemma_flatten_concat;
use vstd::string::StringExecFns;
use crate::filetype::{HighlightingOptions, Rules};
use crate::highlighting::{
    cluster_is, highlight_clusters, highlight_line, is_char, reset_code, reset_fg, tag_code,
    tag_code_string, word_view, Type,
};
use crate::position::SearchDirection;
use crate::search::{find_in, find_in_clusters, flatten_range};
use crate::width::{columns, columns_in, fit_end, fit_end_in, fitting};
use crate::unicode::{
    chars_of, display_width, graphemes, graphemes_of, push_char, push_chars, width,
};

verus! {

/// Every tag is `Normal`.
pub open spec fn plain_tags(n: nat) -> Seq<Type> {
    Seq::new(n, |_i: int| Type::Normal)
}

/// The text after inserting `c` before cluster `at`, or at the end when
/// `at` is past it.
pub open spec fn inserted(g: Seq<Seq<char>>, at: int, c: char) -> Seq<char> {
    let k = if at < g.len() {
        at
    } else {
        g.len() as int
    };
    g.take(k).flatten() + seq![c] + g.skip(k).flatten()
}

/// The text after removing cluster `at`; the whole text when `at` is at or
/// past the end.
pub open spec fn deleted(g: Seq<Seq<char>>, at: int) -> Seq<char> {
    if 0 <= at < g.len() {
        g.take(at).flatten() + g.skip(at + 1).flatten()
    } else {
        g.flatten()
    }
}

/// Where a split at `at` cuts: `at`, or the end when `at` is past it.
pub open spec fn split_point(g: Seq<Seq<char>>, at: int) -> int {
    if at < g.len() {
        at
    } else {
        g.len() as int
    }
}

pub open spec fn direction_is_forward(d: SearchDirection) -> bool {
    d == SearchDirection::Forward
}

/// The display width of each cluster.
pub open spec fn widths_of(g: Seq<Seq<char>>) -> Seq<usize> {
    g.map_values(|c: Seq<char>| display_width(c))
}

/// How a cluster is drawn: a tab as one space.
pub open spec fn shown(c: Seq<char>) -> Seq<char> {
    if is_char(c, '\t') {
        seq![' ']
    } else {
        c
    }
}

/// Clusters `[i, e)` as drawn, each run of equal tags opened by its marker;
/// `cur` is the tag in effect before cluster `i`.
pub open spec fn render_from(g: Seq<Seq<char>>, t: Seq<Type>, i: int, e: int, cur: Type) -> Seq<
    char,
>
    decreases e - i,
{
    if i < e {
        (if t[i] != cur {
            tag_code(t[i])
        } else {
            Seq::empty()
        }) + shown(g[i]) + render_from(g, t, i + 1, e, t[i])
    } else {
        Seq::empty()
    }
}

/// The part of a line shown from cluster `offset` on within `area` columns,
/// with tag markers, ending by restoring the default colour; empty when the
/// line ends before `offset`.
pub open spec fn rendered(g: Seq<Seq<char>>, t: Seq<Type>, offset: int, area: int) -> Seq<char> {
    if offset >= g.len() {
        Seq::empty()
    } else {
        render_from(g, t, offset, fit_end(widths_of(g), offset, 0, area), Type::Normal)
            + reset_code()
    }
}

/// The display width of each cluster of `g`.
fn cluster_widths(g: &Vec<Vec<char>>) -> (r: Vec<usize>)
    ensures
        r@ == widths_of(g.deep_view()),
{
    let mut r: Vec<usize> = Vec::new();
    let mut i: usize = 0;
    while i < g.len()
        invariant
            i <= g.len(),
            r@ == widths_of(g.deep_view()).take(i as int),
        decreases g.len() - i,
    {
        assert(g[i as int]@ == g.deep_view()[i as int]);
        r.push(width(&g[i]));
        assert(r@ =~= widths_of(g.deep_view()).take(i + 1));
        i += 1;
    }
    assert(widths_of(g.deep_view()).take(i as int) =~= widths_of(g.deep_view()));
    r
}

/// A line of text with its highlight tags.
///
/// Editing positions and tags both count grapheme clusters: there is one tag
/// per cluster. The cluster count is recomputed from the text after every
/// edit, so a character inserted next to a cluster it combines with (an
/// accent after a letter) joins that cluster instead of adding one.
pub struct Row {
    string: String,
    highlighting: Vec<Type>,
    len: usize,
}

impl Row {
    pub closed spec fn text(&self) -> Seq<char> {
        self.string@
    }

    pub open spec fn graphemes(&self) -> Seq<Seq<char>> {
        graphemes_of(self.text())
    }

    pub closed spec fn tags(&self) -> Seq<Type> {
        self.highlighting@
    }

    /// The cached length counts the text's clusters, which spell the text
    /// out, and there is one tag per cluster.
    pub closed spec fn wf(&self) -> bool {
        &&& self.len == graphemes_of(self.string@).len()
        &&& graphemes_of(self.string@).flatten() == self.string@
        &&& forall|i: int|
            0 <= i < graphemes_of(self.string@).len() ==> #[trigger] graphemes_of(
                self.string@,
            )[i].len() > 0
        &&& self.highlighting@.len() == self.len
    }

    /// A row holding `s`, with plain tags.
    fn from_string(s: String) -> (r: Row)
        ensures
            r.wf(),
            r.text() == s@,
            r.tags() == plain_tags(r.graphemes().len()),
    {
        let n = graphemes(s.as_str()).len();
        let mut tags: Vec<Type> = Vec::new();
        let mut i: usize = 0;
        while i < n
            invariant
                i <= n,
                tags@ == plain_tags(i as nat),
            decreases n - i,
        {
            tags.push(Type::Normal);
            assert(tags@ =~= plain_tags((i + 1) as nat));
            i += 1;
        }
        Row { string: s, highlighting: tags, len: n }
    }

    /// A row holding the text `slice`.
    pub fn from(slice: &str) -> (r: Row)
        ensures
            r.wf(),
            r.text() == slice@,
            r.tags() == plain_tags(r.graphemes().len()),
    {
        Row::from_string(slice.to_owned())
    }

    pub fn len(&self) -> (r: usize)
        requires
            self.wf(),
        ensures
            r == self.graphemes().len(),
    {
        self.len
    }

    pub fn highlighting(&self) -> (r: &Vec<Type>)
        ensures
            r@ == self.tags(),
    {
        &self.highlighting
    }

    pub(crate) fn as_str(&self) -> (r: &str)
        ensures
            r@ == self.text(),
    {
        self.string.as_str()
    }

    pub fn as_bytes(&self) -> (r: &[u8])
        ensures
            r@ == vstd::utf8::encode_utf8(self.text()),
    {
        self.string.as_str().as_bytes()
    }

    /// The text of clusters `[lo, hi)` as a string.
    fn slice_string(g: &Vec<Vec<char>>, lo: usize, hi: usize) -> (r: String)
        requires
            lo <= hi <= g.len(),
        ensures
            r@ == g.deep_view().subrange(lo as int, hi as int).flatten(),
    {
        let (flat, _starts) = flatten_range(g, lo, hi);
        let mut s = String::new();
        push_chars(&mut s, &flat);
        s
    }

    /// Inserts `c` before cluster `at`; appends it when `at` is at or past
    /// the end. The tags become plain until the row is highlighted again.
    pub fn insert(&mut self, at: usize, c: char)
        requires
            old(self).wf(),
        ensures
            final(self).wf(),
            final(self).text() == inserted(old(self).graphemes(), at as int, c),
            final(self).tags() == plain_tags(final(self).graphemes().len()),
    {
        let g = graphemes(self.string.as_str());
        let n = g.len();
        let k = if at < n {
            at
        } else {
            n
        };
        let mut s = Row::slice_string(&g, 0, k);
        push_char(&mut s, c);
        let tail = Row::slice_string(&g, k, n);
        s.append(tail.as_str());
        proof {
            let gv = g.deep_view();
            assert(gv.subrange(0, k as int) == gv.take(k as int));
            assert(gv.subrange(k as int, n as int) == gv.skip(k as int));
        }
        *self = Row::from_string(s);
    }

    /// Removes cluster `at`; leaves the row as it is when `at` is at or past
    /// the end.
    pub fn delete(&mut self, at: usize)
        requires
            old(self).wf(),
        ensures
            final(self).wf(),
            final(self).text() == deleted(old(self).graphemes(), at as int),
            at >= old(self).graphemes().len() ==> *final(self) == *old(self),
            at < old(self).graphemes().len() ==> final(self).tags() == plain_tags(
                final(self).graphemes().len(),
            ),
    {
        if at >= self.len {
            return;
        }
        let g = graphemes(self.string.as_str());
        let n = g.len();
        let mut s = Row::slice_string(&g, 0, at);
        let tail = Row::slice_string(&g, at + 1, n);
        s.append(tail.as_str());
        proof {
            let gv = g.deep_view();
            assert(gv.subrange(0, at as int) == gv.take(at as int));
            assert(gv.subrange(at + 1, n as int) == gv.skip(at + 1));
        }
        *self = Row::from_string(s);
    }

    /// Appends the text of `new` to this row.
    pub fn append(&mut self, new: &Self)
        requires
            old(self).wf(),
        ensures
            final(self).wf(),
            final(self).text() == old(self).text() + new.text(),
            final(self).tags() == plain_tags(final(self).graphemes().len()),
    {
        let mut s = self.string.clone();
        s.append(new.string.as_str());
        *self = Row::from_string(s);
    }

    /// Keeps the clusters before `at` and returns a row holding the rest.
    pub fn split(&mut self, at: usize) -> (r: Self)
        requires
            old(self).wf(),
        ensures
            final(self).wf(),
            r.wf(),
            final(self).text() == old(self).graphemes().take(
                split_point(old(self).graphemes(), at as int),
            ).flatten(),
            r.text() == old(self).graphemes().skip(
                split_point(old(self).graphemes(), at as int),
            ).flatten(),
            final(self).tags() == plain_tags(final(self).graphemes().len()),
            r.tags() == plain_tags(r.graphemes().len()),
    {
        let g = graphemes(self.string.as_str());
        let n = g.len();
        let k = if at < n {
            at
        } else {
            n
        };
        let head = Row::slice_string(&g, 0, k);
        let tail = Row::slice_string(&g, k, n);
        proof {
            let gv = g.deep_view();
            assert(gv.subrange(0, k as int) == gv.take(k as int));
            assert(gv.subrange(k as int, n as int) == gv.skip(k as int));
        }
        *self = Row::from_string(head);
        Row::from_string(tail)
    }

    /// The cluster index of the first (forward, within `[at, end)`) or last
    /// (backward, within `[0, at)`) occurrence of `query`.
    pub fn find(&self, query: &str, at: usize, direction: SearchDirection) -> (r: Option<usize>)
        requires
            self.wf(),
        ensures
            r == (match find_in(self.graphemes(), query@, at as int, direction_is_forward(direction)) {
                Some(m) => Some(m as usize),
                None => None::<usize>,
            }),
            r matches Some(m) ==> m < self.graphemes().len(),
    {
        let g = graphemes(self.string.as_str());
        let q = chars_of(query);
        find_in_clusters(&g, &q, at, direction == SearchDirection::Forward)
    }

    /// Rebuilds the tags from the text, the rule set, the search word and
    /// whether a comment is open from the row before; returns whether one is
    /// open at the end of this row.
    pub fn highlight(
        &mut self,
        opts: &HighlightingOptions,
        word: Option<&str>,
        start_with_comment: bool,
    ) -> (r: bool)
        requires
            old(self).wf(),
        ensures
            final(self).wf(),
            final(self).text() == old(self).text(),
            final(self).tags() == highlight_line(
                old(self).graphemes(),
                opts@,
                word_view(word),
                start_with_comment,
            ).0,
            r == highlight_line(old(self).graphemes(), opts@, word_view(word), start_with_comment).1,
    {
        let g = graphemes(self.string.as_str());
        let (tags, open) = highlight_clusters(&g, opts, word, start_with_comment);
        self.highlighting = tags;
        open
    }
}

impl Row {
    /// The display width of clusters `[full_width_start, full_width_end)`,
    /// both clamped to the line; saturates at the largest `usize`.
    pub fn full2half_width(&self, full_width_start: usize, full_width_end: usize) -> (r: usize)
        requires
            self.wf(),
        ensures
            r == columns(widths_of(self.graphemes()), full_width_start as int, full_width_end as int),
    {
        let g = graphemes(self.string.as_str());
        let w = cluster_widths(&g);
        columns_in(&w, full_width_start, full_width_end)
    }

    /// How many leading clusters fit, taken greedily, into `half_width_end`
    /// columns.
    pub fn half2full_width(&self, half_width_end: usize) -> (r: usize)
        requires
            self.wf(),
        ensures
            r == fitting(widths_of(self.graphemes()), half_width_end as int),
    {
        let g = graphemes(self.string.as_str());
        let w = cluster_widths(&g);
        fit_end_in(&w, 0, half_width_end)
    }

    /// The part of the row visible from cluster `full_width_offset` on within
    /// `half_width_area` columns, ready to draw: tabs become spaces and each
    /// run of equally tagged clusters starts with its colour marker.
    pub fn trim_string(&self, full_width_offset: usize, half_width_area: usize) -> (r: String)
        requires
            self.wf(),
        ensures
            r@ == rendered(
                self.graphemes(),
                self.tags(),
                full_width_offset as int,
                half_width_area as int,
            ),
    {
        let g = graphemes(self.string.as_str());
        let ghost gv = g.deep_view();
        let ghost t = self.tags();
        let n = g.len();
        if full_width_offset >= n {
            return String::new();
        }
        let w = cluster_widths(&g);
        let e = fit_end_in(&w, full_width_offset, half_width_area);
        let mut out = String::new();
        let mut cur = Type::Normal;
        let mut i = full_width_offset;
        while i < e
            invariant
                full_width_offset <= i <= e <= n == g.len(),
                gv == g.deep_view(),
                t == self.tags(),
                t.len() == n,
                out@ + render_from(gv, t, i as int, e as int, cur) == render_from(
                    gv,
                    t,
                    full_width_offset as int,
                    e as int,
                    Type::Normal,
                ),
            decreases e - i,
        {
            let tag = self.highlighting[i];
            let ghost before = out@;
            if tag != cur {
                let code = tag_code_string(tag);
                out.append(code.as_str());
                cur = tag;
            }
            assert(g[i as int]@ == gv[i as int]);
            if cluster_is(&g[i], '\t') {
                push_char(&mut out, ' ');
            } else {
                push_chars(&mut out, &g[i]);
            }
            i += 1;
        }
        let reset = reset_fg();
        out.append(reset.as_str());
        out
    }
}

proof fn lemma_take_skip_flatten(g: Seq<Seq<char>>, k: int)
    requires
        0 <= k <= g.len(),
    ensures
        g.take(k).flatten() + g.skip(k).flatten() == g.flatten(),
{
    assert(g =~= g.take(k) + g.skip(k));
    lemma_flatten_concat(g.take(k), g.skip(k));
}

/// A well-formed row has one tag per cluster; its clusters spell its text
/// out and their number fits a `usize`.
pub proof fn lemma_row_shape(r: Row)
    requires
        r.wf(),
    ensures
        r.tags().len() == r.graphemes().len(),
        r.graphemes().len() <= usize::MAX,
        r.graphemes().flatten() == r.text(),
{
}

/// Splitting a row at any point and appending the returned half to the
/// truncated row gives back the original text, and so the original number
/// of clusters.
pub proof fn lemma_split_then_append(r: Row, at: usize)
    requires
        r.wf(),
    ensures
        ({
            let g = r.graphemes();
            let k = split_point(g, at as int);
            let joined = g.take(k).flatten() + g.skip(k).flatten();
            joined == r.text() && graphemes_of(joined).len() == g.len()
        }),
{
    let g = r.graphemes();
    lemma_take_skip_flatten(g, split_point(g, at as int));
}

/// Inserting `c` at `p` and then deleting at `p` gives back the original
/// text and number of clusters, wherever `c` stands as a cluster of its
/// own in the text after the insertion.
pub proof fn lemma_insert_then_delete(r: Row, p: int, c: char)
    requires
        r.wf(),
        0 <= p <= r.graphemes().len(),
        graphemes_of(inserted(r.graphemes(), p, c)) == r.graphemes().take(p) + seq![seq![c]]
            + r.graphemes().skip(p),
    ensures
        deleted(graphemes_of(inserted(r.graphemes(), p, c)), p) == r.text(),
        graphemes_of(deleted(graphemes_of(inserted(r.graphemes(), p, c)), p)).len()
            == r.graphemes().len(),
{
    let g = r.graphemes();
    let h = graphemes_of(inserted(g, p, c));
    assert(h.take(p) =~= g.take(p));
    assert(h.skip(p + 1) =~= g.skip(p));
    lemma_take_skip_flatten(g, p);
}

/// Highlighting is a function of the row's text, the rule set, the search
/// word and the incoming comment state: rows with the same text get the
/// same tags.
pub proof fn lemma_highlight_is_pure(
    a: Row,
    b: Row,
    r: Rules,
    word: Option<Seq<char>>,
    cont: bool,
)
    requires
        a.text() == b.text(),
    ensures
        highlight_line(a.graphemes(), r, word, cont) == highlight_line(b.graphemes(), r, word, cont),
{
}

impl Default for Row {
    fn default() -> (r: Self)
        ensures
            r.wf(),
            r.text() == Seq::<char>::empty(),
            r.graphemes() == Seq::<Seq<char>>::empty(),
            r.tags() == Seq::<Type>::empty(),
    {
        let r = Row::from_string(String::new());
        proof {
            let g = r.graphemes();
            if g.len() > 0 {
                assert(g[0].len() > 0);
                assert(g.flatten() == g.first() + g.drop_first().flatten());
            }
        }
        assert(r.tags() =~= Seq::<Type>::empty());
        assert(r.graphemes() =~= Seq::<Seq<char>>::empty());
        r
    }
}

} // verus!
