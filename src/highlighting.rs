//! The highlight categories and the rule scanner that assigns them, one tag
//! per grapheme cluster.
use vstd::prelude::*;
use crate::filetype::{HighlightingOptions, Rules};
use crate::search::{find_in_clusters, first_match, lemma_first_match_range};
use crate::unicode::{chars_of, graphemes, graphemes_of};

verus! {

#[derive(PartialEq, Eq, Structural, Clone, Copy, Debug)]
pub enum Type {
    Normal,
    Number,
    Match,
    String,
    Character,
    Comment,
    PrimaryKeywords,
    SecondaryKeywords,
}

/// The foreground colour of each category, as red, green and blue.
pub open spec fn color_of(t: Type) -> (u8, u8, u8) {
    match t {
        Type::Normal => (255, 255, 255),
        Type::Number => (220, 163, 163),
        Type::Match => (38, 139, 210),
        Type::String => (211, 54, 130),
        Type::Character => (108, 113, 196),
        Type::Comment => (133, 153, 0),
        Type::PrimaryKeywords => (181, 137, 0),
        Type::SecondaryKeywords => (42, 161, 152),
    }
}

impl Type {
    pub fn to_color(&self) -> (r: (u8, u8, u8))
        ensures
            r == color_of(*self),
    {
        match self {
            Type::Normal => (255, 255, 255),
            Type::Number => (220, 163, 163),
            Type::Match => (38, 139, 210),
            Type::String => (211, 54, 130),
            Type::Character => (108, 113, 196),
            Type::Comment => (133, 153, 0),
            Type::PrimaryKeywords => (181, 137, 0),
            Type::SecondaryKeywords => (42, 161, 152),
        }
    }
}

/// The decimal digit `d`.
pub open spec fn digit(d: u8) -> char {
    ((48 + d) as u32) as char
}

/// `n` in decimal, without leading zeros.
pub open spec fn decimal(n: u8) -> Seq<char> {
    if n >= 100 {
        seq![digit(n / 100), digit((n / 10) % 10), digit(n % 10)]
    } else if n >= 10 {
        seq![digit(n / 10), digit(n % 10)]
    } else {
        seq![digit(n)]
    }
}

/// The escape sequence that sets the foreground colour `(r, g, b)`:
/// `ESC [ 3 8 ; 2 ; r ; g ; b m`, the numbers in decimal.
pub open spec fn rgb_fg_code(r: u8, g: u8, b: u8) -> Seq<char> {
    seq!['\u{1b}', '[', '3', '8', ';', '2', ';'] + decimal(r) + seq![';'] + decimal(g) + seq![';']
        + decimal(b) + seq!['m']
}

/// The escape sequence that restores the default foreground colour.
pub open spec fn reset_code() -> Seq<char> {
    seq!['\u{1b}', '[', '3', '9', 'm']
}

/// The marker that starts a run of clusters tagged `t`.
pub open spec fn tag_code(t: Type) -> Seq<char> {
    if t == Type::Normal {
        reset_code()
    } else {
        rgb_fg_code(color_of(t).0, color_of(t).1, color_of(t).2)
    }
}

/// Relies on termion's `Rgb::fg_string`: the escape sequence that sets the
/// foreground colour `(r, g, b)`, its numbers written by numtoa in decimal.
#[verifier::external_body]
fn rgb_fg(r: u8, g: u8, b: u8) -> (s: String)
    ensures
        s@ == rgb_fg_code(r, g, b),
{
    termion::color::Rgb(r, g, b).fg_string()
}

/// Relies on termion's `Reset::fg_str`, which is `ESC [ 3 9 m`.
#[verifier::external_body]
pub(crate) fn reset_fg() -> (s: String)
    ensures
        s@ == reset_code(),
{
    termion::color::Reset.fg_str().to_string()
}

/// The marker that starts a run of clusters tagged `t`.
pub fn tag_code_string(t: Type) -> (s: String)
    ensures
        s@ == tag_code(t),
{
    if t == Type::Normal {
        reset_fg()
    } else {
        let (r, g, b) = t.to_color();
        rgb_fg(r, g, b)
    }
}

/// The cluster is exactly the character `c`.
pub open spec fn is_char(g: Seq<char>, c: char) -> bool {
    g.len() == 1 && g[0] == c
}

/// ASCII punctuation or ASCII whitespace.
pub open spec fn is_separator_char(c: char) -> bool {
    let u = c as u32;
    (0x21 <= u <= 0x2f) || (0x3a <= u <= 0x40) || (0x5b <= u <= 0x60) || (0x7b <= u <= 0x7e) || u
        == 0x20 || u == 0x09 || u == 0x0a || u == 0x0c || u == 0x0d
}

pub open spec fn is_separator(g: Seq<char>) -> bool {
    g.len() == 1 && is_separator_char(g[0])
}

pub open spec fn is_digit(g: Seq<char>) -> bool {
    g.len() == 1 && 0x30 <= (g[0] as u32) <= 0x39
}

/// Length of a character literal (`'x'` or `'\x'`) starting at `i`, or 0.
pub open spec fn char_literal_len(g: Seq<Seq<char>>, i: int) -> nat {
    if is_char(g[i], '\'') && i + 1 < g.len() {
        let close = if is_char(g[i + 1], '\\') {
            i + 3
        } else {
            i + 2
        };
        if close < g.len() && is_char(g[close], '\'') {
            (close - i + 1) as nat
        } else {
            0
        }
    } else {
        0
    }
}

pub open spec fn starts_line_comment(g: Seq<Seq<char>>, i: int) -> bool {
    i + 1 < g.len() && is_char(g[i], '/') && is_char(g[i + 1], '/')
}

/// The keyword's clusters stand at `i` and are followed by a separator or
/// the end of the line.
pub open spec fn keyword_at(g: Seq<Seq<char>>, i: int, kw: Seq<Seq<char>>) -> bool {
    &&& kw.len() > 0
    &&& i + kw.len() <= g.len()
    &&& g.subrange(i, i + kw.len()) == kw
    &&& (i + kw.len() == g.len() || is_separator(g[i + kw.len()]))
}

/// The length of the longest keyword that stands at `i`, or 0.
pub open spec fn longest_keyword(g: Seq<Seq<char>>, i: int, kws: Seq<Seq<Seq<char>>>) -> nat
    decreases kws.len(),
{
    if kws.len() == 0 {
        0
    } else {
        let rest = longest_keyword(g, i, kws.drop_last());
        let k = if keyword_at(g, i, kws.last()) {
            kws.last().len()
        } else {
            0
        };
        if k > rest {
            k
        } else {
            rest
        }
    }
}

/// A keyword counts only after a separator or at the start of the line.
pub open spec fn keyword_len(g: Seq<Seq<char>>, i: int, kws: Seq<Seq<Seq<char>>>) -> nat {
    if i == 0 || is_separator(g[i - 1]) {
        longest_keyword(g, i, kws)
    } else {
        0
    }
}

/// Where a string literal whose body starts at `j` ends: just past the
/// closing quote, or at the end of the line. A backslash takes the next
/// cluster with it.
pub open spec fn string_end(g: Seq<Seq<char>>, j: int) -> int
    decreases g.len() - j,
{
    if j >= g.len() {
        g.len() as int
    } else if is_char(g[j], '"') {
        j + 1
    } else if is_char(g[j], '\\') && j + 1 < g.len() {
        string_end(g, j + 2)
    } else {
        string_end(g, j + 1)
    }
}

/// Where a run of digits continuing at `j` ends; one decimal point between
/// digits is taken in.
pub open spec fn number_end(g: Seq<Seq<char>>, j: int, dot: bool) -> int
    decreases g.len() - j,
{
    if j < g.len() && is_digit(g[j]) {
        number_end(g, j + 1, dot)
    } else if !dot && j + 1 < g.len() && is_char(g[j], '.') && is_digit(g[j + 1]) {
        number_end(g, j + 1, true)
    } else {
        j
    }
}

/// The clusters of each keyword.
pub open spec fn keyword_clusters(ws: Seq<Seq<char>>) -> Seq<Seq<Seq<char>>> {
    ws.map_values(|w: Seq<char>| graphemes_of(w))
}

/// The first rule, in precedence order, that matches at `i`: its tag and
/// how many clusters it takes.
pub open spec fn rule_at(g: Seq<Seq<char>>, r: Rules, i: int) -> (Type, nat) {
    let prim = keyword_len(g, i, keyword_clusters(r.primary_keywords));
    let sec = keyword_len(g, i, keyword_clusters(r.secondary_keywords));
    if r.characters && char_literal_len(g, i) > 0 {
        (Type::Character, char_literal_len(g, i))
    } else if r.comments && starts_line_comment(g, i) {
        (Type::Comment, (g.len() - i) as nat)
    } else if prim > 0 {
        (Type::PrimaryKeywords, prim)
    } else if sec > 0 {
        (Type::SecondaryKeywords, sec)
    } else if r.strings && is_char(g[i], '"') {
        (Type::String, (string_end(g, i + 1) - i) as nat)
    } else if r.numbers && is_digit(g[i]) && (i == 0 || is_separator(g[i - 1])) {
        (Type::Number, (number_end(g, i + 1, false) - i) as nat)
    } else {
        (Type::Normal, 1)
    }
}

/// The tags of the clusters from `i` on, rule by rule.
pub open spec fn scan(g: Seq<Seq<char>>, r: Rules, i: int) -> Seq<Type>
    decreases g.len() - i,
{
    if 0 <= i < g.len() {
        let k = rule_at(g, r, i).1;
        if 0 < k <= g.len() - i {
            Seq::new(k, |_j: int| rule_at(g, r, i).0) + scan(g, r, i + k)
        } else {
            Seq::empty()
        }
    } else {
        Seq::empty()
    }
}

/// Just past the first `*/` at or after `j`, if there is one.
pub open spec fn block_comment_end(g: Seq<Seq<char>>, j: int) -> Option<int>
    decreases g.len() - j,
{
    if j + 1 >= g.len() {
        None
    } else if is_char(g[j], '*') && is_char(g[j + 1], '/') {
        Some(j + 2)
    } else {
        block_comment_end(g, j + 1)
    }
}

/// How much of the line a comment carried over from the line before
/// covers, and whether it is still open at the end of the line.
pub open spec fn carried_comment(g: Seq<Seq<char>>, r: Rules, cont: bool) -> (nat, bool) {
    if r.comments && cont {
        match block_comment_end(g, 0) {
            Some(e) => (e as nat, false),
            None => (g.len(), true),
        }
    } else {
        (0, false)
    }
}

/// The tags before the search-match pass.
pub open spec fn base_tags(g: Seq<Seq<char>>, r: Rules, cont: bool) -> Seq<Type> {
    let start = carried_comment(g, r, cont).0;
    Seq::new(start, |_j: int| Type::Comment) + scan(g, r, start as int)
}

/// `t` with the clusters in `[m, e)` tagged as a search match.
pub open spec fn mark_span(t: Seq<Type>, m: int, e: int) -> Seq<Type> {
    Seq::new(t.len(), |p: int| if m <= p < e { Type::Match } else { t[p] })
}

/// Tags every occurrence of `q` found by successive forward searches, each
/// starting past the `k` clusters of the one before.
pub open spec fn mark_matches(g: Seq<Seq<char>>, t: Seq<Type>, q: Seq<char>, k: nat, j: int) -> Seq<
    Type,
>
    decreases g.len() - j,
{
    if 0 <= j < g.len() && k > 0 {
        match first_match(g, q, j, g.len() as int) {
            Some(m) => if j <= m < g.len() {
                let e = if m + k < g.len() {
                    m + k
                } else {
                    g.len() as int
                };
                mark_matches(g, mark_span(t, m, e), q, k, e)
            } else {
                t
            },
            None => t,
        }
    } else {
        t
    }
}

/// The tags of a line and whether a comment is still open at its end, from
/// its clusters, the rule set, the search word and the incoming state.
pub open spec fn highlight_line(g: Seq<Seq<char>>, r: Rules, word: Option<Seq<char>>, cont: bool) -> (
    Seq<Type>,
    bool,
) {
    let base = base_tags(g, r, cont);
    let tags = match word {
        Some(w) => if w.len() > 0 {
            mark_matches(g, base, w, graphemes_of(w).len(), 0)
        } else {
            base
        },
        None => base,
    };
    (tags, carried_comment(g, r, cont).1)
}

/// The search word as plain characters.
pub open spec fn word_view(word: Option<&str>) -> Option<Seq<char>> {
    match word {
        Some(w) => Some(w@),
        None => None,
    }
}

pub(crate) fn cluster_is(c: &Vec<char>, ch: char) -> (r: bool)
    ensures
        r == is_char(c@, ch),
{
    c.len() == 1 && c[0] == ch
}

pub fn is_separator_cluster(c: &Vec<char>) -> (r: bool)
    ensures
        r == is_separator(c@),
{
    if c.len() != 1 {
        return false;
    }
    let u = c[0] as u32;
    (0x21 <= u && u <= 0x2f) || (0x3a <= u && u <= 0x40) || (0x5b <= u && u <= 0x60) || (0x7b <= u
        && u <= 0x7e) || u == 0x20 || u == 0x09 || u == 0x0a || u == 0x0c || u == 0x0d
}

fn is_digit_cluster(c: &Vec<char>) -> (r: bool)
    ensures
        r == is_digit(c@),
{
    if c.len() != 1 {
        return false;
    }
    let u = c[0] as u32;
    0x30 <= u && u <= 0x39
}

fn same_chars(a: &Vec<char>, b: &Vec<char>) -> (r: bool)
    ensures
        r == (a@ == b@),
{
    if a.len() != b.len() {
        return false;
    }
    let mut k: usize = 0;
    while k < a.len()
        invariant
            k <= a.len() == b.len(),
            forall|j: int| 0 <= j < k ==> a@[j] == b@[j],
        decreases a.len() - k,
    {
        if a[k] != b[k] {
            return false;
        }
        k += 1;
    }
    assert(a@ =~= b@);
    true
}

/// Rule: a character literal at `i`; how many clusters it covers, or 0.
fn highlight_char(g: &Vec<Vec<char>>, i: usize) -> (r: usize)
    requires
        i < g.len(),
    ensures
        r == char_literal_len(g.deep_view(), i as int),
        r <= g.len() - i,
{
    let n = g.len();
    if !cluster_is(&g[i], '\'') || n - i < 2 {
        return 0;
    }
    if cluster_is(&g[i + 1], '\\') {
        if n - i > 3 && cluster_is(&g[i + 3], '\'') {
            4
        } else {
            0
        }
    } else {
        if n - i > 2 && cluster_is(&g[i + 2], '\'') {
            3
        } else {
            0
        }
    }
}

/// Rule: a line comment starts at `i`.
fn highlight_comment(g: &Vec<Vec<char>>, i: usize) -> (r: bool)
    requires
        i < g.len(),
    ensures
        r == starts_line_comment(g.deep_view(), i as int),
{
    g.len() - i > 1 && cluster_is(&g[i], '/') && cluster_is(&g[i + 1], '/')
}

/// Whether the keyword `kw` stands at `i`, followed by a separator or the
/// end of the line.
fn highlight_str(g: &Vec<Vec<char>>, i: usize, kw: &Vec<Vec<char>>) -> (r: bool)
    requires
        i < g.len(),
    ensures
        r == keyword_at(g.deep_view(), i as int, kw.deep_view()),
{
    let ghost gv = g.deep_view();
    let ghost kv = kw.deep_view();
    let n = g.len();
    let k = kw.len();
    if k == 0 || k > n - i {
        return false;
    }
    let mut t: usize = 0;
    while t < k
        invariant
            t <= k <= n - i,
            k == kw.len(),
            n == g.len(),
            gv == g.deep_view(),
            kv == kw.deep_view(),
            forall|j: int| 0 <= j < t ==> gv[i + j] == kv[j],
        decreases k - t,
    {
        assert(g[i + t]@ == gv[i + t]);
        assert(kw[t as int]@ == kv[t as int]);
        if !same_chars(&g[i + t], &kw[t]) {
            assert(gv.subrange(i as int, i + k)[t as int] != kv[t as int]);
            return false;
        }
        t += 1;
    }
    assert(gv.subrange(i as int, i + k) =~= kv);
    i + k == n || is_separator_cluster(&g[i + k])
}

/// Rule: the longest keyword of `kws` at `i`, after a separator or at the
/// start of the line; how many clusters it covers, or 0.
fn highlight_keywords(g: &Vec<Vec<char>>, i: usize, kws: &Vec<Vec<Vec<char>>>) -> (r: usize)
    requires
        i < g.len(),
    ensures
        r == keyword_len(g.deep_view(), i as int, kws.deep_view()),
        r <= g.len() - i,
{
    let ghost gv = g.deep_view();
    let ghost kv = kws.deep_view();
    if i > 0 && !is_separator_cluster(&g[i - 1]) {
        return 0;
    }
    let mut best: usize = 0;
    let mut j: usize = 0;
    assert(kv.take(0) =~= Seq::<Seq<Seq<char>>>::empty());
    while j < kws.len()
        invariant
            j <= kws.len(),
            i < g.len(),
            gv == g.deep_view(),
            kv == kws.deep_view(),
            best == longest_keyword(gv, i as int, kv.take(j as int)),
            best <= g.len() - i,
        decreases kws.len() - j,
    {
        assert(kv.take(j + 1).drop_last() =~= kv.take(j as int));
        assert(kws[j as int].deep_view() == kv[j as int]);
        let k = if highlight_str(g, i, &kws[j]) {
            kws[j].len()
        } else {
            0
        };
        if k > best {
            best = k;
        }
        j += 1;
    }
    assert(kv.take(kws.len() as int) =~= kv);
    best
}

/// Rule: a string literal opening at `i`; where it ends.
fn highlight_string(g: &Vec<Vec<char>>, i: usize) -> (r: usize)
    requires
        i < g.len(),
    ensures
        r == string_end(g.deep_view(), i + 1),
        i < r <= g.len(),
{
    let ghost gv = g.deep_view();
    let n = g.len();
    let mut j = i + 1;
    while j < n
        invariant
            i < j <= n == g.len(),
            gv == g.deep_view(),
            string_end(gv, i + 1) == string_end(gv, j as int),
        decreases n - j,
    {
        if cluster_is(&g[j], '"') {
            return j + 1;
        } else if cluster_is(&g[j], '\\') && n - j > 1 {
            j += 2;
        } else {
            j += 1;
        }
    }
    n
}

/// Rule: a number starting at `i`; where it ends.
fn highlight_number(g: &Vec<Vec<char>>, i: usize) -> (r: usize)
    requires
        i < g.len(),
    ensures
        r == number_end(g.deep_view(), i + 1, false),
        i < r <= g.len(),
{
    let ghost gv = g.deep_view();
    let n = g.len();
    let mut j = i + 1;
    let mut dot = false;
    loop
        invariant
            i < j <= n == g.len(),
            gv == g.deep_view(),
            number_end(gv, i + 1, false) == number_end(gv, j as int, dot),
        decreases n - j,
    {
        if j < n && is_digit_cluster(&g[j]) {
            j += 1;
        } else if !dot && n - j > 1 && cluster_is(&g[j], '.') && is_digit_cluster(&g[j + 1]) {
            dot = true;
            j += 1;
        } else {
            return j;
        }
    }
}

/// The first rule that matches at `i`, as a tag and a number of clusters.
fn first_rule(
    g: &Vec<Vec<char>>,
    i: usize,
    opts: &HighlightingOptions,
    prim: &Vec<Vec<Vec<char>>>,
    sec: &Vec<Vec<Vec<char>>>,
) -> (r: (Type, usize))
    requires
        i < g.len(),
        prim.deep_view() == keyword_clusters(opts@.primary_keywords),
        sec.deep_view() == keyword_clusters(opts@.secondary_keywords),
    ensures
        r.0 == rule_at(g.deep_view(), opts@, i as int).0,
        r.1 == rule_at(g.deep_view(), opts@, i as int).1,
        0 < r.1 <= g.len() - i,
{
    let n = g.len();
    let c = highlight_char(g, i);
    if opts.characters() && c > 0 {
        return (Type::Character, c);
    }
    if opts.comments() && highlight_comment(g, i) {
        return (Type::Comment, n - i);
    }
    let p = highlight_keywords(g, i, prim);
    if p > 0 {
        return (Type::PrimaryKeywords, p);
    }
    let s = highlight_keywords(g, i, sec);
    if s > 0 {
        return (Type::SecondaryKeywords, s);
    }
    if opts.strings() && cluster_is(&g[i], '"') {
        let e = highlight_string(g, i);
        return (Type::String, e - i);
    }
    if opts.numbers() && is_digit_cluster(&g[i]) && (i == 0 || is_separator_cluster(&g[i - 1])) {
        let e = highlight_number(g, i);
        return (Type::Number, e - i);
    }
    (Type::Normal, 1)
}

/// The clusters of each keyword.
fn keyword_graphemes(ws: &Vec<String>) -> (r: Vec<Vec<Vec<char>>>)
    ensures
        r.deep_view() == keyword_clusters(ws.deep_view()),
{
    let mut r: Vec<Vec<Vec<char>>> = Vec::new();
    let mut j: usize = 0;
    while j < ws.len()
        invariant
            j <= ws.len(),
            r.deep_view() == keyword_clusters(ws.deep_view()).take(j as int),
        decreases ws.len() - j,
    {
        let c = graphemes(ws[j].as_str());
        assert(ws.deep_view()[j as int] == ws[j as int]@);
        let ghost before = r.deep_view();
        r.push(c);
        assert(r.deep_view() =~= before.push(c.deep_view()));
        assert(keyword_clusters(ws.deep_view())[j as int] == graphemes_of(ws.deep_view()[j as int]));
        assert(r.deep_view() =~= keyword_clusters(ws.deep_view()).take(j + 1));
        j += 1;
    }
    assert(keyword_clusters(ws.deep_view()).take(j as int) =~= keyword_clusters(ws.deep_view()));
    r
}

/// Just past the first `*/` of the line, if there is one.
fn close_block_comment(g: &Vec<Vec<char>>) -> (r: Option<usize>)
    ensures
        match r {
            Some(e) => block_comment_end(g.deep_view(), 0) == Some(e as int) && e <= g.len(),
            None => block_comment_end(g.deep_view(), 0) is None,
        },
{
    let ghost gv = g.deep_view();
    let n = g.len();
    let mut j: usize = 0;
    while n > 1 && j < n - 1
        invariant
            j <= n,
            n == g.len(),
            gv == g.deep_view(),
            block_comment_end(gv, 0) == block_comment_end(gv, j as int),
        decreases n - j,
    {
        if cluster_is(&g[j], '*') && cluster_is(&g[j + 1], '/') {
            return Some(j + 2);
        }
        j += 1;
    }
    None
}

/// Tags each occurrence of `q` that successive forward searches find.
fn highlight_match(g: &Vec<Vec<char>>, tags: &mut Vec<Type>, q: &Vec<char>, k: usize)
    requires
        old(tags).len() == g.len(),
        q@.len() > 0,
        k > 0,
    ensures
        final(tags)@ == mark_matches(g.deep_view(), old(tags)@, q@, k as nat, 0),
        final(tags).len() == old(tags).len(),
{
    let ghost gv = g.deep_view();
    let n = g.len();
    let mut j: usize = 0;
    while j < n
        invariant
            j <= n == g.len(),
            tags.len() == n,
            gv == g.deep_view(),
            q@.len() > 0,
            k > 0,
            mark_matches(gv, old(tags)@, q@, k as nat, 0) == mark_matches(
                gv,
                tags@,
                q@,
                k as nat,
                j as int,
            ),
        decreases n - j,
    {
        match find_in_clusters(g, q, j, true) {
            Some(m) => {
                proof {
                    lemma_first_match_range(gv, q@, j as int, n as int);
                }
                let e = if k < n - m {
                    m + k
                } else {
                    n
                };
                let ghost before = tags@;
                let mut p = m;
                while p < e
                    invariant
                        m <= p <= e <= n,
                        tags.len() == n,
                        tags@ == mark_span(before, m as int, p as int),
                        before.len() == n,
                    decreases e - p,
                {
                    tags.set(p, Type::Match);
                    assert(tags@ =~= mark_span(before, m as int, p + 1));
                    p += 1;
                }
                j = e;
            },
            None => {
                j = n;
            },
        }
    }
}

/// Highlights one line given as grapheme clusters: the tags, and whether a
/// comment is still open at its end.
pub fn highlight_clusters(
    g: &Vec<Vec<char>>,
    opts: &HighlightingOptions,
    word: Option<&str>,
    cont: bool,
) -> (r: (Vec<Type>, bool))
    ensures
        r.0@ == highlight_line(g.deep_view(), opts@, word_view(word), cont).0,
        r.1 == highlight_line(g.deep_view(), opts@, word_view(word), cont).1,
        r.0.len() == g.len(),
{
    let ghost gv = g.deep_view();
    let ghost rv = opts@;
    let prim = keyword_graphemes(opts.primary_keywords());
    let sec = keyword_graphemes(opts.secondary_keywords());
    let n = g.len();
    let mut tags: Vec<Type> = Vec::new();
    let mut i: usize = 0;
    let mut open = false;
    if opts.comments() && cont {
        let stop = match close_block_comment(g) {
            Some(e) => e,
            None => {
                open = true;
                n
            },
        };
        while i < stop
            invariant
                i <= stop <= n,
                tags@ == Seq::new(i as nat, |_j: int| Type::Comment),
            decreases stop - i,
        {
            tags.push(Type::Comment);
            assert(tags@ =~= Seq::new((i + 1) as nat, |_j: int| Type::Comment));
            i += 1;
        }
    }
    assert(i == carried_comment(gv, rv, cont).0);
    assert(open == carried_comment(gv, rv, cont).1);
    assert(tags@ + scan(gv, rv, i as int) == base_tags(gv, rv, cont));
    while i < n
        invariant
            i <= n == g.len(),
            gv == g.deep_view(),
            rv == opts@,
            prim.deep_view() == keyword_clusters(rv.primary_keywords),
            sec.deep_view() == keyword_clusters(rv.secondary_keywords),
            tags.len() == i,
            tags@ + scan(gv, rv, i as int) == base_tags(gv, rv, cont),
        decreases n - i,
    {
        let (t, k) = first_rule(g, i, opts, &prim, &sec);
        let ghost before = tags@;
        let mut c: usize = 0;
        while c < k
            invariant
                c <= k,
                tags@ == before + Seq::new(c as nat, |_j: int| t),
            decreases k - c,
        {
            tags.push(t);
            assert(tags@ =~= before + Seq::new((c + 1) as nat, |_j: int| t));
            c += 1;
        }
        assert(scan(gv, rv, i as int) == Seq::new(k as nat, |_j: int| t) + scan(gv, rv, i + k));
        assert(before + scan(gv, rv, i as int) =~= tags@ + scan(gv, rv, i + k));
        i += k;
    }
    assert(tags@ =~= base_tags(gv, rv, cont));
    if let Some(w) = word {
        let q = chars_of(w);
        if q.len() > 0 {
            let k = graphemes(w).len();
            if k > 0 {
                highlight_match(g, &mut tags, &q, k);
            }
        }
    }
    (tags, open)
}

} // verus!
