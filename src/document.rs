//! A document: an ordered sequence of rows, edited at positions, searched
//! across rows and highlighted with comment state threaded row to row.
use vstd::prelude::*;
use vstd::string::StringExecFns;
use crate::filetype::{no_rules, FileType, Rules};
use crate::highlighting::{highlight_line, word_view, Type};
use crate::position::{Position, SearchDirection};
use crate::row::{
    deleted, inserted, lemma_insert_then_delete, lemma_row_shape, lemma_split_then_append,
    split_point, Row,
};
use crate::search::{find_in, lemma_first_match_range};
use crate::unicode::{chars_of, graphemes_of, push_char};

verus! {

/// The pieces of a text between line feeds; there is always at least one.
pub open spec fn split_lf(c: Seq<char>) -> Seq<Seq<char>>
    decreases c.len(),
{
    if c.len() == 0 {
        seq![Seq::empty()]
    } else {
        let p = split_lf(c.drop_last());
        if c.last() == '\n' {
            p.push(Seq::empty())
        } else {
            p.update(p.len() - 1, p.last().push(c.last()))
        }
    }
}

/// The lines of a text: the pieces between line feeds, without the empty
/// piece after a final line feed.
pub open spec fn lines_of(c: Seq<char>) -> Seq<Seq<char>> {
    let p = split_lf(c);
    if p.last().len() == 0 {
        p.drop_last()
    } else {
        p
    }
}

/// Each line followed by one line feed.
pub open spec fn unlines(rows: Seq<Seq<char>>) -> Seq<char>
    decreases rows.len(),
{
    if rows.len() == 0 {
        Seq::empty()
    } else {
        unlines(rows.drop_last()) + rows.last() + seq!['\n']
    }
}

pub open spec fn texts(rows: Seq<Row>) -> Seq<Seq<char>> {
    rows.map_values(|r: Row| r.text())
}

pub open spec fn clusters(rows: Seq<Row>) -> Seq<Seq<Seq<char>>> {
    rows.map_values(|r: Row| r.graphemes())
}

/// Whether a comment is open when row `i` starts, highlighting from the
/// first row with no comment open.
pub open spec fn open_before(g: Seq<Seq<Seq<char>>>, r: Rules, word: Option<Seq<char>>, i: int) -> bool
    decreases i,
{
    if i <= 0 {
        false
    } else {
        highlight_line(g[i - 1], r, word, open_before(g, r, word, i - 1)).1
    }
}

/// Every row is tagged as a highlighting pass from the first row gives.
pub open spec fn all_highlighted(rows: Seq<Row>, r: Rules, word: Option<Seq<char>>) -> bool {
    forall|i: int|
        0 <= i < rows.len() ==> #[trigger] rows[i].tags() == highlight_line(
            rows[i].graphemes(),
            r,
            word,
            open_before(clusters(rows), r, word, i),
        ).0
}

/// The row is tagged as highlighting it alone, with no search word and no
/// comment open, gives.
pub open spec fn highlighted_alone(row: Row, r: Rules) -> bool {
    row.wf() && row.tags() == highlight_line(row.graphemes(), r, None, false).0
}

/// The first match at or after column `x` of row `y`, scanning forward.
pub open spec fn find_forward(g: Seq<Seq<Seq<char>>>, q: Seq<char>, y: int, x: int) -> Option<
    (int, int),
>
    decreases g.len() - y,
{
    if 0 <= y < g.len() {
        match find_in(g[y], q, x, true) {
            Some(m) => Some((m, y)),
            None => find_forward(g, q, y + 1, 0),
        }
    } else {
        None
    }
}

/// The last match before column `x` of row `y`, scanning backward; each
/// earlier row is searched from its end.
pub open spec fn find_backward(g: Seq<Seq<Seq<char>>>, q: Seq<char>, y: int, x: int) -> Option<
    (int, int),
>
    decreases y,
{
    if 0 <= y < g.len() {
        match find_in(g[y], q, x, false) {
            Some(m) => Some((m, y)),
            None => if y > 0 {
                find_backward(g, q, y - 1, g[y - 1].len() as int)
            } else {
                None
            },
        }
    } else {
        None
    }
}

pub open spec fn find_from(g: Seq<Seq<Seq<char>>>, q: Seq<char>, y: int, x: int, forward: bool) -> Option<
    (int, int),
> {
    if forward {
        find_forward(g, q, y, x)
    } else {
        find_backward(g, q, y, x)
    }
}

/// What `Document::insert(at, c)` makes of `old`: see that method.
pub open spec fn inserted_into(old: Document, new: Document, at: Position, c: char) -> bool {
    &&& new.path() == old.path()
    &&& new.kind() == old.kind()
    &&& at.y > old.rows().len() ==> new == old
    &&& at.y <= old.rows().len() ==> new.dirty_flag()
    &&& at.y <= old.rows().len() && c == '\n' ==> new.rows().len()
        == old.rows().len() + 1
    &&& at.y == old.rows().len() && c == '\n' ==> new.rows() == old.rows().push(new.rows()[at.y as int]) && new.rows()[at.y as int].text()
        == Seq::<char>::empty()
    &&& at.y < old.rows().len() && c == '\n' ==> ({
        let y = at.y as int;
        let g = old.rows()[y].graphemes();
        let k = split_point(g, at.x as int);
        &&& forall|j: int| 0 <= j < y ==> #[trigger] new.rows()[j] == old.rows()[j]
        &&& forall|j: int|
            y + 1 < j < new.rows().len() ==> #[trigger] new.rows()[j]
                == old.rows()[j - 1]
        &&& new.rows()[y].text() == g.take(k).flatten()
        &&& new.rows()[y + 1].text() == g.skip(k).flatten()
        &&& highlighted_alone(new.rows()[y], new.rules())
        &&& highlighted_alone(new.rows()[y + 1], new.rules())
    })
    &&& at.y < old.rows().len() && c != '\n' ==> ({
        let y = at.y as int;
        &&& new.rows() == old.rows().update(y, new.rows()[y])
        &&& new.rows()[y].text() == inserted(
            old.rows()[y].graphemes(),
            at.x as int,
            c,
        )
        &&& highlighted_alone(new.rows()[y], new.rules())
    })
    &&& at.y == old.rows().len() && c != '\n' ==> ({
        let y = at.y as int;
        &&& new.rows() == old.rows().push(new.rows()[y])
        &&& new.rows()[y].text() == seq![c]
        &&& highlighted_alone(new.rows()[y], new.rules())
    })
}

/// What `Document::delete(at)` makes of `old`: see that method.
pub open spec fn deleted_from(old: Document, new: Document, at: Position) -> bool {
    &&& new.path() == old.path()
    &&& new.kind() == old.kind()
    &&& at.y >= old.rows().len() ==> new == old
    &&& at.y < old.rows().len() ==> new.dirty_flag()
    &&& at.y < old.rows().len() ==> ({
        let y = at.y as int;
        let g = old.rows()[y].graphemes();
        let joins = at.x >= g.len() && y + 1 < old.rows().len();
        &&& highlighted_alone(new.rows()[y], new.rules())
        &&& forall|j: int| 0 <= j < y ==> #[trigger] new.rows()[j] == old.rows()[j]
        &&& joins ==> new.rows().len() == old.rows().len() - 1
            && new.rows()[y].text() == old.rows()[y].text() + old.rows()[y + 1].text() && forall|j: int|
            y < j < new.rows().len() ==> #[trigger] new.rows()[j] == old.rows()[j + 1]
        &&& !joins ==> new.rows().len() == old.rows().len()
            && new.rows()[y].text() == deleted(g, at.x as int) && forall|j: int|
            y < j < new.rows().len() ==> #[trigger] new.rows()[j] == old.rows()[j]
    })
}

pub struct Document {
    rows: Vec<Row>,
    pub file_name: Option<String>,
    dirty: bool,
    file_type: FileType,
}

impl Document {
    pub closed spec fn rows(&self) -> Seq<Row> {
        self.rows@
    }

    /// The file name, as plain characters.
    pub closed spec fn path(&self) -> Option<Seq<char>> {
        match self.file_name {
            Some(n) => Some(n@),
            None => None,
        }
    }

    pub closed spec fn dirty_flag(&self) -> bool {
        self.dirty
    }

    pub closed spec fn kind(&self) -> FileType {
        self.file_type
    }

    pub open spec fn rules(&self) -> Rules {
        self.kind().rules()
    }

    pub open spec fn wf(&self) -> bool {
        forall|i: int| 0 <= i < self.rows().len() ==> #[trigger] self.rows()[i].wf()
    }

    /// A document made of the lines of `contents`, as read from the file
    /// `filename`: its file type follows the name, every row is highlighted
    /// with comment state threaded from the first row, and it is not dirty.
    pub fn from_contents(filename: &str, contents: &str) -> (r: Self)
        ensures
            r.wf(),
            texts(r.rows()) == lines_of(contents@),
            r.path() == Some(filename@),
            !r.dirty_flag(),
            r.kind().spec_name() == FileType::from_name(filename@).0,
            r.rules() == FileType::from_name(filename@).1,
            all_highlighted(r.rows(), r.rules(), None),
    {
        let file_type = FileType::from(filename);
        let c = chars_of(contents);
        let mut rows: Vec<Row> = Vec::new();
        let mut line = String::new();
        let mut i: usize = 0;
        while i < c.len()
            invariant
                i <= c.len(),
                c@ == contents@,
                forall|j: int| 0 <= j < rows.len() ==> #[trigger] rows[j].wf(),
                split_lf(c@.take(i as int)) == texts(rows@).push(line@),
            decreases c.len() - i,
        {
            let ghost before = c@.take(i as int);
            assert(c@.take(i + 1).drop_last() == before);
            if c[i] == '\n' {
                let ghost old_rows = rows@;
                rows.push(Row::from(line.as_str()));
                assert(texts(rows@) =~= texts(old_rows).push(line@));
                line = String::new();
                assert(split_lf(c@.take(i + 1)) =~= texts(rows@).push(line@));
            } else {
                push_char(&mut line, c[i]);
                assert(split_lf(c@.take(i + 1)) =~= texts(rows@).push(line@));
            }
            i += 1;
        }
        assert(c@.take(i as int) =~= contents@);
        if !line.as_str().is_empty() {
            let ghost old_rows = rows@;
            rows.push(Row::from(line.as_str()));
            assert(texts(rows@) =~= texts(old_rows).push(line@));
        } else {
            assert(line@.len() == 0);
            assert(texts(rows@) =~= texts(rows@).push(line@).drop_last());
        }
        let mut doc = Document {
            rows,
            file_name: Some(filename.to_owned()),
            dirty: false,
            file_type,
        };
        doc.highlight(None);
        doc
    }

    /// Highlights every row in order, threading whether a comment is open
    /// from each row into the next; `word` marks search matches.
    pub fn highlight(&mut self, word: Option<&str>)
        requires
            old(self).wf(),
        ensures
            final(self).wf(),
            texts(final(self).rows()) == texts(old(self).rows()),
            clusters(final(self).rows()) == clusters(old(self).rows()),
            final(self).path() == old(self).path(),
            final(self).dirty_flag() == old(self).dirty_flag(),
            final(self).kind() == old(self).kind(),
            all_highlighted(final(self).rows(), final(self).rules(), word_view(word)),
    {
        let ghost g = clusters(self.rows@);
        let ghost rv = self.rules();
        let ghost w = word_view(word);
        let mut open = false;
        let mut i: usize = 0;
        let n = self.rows.len();
        while i < n
            invariant
                i <= n == self.rows.len(),
                self.wf(),
                clusters(self.rows@) == g,
                texts(self.rows@) == texts(old(self).rows()),
                self.file_name == old(self).file_name,
                self.dirty == old(self).dirty_flag(),
                self.file_type == old(self).kind(),
                rv == self.file_type.rules(),
                w == word_view(word),
                open == open_before(g, rv, w, i as int),
                forall|j: int|
                    0 <= j < i ==> #[trigger] self.rows@[j].tags() == highlight_line(
                        g[j],
                        rv,
                        w,
                        open_before(g, rv, w, j),
                    ).0,
            decreases n - i,
        {
            let ghost before = self.rows();
            assert(before[i as int].graphemes() == g[i as int]);
            assert(self.rows()[i as int].wf());
            open = self.rows[i].highlight(self.file_type.highlighting_options(), word, open);
            assert forall|j: int| 0 <= j < n implies #[trigger] self.rows()[j].wf() by {
                if j != i {
                    assert(self.rows()[j] == before[j]);
                }
            }
            assert(clusters(self.rows@) =~= clusters(before));
            assert(texts(self.rows@) =~= texts(before));
            i += 1;
        }
    }
}

impl Document {
    /// Splits row `at.y` at `at.x`, both halves highlighted alone; at one past
    /// the last row, adds an empty row.
    fn insert_newline(&mut self, at: &Position)
        requires
            old(self).wf(),
            at.y <= old(self).rows().len(),
        ensures
            final(self).wf(),
            final(self).path() == old(self).path(),
            final(self).dirty_flag() == old(self).dirty_flag(),
            final(self).kind() == old(self).kind(),
            final(self).rows().len() == old(self).rows().len() + 1,
            at.y == old(self).rows().len() ==> final(self).rows() == old(self).rows().push(
                final(self).rows()[at.y as int],
            ) && final(self).rows()[at.y as int].text() == Seq::<char>::empty()
                && final(self).rows()[at.y as int].tags() == Seq::<Type>::empty(),
            at.y < old(self).rows().len() ==> ({
                let y = at.y as int;
                let g = old(self).rows()[y].graphemes();
                let k = split_point(g, at.x as int);
                &&& forall|j: int| 0 <= j < y ==> #[trigger] final(self).rows()[j] == old(self).rows()[j]
                &&& forall|j: int|
                    y + 1 < j < final(self).rows().len() ==> #[trigger] final(self).rows()[j]
                        == old(self).rows()[j - 1]
                &&& final(self).rows()[y].text() == g.take(k).flatten()
                &&& final(self).rows()[y + 1].text() == g.skip(k).flatten()
                &&& highlighted_alone(final(self).rows()[y], final(self).rules())
                &&& highlighted_alone(final(self).rows()[y + 1], final(self).rules())
            }),
    {
        let ghost before = self.rows();
        if at.y == self.rows.len() {
            self.rows.push(Row::default());
            assert forall|j: int| 0 <= j < self.rows().len() implies #[trigger] self.rows()[j].wf() by {
                if j < before.len() {
                    assert(self.rows()[j] == before[j]);
                }
            }
            assert(self.rows() =~= before.push(self.rows()[at.y as int]));
            return;
        }
        let y = at.y;
        assert(self.rows()[y as int].wf());
        let mut new_row = self.rows[y].split(at.x);
        self.rows[y].highlight(self.file_type.highlighting_options(), None, false);
        new_row.highlight(self.file_type.highlighting_options(), None, false);
        self.rows.insert(y + 1, new_row);
        assert forall|j: int| 0 <= j < self.rows().len() implies #[trigger] self.rows()[j].wf() by {
            if j < y {
                assert(self.rows()[j] == before[j]);
            } else if j > y + 1 {
                assert(self.rows()[j] == before[j - 1]);
            }
        }
    }

    /// Inserts `c` at `at`: a line feed splits the row; another character
    /// goes into row `at.y`, or into a new last row when `at.y` is one past
    /// the end. The edited rows are highlighted alone, as if no comment
    /// were open above them: cheap, and exact again after the next full
    /// `highlight`. Marks the document dirty; does nothing when `at.y` is
    /// further out.
    pub fn insert(&mut self, at: &Position, c: char)
        requires
            old(self).wf(),
        ensures
            final(self).wf(),
            inserted_into(*old(self), *final(self), *at, c),
    {
        if at.y > self.rows.len() {
            return;
        }
        self.dirty = true;
        assert(self.rows() == old(self).rows());
        if c == '\n' {
            self.insert_newline(at);
            return;
        }
        let ghost before = self.rows();
        if at.y < self.rows.len() {
            let y = at.y;
            assert(self.rows()[y as int].wf());
            self.rows[y].insert(at.x, c);
            self.rows[y].highlight(self.file_type.highlighting_options(), None, false);
            assert(self.rows() =~= before.update(y as int, self.rows()[y as int]));
        } else {
            let mut row = Row::default();
            row.insert(0, c);
            assert(Seq::<Seq<char>>::empty().take(0).flatten() =~= Seq::<char>::empty());
            assert(Seq::<Seq<char>>::empty().skip(0).flatten() =~= Seq::<char>::empty());
            assert(row.text() =~= seq![c]);
            row.highlight(self.file_type.highlighting_options(), None, false);
            self.rows.push(row);
            assert(self.rows() =~= before.push(self.rows()[at.y as int]));
        }
        assert forall|j: int| 0 <= j < self.rows().len() implies #[trigger] self.rows()[j].wf() by {
            if j != at.y {
                assert(self.rows()[j] == before[j]);
            }
        }
    }

    /// Deletes at `at`: at or past the end of a row that has a next row,
    /// joins the next row onto it; else removes the cluster at `at.x`, if
    /// any. The
    /// edited row is highlighted alone. Marks the document dirty; does
    /// nothing when `at.y` is past the last row.
    pub fn delete(&mut self, at: &Position)
        requires
            old(self).wf(),
        ensures
            final(self).wf(),
            deleted_from(*old(self), *final(self), *at),
    {
        let len = self.rows.len();
        if at.y >= len {
            return;
        }
        let ghost before = self.rows();
        self.dirty = true;
        let y = at.y;
        assert(self.rows()[y as int].wf());
        if at.x >= self.rows[y].len() && len - y > 1 {
            let next_row = self.rows.remove(y + 1);
            assert(self.rows()[y as int] == before[y as int]);
            self.rows[y].append(&next_row);
            self.rows[y].highlight(self.file_type.highlighting_options(), None, false);
            assert forall|j: int| 0 <= j < self.rows().len() implies #[trigger] self.rows()[j].wf() by {
                if j < y {
                    assert(self.rows()[j] == before[j]);
                } else if j > y {
                    assert(self.rows()[j] == before[j + 1]);
                }
            }
        } else {
            self.rows[y].delete(at.x);
            self.rows[y].highlight(self.file_type.highlighting_options(), None, false);
            assert forall|j: int| 0 <= j < self.rows().len() implies #[trigger] self.rows()[j].wf() by {
                if j != y {
                    assert(self.rows()[j] == before[j]);
                }
            }
        }
    }
}

pub open spec fn found_position(r: Option<(int, int)>) -> Option<Position> {
    match r {
        Some((x, y)) => Some(Position { x: x as usize, y: y as usize }),
        None => None,
    }
}

impl Document {
    /// Searches for `query` from `at`: in row `at.y` first, then row by row
    /// towards the end (forward) or the start (backward) of the document.
    pub fn find(&self, query: &str, at: &Position, direction: SearchDirection) -> (r: Option<
        Position,
    >)
        requires
            self.wf(),
        ensures
            r == found_position(
                find_from(
                    clusters(self.rows()),
                    query@,
                    at.y as int,
                    at.x as int,
                    direction == SearchDirection::Forward,
                ),
            ),
    {
        let ghost g = clusters(self.rows());
        let ghost q = query@;
        let n = self.rows.len();
        if at.y >= n {
            return None;
        }
        let mut y = at.y;
        let mut x = at.x;
        if direction == SearchDirection::Forward {
            while y < n
                invariant
                    y <= n == self.rows().len(),
                    self.wf(),
                    g == clusters(self.rows()),
                    q == query@,
                    direction == SearchDirection::Forward,
                    find_from(g, q, at.y as int, at.x as int, true) == find_forward(
                        g,
                        q,
                        y as int,
                        x as int,
                    ),
                decreases n - y,
            {
                assert(self.rows()[y as int].wf());
                assert(g[y as int] == self.rows()[y as int].graphemes());
                let found = self.rows[y].find(query, x, direction);
                match found {
                    Some(m) => {
                        return Some(Position { x: m, y });
                    },
                    None => {
                        y += 1;
                        x = 0;
                    },
                }
            }
            None
        } else {
            loop
                invariant
                    y < n == self.rows().len(),
                    self.wf(),
                    g == clusters(self.rows()),
                    q == query@,
                    direction == SearchDirection::Backward,
                    find_from(g, q, at.y as int, at.x as int, false) == find_backward(
                        g,
                        q,
                        y as int,
                        x as int,
                    ),
                decreases y,
            {
                assert(self.rows()[y as int].wf());
                assert(g[y as int] == self.rows()[y as int].graphemes());
                match self.rows[y].find(query, x, direction) {
                    Some(m) => {
                        return Some(Position { x: m, y });
                    },
                    None => {
                        if y == 0 {
                            return None;
                        }
                        y -= 1;
                        assert(self.rows()[y as int].wf());
                        assert(g[y as int] == self.rows()[y as int].graphemes());
                        x = self.rows[y].len();
                    },
                }
            }
        }
    }

    /// The text to save: every row followed by one line feed.
    pub fn contents(&self) -> (r: String)
        ensures
            r@ == unlines(texts(self.rows())),
    {
        let mut out = String::new();
        let mut i: usize = 0;
        let ghost t = texts(self.rows());
        assert(t.take(0) =~= Seq::<Seq<char>>::empty());
        while i < self.rows.len()
            invariant
                i <= self.rows().len(),
                t == texts(self.rows()),
                out@ == unlines(t.take(i as int)),
            decreases self.rows.len() - i,
        {
            out.append(self.rows[i].as_str());
            push_char(&mut out, '\n');
            assert(t.take(i + 1).drop_last() =~= t.take(i as int));
            i += 1;
        }
        assert(t.take(i as int) =~= t);
        out
    }

    /// Records that the contents were written to the file: the file type
    /// follows the file name again, every row is highlighted from the first
    /// row, and the document is no longer dirty. Without a file name, does
    /// nothing.
    pub fn mark_saved(&mut self)
        requires
            old(self).wf(),
        ensures
            final(self).wf(),
            old(self).path() is None ==> *final(self) == *old(self),
            old(self).path() matches Some(n) ==> {
                &&& final(self).path() == old(self).path()
                &&& texts(final(self).rows()) == texts(old(self).rows())
                &&& !final(self).dirty_flag()
                &&& final(self).kind().spec_name() == FileType::from_name(n).0
                &&& final(self).rules() == FileType::from_name(n).1
                &&& all_highlighted(final(self).rows(), final(self).rules(), None)
            },
    {
        let file_type = match &self.file_name {
            Some(name) => FileType::from(name.as_str()),
            None => {
                return;
            },
        };
        let ghost before = self.rows();
        self.file_type = file_type;
        assert(self.rows() == before);
        self.highlight(None);
        self.dirty = false;
    }

    /// The name of the document's file type.
    pub fn file_type(&self) -> (r: String)
        ensures
            r@ == self.kind().spec_name(),
    {
        self.file_type.name()
    }

    pub fn row(&self, index: usize) -> (r: Option<&Row>)
        ensures
            index < self.rows().len() ==> r == Some(&self.rows()[index as int]),
            index >= self.rows().len() ==> r is None,
    {
        if index < self.rows.len() {
            Some(&self.rows[index])
        } else {
            None
        }
    }

    pub fn is_empty(&self) -> (r: bool)
        ensures
            r == (self.rows().len() == 0),
    {
        self.rows.len() == 0
    }

    /// The number of rows.
    pub fn len(&self) -> (r: usize)
        ensures
            r == self.rows().len(),
    {
        self.rows.len()
    }

    pub fn is_dirty(&self) -> (r: bool)
        ensures
            r == self.dirty_flag(),
    {
        self.dirty
    }
}

proof fn lemma_split_lf_len(c: Seq<char>)
    ensures
        split_lf(c).len() >= 1,
    decreases c.len(),
{
    if c.len() > 0 {
        lemma_split_lf_len(c.drop_last());
    }
}

proof fn lemma_unlines_split(c: Seq<char>)
    ensures
        unlines(split_lf(c).drop_last()) + split_lf(c).last() == c,
    decreases c.len(),
{
    lemma_split_lf_len(c);
    if c.len() > 0 {
        let d = c.drop_last();
        let p = split_lf(d);
        lemma_unlines_split(d);
        lemma_split_lf_len(d);
        assert(c =~= d.push(c.last()));
        if c.last() == '\n' {
            assert(split_lf(c).drop_last() =~= p);
            assert(unlines(p) == unlines(p.drop_last()) + p.last() + seq!['\n']);
            assert(unlines(p) + split_lf(c).last() =~= c);
        } else {
            assert(split_lf(c).drop_last() =~= p.drop_last());
            assert(split_lf(c).last() =~= p.last().push(c.last()));
            assert(unlines(p.drop_last()) + p.last().push(c.last()) =~= c);
        }
    } else {
        assert(split_lf(c).drop_last() =~= Seq::<Seq<char>>::empty());
        assert(unlines(split_lf(c).drop_last()) + split_lf(c).last() =~= c);
    }
}

/// Saving a document opened from `c` writes `c` back, byte for byte,
/// whenever `c` is empty or ends with a line feed.
pub proof fn lemma_save_after_open(c: Seq<char>)
    requires
        c.len() == 0 || c.last() == '\n',
    ensures
        unlines(lines_of(c)) == c,
{
    lemma_unlines_split(c);
    lemma_split_lf_len(c);
    if c.len() > 0 {
        let d = c.drop_last();
        assert(c =~= d.push(c.last()));
    }
    assert(split_lf(c).last().len() == 0);
    assert(unlines(lines_of(c)) + split_lf(c).last() =~= unlines(lines_of(c)));
}

/// A search for the empty query finds nothing, from any position, in
/// either direction.
pub proof fn lemma_empty_query_finds_nothing(g: Seq<Seq<Seq<char>>>, y: int, x: int, forward: bool)
    ensures
        find_from(g, Seq::empty(), y, x, forward) is None,
    decreases
            (if forward {
                g.len() - y
            } else {
                y
            }),
{
    if 0 <= y < g.len() {
        if forward {
            lemma_empty_query_finds_nothing(g, y + 1, 0, forward);
        } else if y > 0 {
            lemma_empty_query_finds_nothing(g, y - 1, g[y - 1].len() as int, forward);
        }
    }
}

proof fn lemma_find_forward_range(g: Seq<Seq<Seq<char>>>, q: Seq<char>, y: int, x: int)
    ensures
        find_forward(g, q, y, x) matches Some((mx, my)) ==> y <= my < g.len() && 0 <= mx < g[my].len()
            && (my == y ==> mx >= x),
    decreases g.len() - y,
{
    if 0 <= y < g.len() {
        if q.len() > 0 && 0 <= x <= g[y].len() {
            lemma_first_match_range(g[y], q, x, g[y].len() as int);
        }
        lemma_find_forward_range(g, q, y + 1, 0);
    }
}

/// A forward search started just past a match (`k` clusters on, `k > 0`)
/// finds only matches that come after it, in a row within the document.
pub proof fn lemma_successive_finds_advance(
    g: Seq<Seq<Seq<char>>>,
    q: Seq<char>,
    y: int,
    x: int,
    k: int,
)
    requires
        k > 0,
        find_forward(g, q, y, x) is Some,
    ensures
        ({
            let (x1, y1) = find_forward(g, q, y, x)->0;
            &&& y <= y1 < g.len()
            &&& find_forward(g, q, y1, x1 + k) matches Some((x2, y2)) ==> y1 < y2 < g.len() || (y2
                == y1 && x2 >= x1 + k)
        }),
{
    let (x1, y1) = find_forward(g, q, y, x)->0;
    lemma_find_forward_range(g, q, y, x);
    lemma_find_forward_range(g, q, y1, x1 + k);
}

/// Inserting a character at a position inside a row and then deleting at
/// the same position gives back the text of every row, wherever the
/// insertion does not merge with the clusters around it: the character
/// stands as a cluster of its own, or, for a line feed, the clusters before
/// the position stay as they were.
pub proof fn lemma_document_insert_then_delete(
    d0: Document,
    d1: Document,
    d2: Document,
    p: Position,
    c: char,
)
    requires
        d0.wf(),
        p.y < d0.rows().len(),
        p.x <= d0.rows()[p.y as int].graphemes().len(),
        inserted_into(d0, d1, p, c),
        deleted_from(d1, d2, p),
        c != '\n' ==> graphemes_of(inserted(d0.rows()[p.y as int].graphemes(), p.x as int, c))
            == d0.rows()[p.y as int].graphemes().take(p.x as int) + seq![seq![c]] + d0.rows()[p.y as int].graphemes().skip(p.x as int),
        c == '\n' ==> graphemes_of(d0.rows()[p.y as int].graphemes().take(p.x as int).flatten())
            == d0.rows()[p.y as int].graphemes().take(p.x as int),
    ensures
        texts(d2.rows()) == texts(d0.rows()),
{
    let y = p.y as int;
    let r = d0.rows()[y];
    assert(r.wf());
    lemma_row_shape(r);
    if c == '\n' {
        lemma_split_then_append(r, p.x);
        assert(split_point(r.graphemes(), p.x as int) == p.x as int);
        assert(d1.rows()[y].graphemes() == r.graphemes().take(p.x as int));
        assert forall|j: int| 0 <= j < d0.rows().len() implies #[trigger] d2.rows()[j].text()
            == d0.rows()[j].text() by {
            if j > y {
                assert(d2.rows()[j] == d1.rows()[j + 1]);
            }
        }
    } else {
        lemma_insert_then_delete(r, p.x as int, c);
        assert(d1.rows()[y].graphemes().len() == r.graphemes().len() + 1);
        assert forall|j: int| 0 <= j < d0.rows().len() implies #[trigger] d2.rows()[j].text()
            == d0.rows()[j].text() by {
            if j != y {
                assert(d2.rows()[j] == d1.rows()[j]);
                assert(d1.rows()[j] == d0.rows()[j]);
            }
        }
    }
    assert(texts(d2.rows()) =~= texts(d0.rows()));
}

/// A forward search that finds a match returns a position inside the
/// document, at or after the start; a search started `k > 0` clusters past
/// that match finds only a later one, so successive searches never come
/// back to an earlier match.
pub proof fn lemma_document_finds_advance(d: Document, q: Seq<char>, at: Position, k: usize)
    requires
        d.wf(),
        k > 0,
        find_from(clusters(d.rows()), q, at.y as int, at.x as int, true) is Some,
    ensures
        ({
            let p1 = found_position(find_from(clusters(d.rows()), q, at.y as int, at.x as int, true))->0;
            &&& at.y <= p1.y < d.rows().len()
            &&& p1.x < d.rows()[p1.y as int].graphemes().len()
            &&& p1.y == at.y ==> p1.x >= at.x
            &&& p1.x + k <= usize::MAX ==> (found_position(
                find_from(clusters(d.rows()), q, p1.y as int, p1.x + k, true),
            ) matches Some(p2) ==> p2.y > p1.y || (p2.y == p1.y && p2.x >= p1.x + k))
        }),
{
    let g = clusters(d.rows());
    let (x1, y1) = find_forward(g, q, at.y as int, at.x as int)->0;
    lemma_successive_finds_advance(g, q, at.y as int, at.x as int, k as int);
    lemma_find_forward_range(g, q, at.y as int, at.x as int);
    assert(d.rows.len() == d.rows@.len());
    assert(d.rows()[y1].wf());
    lemma_row_shape(d.rows()[y1]);
    assert(g[y1] == d.rows()[y1].graphemes());
    lemma_find_forward_range(g, q, y1, x1 + k);
    if find_forward(g, q, y1, x1 + k) is Some {
        let (x2, y2) = find_forward(g, q, y1, x1 + k)->0;
        assert(d.rows()[y2].wf());
        lemma_row_shape(d.rows()[y2]);
        assert(g[y2] == d.rows()[y2].graphemes());
    }
}

impl Default for Document {
    fn default() -> (r: Self)
        ensures
            r.wf(),
            r.rows() == Seq::<Row>::empty(),
            r.path() is None,
            !r.dirty_flag(),
            r.kind().spec_name() == "No filetype"@,
            r.rules() == no_rules(),
    {
        Document { rows: Vec::new(), file_name: None, dirty: false, file_type: FileType::default() }
    }
}

} // verus!
