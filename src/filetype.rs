//! Rule sets that tell the highlighter which categories are active.
use vstd::prelude::*;
use crate::unicode::chars_of;

verus! {

/// What a rule set is, as plain values.
pub struct Rules {
    pub numbers: bool,
    pub strings: bool,
    pub characters: bool,
    pub comments: bool,
    pub primary_keywords: Seq<Seq<char>>,
    pub secondary_keywords: Seq<Seq<char>>,
}

/// The highlighting configuration of one file type; immutable once built.
pub struct HighlightingOptions {
    numbers: bool,
    strings: bool,
    characters: bool,
    comments: bool,
    primary_keywords: Vec<String>,
    secondary_keywords: Vec<String>,
}

impl View for HighlightingOptions {
    type V = Rules;

    closed spec fn view(&self) -> Rules {
        Rules {
            numbers: self.numbers,
            strings: self.strings,
            characters: self.characters,
            comments: self.comments,
            primary_keywords: self.primary_keywords.deep_view(),
            secondary_keywords: self.secondary_keywords.deep_view(),
        }
    }
}

impl HighlightingOptions {
    pub fn new(
        numbers: bool,
        strings: bool,
        characters: bool,
        comments: bool,
        primary_keywords: Vec<String>,
        secondary_keywords: Vec<String>,
    ) -> (r: Self)
        ensures
            r@ == (Rules {
                numbers,
                strings,
                characters,
                comments,
                primary_keywords: primary_keywords.deep_view(),
                secondary_keywords: secondary_keywords.deep_view(),
            }),
    {
        HighlightingOptions {
            numbers,
            strings,
            characters,
            comments,
            primary_keywords,
            secondary_keywords,
        }
    }

    pub fn numbers(&self) -> (r: bool)
        ensures
            r == self@.numbers,
    {
        self.numbers
    }

    pub fn strings(&self) -> (r: bool)
        ensures
            r == self@.strings,
    {
        self.strings
    }

    pub fn characters(&self) -> (r: bool)
        ensures
            r == self@.characters,
    {
        self.characters
    }

    pub fn comments(&self) -> (r: bool)
        ensures
            r == self@.comments,
    {
        self.comments
    }

    pub fn primary_keywords(&self) -> (r: &Vec<String>)
        ensures
            r.deep_view() == self@.primary_keywords,
    {
        &self.primary_keywords
    }

    pub fn secondary_keywords(&self) -> (r: &Vec<String>)
        ensures
            r.deep_view() == self@.secondary_keywords,
    {
        &self.secondary_keywords
    }
}

/// The rule set that highlights nothing.
pub open spec fn no_rules() -> Rules {
    Rules {
        numbers: false,
        strings: false,
        characters: false,
        comments: false,
        primary_keywords: Seq::empty(),
        secondary_keywords: Seq::empty(),
    }
}

impl Default for HighlightingOptions {
    fn default() -> (r: Self)
        ensures
            r@ == no_rules(),
    {
        let p: Vec<String> = Vec::new();
        let q: Vec<String> = Vec::new();
        assert(p.deep_view() =~= Seq::empty());
        assert(q.deep_view() =~= Seq::empty());
        HighlightingOptions::new(false, false, false, false, p, q)
    }
}

/// Whether a file name ends in the Rust extension.
pub open spec fn is_rust_file(name: Seq<char>) -> bool {
    name.len() >= 3 && name.subrange(name.len() - 3, name.len() as int) == seq!['.', 'r', 's']
}

/// A named file type together with its rule set.
pub struct FileType {
    name: String,
    hl_opts: HighlightingOptions,
}

impl FileType {
    pub closed spec fn spec_name(&self) -> Seq<char> {
        self.name@
    }

    pub closed spec fn rules(&self) -> Rules {
        self.hl_opts@
    }

    pub fn name(&self) -> (r: String)
        ensures
            r@ == self.spec_name(),
    {
        self.name.clone()
    }

    pub fn highlighting_options(&self) -> (r: &HighlightingOptions)
        ensures
            r@ == self.rules(),
    {
        &self.hl_opts
    }

    /// The file type that a file name's extension selects: Rust for `.rs`,
    /// else none, whose rule set highlights nothing.
    pub fn from(file_name: &str) -> (r: Self)
        ensures
            r.spec_name() == FileType::from_name(file_name@).0,
            r.rules() == FileType::from_name(file_name@).1,
    {
        let c = chars_of(file_name);
        let n = c.len();
        if n >= 3 && c[n - 3] == '.' && c[n - 2] == 'r' && c[n - 1] == 's' {
            proof {
                reveal_strlit("Rust");
                assert(c@.subrange(n - 3, n as int) =~= seq!['.', 'r', 's']);
            }
            let p: Vec<String> = Vec::new();
            let q: Vec<String> = Vec::new();
            assert(p.deep_view() =~= Seq::empty());
            assert(q.deep_view() =~= Seq::empty());
            return FileType {
                name: "Rust".to_owned(),
                hl_opts: HighlightingOptions::new(true, true, true, true, p, q),
            };
        }
        proof {
            if is_rust_file(file_name@) {
                assert(c@.subrange(n - 3, n as int)[0] == '.');
                assert(c@.subrange(n - 3, n as int)[1] == 'r');
                assert(c@.subrange(n - 3, n as int)[2] == 's');
            }
        }
        FileType::default()
    }
}

impl FileType {
    /// The name and rule set of the file type that a file name selects.
    pub open spec fn from_name(file_name: Seq<char>) -> (Seq<char>, Rules) {
        if is_rust_file(file_name) {
            (
                seq!['R', 'u', 's', 't'],
                Rules {
                    numbers: true,
                    strings: true,
                    characters: true,
                    comments: true,
                    primary_keywords: Seq::empty(),
                    secondary_keywords: Seq::empty(),
                },
            )
        } else {
            ("No filetype"@, no_rules())
        }
    }
}

impl Default for FileType {
    fn default() -> (r: Self)
        ensures
            r.spec_name() == "No filetype"@,
            r.rules() == no_rules(),
    {
        FileType { name: "No filetype".to_owned(), hl_opts: HighlightingOptions::default() }
    }
}

} // verus!
