//! Where source files come from: a cacher that the caller chooses, and the
//! lines of a file that an error points at.
use crate::error::LineRange;
use crate::text::{
    chars_of_string, join_chars, join_with, pieces_view, split_chars, split_on, string_of,
};
use crate::trc::{find_name, lemma_same_names, name_index, name_lookup, names_of};
use vstd::prelude::*;

verus! {

/// The lines `start..=end` of a text, counted from 1, joined by new lines;
/// lines past the end of the text are left out.
pub open spec fn span_lines(text: Seq<char>, lines: LineRange) -> Seq<char> {
    let ls = split_on(text, '\n');
    let a: int = if lines.start - 1 <= ls.len() {
        lines.start - 1
    } else {
        ls.len() as int
    };
    let b: int = if a + (lines.end - lines.start + 1) <= ls.len() {
        a + (lines.end - lines.start + 1)
    } else {
        ls.len() as int
    };
    join_with(ls.subrange(a, b), '\n')
}

/// The lines of `text` that `lines` points at (see [`span_lines`]).
pub fn select_lines(text: &String, lines: &LineRange) -> (r: String)
    requires
        1 <= lines.start <= lines.end,
    ensures
        r@ == span_lines(text@, *lines),
{
    let cs = chars_of_string(text);
    let parts = split_chars(cs.as_slice(), '\n');
    let n = parts.len();
    let a = if lines.start - 1 <= n {
        lines.start - 1
    } else {
        n
    };
    let count = lines.end - lines.start + 1;
    let b = if count <= n - a {
        a + count
    } else {
        n
    };
    let mut sel: Vec<Vec<char>> = Vec::new();
    let mut i = a;
    while i < b
        invariant
            a <= i <= b <= n,
            n == parts@.len(),
            pieces_view(sel@) == pieces_view(parts@).subrange(a as int, i as int),
        decreases b - i,
    {
        let piece = crate::text::copy_range(parts[i].as_slice(), 0, parts[i].len());
        let ghost old_sel = sel@;
        let ghost pv = piece@;
        sel.push(piece);
        proof {
            assert(parts@[i as int]@.subrange(0, parts@[i as int]@.len() as int) =~= parts@[i as int]@);
            assert(pieces_view(sel@) =~= pieces_view(old_sel).push(pv));
            assert(pieces_view(sel@) =~= pieces_view(parts@).subrange(a as int, i + 1));
        }
        i += 1;
    }
    let joined = join_chars(&sel, '\n');
    string_of(joined.as_slice())
}

/// A way to read source files. Each implementor decides where the text
/// comes from (the file system, memory, a cache); nothing is promised of
/// what it returns.
pub trait FileCacher {
    /// Whether `r` is what this cacher, as it stands, gives for the file at
    /// `path`; an implementor that says nothing of its answers leaves it
    /// `true`.
    open spec fn answers(&self, path: Seq<char>, r: Result<String, String>) -> bool {
        true
    }

    /// The text of the file at `path`, or why it cannot be read.
    fn read_file(&mut self, path: &String) -> (r: Result<String, String>)
        ensures
            old(self).answers(path@, r),
    ;

    /// Whether `path` names a directory.
    fn is_dir(&mut self, path: &String) -> bool;

    /// The lines of the file at `path` that `lines` points at.
    fn get_span(&mut self, path: &String, lines: &LineRange) -> (r: Result<String, String>)
        requires
            1 <= lines.start <= lines.end,
        ensures
            r matches Ok(s) ==> exists|t: Seq<char>| s@ == span_lines(t, *lines),
            exists|a: Result<String, String>|
                #[trigger] old(self).answers(path@, a) && match a {
                    Ok(t) => r matches Ok(s) && s@ == span_lines(t@, *lines),
                    Err(e) => r matches Err(x) && x@ == e@,
                },
    {
        let a = self.read_file(path);
        let ghost ga = a;
        let r = span_text(a, lines);
        assert(old(self).answers(path@, ga));
        r
    }
}

/// The lines that `lines` points at, from a cacher's answer `read` for a
/// file: those lines of the text it found (see [`span_lines`]), or its
/// reason that the file cannot be read.
pub fn span_text(read: Result<String, String>, lines: &LineRange) -> (r: Result<String, String>)
    requires
        1 <= lines.start <= lines.end,
    ensures
        match read {
            Ok(t) => r matches Ok(s) && s@ == span_lines(t@, *lines),
            Err(e) => r matches Err(x) && x@ == e@,
        },
{
    match read {
        Ok(text) => Ok(select_lines(&text, lines)),
        Err(e) => Err(e),
    }
}

/// Files held as path and text, the first entry of a path counting.
pub open spec fn files_view(s: Seq<(String, String)>) -> Seq<(Seq<char>, Seq<char>)> {
    s.map_values(|e: (String, String)| (e.0@, e.1@))
}

/// The text stored for a path.
fn lookup_file(files: &Vec<(String, String)>, path: &String) -> (r: Option<String>)
    ensures
        match name_lookup(files_view(files@), path@) {
            Some(t) => r matches Some(x) && x@ == t,
            None => r is None,
        },
{
    proof {
        lemma_same_names(names_of(files@), files_view(files@), path@, 0);
    }
    match find_name(files, path) {
        Some(i) => Some(files[i].1.clone()),
        None => None,
    }
}

/// Stores the text of a path: the first entry of the path is replaced, or a
/// new entry is added.
fn store_file(files: &mut Vec<(String, String)>, path: String, text: String)
    ensures
        files_view(final(files)@) == crate::trc::name_insert(files_view(old(files)@), path@, text@),
{
    proof {
        lemma_same_names(names_of(files@), files_view(files@), path@, 0);
    }
    match find_name(files, &path) {
        Some(i) => {
            let ghost k = path@;
            let ghost t = text@;
            files.set(i, (path, text));
            proof {
                assert(files_view(files@) =~= files_view(old(files)@).update(i as int, (k, t)));
            }
        },
        None => {
            let ghost k = path@;
            let ghost t = text@;
            files.push((path, text));
            proof {
                assert(files_view(files@) =~= files_view(old(files)@).push((k, t)));
            }
        },
    }
}

/// A cacher that reads only the files given to it.
pub struct Isolated {
    allowed: Vec<(String, String)>,
}

impl Isolated {
    /// The files it holds, by path.
    pub closed spec fn files(&self) -> Seq<(Seq<char>, Seq<char>)> {
        files_view(self.allowed@)
    }

    /// A cacher that holds no file.
    pub fn new() -> (r: Isolated)
        ensures
            r.files().len() == 0,
    {
        Isolated { allowed: Vec::new() }
    }

    /// Whether it holds a file at `path`.
    pub fn has_file(&self, path: &String) -> (r: bool)
        ensures
            r == name_lookup(self.files(), path@) is Some,
    {
        lookup_file(&self.allowed, path).is_some()
    }

    /// Holds the text of a file, unless it holds the path already.
    pub fn add_file_cached(&mut self, path: String, content: String)
        ensures
            name_lookup(old(self).files(), path@) is Some ==> final(self).files() == old(self).files(),
            name_lookup(old(self).files(), path@) is None ==> final(self).files() == crate::trc::name_insert(
                old(self).files(),
                path@,
                content@,
            ),
    {
        if lookup_file(&self.allowed, &path).is_none() {
            store_file(&mut self.allowed, path, content);
        }
    }

    /// Holds the text of a file, replacing what it held for the path.
    pub fn force_add_file(&mut self, path: String, content: String)
        ensures
            final(self).files() == crate::trc::name_insert(old(self).files(), path@, content@),
    {
        store_file(&mut self.allowed, path, content);
    }
}

impl FileCacher for Isolated {
    open spec fn answers(&self, path: Seq<char>, r: Result<String, String>) -> bool {
        match name_lookup(self.files(), path) {
            Some(t) => r matches Ok(x) && x@ == t,
            None => r is Err,
        }
    }

    fn read_file(&mut self, path: &String) -> (r: Result<String, String>)
        ensures
            match name_lookup(old(self).files(), path@) {
                Some(t) => r matches Ok(x) && x@ == t,
                None => r is Err,
            },
            final(self).files() == old(self).files(),
    {
        match lookup_file(&self.allowed, path) {
            Some(t) => Ok(t),
            None => Err("Can't read file with Isolated cache system".to_owned()),
        }
    }

    fn is_dir(&mut self, path: &String) -> (r: bool)
        ensures
            !r,
            final(self).files() == old(self).files(),
    {
        false
    }
}

/// A cacher whose files are given in advance, for tests.
pub struct MockFileCacher {
    files: Vec<(String, String)>,
}

impl MockFileCacher {
    /// The files it holds, by path.
    pub closed spec fn mocked(&self) -> Seq<(Seq<char>, Seq<char>)> {
        files_view(self.files@)
    }

    /// A cacher that holds no file.
    pub fn new() -> (r: MockFileCacher)
        ensures
            r.mocked().len() == 0,
    {
        MockFileCacher { files: Vec::new() }
    }

    /// Gives the text of the file at `path`.
    pub fn mock_file(&mut self, path: String, content: String)
        ensures
            final(self).mocked() == crate::trc::name_insert(old(self).mocked(), path@, content@),
    {
        store_file(&mut self.files, path, content);
    }
}

impl FileCacher for MockFileCacher {
    open spec fn answers(&self, path: Seq<char>, r: Result<String, String>) -> bool {
        match name_lookup(self.mocked(), path) {
            Some(t) => r matches Ok(x) && x@ == t,
            None => r is Err,
        }
    }

    fn read_file(&mut self, path: &String) -> (r: Result<String, String>)
        ensures
            match name_lookup(old(self).mocked(), path@) {
                Some(t) => r matches Ok(x) && x@ == t,
                None => r is Err,
            },
            final(self).mocked() == old(self).mocked(),
    {
        match lookup_file(&self.files, path) {
            Some(t) => Ok(t),
            None => Err("No such file was mocked".to_owned()),
        }
    }

    fn is_dir(&mut self, path: &String) -> (r: bool)
        ensures
            !r,
            final(self).mocked() == old(self).mocked(),
    {
        false
    }
}

} // verus!
