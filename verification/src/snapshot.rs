//! A picture of the filesystem: what was observed of each path.
//!
//! Path resolution reads the filesystem and never writes it. What it reads is
//! held here as plain facts, one table per kind of question, so that the
//! resolution itself is a function of those facts alone. A path of which a
//! table holds nothing is a path for which the question failed: a directory
//! that cannot be read, a link that cannot be followed, a file that cannot be
//! opened.

use crate::lines::{parse_lines, spec_lines};
use crate::text::{clone_texts, option_text, texts};
use crate::table::Table;
use vstd::prelude::*;

verus! {

/// What could be read from a file.
#[derive(Debug)]
pub struct Content {
    /// The bytes read, from the start of the file.
    pub bytes: Vec<u8>,
    /// Whether the bytes reach the end of the file: false where a read
    /// failed on the way.
    pub complete: bool,
}

/// The facts observed of a filesystem.
#[derive(Debug)]
pub struct FileSystem {
    /// The directories that can be read, each with the full paths of its
    /// entries in the order in which they were found.
    pub entries: Table<Vec<String>>,
    /// Whether a path is itself a symbolic link.
    pub symlinks: Table<bool>,
    /// Where a symbolic link points, as the link holds it.
    pub targets: Table<String>,
    /// Whether a path exists, links followed.
    pub existing: Table<bool>,
    /// The canonical form of a path: absolute and free of links.
    pub canonical: Table<String>,
    /// Whether a path is a regular file, links followed.
    pub regular: Table<bool>,
    /// The files that can be opened, each with what could be read from it.
    pub contents: Table<Content>,
}

/// The mathematical filesystem that a [`FileSystem`] stands for.
pub struct FsView {
    pub entries: Map<Seq<char>, Seq<Seq<char>>>,
    pub symlinks: Map<Seq<char>, bool>,
    pub targets: Map<Seq<char>, Seq<char>>,
    pub existing: Map<Seq<char>, bool>,
    pub canonical: Map<Seq<char>, Seq<char>>,
    pub regular: Map<Seq<char>, bool>,
    pub lines: Map<Seq<char>, Seq<Seq<char>>>,
}

impl FsView {
    /// A filesystem of which nothing is known: every question fails.
    pub open spec fn empty() -> FsView {
        FsView {
            entries: Map::empty(),
            symlinks: Map::empty(),
            targets: Map::empty(),
            existing: Map::empty(),
            canonical: Map::empty(),
            regular: Map::empty(),
            lines: Map::empty(),
        }
    }

    /// The entries of `dir` as the filesystem lists them, in no particular
    /// order; none where `dir` cannot be read.
    pub open spec fn read_dir(self, dir: Seq<char>) -> Seq<Seq<char>> {
        if self.entries.contains_key(dir) {
            self.entries[dir]
        } else {
            Seq::empty()
        }
    }

    /// Whether `path` is itself a symbolic link; nothing where its metadata
    /// cannot be read.
    pub open spec fn is_symlink(self, path: Seq<char>) -> Option<bool> {
        if self.symlinks.contains_key(path) {
            Some(self.symlinks[path])
        } else {
            None
        }
    }

    /// The target that the link at `path` holds; nothing where the link
    /// cannot be read.
    pub open spec fn read_link(self, path: Seq<char>) -> Option<Seq<char>> {
        if self.targets.contains_key(path) {
            Some(self.targets[path])
        } else {
            None
        }
    }

    /// Whether `path` exists.
    pub open spec fn path_exists(self, path: Seq<char>) -> bool {
        self.existing.contains_key(path) && self.existing[path]
    }

    /// The canonical form of `path`; nothing where it cannot be resolved.
    pub open spec fn canonicalize(self, path: Seq<char>) -> Option<Seq<char>> {
        if self.canonical.contains_key(path) {
            Some(self.canonical[path])
        } else {
            None
        }
    }

    /// Whether `path` is a regular file.
    pub open spec fn is_file(self, path: Seq<char>) -> bool {
        self.regular.contains_key(path) && self.regular[path]
    }

    /// The lines of the file at `path`; none where it cannot be opened.
    pub open spec fn read_lines(self, path: Seq<char>) -> Seq<Seq<char>> {
        if self.lines.contains_key(path) {
            self.lines[path]
        } else {
            Seq::empty()
        }
    }
}

impl View for FileSystem {
    type V = FsView;

    open spec fn view(&self) -> FsView {
        FsView {
            entries: self.entries@.map_values(|names: Vec<String>| texts(names@)),
            symlinks: self.symlinks@,
            targets: self.targets@.map_values(|target: String| target@),
            existing: self.existing@,
            canonical: self.canonical@.map_values(|path: String| path@),
            regular: self.regular@,
            lines: self.contents@.map_values(
                |content: Content| spec_lines(content.bytes@, content.complete),
            ),
        }
    }
}

impl FileSystem {
    /// A filesystem of which nothing is known.
    pub fn new() -> (fs: Self)
        ensures
            fs@ == FsView::empty(),
    {
        let fs = FileSystem {
            entries: Table::new(),
            symlinks: Table::new(),
            targets: Table::new(),
            existing: Table::new(),
            canonical: Table::new(),
            regular: Table::new(),
            contents: Table::new(),
        };
        proof {
            assert(fs@.entries =~= Map::empty());
            assert(fs@.targets =~= Map::empty());
            assert(fs@.canonical =~= Map::empty());
            assert(fs@.lines =~= Map::empty());
        }
        fs
    }

    /// The entries of `dir`, in the order in which they were found.
    pub fn read_dir(&self, dir: &str) -> (names: Vec<String>)
        ensures
            texts(names@) == self@.read_dir(dir@),
    {
        match self.entries.get(dir) {
            Some(found) => clone_texts(found),
            None => {
                let names: Vec<String> = Vec::new();
                assert(texts(names@) =~= Seq::<Seq<char>>::empty());
                names
            },
        }
    }

    /// The target that the link at `path` holds.
    pub fn read_link(&self, path: &str) -> (target: Option<String>)
        ensures
            option_text(target) == self@.read_link(path@),
    {
        match self.targets.get(path) {
            Some(found) => Some(found.clone()),
            None => None,
        }
    }

    /// Whether `path` exists.
    pub fn path_exists(&self, path: &str) -> (found: bool)
        ensures
            found == self@.path_exists(path@),
    {
        match self.existing.get(path) {
            Some(known) => *known,
            None => false,
        }
    }

    /// The canonical form of `path`.
    pub fn canonicalize(&self, path: &str) -> (resolved: Option<String>)
        ensures
            option_text(resolved) == self@.canonicalize(path@),
    {
        match self.canonical.get(path) {
            Some(found) => Some(found.clone()),
            None => None,
        }
    }

    /// Whether `path` is a regular file.
    pub fn is_file(&self, path: &str) -> (file: bool)
        ensures
            file == self@.is_file(path@),
    {
        match self.regular.get(path) {
            Some(known) => *known,
            None => false,
        }
    }

    /// The lines of the file at `path`.
    pub fn read_lines(&self, path: &str) -> (lines: Vec<String>)
        ensures
            texts(lines@) == self@.read_lines(path@),
    {
        match self.contents.get(path) {
            Some(content) => parse_lines(content.bytes.as_slice(), content.complete),
            None => {
                let lines: Vec<String> = Vec::new();
                assert(texts(lines@) =~= Seq::<Seq<char>>::empty());
                lines
            },
        }
    }
}

} // verus!
