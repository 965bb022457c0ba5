//! Scanning: from a directory of symbolic links and list files to the path
//! fragments that it names.
//!
//! Every function here comes in two forms: a `spec_` function that says what
//! the result is, over the mathematical filesystem, and an executable
//! function proved to compute it from a [`FileSystem`].

use crate::snapshot::{FileSystem, FsView};
use crate::sorting::{lemma_sort_paths_characterized, sort_paths, spec_sort_paths};
use crate::text::{
    is_absolute, join_path, lemma_path_order_total, option_text, path_order, spec_is_absolute,
    spec_join, texts,
};
use vstd::prelude::*;
use vstd::relations::sorted_by;
use vstd::seq_lib::to_multiset_len;

verus! {

/// The canonical form of a link target `path` found in `dir`, where it is
/// valid. An absolute target stands as it is written, provided that it
/// exists. A relative target is taken from `dir` and must resolve to a
/// canonical path.
pub open spec fn spec_make_canonical(fs: FsView, dir: Seq<char>, path: Seq<char>) -> Option<
    Seq<char>,
> {
    if spec_is_absolute(path) {
        if fs.path_exists(path) {
            Some(path)
        } else {
            None
        }
    } else {
        fs.canonicalize(spec_join(dir, path))
    }
}

/// The entries of `dir` in the order of enumeration: sorted by full path.
/// A directory that cannot be read has none.
pub open spec fn spec_dir_entries(fs: FsView, dir: Seq<char>) -> Seq<Seq<char>> {
    spec_sort_paths(fs.read_dir(dir))
}

/// The test that the existence filter applies to a line.
pub open spec fn names_existing(fs: FsView) -> spec_fn(Seq<char>) -> bool {
    |line: Seq<char>| fs.path_exists(line)
}

/// The fragments of the list file `file`: its lines in file order, and with
/// `existing_only` those of them that name an existing path.
pub open spec fn spec_file_paths(fs: FsView, file: Seq<char>, existing_only: bool) -> Seq<
    Seq<char>,
> {
    if existing_only {
        fs.read_lines(file).filter(names_existing(fs))
    } else {
        fs.read_lines(file)
    }
}

/// What the symbolic link `entry` of `dir` contributes: the canonical form
/// of its target, or nothing where the link cannot be read or its target is
/// not valid.
pub open spec fn spec_link_paths(fs: FsView, dir: Seq<char>, entry: Seq<char>) -> Seq<Seq<char>> {
    match fs.read_link(entry) {
        Some(target) => match spec_make_canonical(fs, dir, target) {
            Some(resolved) => seq![resolved],
            None => Seq::empty(),
        },
        None => Seq::empty(),
    }
}

/// What one entry of `dir` contributes. A symbolic link gives its resolved
/// target. With `files`, a regular file is read as a list file with the
/// existence filter. Anything else, and an entry whose kind cannot be told,
/// gives nothing.
pub open spec fn spec_entry_paths(fs: FsView, dir: Seq<char>, entry: Seq<char>, files: bool) -> Seq<
    Seq<char>,
> {
    match fs.is_symlink(entry) {
        Some(true) => spec_link_paths(fs, dir, entry),
        Some(false) => if files && fs.is_file(entry) {
            spec_file_paths(fs, entry, true)
        } else {
            Seq::empty()
        },
        None => Seq::empty(),
    }
}

/// What the entries `entries` of `dir` contribute, one after the other.
pub open spec fn spec_entries_paths(
    fs: FsView,
    dir: Seq<char>,
    entries: Seq<Seq<char>>,
    files: bool,
) -> Seq<Seq<char>>
    decreases entries.len(),
{
    if entries.len() == 0 {
        Seq::empty()
    } else {
        spec_entries_paths(fs, dir, entries.drop_last(), files) + spec_entry_paths(
            fs,
            dir,
            entries.last(),
            files,
        )
    }
}

/// The fragments of a directory whose entries are symbolic links or list
/// files, in the order of enumeration.
pub open spec fn spec_dir_paths(fs: FsView, dir: Seq<char>) -> Seq<Seq<char>> {
    spec_entries_paths(fs, dir, spec_dir_entries(fs, dir), true)
}

/// The fragments of a directory whose entries are symbolic links, in the
/// order of enumeration; entries that are no links are passed over.
pub open spec fn spec_symlink_paths(fs: FsView, dir: Seq<char>) -> Seq<Seq<char>> {
    spec_entries_paths(fs, dir, spec_dir_entries(fs, dir), false)
}

/// Whether `path` is itself a symbolic link; nothing where its metadata
/// cannot be read.
pub fn is_symlink(fs: &FileSystem, path: &str) -> (link: Option<bool>)
    ensures
        link == fs@.is_symlink(path@),
{
    match fs.symlinks.get(path) {
        Some(found) => Some(*found),
        None => None,
    }
}

/// The entries of `dir`, sorted by full path.
pub fn dir_entries(fs: &FileSystem, dir: &str) -> (entries: Vec<String>)
    ensures
        texts(entries@) == spec_dir_entries(fs@, dir@),
{
    sort_paths(fs.read_dir(dir))
}

/// Resolves the link target `path` found in `dir`.
pub fn make_canonical(fs: &FileSystem, dir: &str, path: String) -> (resolved: Option<String>)
    ensures
        option_text(resolved) == spec_make_canonical(fs@, dir@, path@),
{
    if is_absolute(path.as_str()) {
        if fs.path_exists(path.as_str()) {
            Some(path)
        } else {
            None
        }
    } else {
        let joined = join_path(dir, path.as_str());
        fs.canonicalize(joined.as_str())
    }
}

/// The fragments that the list file `file` names.
pub fn file_paths(fs: &FileSystem, file: &str, existing_only: bool) -> (paths: Vec<String>)
    ensures
        texts(paths@) == spec_file_paths(fs@, file@, existing_only),
{
    let lines = fs.read_lines(file);
    if !existing_only {
        return lines;
    }
    let ghost all = texts(lines@);
    let ghost keep = names_existing(fs@);
    let mut paths: Vec<String> = Vec::new();
    let mut i: usize = 0;
    assert(texts(paths@) =~= Seq::<Seq<char>>::empty());
    assert(all.take(0) =~= Seq::<Seq<char>>::empty());
    while i < lines.len()
        invariant
            i <= lines.len(),
            texts(lines@) == all,
            keep == names_existing(fs@),
            texts(paths@) == all.take(i as int).filter(keep),
        decreases lines.len() - i,
    {
        let line = lines[i].clone();
        proof {
            assert(all.take(i + 1) =~= all.take(i as int).push(line@));
            all.take(i as int).lemma_filter_push(line@, keep);
        }
        if fs.path_exists(line.as_str()) {
            let ghost before = texts(paths@);
            paths.push(line);
            assert(texts(paths@) =~= before.push(line@));
        }
        i = i + 1;
    }
    assert(all.take(i as int) =~= all);
    paths
}

/// No strings at all.
fn no_paths() -> (paths: Vec<String>)
    ensures
        texts(paths@) == Seq::<Seq<char>>::empty(),
{
    let paths: Vec<String> = Vec::new();
    assert(texts(paths@) =~= Seq::<Seq<char>>::empty());
    paths
}

/// What the entry `entry` of `dir` contributes.
pub fn entry_paths(fs: &FileSystem, dir: &str, entry: &str, files: bool) -> (paths: Vec<String>)
    ensures
        texts(paths@) == spec_entry_paths(fs@, dir@, entry@, files),
{
    match is_symlink(fs, entry) {
        Some(true) => {
            let resolved = match fs.read_link(entry) {
                Some(target) => make_canonical(fs, dir, target),
                None => None,
            };
            match resolved {
                Some(path) => {
                    let mut paths: Vec<String> = Vec::new();
                    paths.push(path);
                    assert(texts(paths@) =~= seq![path@]);
                    paths
                },
                None => no_paths(),
            }
        },
        Some(false) => {
            if files && fs.is_file(entry) {
                file_paths(fs, entry, true)
            } else {
                no_paths()
            }
        },
        None => no_paths(),
    }
}

/// Scans the entries of `dir` in the order of enumeration.
fn scan(fs: &FileSystem, dir: &str, files: bool) -> (paths: Vec<String>)
    ensures
        texts(paths@) == spec_entries_paths(fs@, dir@, spec_dir_entries(fs@, dir@), files),
{
    let entries = dir_entries(fs, dir);
    let ghost all = texts(entries@);
    let mut paths = no_paths();
    let mut i: usize = 0;
    assert(all.take(0) =~= Seq::<Seq<char>>::empty());
    while i < entries.len()
        invariant
            i <= entries.len(),
            texts(entries@) == all,
            texts(paths@) == spec_entries_paths(fs@, dir@, all.take(i as int), files),
        decreases entries.len() - i,
    {
        let mut found = entry_paths(fs, dir, entries[i].as_str(), files);
        proof {
            assert(all.take(i + 1).drop_last() =~= all.take(i as int));
            assert(all.take(i + 1).last() == entries@[i as int]@);
            assert(texts(paths@ + found@) =~= texts(paths@) + texts(found@));
        }
        paths.append(&mut found);
        i = i + 1;
    }
    assert(all.take(i as int) =~= all);
    paths
}

/// Scans a directory whose entries are symbolic links or list files.
///
/// The entries are taken in the order of their full paths. A link gives the
/// canonical form of its target, a regular file gives those of its lines
/// that name existing paths, and every other entry is passed over. An entry
/// that cannot be resolved is left out and does not touch the others; a
/// directory that cannot be read gives nothing.
pub fn dir_paths(fs: &FileSystem, dir: &str) -> (paths: Vec<String>)
    ensures
        texts(paths@) == spec_dir_paths(fs@, dir@),
{
    scan(fs, dir, true)
}

/// Scans a directory whose entries are symbolic links; entries that are no
/// links are passed over.
pub fn symlink_paths(fs: &FileSystem, dir: &str) -> (paths: Vec<String>)
    ensures
        texts(paths@) == spec_symlink_paths(fs@, dir@),
{
    scan(fs, dir, false)
}

/// The entries of a directory are what the filesystem lists, each as often
/// as it is listed, and no entry comes before an earlier one in the order of
/// paths.
pub proof fn lemma_dir_entries_sorted(fs: FsView, dir: Seq<char>)
    ensures
        spec_dir_entries(fs, dir).to_multiset() == fs.read_dir(dir).to_multiset(),
        spec_dir_entries(fs, dir).len() == fs.read_dir(dir).len(),
        sorted_by(spec_dir_entries(fs, dir), path_order()),
        forall|i: int|
            0 <= i < spec_dir_entries(fs, dir).len() ==> fs.read_dir(dir).contains(
                #[trigger] spec_dir_entries(fs, dir)[i],
            ),
{
    let listed = fs.read_dir(dir);
    let sorted = spec_dir_entries(fs, dir);
    lemma_sort_paths_characterized(listed, sorted);
    to_multiset_len(listed);
    to_multiset_len(sorted);
    lemma_path_order_total();
    listed.lemma_sort_by_ensures(path_order());
    assert forall|i: int| 0 <= i < sorted.len() implies listed.contains(#[trigger] sorted[i]) by {
        assert(sorted.contains(sorted[i]));
    }
}

/// Entries are processed independently: what a list of entries contributes
/// is what its first part contributes followed by what the rest does.
pub proof fn lemma_entries_paths_concat(
    fs: FsView,
    dir: Seq<char>,
    first: Seq<Seq<char>>,
    rest: Seq<Seq<char>>,
    files: bool,
)
    ensures
        spec_entries_paths(fs, dir, first + rest, files) == spec_entries_paths(
            fs,
            dir,
            first,
            files,
        ) + spec_entries_paths(fs, dir, rest, files),
    decreases rest.len(),
{
    if rest.len() == 0 {
        assert(first + rest =~= first);
        assert(spec_entries_paths(fs, dir, first, files) + Seq::<Seq<char>>::empty()
            =~= spec_entries_paths(fs, dir, first, files));
    } else {
        lemma_entries_paths_concat(fs, dir, first, rest.drop_last(), files);
        assert((first + rest).drop_last() =~= first + rest.drop_last());
        assert((first + rest).last() == rest.last());
        assert((spec_entries_paths(fs, dir, first, files) + spec_entries_paths(
            fs,
            dir,
            rest.drop_last(),
            files,
        )) + spec_entry_paths(fs, dir, rest.last(), files) =~= spec_entries_paths(
            fs,
            dir,
            first,
            files,
        ) + (spec_entries_paths(fs, dir, rest.drop_last(), files) + spec_entry_paths(
            fs,
            dir,
            rest.last(),
            files,
        )));
    }
}

/// The entry is a symbolic link that can be read and whose target is valid.
pub open spec fn resolvable_link(fs: FsView, dir: Seq<char>, entry: Seq<char>) -> bool {
    &&& fs.is_symlink(entry) == Some(true)
    &&& fs.read_link(entry) is Some
    &&& spec_make_canonical(fs, dir, fs.read_link(entry).unwrap()) is Some
}

/// The canonical form of the target of the link `entry`.
pub open spec fn link_fragment(fs: FsView, dir: Seq<char>, entry: Seq<char>) -> Seq<char> {
    spec_make_canonical(fs, dir, fs.read_link(entry).unwrap()).unwrap()
}

/// Entries that are all resolvable links contribute one fragment each.
proof fn lemma_links_one_each(fs: FsView, dir: Seq<char>, entries: Seq<Seq<char>>, files: bool)
    requires
        forall|i: int| 0 <= i < entries.len() ==> resolvable_link(fs, dir, #[trigger] entries[i]),
    ensures
        spec_entries_paths(fs, dir, entries, files).len() == entries.len(),
        forall|i: int|
            0 <= i < entries.len() ==> #[trigger] spec_entries_paths(fs, dir, entries, files)[i]
                == link_fragment(fs, dir, entries[i]),
    decreases entries.len(),
{
    if entries.len() > 0 {
        let front = entries.drop_last();
        assert forall|i: int| 0 <= i < front.len() implies resolvable_link(
            fs,
            dir,
            #[trigger] front[i],
        ) by {
            assert(front[i] == entries[i]);
        }
        lemma_links_one_each(fs, dir, front, files);
        assert(resolvable_link(fs, dir, entries[entries.len() - 1]));
        assert(spec_entry_paths(fs, dir, entries.last(), files) =~= seq![
            link_fragment(fs, dir, entries.last()),
        ]);
    }
}

/// A directory that holds nothing but symbolic links with valid targets
/// gives exactly one fragment for each link, in the order of the links' own
/// paths: the fragment at each position is the canonical form of the target
/// of the link at that position of the enumeration. Both ways of scanning
/// agree on such a directory.
pub proof fn lemma_links_only(fs: FsView, dir: Seq<char>)
    requires
        forall|i: int|
            0 <= i < fs.read_dir(dir).len() ==> resolvable_link(
                fs,
                dir,
                #[trigger] fs.read_dir(dir)[i],
            ),
    ensures
        spec_dir_paths(fs, dir).len() == fs.read_dir(dir).len(),
        sorted_by(spec_dir_entries(fs, dir), path_order()),
        forall|i: int|
            0 <= i < fs.read_dir(dir).len() ==> #[trigger] spec_dir_paths(fs, dir)[i]
                == link_fragment(fs, dir, spec_dir_entries(fs, dir)[i]),
        spec_symlink_paths(fs, dir) == spec_dir_paths(fs, dir),
{
    let listed = fs.read_dir(dir);
    let sorted = spec_dir_entries(fs, dir);
    lemma_dir_entries_sorted(fs, dir);
    assert forall|i: int| 0 <= i < sorted.len() implies resolvable_link(
        fs,
        dir,
        #[trigger] sorted[i],
    ) by {
        assert(listed.contains(sorted[i]));
        let j = choose|j: int| 0 <= j < listed.len() && listed[j] == sorted[i];
        assert(resolvable_link(fs, dir, listed[j]));
    }
    lemma_links_one_each(fs, dir, sorted, true);
    lemma_links_one_each(fs, dir, sorted, false);
    assert(spec_symlink_paths(fs, dir) =~= spec_dir_paths(fs, dir));
}

/// A symbolic link that cannot be read, or whose target is not valid,
/// contributes no fragment, and the entries around it contribute what they
/// would without it.
pub proof fn lemma_broken_link_skipped(
    fs: FsView,
    dir: Seq<char>,
    before: Seq<Seq<char>>,
    link: Seq<char>,
    after: Seq<Seq<char>>,
    files: bool,
)
    requires
        fs.is_symlink(link) == Some(true),
        fs.read_link(link) is None || spec_make_canonical(fs, dir, fs.read_link(link).unwrap())
            is None,
    ensures
        spec_entry_paths(fs, dir, link, files) == Seq::<Seq<char>>::empty(),
        spec_entries_paths(fs, dir, before.push(link) + after, files) == spec_entries_paths(
            fs,
            dir,
            before + after,
            files,
        ),
{
    lemma_entries_paths_concat(fs, dir, before.push(link), after, files);
    lemma_entries_paths_concat(fs, dir, before, after, files);
    assert(before.push(link).drop_last() =~= before);
    assert(spec_entries_paths(fs, dir, before, files) + Seq::<Seq<char>>::empty()
        =~= spec_entries_paths(fs, dir, before, files));
}

/// A directory that cannot be read, or that holds nothing, gives no
/// fragment.
pub proof fn lemma_empty_directory(fs: FsView, dir: Seq<char>)
    requires
        fs.read_dir(dir).len() == 0,
    ensures
        spec_dir_paths(fs, dir) == Seq::<Seq<char>>::empty(),
        spec_symlink_paths(fs, dir) == Seq::<Seq<char>>::empty(),
{
    lemma_dir_entries_sorted(fs, dir);
}

} // verus!
