//! Sources and their precedence: from the directories that a caller names
//! to the search path.
//!
//! The sources are scanned in a fixed order, and the fragments of an earlier
//! source stand before those of a later one: the directories given
//! explicitly, then the per-user default directory, then the system
//! directory and the system list file. Fragments are not deduplicated.

use crate::list::{join_list, spec_join_list};
use crate::scan::{dir_paths, file_paths, lemma_empty_directory, spec_dir_paths, spec_file_paths};
use crate::snapshot::{FileSystem, FsView};
use crate::text::{clone_texts, spec_has_tilde, spec_is_home_relative, spec_join, texts};
use vstd::prelude::*;

verus! {

/// The error type of the standard library's input and output, which a home
/// directory lookup fails with.
#[verifier::external_type_specification]
#[verifier::external_body]
pub struct ExIoError(std::io::Error);

/// The per-user directory that is scanned by default.
pub const DEFAULT_DIR: &'static str = "~/.paths.d";

/// The system directory of links and list files.
pub const SYSTEM_DIR: &'static str = "/etc/paths.d";

/// The system list file.
pub const SYSTEM_FILE: &'static str = "/etc/paths";

/// A home-directory shorthand that could not be expanded.
#[derive(Debug)]
pub struct ExpandError {
    /// The path as it was given.
    pub path: String,
    /// Why it could not be expanded.
    pub message: String,
}

/// What may come out when `path` is expanded to `dir`. A path without a
/// tilde stands for itself. The shorthand for the current user's home gives
/// what follows it, taken from some home directory.
pub open spec fn expands_to(path: Seq<char>, dir: Seq<char>) -> bool {
    &&& !spec_has_tilde(path) ==> dir == path
    &&& spec_is_home_relative(path) ==> exists|home: Seq<char>|
        home.len() > 0 && dir == #[trigger] spec_join(home, path.skip(2))
}

/// The sources to expand: the explicit directories, then the default
/// directory where it is included.
pub open spec fn spec_sources(include_default: bool, user_paths: Seq<Seq<char>>) -> Seq<Seq<char>> {
    if include_default {
        user_paths.push(DEFAULT_DIR@)
    } else {
        user_paths
    }
}

/// `dirs` is what `sources` may expand to, one for one.
pub open spec fn all_expand_to(sources: Seq<Seq<char>>, dirs: Seq<Seq<char>>) -> bool {
    &&& dirs.len() == sources.len()
    &&& forall|i: int| 0 <= i < sources.len() ==> expands_to(#[trigger] sources[i], dirs[i])
}

/// None of `paths` is a home-directory shorthand.
pub open spec fn no_shorthand(paths: Seq<Seq<char>>) -> bool {
    forall|i: int| 0 <= i < paths.len() ==> !spec_has_tilde(#[trigger] paths[i])
}

/// The fragments of the directories `dirs`, one directory after the other.
pub open spec fn spec_scan_all(fs: FsView, dirs: Seq<Seq<char>>) -> Seq<Seq<char>>
    decreases dirs.len(),
{
    if dirs.len() == 0 {
        Seq::empty()
    } else {
        spec_scan_all(fs, dirs.drop_last()) + spec_dir_paths(fs, dirs.last())
    }
}

/// The fragments of the system sources: the system directory, then every
/// line of the system list file, existing or not.
pub open spec fn spec_system_paths(fs: FsView) -> Seq<Seq<char>> {
    spec_dir_paths(fs, SYSTEM_DIR@) + spec_file_paths(fs, SYSTEM_FILE@, false)
}

/// The fragments of all sources in their order of precedence: the
/// directories `dirs`, then the system sources where they are included.
pub open spec fn spec_gather(fs: FsView, dirs: Seq<Seq<char>>, include_sys: bool) -> Seq<
    Seq<char>,
> {
    if include_sys {
        spec_scan_all(fs, dirs) + spec_system_paths(fs)
    } else {
        spec_scan_all(fs, dirs)
    }
}

/// `path` is one of `sources`, and a home-directory shorthand: the only
/// kind of source whose expansion can fail.
pub open spec fn is_failed_source(sources: Seq<Seq<char>>, path: Seq<char>) -> bool {
    spec_has_tilde(path) && exists|i: int| 0 <= i < sources.len() && #[trigger] sources[i] == path
}

/// The directories that are scanned as explicit ones: those given by
/// position, then those that the environment supplies.
pub open spec fn spec_explicit_dirs(
    explicit_dirs: Seq<Seq<char>>,
    env_dirs: Option<Seq<Seq<char>>>,
) -> Seq<Seq<char>> {
    match env_dirs {
        Some(more) => explicit_dirs + more,
        None => explicit_dirs,
    }
}

/// All sources of a resolution, in their order: the explicit directories,
/// those of the environment, and the default directory where it is included.
pub open spec fn spec_resolve_sources(
    include_default: bool,
    explicit_dirs: Seq<Seq<char>>,
    env_dirs: Option<Seq<Seq<char>>>,
) -> Seq<Seq<char>> {
    spec_sources(include_default, spec_explicit_dirs(explicit_dirs, env_dirs))
}

/// Expands a leading `~` or `~user` in `path`, by `expanduser::expanduser`.
///
/// A path that does not begin with a tilde comes back as it is. For `~/rest`
/// the result, where there is one, is `rest` joined onto the home directory
/// that the environment or the user database names, which is never empty.
/// Which directory that is, and whether a lookup succeeds, is not stated.
#[verifier::external_body]
fn expand_user(path: &str) -> (expanded: Result<String, std::io::Error>)
    ensures
        !spec_has_tilde(path@) ==> expanded is Ok,
        expanded matches Ok(dir) ==> expands_to(path@, dir@),
{
    match expanduser::expanduser(path) {
        Ok(dir) => Ok(dir.to_string_lossy().into_owned()),
        Err(error) => Err(error),
    }
}

/// The text of an input/output error, by its `Display`.
#[verifier::external_body]
fn error_text(error: &std::io::Error) -> (text: String) {
    format!("{}", error)
}

/// Expands a home-directory shorthand at the start of `path`.
///
/// A path without a tilde is returned as it is, and never fails. With a
/// tilde the outcome depends on the environment; a failure names the path.
pub fn expand(path: &str) -> (expanded: Result<String, ExpandError>)
    ensures
        !spec_has_tilde(path@) ==> expanded is Ok,
        expanded matches Ok(dir) ==> expands_to(path@, dir@),
        expanded matches Err(error) ==> error.path@ == path@,
        expanded is Err ==> spec_has_tilde(path@),
{
    match expand_user(path) {
        Ok(dir) => Ok(dir),
        Err(error) => Err(ExpandError { path: path.to_owned(), message: error_text(&error) }),
    }
}

/// Expands the sources in their order: the explicit directories, then the
/// default directory where it is included. The first source that cannot be
/// expanded ends the work.
pub fn expand_sources(include_default: bool, user_paths: &Vec<String>) -> (expanded: Result<
    Vec<String>,
    ExpandError,
>)
    ensures
        no_shorthand(spec_sources(include_default, texts(user_paths@))) ==> expanded is Ok,
        expanded matches Ok(dirs) ==> all_expand_to(
            spec_sources(include_default, texts(user_paths@)),
            texts(dirs@),
        ),
        expanded matches Err(error) ==> is_failed_source(
            spec_sources(include_default, texts(user_paths@)),
            error.path@,
        ),
{
    let ghost sources = spec_sources(include_default, texts(user_paths@));
    let mut dirs: Vec<String> = Vec::new();
    let mut i: usize = 0;
    while i < user_paths.len()
        invariant
            i <= user_paths.len(),
            sources == spec_sources(include_default, texts(user_paths@)),
            dirs.len() == i,
            forall|j: int| 0 <= j < i ==> expands_to(#[trigger] sources[j], texts(dirs@)[j]),
        decreases user_paths.len() - i,
    {
        assert(sources[i as int] == user_paths@[i as int]@);
        match expand(user_paths[i].as_str()) {
            Ok(dir) => {
                dirs.push(dir);
            },
            Err(error) => {
                return Err(error);
            },
        }
        i = i + 1;
    }
    if include_default {
        assert(sources[i as int] == DEFAULT_DIR@);
        match expand(DEFAULT_DIR) {
            Ok(dir) => {
                dirs.push(dir);
            },
            Err(error) => {
                return Err(error);
            },
        }
    }
    Ok(dirs)
}

/// Gathers the fragments of all sources in their order of precedence: each
/// of the directories `dirs`, already expanded, and then, where the system
/// sources are included, the system directory and every line of the system
/// list file.
pub fn gather(fs: &FileSystem, dirs: &Vec<String>, include_sys: bool) -> (paths: Vec<String>)
    ensures
        texts(paths@) == spec_gather(fs@, texts(dirs@), include_sys),
{
    let ghost all = texts(dirs@);
    let mut paths: Vec<String> = Vec::new();
    let mut i: usize = 0;
    assert(texts(paths@) =~= Seq::<Seq<char>>::empty());
    assert(all.take(0) =~= Seq::<Seq<char>>::empty());
    while i < dirs.len()
        invariant
            i <= dirs.len(),
            all == texts(dirs@),
            texts(paths@) == spec_scan_all(fs@, all.take(i as int)),
        decreases dirs.len() - i,
    {
        let mut found = dir_paths(fs, dirs[i].as_str());
        proof {
            assert(all.take(i + 1).drop_last() =~= all.take(i as int));
            assert(all.take(i + 1).last() == dirs@[i as int]@);
            assert(texts(paths@ + found@) =~= texts(paths@) + texts(found@));
        }
        paths.append(&mut found);
        i = i + 1;
    }
    assert(all.take(i as int) =~= all);
    if include_sys {
        let mut found = dir_paths(fs, SYSTEM_DIR);
        assert(texts(paths@ + found@) =~= texts(paths@) + texts(found@));
        paths.append(&mut found);
        let mut lines = file_paths(fs, SYSTEM_FILE, false);
        assert(texts(paths@ + lines@) =~= texts(paths@) + texts(lines@));
        paths.append(&mut lines);
        assert((spec_scan_all(fs@, all) + spec_dir_paths(fs@, SYSTEM_DIR@)) + spec_file_paths(
            fs@,
            SYSTEM_FILE@,
            false,
        ) =~= spec_scan_all(fs@, all) + spec_system_paths(fs@));
    }
    paths
}

/// Expands `path` and scans the directory that it names.
pub fn process_path(fs: &FileSystem, path: &str) -> (paths: Result<Vec<String>, ExpandError>)
    ensures
        !spec_has_tilde(path@) ==> (paths matches Ok(found) && texts(found@) == spec_dir_paths(
            fs@,
            path@,
        )),
        paths matches Ok(found) ==> exists|dir: Seq<char>|
            expands_to(path@, dir) && texts(found@) == #[trigger] spec_dir_paths(fs@, dir),
        paths matches Err(error) ==> error.path@ == path@,
        paths is Err ==> spec_has_tilde(path@),
{
    match expand(path) {
        Ok(dir) => {
            let found = dir_paths(fs, dir.as_str());
            Ok(found)
        },
        Err(error) => Err(error),
    }
}

/// Finds the fragments of all sources, in their order of precedence.
///
/// The explicit directories `user_paths` come first, each expanded and
/// scanned; then the default directory, where `include_default` holds; then
/// the system directory and the system list file, where `include_sys` holds.
/// Expansion of a home-directory shorthand depends on the environment: the
/// result speaks of the directories that the sources expanded to. Where no
/// source is a shorthand the result is owed and is that of [`gather`] on the
/// paths as given. The facts in `fs` are those of the directories that the
/// sources expand to; a caller that has yet to collect them expands the
/// sources with [`expand_sources`] first and calls [`gather`] afterwards.
pub fn find_paths(
    fs: &FileSystem,
    include_default: bool,
    include_sys: bool,
    user_paths: &Vec<String>,
) -> (paths: Result<Vec<String>, ExpandError>)
    ensures
        no_shorthand(spec_sources(include_default, texts(user_paths@))) ==> (paths matches Ok(found)
            && texts(found@) == spec_gather(
            fs@,
            spec_sources(include_default, texts(user_paths@)),
            include_sys,
        )),
        paths matches Ok(found) ==> exists|dirs: Seq<Seq<char>>|
            all_expand_to(spec_sources(include_default, texts(user_paths@)), dirs) && texts(found@)
                == #[trigger] spec_gather(fs@, dirs, include_sys),
        paths matches Err(error) ==> is_failed_source(
            spec_sources(include_default, texts(user_paths@)),
            error.path@,
        ),
{
    match expand_sources(include_default, user_paths) {
        Ok(dirs) => {
            let found = gather(fs, &dirs, include_sys);
            proof {
                let sources = spec_sources(include_default, texts(user_paths@));
                if no_shorthand(sources) {
                    assert(texts(dirs@) =~= sources);
                }
            }
            Ok(found)
        },
        Err(error) => Err(error),
    }
}

/// Resolves the search path: the fragments of all sources in their order of
/// precedence, joined with colons.
///
/// The directories of `env_dirs`, where there are any, are scanned as
/// explicit directories after those of `explicit_dirs`.
pub fn resolve_paths(
    fs: &FileSystem,
    include_default: bool,
    include_system: bool,
    explicit_dirs: &Vec<String>,
    env_dirs: Option<&Vec<String>>,
) -> (resolved: Result<String, ExpandError>)
    ensures
        no_shorthand(
            spec_resolve_sources(include_default, texts(explicit_dirs@), env_dirs_text(env_dirs)),
        ) ==> (resolved matches Ok(path) && path@ == spec_join_list(
            spec_gather(
                fs@,
                spec_resolve_sources(
                    include_default,
                    texts(explicit_dirs@),
                    env_dirs_text(env_dirs),
                ),
                include_system,
            ),
        )),
        resolved matches Ok(path) ==> exists|dirs: Seq<Seq<char>>|
            all_expand_to(
                spec_resolve_sources(
                    include_default,
                    texts(explicit_dirs@),
                    env_dirs_text(env_dirs),
                ),
                dirs,
            ) && path@ == spec_join_list(#[trigger] spec_gather(fs@, dirs, include_system)),
        resolved matches Err(error) ==> is_failed_source(
            spec_resolve_sources(include_default, texts(explicit_dirs@), env_dirs_text(env_dirs)),
            error.path@,
        ),
{
    let mut all = clone_texts(explicit_dirs);
    match env_dirs {
        Some(more) => {
            let mut extra = clone_texts(more);
            assert(texts(all@ + extra@) =~= texts(all@) + texts(extra@));
            all.append(&mut extra);
        },
        None => {},
    }
    match find_paths(fs, include_default, include_system, &all) {
        Ok(found) => Ok(join_list(&found)),
        Err(error) => Err(error),
    }
}

/// The views of the directories that the environment supplies.
pub open spec fn env_dirs_text(env_dirs: Option<&Vec<String>>) -> Option<Seq<Seq<char>>> {
    match env_dirs {
        Some(more) => Some(texts(more@)),
        None => None,
    }
}

/// Precedence among directories: the fragments of a list of directories are
/// those of its first part followed by those of the rest.
pub proof fn lemma_scan_all_concat(fs: FsView, first: Seq<Seq<char>>, rest: Seq<Seq<char>>)
    ensures
        spec_scan_all(fs, first + rest) == spec_scan_all(fs, first) + spec_scan_all(fs, rest),
    decreases rest.len(),
{
    if rest.len() == 0 {
        assert(first + rest =~= first);
        assert(spec_scan_all(fs, first) + Seq::<Seq<char>>::empty() =~= spec_scan_all(fs, first));
    } else {
        lemma_scan_all_concat(fs, first, rest.drop_last());
        assert((first + rest).drop_last() =~= first + rest.drop_last());
        assert((first + rest).last() == rest.last());
        assert((spec_scan_all(fs, first) + spec_scan_all(fs, rest.drop_last())) + spec_dir_paths(
            fs,
            rest.last(),
        ) =~= spec_scan_all(fs, first) + (spec_scan_all(fs, rest.drop_last()) + spec_dir_paths(
            fs,
            rest.last(),
        )));
    }
}

/// With two explicit directories, the default directory included and the
/// system sources left out, three directories are scanned: what the first
/// explicit directory expands to, what the second expands to, and what the
/// default directory expands to. The result is the fragments of the first,
/// then those of the second, then those of the default directory.
pub proof fn lemma_explicit_before_default(
    fs: FsView,
    first: Seq<char>,
    second: Seq<char>,
    dirs: Seq<Seq<char>>,
)
    requires
        all_expand_to(spec_sources(true, seq![first, second]), dirs),
    ensures
        dirs.len() == 3,
        expands_to(first, dirs[0]),
        expands_to(second, dirs[1]),
        expands_to(DEFAULT_DIR@, dirs[2]),
        spec_gather(fs, dirs, false) == spec_dir_paths(fs, dirs[0]) + spec_dir_paths(fs, dirs[1])
            + spec_dir_paths(fs, dirs[2]),
{
    let sources = spec_sources(true, seq![first, second]);
    assert(sources[0] == first);
    assert(sources[1] == second);
    assert(sources[2] == DEFAULT_DIR@);
    reveal_with_fuel(spec_scan_all, 4);
    assert(dirs.drop_last().drop_last().drop_last() =~= Seq::<Seq<char>>::empty());
    assert(dirs.drop_last().drop_last().last() == dirs[0]);
    assert(dirs.drop_last().last() == dirs[1]);
    assert(Seq::<Seq<char>>::empty() + spec_dir_paths(fs, dirs[0]) =~= spec_dir_paths(
        fs,
        dirs[0],
    ));
}

/// Directories that the environment supplies count as explicit directories
/// that follow those given by position.
pub proof fn lemma_env_dirs_are_explicit(explicit_dirs: Seq<Seq<char>>, env_dirs: Seq<Seq<char>>)
    ensures
        spec_explicit_dirs(explicit_dirs, Some(env_dirs)) == spec_explicit_dirs(
            explicit_dirs + env_dirs,
            None,
        ),
        spec_explicit_dirs(Seq::empty(), Some(env_dirs)) == spec_explicit_dirs(env_dirs, None),
{
    assert(Seq::<Seq<char>>::empty() + env_dirs =~= env_dirs);
}

/// With nothing but the default directory to scan, and that directory
/// unreadable or empty, there are no fragments and the search path is the
/// empty string.
pub proof fn lemma_only_empty_default(fs: FsView, default_dir: Seq<char>)
    requires
        fs.read_dir(default_dir).len() == 0,
    ensures
        spec_gather(fs, seq![default_dir], false) == Seq::<Seq<char>>::empty(),
        spec_join_list(spec_gather(fs, seq![default_dir], false)) == Seq::<char>::empty(),
{
    lemma_empty_directory(fs, default_dir);
    reveal_with_fuel(spec_scan_all, 2);
    assert(seq![default_dir].drop_last() =~= Seq::<Seq<char>>::empty());
    assert(spec_gather(fs, seq![default_dir], false) =~= Seq::<Seq<char>>::empty());
}

} // verus!
