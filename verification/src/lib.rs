//! Resolution of a colon-separated search path from directories of symbolic
//! links and list files.
//!
//! The sources of path fragments are directories given explicitly, a
//! per-user default directory, and the system's directory and list file. An
//! entry of such a directory is a symbolic link to the directory that it
//! stands for, or a file that lists paths line by line. The fragments of
//! all sources, in a fixed order of precedence and without deduplication,
//! joined with colons, are the search path.
//!
//! Resolution only reads the filesystem, and what it reads is held as plain
//! facts in a [`FileSystem`]. The work goes in four steps:
//!
//! 1. [`plan`] settles from the options which sources to scan;
//! 2. [`expand_sources`] expands home-directory shorthands;
//! 3. a [`Survey`] says which questions to put to the real filesystem, and
//!    collects the answers;
//! 4. [`gather`] scans the sources over the facts collected, and
//!    [`join_list`] joins the fragments.
//!
//! Every function is specified over a mathematical model of its arguments
//! and proved against that specification. The module [`complete`] proves
//! that a survey ends and that the facts of a finished survey give the same
//! fragments as the filesystem that was surveyed.

pub mod complete;
pub mod lines;
pub mod list;
pub mod options;
pub mod scan;
pub mod snapshot;
pub mod sorting;
pub mod sources;
pub mod survey;
pub mod table;
pub mod text;

pub use crate::lines::parse_lines;
pub use crate::list::{join_list, split_list};
pub use crate::options::{plan, Options, Request, UsageError};
pub use crate::scan::{
    dir_entries, dir_paths, entry_paths, file_paths, is_symlink, make_canonical, symlink_paths,
};
pub use crate::snapshot::{Content, FileSystem};
pub use crate::sorting::sort_paths;
pub use crate::sources::{
    expand, expand_sources, find_paths, gather, process_path, resolve_paths, ExpandError,
    DEFAULT_DIR, SYSTEM_DIR, SYSTEM_FILE,
};
pub use crate::survey::{Answer, Question, Survey};
pub use crate::table::Table;
pub use crate::text::{has_tilde, is_absolute, join_path, precedes};
