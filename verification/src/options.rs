//! What an invocation asks for: from the options as given to the sources to
//! scan.

use crate::list::{lemma_join_undoes_split, spec_split_list, split_list};
use crate::text::{clone_texts, texts};
use vstd::prelude::*;

verus! {

/// The options of an invocation, as given.
#[derive(Debug)]
pub struct Options {
    /// Include the system directory and the system list file.
    pub system: bool,
    /// Leave out the per-user default directory.
    pub no_default: bool,
    /// Take the directories from the environment.
    pub use_env: bool,
    /// The directories given by position.
    pub dirs: Vec<String>,
}

/// The mathematical form of [`Options`].
pub struct OptionsView {
    pub system: bool,
    pub no_default: bool,
    pub use_env: bool,
    pub dirs: Seq<Seq<char>>,
}

impl View for Options {
    type V = OptionsView;

    open spec fn view(&self) -> OptionsView {
        OptionsView {
            system: self.system,
            no_default: self.no_default,
            use_env: self.use_env,
            dirs: texts(self.dirs@),
        }
    }
}

/// The sources to scan.
#[derive(Debug)]
pub struct Request {
    /// Scan the per-user default directory after the explicit ones.
    pub include_default: bool,
    /// Scan the system directory and the system list file last.
    pub include_system: bool,
    /// The explicit directories, in their order.
    pub dirs: Vec<String>,
}

/// The mathematical form of a [`Request`].
pub struct RequestView {
    pub include_default: bool,
    pub include_system: bool,
    pub dirs: Seq<Seq<char>>,
}

impl View for Request {
    type V = RequestView;

    open spec fn view(&self) -> RequestView {
        RequestView {
            include_default: self.include_default,
            include_system: self.include_system,
            dirs: texts(self.dirs@),
        }
    }
}

/// An invocation that cannot be served.
#[derive(Clone, Copy, Debug, PartialEq, Eq)]
pub enum UsageError {
    /// The default directory was switched off, but no directory was given
    /// in its place.
    NoDefaultWithoutDirs,
    /// Directories were given by position and asked from the environment
    /// at once.
    EnvironmentWithDirs,
    /// The directories were asked from the environment, and the variable
    /// that should name them is not set.
    EnvironmentUnset,
}

/// The sources that the options ask for, or the reason why they cannot be
/// served.
///
/// The default directory is scanned unless it is switched off or the
/// directories come from the environment. The explicit directories are
/// those given by position, or else the fields of the colon-separated
/// environment value.
pub open spec fn spec_plan(options: OptionsView, env_value: Option<Seq<char>>) -> Result<
    RequestView,
    UsageError,
> {
    if options.no_default && options.dirs.len() == 0 {
        Err(UsageError::NoDefaultWithoutDirs)
    } else if options.use_env && options.dirs.len() > 0 {
        Err(UsageError::EnvironmentWithDirs)
    } else if options.use_env {
        match env_value {
            Some(value) => Ok(
                RequestView {
                    include_default: false,
                    include_system: options.system,
                    dirs: spec_split_list(value),
                },
            ),
            None => Err(UsageError::EnvironmentUnset),
        }
    } else {
        Ok(
            RequestView {
                include_default: !options.no_default,
                include_system: options.system,
                dirs: options.dirs,
            },
        )
    }
}

/// Settles what to scan from the options as given and from the value of
/// the environment variable, where it is set.
pub fn plan(options: &Options, env_value: Option<&str>) -> (planned: Result<Request, UsageError>)
    ensures
        planned matches Ok(request) ==> spec_plan(options@, env_text(env_value)) == Ok::<
            RequestView,
            UsageError,
        >(request@),
        planned matches Err(error) ==> spec_plan(options@, env_text(env_value)) == Err::<
            RequestView,
            UsageError,
        >(error),
{
    if options.no_default && options.dirs.len() == 0 {
        Err(UsageError::NoDefaultWithoutDirs)
    } else if options.use_env && options.dirs.len() > 0 {
        Err(UsageError::EnvironmentWithDirs)
    } else if options.use_env {
        match env_value {
            Some(value) => Ok(
                Request {
                    include_default: false,
                    include_system: options.system,
                    dirs: split_list(value),
                },
            ),
            None => Err(UsageError::EnvironmentUnset),
        }
    } else {
        Ok(
            Request {
                include_default: !options.no_default,
                include_system: options.system,
                dirs: clone_texts(&options.dirs),
            },
        )
    }
}

/// The view of the environment value, where there is one.
pub open spec fn env_text(env_value: Option<&str>) -> Option<Seq<char>> {
    match env_value {
        Some(value) => Some(value@),
        None => None,
    }
}

/// Taking the directories from the environment, with no default and no
/// system sources asked for besides, is the same request as giving the
/// fields of the environment value as explicit directories with the default
/// directory switched off.
pub proof fn lemma_environment_as_explicit(system: bool, value: Seq<char>)
    ensures
        spec_plan(
            OptionsView { system, no_default: false, use_env: true, dirs: Seq::empty() },
            Some(value),
        ) == spec_plan(
            OptionsView { system, no_default: true, use_env: false, dirs: spec_split_list(value) },
            None,
        ),
        spec_plan(
            OptionsView { system, no_default: false, use_env: true, dirs: Seq::empty() },
            Some(value),
        ) == Ok::<RequestView, UsageError>(
            RequestView {
                include_default: false,
                include_system: system,
                dirs: spec_split_list(value),
            },
        ),
{
    lemma_join_undoes_split(value);
}

} // verus!
