//! The settings of one run, fixed before any file is looked at.

use vstd::prelude::*;
use crate::error::{GrepError, GrepErrorView};
use crate::pattern::{compile, compile_result};
use crate::text::sentinel;

verus! {

/// The settings of one run. That a `Config` exists means that the pattern
/// has been compiled: a pattern that cannot be compiled never gets this far.
#[derive(Debug)]
pub struct Config {
    pub pattern: regex::Regex,
    pub files: Vec<String>,
    pub recursive: bool,
    pub count: bool,
    pub invert_match: bool,
}

/// The mathematical content of a [`Config`].
pub struct ConfigView {
    pub pattern: regex::Regex,
    pub files: Seq<Seq<char>>,
    pub recursive: bool,
    pub count: bool,
    pub invert_match: bool,
}

impl View for Config {
    type V = ConfigView;

    open spec fn view(&self) -> ConfigView {
        ConfigView {
            pattern: self.pattern,
            files: self.files.deep_view(),
            recursive: self.recursive,
            count: self.count,
            invert_match: self.invert_match,
        }
    }
}

/// The paths that are searched when `files` were asked for: these, or
/// standard input alone when none was named.
pub open spec fn searched_files(files: Seq<Seq<char>>) -> Seq<Seq<char>> {
    if files.len() == 0 {
        seq![sentinel()]
    } else {
        files
    }
}

/// What a run is configured with, given what compiling the pattern gave.
pub open spec fn configured(
    compiled: Result<regex::Regex, regex::Error>,
    source: Seq<char>,
    files: Seq<Seq<char>>,
    recursive: bool,
    count: bool,
    invert_match: bool,
) -> Result<ConfigView, GrepErrorView> {
    match compiled {
        Ok(pattern) => Ok(
            ConfigView { pattern, files: searched_files(files), recursive, count, invert_match },
        ),
        Err(_) => Err(GrepErrorView::InvalidPattern { pattern: source }),
    }
}

/// The content of a result of [`get_args`].
pub open spec fn outcome_view(outcome: Result<Config, GrepError>) -> Result<
    ConfigView,
    GrepErrorView,
> {
    match outcome {
        Ok(config) => Ok(config@),
        Err(error) => Err(error@),
    }
}

/// Builds the settings from the outcome of compiling `source`: the compiled
/// pattern is taken over, and a failure becomes an `InvalidPattern` that
/// quotes the pattern as the user wrote it.
pub fn config_from(
    compiled: Result<regex::Regex, regex::Error>,
    source: &str,
    files: Vec<String>,
    recursive: bool,
    count: bool,
    invert_match: bool,
) -> (outcome: Result<Config, GrepError>)
    ensures
        outcome_view(outcome) == configured(
            compiled,
            source@,
            files.deep_view(),
            recursive,
            count,
            invert_match,
        ),
{
    match compiled {
        Ok(pattern) => {
            let mut files = files;
            if files.len() == 0 {
                files.push("-".to_owned());
                proof {
                    reveal_strlit("-");
                    assert(files.deep_view() =~= seq![sentinel()]) by {
                        assert(files.deep_view()[0] =~= sentinel());
                    }
                }
            }
            Ok(Config { pattern, files, recursive, count, invert_match })
        },
        Err(_) => Err(GrepError::InvalidPattern { pattern: source.to_owned() }),
    }
}

/// Compiles `source`, ignoring case if `insensitive` is set, and builds the
/// settings of a run on `files`. Fails with `InvalidPattern` exactly when
/// the pattern does not compile.
pub fn get_args(
    source: &str,
    insensitive: bool,
    files: Vec<String>,
    recursive: bool,
    count: bool,
    invert_match: bool,
) -> (outcome: Result<Config, GrepError>)
    ensures
        outcome_view(outcome) == configured(
            compile_result(source@, insensitive),
            source@,
            files.deep_view(),
            recursive,
            count,
            invert_match,
        ),
{
    config_from(compile(source, insensitive), source, files, recursive, count, invert_match)
}

} // verus!
