//! Settings that steer a run.
use vstd::prelude::*;
use crate::data::Error;
use crate::text::views;

verus! {

#[verifier::external_type_specification]
#[verifier::external_body]
pub struct ExRegexSet(regex::RegexSet);

/// Whether `regex::RegexSet::new` accepts these patterns.
pub uninterp spec fn regex_set_compiles(patterns: Seq<Seq<char>>) -> bool;

/// Whether some pattern of the set matches somewhere in `text`.
pub uninterp spec fn regex_set_matches(patterns: Seq<Seq<char>>, text: Seq<char>) -> bool;

/// Relies on `regex::RegexSet::new`: compiles all patterns into one set, or
/// gives the reason why they do not compile.
#[verifier::external_body]
fn compile_regex_set(patterns: &Vec<String>) -> (r: Result<regex::RegexSet, String>)
    ensures
        r.is_ok() == regex_set_compiles(views(patterns@)),
{
    match regex::RegexSet::new(patterns) {
        Ok(set) => Ok(set),
        Err(e) => Err(e.to_string()),
    }
}

/// The ways to check an ELF file for missing libraries.
#[derive(Debug, Clone, Copy, PartialEq, Eq, Structural)]
pub enum Command {
    Ldd,
    Readelf,
}

/// The ways to present the findings.
#[derive(Debug, Clone, Copy, PartialEq, Eq, Structural)]
pub enum Output {
    Console,
    JSON,
}

/// Library names to ignore by regular expression: the patterns together with
/// the set compiled from exactly those patterns.
#[derive(Debug)]
pub struct IgnorePatterns {
    patterns: Vec<String>,
    set: regex::RegexSet,
}

impl View for IgnorePatterns {
    type V = Seq<Seq<char>>;

    closed spec fn view(&self) -> Seq<Seq<char>> {
        views(self.patterns@)
    }
}

impl IgnorePatterns {
    /// Compiles the patterns; fails with `Error::Regex` exactly when they do not compile.
    pub fn new(patterns: Vec<String>) -> (r: Result<IgnorePatterns, Error>)
        ensures
            r.is_ok() == regex_set_compiles(views(patterns@)),
            r matches Ok(p) ==> p@ == views(patterns@),
            r matches Err(e) ==> e is Regex,
    {
        match compile_regex_set(&patterns) {
            Ok(set) => Ok(IgnorePatterns { patterns, set }),
            Err(message) => Err(Error::Regex(message)),
        }
    }

    /// The patterns, as given.
    pub fn patterns(&self) -> (r: &Vec<String>)
        ensures
            views(r@) == self@,
    {
        &self.patterns
    }

    /// Relies on `regex::RegexSet::is_match`: whether any pattern of the set
    /// matches somewhere in `text`. The set is compiled from `self.patterns`
    /// and from nothing else (see `new`), so this is the match of those patterns.
    #[verifier::external_body]
    pub(crate) fn is_match(&self, text: &str) -> (r: bool)
        ensures
            r == regex_set_matches(self@, text@),
    {
        self.set.is_match(text)
    }
}

/// What a run checks and how it reports.
#[derive(Debug)]
pub struct CommandLineSettings {
    pub command: Command,
    pub packages: Vec<String>,
    pub all_packages: bool,
    pub ignore_libraries: Vec<String>,
    pub ignore_libraries_regex: Option<IgnorePatterns>,
    pub show_candidates: bool,
    pub output: Output,
    pub quite: bool,
    pub group_by_file: bool,
    pub group_by_library: bool,
    pub group_by_containing_package: bool,
}

impl Default for CommandLineSettings {
    fn default() -> (r: Self)
        ensures
            r.command == Command::Ldd,
            r.packages@.len() == 0,
            !r.all_packages,
            r.ignore_libraries@.len() == 0,
            r.ignore_libraries_regex is None,
            !r.show_candidates,
            r.output == Output::Console,
            !r.quite,
            !r.group_by_file,
            !r.group_by_library,
            !r.group_by_containing_package,
    {
        Self {
            command: Command::Ldd,
            packages: Vec::new(),
            all_packages: false,
            ignore_libraries: Vec::new(),
            ignore_libraries_regex: None,
            show_candidates: false,
            output: Output::Console,
            quite: false,
            group_by_file: false,
            group_by_library: false,
            group_by_containing_package: false,
        }
    }
}

impl CommandLineSettings {
    /// Where no grouping was asked for, findings are grouped by file and by
    /// library, and by providing package only when candidates are looked up.
    pub fn apply_default_grouping(&mut self)
        ensures
            final(self).command == old(self).command,
            final(self).packages == old(self).packages,
            final(self).all_packages == old(self).all_packages,
            final(self).ignore_libraries == old(self).ignore_libraries,
            final(self).ignore_libraries_regex == old(self).ignore_libraries_regex,
            final(self).show_candidates == old(self).show_candidates,
            final(self).output == old(self).output,
            final(self).quite == old(self).quite,
            if !old(self).group_by_file && !old(self).group_by_library
                && !old(self).group_by_containing_package {
                final(self).group_by_file && final(self).group_by_library
                    && final(self).group_by_containing_package == old(self).show_candidates
            } else {
                final(self).group_by_file == old(self).group_by_file
                    && final(self).group_by_library == old(self).group_by_library
                    && final(self).group_by_containing_package
                    == old(self).group_by_containing_package
            },
    {
        if !self.group_by_file && !self.group_by_library && !self.group_by_containing_package {
            self.group_by_file = true;
            self.group_by_library = true;
            self.group_by_containing_package = self.show_candidates;
        }
    }
}

} // verus!
