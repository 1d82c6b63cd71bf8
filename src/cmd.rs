//! What the run reads from the external programs it relies on: which of them
//! must be installed, and how their reports are read.
use vstd::prelude::*;
use crate::cli::{Command, CommandLineSettings};
use crate::data::{Error, ProcessingFileDependency};
use crate::text::{
    contains_string, contains_text, ends_with, has_suffix, leading_white_space, lines_of, occurs_in,
    split_lines, trim_start, views,
};

verus! {

/// The programs that a run with these settings calls: the package manager,
/// the file-type probe, the inspector of the selected strategy, and the
/// package-index lookup where candidates are shown.
pub open spec fn required_program_names(command: Command, show_candidates: bool) -> Seq<Seq<char>> {
    seq!["pacman"@, "file"@, match command {
        Command::Ldd => "ldd"@,
        Command::Readelf => "readelf"@,
    }] + if show_candidates {
        seq!["pkgfile"@]
    } else {
        Seq::empty()
    }
}

/// The programs that a run with these settings calls, in the order in which
/// they are checked.
pub fn required_programs(settings: &CommandLineSettings) -> (r: Vec<String>)
    ensures
        views(r@) == required_program_names(settings.command, settings.show_candidates),
{
    let mut r: Vec<String> = Vec::new();
    r.push(String::from_str("pacman"));
    r.push(String::from_str("file"));
    match settings.command {
        Command::Ldd => r.push(String::from_str("ldd")),
        Command::Readelf => r.push(String::from_str("readelf")),
    }
    if settings.show_candidates {
        r.push(String::from_str("pkgfile"));
    }
    assert(views(r@) =~= required_program_names(settings.command, settings.show_candidates));
    r
}

/// Checks, before any work starts, that every program that the run needs is
/// installed; `installed` are the programs found on the system. Fails with
/// `Error::Dependency` naming the first one that is missing.
pub fn check_required_programs(settings: &CommandLineSettings, installed: &Vec<String>) -> (r: Result<(), Error>)
    ensures
        ({
            let required = required_program_names(settings.command, settings.show_candidates);
            match r {
                Ok(()) => forall|i: int| 0 <= i < required.len() ==> views(installed@).contains(
                    #[trigger] required[i],
                ),
                Err(e) => exists|i: int|
                    0 <= i < required.len() && !views(installed@).contains(#[trigger] required[i])
                        && (forall|j: int| 0 <= j < i ==> views(installed@).contains(#[trigger] required[j]))
                        && (e matches Error::Dependency(name) && name@ == required[i]),
            }
        }),
{
    let required = required_programs(settings);
    let mut i: usize = 0;
    while i < required.len()
        invariant
            i <= required@.len(),
            views(required@) == required_program_names(settings.command, settings.show_candidates),
            forall|j: int| 0 <= j < i ==> views(installed@).contains(#[trigger] views(required@)[j]),
        decreases required@.len() - i,
    {
        if !contains_string(installed, &required[i]) {
            let name = required[i].clone();
            assert(views(required@)[i as int] == name@);
            return Err(Error::Dependency(name));
        }
        i = i + 1;
    }
    Ok(())
}

/// The library that a line of the linkage inspector's report names as not
/// found: the text before the trailing ` => not found`, without leading white
/// space; none where the line does not end so, or names nothing.
pub open spec fn missing_library_of(line: Seq<char>) -> Option<Seq<char>> {
    if ends_with(line, " => not found"@) {
        let name = trim_start(line.subrange(0, line.len() - " => not found"@.len()));
        if name.len() > 0 {
            Some(name)
        } else {
            None
        }
    } else {
        None
    }
}

/// The library that one line of the linkage inspector's report names as not
/// found, if any.
pub fn missing_library(line: &str) -> (r: Option<String>)
    ensures
        match r {
            Some(name) => missing_library_of(line@) == Some(name@),
            None => missing_library_of(line@) is None,
        },
{
    let marker = " => not found";
    if !has_suffix(line, marker) {
        return None;
    }
    let n = line.unicode_len();
    let m = marker.unicode_len();
    let prefix = line.substring_char(0, n - m);
    let start = leading_white_space(prefix);
    let end = prefix.unicode_len();
    if start == end {
        return None;
    }
    let name = prefix.substring_char(start, end);
    assert(name@ =~= prefix@.skip(start as int));
    Some(String::from_str(name))
}

/// The libraries that the lines name as not found, in order.
pub open spec fn missing_names(lines: Seq<Seq<char>>) -> Seq<Seq<char>>
    decreases lines.len(),
{
    if lines.len() == 0 {
        Seq::empty()
    } else {
        let rest = missing_names(lines.drop_last());
        match missing_library_of(lines.last()) {
            Some(name) => rest.push(name),
            None => rest,
        }
    }
}

/// The names in order of first occurrence, each once.
pub open spec fn first_occurrences(names: Seq<Seq<char>>) -> Seq<Seq<char>>
    decreases names.len(),
{
    if names.len() == 0 {
        Seq::empty()
    } else {
        let rest = first_occurrences(names.drop_last());
        if rest.contains(names.last()) {
            rest
        } else {
            rest.push(names.last())
        }
    }
}

/// Reads the linkage inspector's report on `file`: the record of the
/// libraries that it names as not found, each once, or none where it names
/// none.
pub fn verify_files_via_ldd(file: &str, output: &str) -> (r: Option<ProcessingFileDependency>)
    ensures
        ({
            let libs = first_occurrences(missing_names(lines_of(output@)));
            if libs.len() == 0 {
                r is None
            } else {
                r matches Some(d) && d.file_name@ == file@ && views(d.library_dependencies@) == libs
                    && d.wf()
            }
        }),
{
    let lines = split_lines(output);
    let ghost all = views(lines@);
    let mut libs: Vec<String> = Vec::new();
    let mut i: usize = 0;
    while i < lines.len()
        invariant
            all == views(lines@),
            i <= lines@.len(),
            views(libs@) == first_occurrences(missing_names(all.take(i as int))),
            views(libs@).no_duplicates(),
        decreases lines@.len() - i,
    {
        let found = missing_library(lines[i].as_str());
        proof {
            assert(all.take(i + 1).drop_last() =~= all.take(i as int));
            assert(all.take(i + 1).last() == lines@[i as int]@);
        }
        match found {
            Some(name) => {
                let ghost before = views(libs@);
                proof {
                    let prev = missing_names(all.take(i as int));
                    assert(missing_names(all.take(i + 1)) == prev.push(name@));
                    assert(prev.push(name@).drop_last() =~= prev);
                    assert(prev.push(name@).last() == name@);
                }
                if !contains_string(&libs, &name) {
                    libs.push(name);
                    proof {
                        assert(views(libs@) =~= before.push(name@));
                        assert forall|a: int, b: int|
                            0 <= a < views(libs@).len() && 0 <= b < views(libs@).len() && a != b
                            implies views(libs@)[a] != views(libs@)[b] by {
                            if a == before.len() {
                                assert(before.contains(views(libs@)[b]) || b == a);
                            } else if b == before.len() {
                                assert(before.contains(views(libs@)[a]));
                            }
                        }
                    }
                }
            },
            None => {
                assert(missing_names(all.take(i + 1)) == missing_names(all.take(i as int)));
            },
        }
        i = i + 1;
    }
    assert(all.take(lines@.len() as int) =~= all);
    if libs.len() == 0 {
        None
    } else {
        Some(ProcessingFileDependency { file_name: String::from_str(file), library_dependencies: libs })
    }
}

/// Reads the binary headers of `file` for missing libraries. This strategy
/// does not inspect anything yet, so it reports none.
pub fn verify_files_via_readelf(file: &str) -> (r: Result<Option<ProcessingFileDependency>, Error>)
    ensures
        r == Ok::<Option<ProcessingFileDependency>, Error>(None),
{
    Ok(None)
}

/// Reads the file-type probe's report: whether it names the ELF format.
pub fn file_is_elf(output: &str) -> (r: bool)
    ensures
        r == occurs_in(output@, "ELF"@),
{
    contains_text(output, "ELF")
}

/// Reads the package manager's list of a package's files: one path a line.
pub fn get_files_for_package(output: &str) -> (r: Vec<String>)
    ensures
        views(r@) == lines_of(output@),
{
    split_lines(output)
}

/// Reads the package-index lookup's report: one package name a line.
pub fn get_packages_containing_library(output: &str) -> (r: Vec<String>)
    ensures
        views(r@) == lines_of(output@),
{
    split_lines(output)
}

/// Adds the packages of the package manager's list of local packages (one
/// name a line) to the packages to check.
pub fn get_all_packages(settings: &mut CommandLineSettings, output: &str)
    ensures
        views(final(settings).packages@) == views(old(settings).packages@) + lines_of(output@),
        final(settings).command == old(settings).command,
        final(settings).all_packages == old(settings).all_packages,
        final(settings).ignore_libraries == old(settings).ignore_libraries,
        final(settings).ignore_libraries_regex == old(settings).ignore_libraries_regex,
        final(settings).show_candidates == old(settings).show_candidates,
        final(settings).output == old(settings).output,
        final(settings).quite == old(settings).quite,
        final(settings).group_by_file == old(settings).group_by_file,
        final(settings).group_by_library == old(settings).group_by_library,
        final(settings).group_by_containing_package == old(settings).group_by_containing_package,
{
    let mut names = split_lines(output);
    let ghost added = views(names@);
    let ghost start = views(settings.packages@);
    settings.packages.append(&mut names);
    assert(views(settings.packages@) =~= start + added);
}

/// What `std::path::Path::extension` gives for a path: the text after the
/// last `.` of its file name, if it has one.
pub uninterp spec fn extension_of(path: Seq<char>) -> Option<Seq<char>>;

/// Relies on `std::path::Path::extension`: the text after the last `.` of
/// the file name; none where there is no file name, no `.` in it, or only a
/// leading one.
#[verifier::external_body]
fn extension(path: &str) -> (r: Option<String>)
    ensures
        match r {
            Some(ext) => extension_of(path@) == Some(ext@),
            None => extension_of(path@) is None,
        },
{
    match std::path::Path::new(path).extension() {
        Some(ext) => Some(ext.to_string_lossy().into_owned()),
        None => None,
    }
}

/// The extensions of files that are known not to be binaries: archives,
/// images, fonts, markup and text, sources and scripts, configuration, audio
/// and video, documentation.
pub open spec fn non_binary_extensions() -> Seq<Seq<char>> {
    seq![
        "a"@, "png"@, "la"@, "ttf"@, "gz"@, "html"@, "css"@, "h"@, "c"@, "cxx"@, "xml"@, "rgb"@,
        "gif"@, "wav"@, "ogg"@, "ogv"@, "avi"@, "opus"@, "mp3"@, "po"@, "txt"@, "jpg"@, "jpeg"@,
        "bmp"@, "xcf"@, "mo"@, "rb"@, "py"@, "lua"@, "config"@, "cfg"@, "svg"@, "desktop"@,
        "conf"@, "pdf"@, "xz"@,
    ]
}

/// Whether a file with extension `ext` may be a binary: the extension is not
/// one of the known non-binary ones (compared case-sensitively).
pub fn extension_might_be_binary(ext: &str) -> (r: bool)
    ensures
        r == !non_binary_extensions().contains(ext@),
{
    let known: Vec<&str> = vec![
        "a", "png", "la", "ttf", "gz", "html", "css", "h", "c", "cxx", "xml", "rgb",
        "gif", "wav", "ogg", "ogv", "avi", "opus", "mp3", "po", "txt", "jpg", "jpeg",
        "bmp", "xcf", "mo", "rb", "py", "lua", "config", "cfg", "svg", "desktop",
        "conf", "pdf", "xz",
    ];
    let ghost list = non_binary_extensions();
    assert(known@.len() == list.len());
    assert(forall|k: int| 0 <= k < list.len() ==> #[trigger] known@[k]@ == list[k]);
    let mut i: usize = 0;
    while i < known.len()
        invariant
            i <= known@.len(),
            list == non_binary_extensions(),
            known@.len() == list.len(),
            forall|k: int| 0 <= k < list.len() ==> #[trigger] known@[k]@ == list[k],
            forall|k: int| 0 <= k < i ==> list[k] != ext@,
        decreases known@.len() - i,
    {
        if String::from_str(known[i]) == String::from_str(ext) {
            assert(list[i as int] == ext@);
            assert(list.contains(ext@));
            return false;
        }
        i = i + 1;
    }
    true
}

/// Whether `file` is worth probing for its binary format: it is a regular
/// file (`is_file`, as found on disk), and its extension, if it has one, is
/// not one of the known non-binary ones.
pub fn file_might_be_binary(file: &str, is_file: bool) -> (r: bool)
    ensures
        r == (is_file && match extension_of(file@) {
            Some(ext) => !non_binary_extensions().contains(ext),
            None => true,
        }),
{
    if !is_file {
        return false;
    }
    match extension(file) {
        Some(ext) => extension_might_be_binary(ext.as_str()),
        None => true,
    }
}

} // verus!
