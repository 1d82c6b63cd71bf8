//! The ignore policy, the per-library index, the ordering of packages, and
//! the laws that relate them.
use vstd::prelude::*;
use vstd::multiset::Multiset;
use crate::cli::{regex_set_matches, CommandLineSettings};
use crate::data::{
    FileDependency, LibraryRequired, Package, PackagesContaining, ProcessingFileDependency,
    ProcessingPackage,
};
use crate::text::{contains_string, lemma_lex_le_antisymmetric, lemma_lex_le_total, lemma_lex_le_transitive, lex_le, lex_less_or_equal, views};

verus! {

/// Whether the ignore policy drops the library name `lib`: it is on the
/// ignore list, it is the name of a file of the same package, or it matches
/// one of the ignore patterns.
pub open spec fn ignored(
    lib: Seq<char>,
    filenames: Seq<Seq<char>>,
    ignore: Seq<Seq<char>>,
    patterns: Option<Seq<Seq<char>>>,
) -> bool {
    ignore.contains(lib) || filenames.contains(lib) || (patterns matches Some(p)
        && regex_set_matches(p, lib))
}

/// The library names that the ignore policy keeps, in their order.
pub open spec fn kept_libraries(
    libs: Seq<Seq<char>>,
    filenames: Seq<Seq<char>>,
    ignore: Seq<Seq<char>>,
    patterns: Option<Seq<Seq<char>>>,
) -> Seq<Seq<char>>
    decreases libs.len(),
{
    if libs.len() == 0 {
        Seq::empty()
    } else {
        let rest = kept_libraries(libs.drop_last(), filenames, ignore, patterns);
        if ignored(libs.last(), filenames, ignore, patterns) {
            rest
        } else {
            rest.push(libs.last())
        }
    }
}

/// The file records that the ignore policy keeps, as (file, libraries): each
/// with the libraries that it keeps, and only those that keep some library.
pub open spec fn kept_dependencies(
    deps: Seq<(Seq<char>, Seq<Seq<char>>)>,
    filenames: Seq<Seq<char>>,
    ignore: Seq<Seq<char>>,
    patterns: Option<Seq<Seq<char>>>,
) -> Seq<(Seq<char>, Seq<Seq<char>>)>
    decreases deps.len(),
{
    if deps.len() == 0 {
        Seq::empty()
    } else {
        let rest = kept_dependencies(deps.drop_last(), filenames, ignore, patterns);
        let libs = kept_libraries(deps.last().1, filenames, ignore, patterns);
        if libs.len() == 0 {
            rest
        } else {
            rest.push((deps.last().0, libs))
        }
    }
}

/// A file record as (file, libraries).
pub open spec fn dep_view(d: ProcessingFileDependency) -> (Seq<char>, Seq<Seq<char>>) {
    (d.file_name@, views(d.library_dependencies@))
}

/// The file records as (file, libraries).
pub open spec fn dep_views(deps: Seq<ProcessingFileDependency>) -> Seq<(Seq<char>, Seq<Seq<char>>)> {
    deps.map_values(|d: ProcessingFileDependency| dep_view(d))
}

/// The ignore patterns of the settings, if any.
pub open spec fn settings_patterns(settings: CommandLineSettings) -> Option<Seq<Seq<char>>> {
    match settings.ignore_libraries_regex {
        Some(p) => Some(p@),
        None => None,
    }
}

/// Whether the ignore policy drops `lib`, given whether an ignore pattern
/// matches it.
pub fn library_is_ignored(
    lib: &String,
    filenames: &Vec<String>,
    ignore_libraries: &Vec<String>,
    matches_pattern: bool,
) -> (r: bool)
    ensures
        r == (views(ignore_libraries@).contains(lib@) || views(filenames@).contains(lib@)
            || matches_pattern),
{
    contains_string(ignore_libraries, lib) || contains_string(filenames, lib) || matches_pattern
}

/// Whether the ignore policy drops `lib`.
fn is_ignored(lib: &String, filenames: &Vec<String>, settings: &CommandLineSettings) -> (r: bool)
    ensures
        r == ignored(
            lib@,
            views(filenames@),
            views(settings.ignore_libraries@),
            settings_patterns(*settings),
        ),
{
    let matches_pattern = match &settings.ignore_libraries_regex {
        Some(patterns) => patterns.is_match(lib.as_str()),
        None => false,
    };
    library_is_ignored(lib, filenames, &settings.ignore_libraries, matches_pattern)
}

/// The libraries of `libs` that the ignore policy keeps.
fn keep_libraries(libs: &Vec<String>, filenames: &Vec<String>, settings: &CommandLineSettings) -> (r:
    Vec<String>)
    ensures
        views(r@) == kept_libraries(
            views(libs@),
            views(filenames@),
            views(settings.ignore_libraries@),
            settings_patterns(*settings),
        ),
{
    let ghost f = views(filenames@);
    let ghost ig = views(settings.ignore_libraries@);
    let ghost p = settings_patterns(*settings);
    let mut r: Vec<String> = Vec::new();
    let mut i: usize = 0;
    while i < libs.len()
        invariant
            i <= libs@.len(),
            f == views(filenames@),
            ig == views(settings.ignore_libraries@),
            p == settings_patterns(*settings),
            views(r@) == kept_libraries(views(libs@).take(i as int), f, ig, p),
        decreases libs@.len() - i,
    {
        let lib = &libs[i];
        let dropped = is_ignored(lib, filenames, settings);
        proof {
            assert(views(libs@).take(i + 1).drop_last() =~= views(libs@).take(i as int));
            assert(views(libs@).take(i + 1).last() == lib@);
        }
        if !dropped {
            r.push(lib.clone());
            assert(views(r@) =~= kept_libraries(views(libs@).take(i as int), f, ig, p).push(lib@));
        }
        i = i + 1;
    }
    assert(views(libs@).take(libs@.len() as int) =~= views(libs@));
    r
}

/// The ignore policy keeps a name exactly when it is among the names and not
/// dropped by the policy.
pub proof fn lemma_kept_libraries_contains(
    libs: Seq<Seq<char>>,
    filenames: Seq<Seq<char>>,
    ignore: Seq<Seq<char>>,
    patterns: Option<Seq<Seq<char>>>,
    x: Seq<char>,
)
    ensures
        kept_libraries(libs, filenames, ignore, patterns).contains(x) <==> (libs.contains(x)
            && !ignored(x, filenames, ignore, patterns)),
    decreases libs.len(),
{
    if libs.len() > 0 {
        let init = libs.drop_last();
        lemma_kept_libraries_contains(init, filenames, ignore, patterns, x);
        let rest = kept_libraries(init, filenames, ignore, patterns);
        assert(libs =~= init.push(libs.last()));
        if libs.contains(x) && x != libs.last() {
            let k = choose|k: int| 0 <= k < libs.len() && libs[k] == x;
            assert(init[k] == x);
        }
        if init.contains(x) {
            let k = choose|k: int| 0 <= k < init.len() && init[k] == x;
            assert(libs[k] == x);
        }
        if !ignored(libs.last(), filenames, ignore, patterns) {
            let r = rest.push(libs.last());
            if r.contains(x) && x != libs.last() {
                let k = choose|k: int| 0 <= k < r.len() && r[k] == x;
                assert(rest[k] == x);
            }
            if rest.contains(x) {
                let k = choose|k: int| 0 <= k < rest.len() && rest[k] == x;
                assert(r[k] == x);
            }
            assert(r[r.len() - 1] == libs.last());
        }
    }
}

/// The names that the ignore policy keeps from a set form a set.
pub proof fn lemma_kept_libraries_no_duplicates(
    libs: Seq<Seq<char>>,
    filenames: Seq<Seq<char>>,
    ignore: Seq<Seq<char>>,
    patterns: Option<Seq<Seq<char>>>,
)
    requires
        libs.no_duplicates(),
    ensures
        kept_libraries(libs, filenames, ignore, patterns).no_duplicates(),
    decreases libs.len(),
{
    if libs.len() > 0 {
        let init = libs.drop_last();
        assert(init.no_duplicates()) by {
            assert forall|a: int, b: int| 0 <= a < init.len() && 0 <= b < init.len() && a != b
                implies init[a] != init[b] by {
                assert(init[a] == libs[a] && init[b] == libs[b]);
            }
        }
        lemma_kept_libraries_no_duplicates(init, filenames, ignore, patterns);
        let rest = kept_libraries(init, filenames, ignore, patterns);
        if !ignored(libs.last(), filenames, ignore, patterns) {
            lemma_kept_libraries_contains(init, filenames, ignore, patterns, libs.last());
            assert(!init.contains(libs.last())) by {
                if init.contains(libs.last()) {
                    let k = choose|k: int| 0 <= k < init.len() && init[k] == libs.last();
                    assert(libs[k] == libs[libs.len() - 1]);
                }
            }
            let r = rest.push(libs.last());
            assert forall|a: int, b: int| 0 <= a < r.len() && 0 <= b < r.len() && a != b
                implies r[a] != r[b] by {
                if a == r.len() - 1 {
                    assert(rest.contains(r[b]));
                } else if b == r.len() - 1 {
                    assert(rest.contains(r[a]));
                }
            }
        }
    }
}

/// Every file record that the ignore policy keeps still names a library.
pub proof fn law_kept_records_are_nonempty(
    deps: Seq<(Seq<char>, Seq<Seq<char>>)>,
    filenames: Seq<Seq<char>>,
    ignore: Seq<Seq<char>>,
    patterns: Option<Seq<Seq<char>>>,
)
    ensures
        forall|k: int|
            0 <= k < kept_dependencies(deps, filenames, ignore, patterns).len()
                ==> #[trigger] kept_dependencies(deps, filenames, ignore, patterns)[k].1.len() > 0,
    decreases deps.len(),
{
    if deps.len() > 0 {
        law_kept_records_are_nonempty(deps.drop_last(), filenames, ignore, patterns);
        let rest = kept_dependencies(deps.drop_last(), filenames, ignore, patterns);
        let libs = kept_libraries(deps.last().1, filenames, ignore, patterns);
        let all = kept_dependencies(deps, filenames, ignore, patterns);
        assert forall|k: int| 0 <= k < all.len() implies #[trigger] all[k].1.len() > 0 by {
            if k < rest.len() {
                assert(all[k] == rest[k]);
            }
        }
    }
}

/// Applies the ignore policy to the file records of `package`: each keeps
/// only the libraries that the policy does not drop, and a record left with
/// none is removed. `filenames` are the base names of the package's files.
pub fn remove_ignored_or_packaged_libraries(
    package: &mut ProcessingPackage,
    filenames: &Vec<String>,
    settings: &CommandLineSettings,
)
    ensures
        final(package).name == old(package).name,
        dep_views(final(package).file_dependencies@) == kept_dependencies(
            dep_views(old(package).file_dependencies@),
            views(filenames@),
            views(settings.ignore_libraries@),
            settings_patterns(*settings),
        ),
        forall|k: int|
            0 <= k < final(package).file_dependencies@.len()
                ==> #[trigger] final(package).file_dependencies@[k].library_dependencies@.len() > 0,
        (forall|k: int|
            0 <= k < old(package).file_dependencies@.len()
                ==> (#[trigger] old(package).file_dependencies@[k]).wf()) ==> (forall|k: int|
            0 <= k < final(package).file_dependencies@.len()
                ==> (#[trigger] final(package).file_dependencies@[k]).wf()),
{
    let ghost f = views(filenames@);
    let ghost ig = views(settings.ignore_libraries@);
    let ghost p = settings_patterns(*settings);
    let ghost all_wf = forall|k: int|
        0 <= k < package.file_dependencies@.len() ==> (#[trigger] package.file_dependencies@[k]).wf();
    let mut kept: Vec<ProcessingFileDependency> = Vec::new();
    let mut i: usize = 0;
    let n = package.file_dependencies.len();
    while i < n
        invariant
            n == package.file_dependencies@.len(),
            i <= n,
            f == views(filenames@),
            ig == views(settings.ignore_libraries@),
            p == settings_patterns(*settings),
            all_wf == forall|k: int|
                0 <= k < package.file_dependencies@.len()
                    ==> (#[trigger] package.file_dependencies@[k]).wf(),
            dep_views(kept@) == kept_dependencies(
                dep_views(package.file_dependencies@).take(i as int),
                f,
                ig,
                p,
            ),
            forall|k: int| 0 <= k < kept@.len() ==> #[trigger] kept@[k].library_dependencies@.len() > 0,
            all_wf ==> forall|k: int| 0 <= k < kept@.len() ==> (#[trigger] kept@[k]).wf(),
        decreases n - i,
    {
        let dep = &package.file_dependencies[i];
        let libs = keep_libraries(&dep.library_dependencies, filenames, settings);
        proof {
            let all = dep_views(package.file_dependencies@);
            assert(all.take(i + 1).drop_last() =~= all.take(i as int));
            assert(all.take(i + 1).last() == dep_view(*dep));
            if all_wf {
                assert(dep.wf());
                lemma_kept_libraries_no_duplicates(views(dep.library_dependencies@), f, ig, p);
            }
        }
        if libs.len() > 0 {
            let ghost before = kept@;
            kept.push(ProcessingFileDependency { file_name: dep.file_name.clone(), library_dependencies: libs });
            proof {
                assert(dep_views(kept@) =~= dep_views(before).push(
                    (dep.file_name@, views(libs@)),
                ));
                assert(kept@[kept@.len() - 1].library_dependencies@.len() > 0);
            }
        }
        i = i + 1;
    }
    proof {
        assert(dep_views(package.file_dependencies@).take(n as int) =~= dep_views(package.file_dependencies@));
    }
    package.file_dependencies = kept;
}

/// Each kept file record is an input record with the libraries that it
/// keeps, and each input record that keeps a library is among the kept ones.
pub proof fn lemma_kept_dependencies_members(
    deps: Seq<(Seq<char>, Seq<Seq<char>>)>,
    filenames: Seq<Seq<char>>,
    ignore: Seq<Seq<char>>,
    patterns: Option<Seq<Seq<char>>>,
)
    ensures
        forall|k: int|
            0 <= k < kept_dependencies(deps, filenames, ignore, patterns).len() ==> exists|j: int|
                0 <= j < deps.len() && #[trigger] kept_dependencies(
                    deps,
                    filenames,
                    ignore,
                    patterns,
                )[k] == (deps[j].0, kept_libraries(deps[j].1, filenames, ignore, patterns)),
        forall|j: int|
            0 <= j < deps.len() && kept_libraries(#[trigger] deps[j].1, filenames, ignore, patterns).len()
                > 0 ==> exists|k: int|
                0 <= k < kept_dependencies(deps, filenames, ignore, patterns).len()
                    && kept_dependencies(deps, filenames, ignore, patterns)[k] == (
                    deps[j].0,
                    kept_libraries(deps[j].1, filenames, ignore, patterns),
                ),
    decreases deps.len(),
{
    if deps.len() > 0 {
        let init = deps.drop_last();
        lemma_kept_dependencies_members(init, filenames, ignore, patterns);
        let rest = kept_dependencies(init, filenames, ignore, patterns);
        let all = kept_dependencies(deps, filenames, ignore, patterns);
        let libs = kept_libraries(deps.last().1, filenames, ignore, patterns);
        assert forall|k: int| 0 <= k < all.len() implies exists|j: int|
            0 <= j < deps.len() && #[trigger] all[k] == (
                deps[j].0,
                kept_libraries(deps[j].1, filenames, ignore, patterns),
            ) by {
            if k < rest.len() {
                assert(all[k] == rest[k]);
                let j = choose|j: int|
                    0 <= j < init.len() && #[trigger] rest[k] == (
                        init[j].0,
                        kept_libraries(init[j].1, filenames, ignore, patterns),
                    );
                assert(deps[j] == init[j]);
            } else {
                assert(all[k] == (deps[deps.len() - 1].0, libs));
            }
        }
        assert forall|j: int|
            0 <= j < deps.len() && kept_libraries(#[trigger] deps[j].1, filenames, ignore, patterns).len()
                > 0 implies exists|k: int|
            0 <= k < all.len() && all[k] == (
                deps[j].0,
                kept_libraries(deps[j].1, filenames, ignore, patterns),
            ) by {
            if j < init.len() {
                assert(init[j] == deps[j]);
                assert(kept_libraries(init[j].1, filenames, ignore, patterns).len() > 0);
                let k = choose|k: int|
                    0 <= k < rest.len() && rest[k] == (
                        init[j].0,
                        kept_libraries(init[j].1, filenames, ignore, patterns),
                    );
                assert(all[k] == rest[k]);
            } else {
                assert(all[all.len() - 1] == (deps[j].0, libs));
            }
        }
    }
}

/// Applying the ignore policy to the names that it kept keeps them all.
pub proof fn lemma_kept_libraries_idempotent(
    libs: Seq<Seq<char>>,
    filenames: Seq<Seq<char>>,
    ignore: Seq<Seq<char>>,
    patterns: Option<Seq<Seq<char>>>,
)
    ensures
        kept_libraries(kept_libraries(libs, filenames, ignore, patterns), filenames, ignore, patterns)
            == kept_libraries(libs, filenames, ignore, patterns),
    decreases libs.len(),
{
    if libs.len() > 0 {
        let init = libs.drop_last();
        lemma_kept_libraries_idempotent(init, filenames, ignore, patterns);
        let rest = kept_libraries(init, filenames, ignore, patterns);
        if !ignored(libs.last(), filenames, ignore, patterns) {
            let r = rest.push(libs.last());
            assert(r.drop_last() =~= rest);
        }
    }
}

/// The ignore policy is idempotent: applying it to its own result changes
/// nothing.
pub proof fn law_ignore_policy_idempotent(
    deps: Seq<(Seq<char>, Seq<Seq<char>>)>,
    filenames: Seq<Seq<char>>,
    ignore: Seq<Seq<char>>,
    patterns: Option<Seq<Seq<char>>>,
)
    ensures
        kept_dependencies(
            kept_dependencies(deps, filenames, ignore, patterns),
            filenames,
            ignore,
            patterns,
        ) == kept_dependencies(deps, filenames, ignore, patterns),
    decreases deps.len(),
{
    if deps.len() > 0 {
        let init = deps.drop_last();
        law_ignore_policy_idempotent(init, filenames, ignore, patterns);
        let rest = kept_dependencies(init, filenames, ignore, patterns);
        let libs = kept_libraries(deps.last().1, filenames, ignore, patterns);
        if libs.len() > 0 {
            lemma_kept_libraries_idempotent(deps.last().1, filenames, ignore, patterns);
            let r = rest.push((deps.last().0, libs));
            assert(r.drop_last() =~= rest);
        }
    }
}

/// No kept file record names a library that the ignore policy drops.
pub proof fn lemma_dropped_never_kept(
    deps: Seq<(Seq<char>, Seq<Seq<char>>)>,
    filenames: Seq<Seq<char>>,
    ignore: Seq<Seq<char>>,
    patterns: Option<Seq<Seq<char>>>,
    lib: Seq<char>,
)
    requires
        ignored(lib, filenames, ignore, patterns),
    ensures
        forall|k: int|
            0 <= k < kept_dependencies(deps, filenames, ignore, patterns).len()
                ==> !(#[trigger] kept_dependencies(deps, filenames, ignore, patterns)[k]).1.contains(
                lib,
            ),
{
    lemma_kept_dependencies_members(deps, filenames, ignore, patterns);
    let all = kept_dependencies(deps, filenames, ignore, patterns);
    assert forall|k: int| 0 <= k < all.len() implies !(#[trigger] all[k]).1.contains(lib) by {
        let j = choose|j: int|
            0 <= j < deps.len() && #[trigger] all[k] == (
                deps[j].0,
                kept_libraries(deps[j].1, filenames, ignore, patterns),
            );
        lemma_kept_libraries_contains(deps[j].1, filenames, ignore, patterns, lib);
    }
}

/// A library name equal to an entry of the ignore list appears in no kept
/// file record, however many files name it.
pub proof fn law_ignore_list_entries_never_kept(
    deps: Seq<(Seq<char>, Seq<Seq<char>>)>,
    filenames: Seq<Seq<char>>,
    ignore: Seq<Seq<char>>,
    patterns: Option<Seq<Seq<char>>>,
    lib: Seq<char>,
)
    requires
        ignore.contains(lib),
    ensures
        forall|k: int|
            0 <= k < kept_dependencies(deps, filenames, ignore, patterns).len()
                ==> !(#[trigger] kept_dependencies(deps, filenames, ignore, patterns)[k]).1.contains(
                lib,
            ),
{
    lemma_dropped_never_kept(deps, filenames, ignore, patterns, lib);
}

/// A library name that an ignore pattern matches appears in no kept file
/// record.
pub proof fn law_pattern_matches_never_kept(
    deps: Seq<(Seq<char>, Seq<Seq<char>>)>,
    filenames: Seq<Seq<char>>,
    ignore: Seq<Seq<char>>,
    patterns: Seq<Seq<char>>,
    lib: Seq<char>,
)
    requires
        regex_set_matches(patterns, lib),
    ensures
        forall|k: int|
            0 <= k < kept_dependencies(deps, filenames, ignore, Some(patterns)).len()
                ==> !(#[trigger] kept_dependencies(
                deps,
                filenames,
                ignore,
                Some(patterns),
            )[k]).1.contains(lib),
{
    lemma_dropped_never_kept(deps, filenames, ignore, Some(patterns), lib);
}

/// A library name that no ignore pattern matches, that is not on the ignore
/// list and not a file of the package, is left alone: every file that names
/// it keeps a record that still names it.
pub proof fn law_unmatched_names_unaffected(
    deps: Seq<(Seq<char>, Seq<Seq<char>>)>,
    filenames: Seq<Seq<char>>,
    ignore: Seq<Seq<char>>,
    patterns: Option<Seq<Seq<char>>>,
    lib: Seq<char>,
)
    requires
        !ignore.contains(lib),
        !filenames.contains(lib),
        patterns matches Some(p) ==> !regex_set_matches(p, lib),
    ensures
        forall|j: int|
            0 <= j < deps.len() && (#[trigger] deps[j]).1.contains(lib) ==> exists|k: int|
                0 <= k < kept_dependencies(deps, filenames, ignore, patterns).len()
                    && kept_dependencies(deps, filenames, ignore, patterns)[k].0 == deps[j].0
                    && kept_dependencies(deps, filenames, ignore, patterns)[k].1.contains(lib),
{
    lemma_kept_dependencies_members(deps, filenames, ignore, patterns);
    let all = kept_dependencies(deps, filenames, ignore, patterns);
    assert forall|j: int| 0 <= j < deps.len() && (#[trigger] deps[j]).1.contains(lib) implies exists|
        k: int,
    | 0 <= k < all.len() && all[k].0 == deps[j].0 && all[k].1.contains(lib) by {
        lemma_kept_libraries_contains(deps[j].1, filenames, ignore, patterns, lib);
        let libs = kept_libraries(deps[j].1, filenames, ignore, patterns);
        assert(libs.len() > 0);
        let k = choose|k: int| 0 <= k < all.len() && all[k] == (deps[j].0, libs);
        assert(all[k].1.contains(lib));
    }
}

/// Whether some file record names `file` as failing to resolve `lib`.
pub open spec fn requires_library(deps: Seq<FileDependency>, file: Seq<char>, lib: Seq<char>) -> bool {
    exists|a: int|
        0 <= a < deps.len() && deps[a].file_name@ == file && #[trigger] views(
            deps[a].library_dependencies@,
        ).contains(lib)
}

/// Whether the entry for `lib` in the per-library index lists `file`.
pub open spec fn lists_file(reqs: Seq<LibraryRequired>, file: Seq<char>, lib: Seq<char>) -> bool {
    exists|k: int|
        0 <= k < reqs.len() && reqs[k].library_name@ == lib && #[trigger] views(
            reqs[k].files_requiring@,
        ).contains(file)
}

/// The per-library index is keyed by library: no library has two entries,
/// and each entry lists at least one file and no file twice.
pub open spec fn requirements_wf(reqs: Seq<LibraryRequired>) -> bool {
    &&& forall|a: int, b: int|
        0 <= a < reqs.len() && 0 <= b < reqs.len() && a != b ==> #[trigger] reqs[a].library_name@
            != #[trigger] reqs[b].library_name@
    &&& forall|a: int|
        0 <= a < reqs.len() ==> views((#[trigger] reqs[a]).files_requiring@).no_duplicates()
            && reqs[a].files_requiring@.len() > 0
}

/// Records in the per-library index that `file` fails to resolve `lib`.
fn add_requirement(reqs: &mut Vec<LibraryRequired>, lib: &String, file: &String)
    requires
        requirements_wf(old(reqs)@),
    ensures
        requirements_wf(final(reqs)@),
        forall|f: Seq<char>, l: Seq<char>|
            #[trigger] lists_file(final(reqs)@, f, l) <==> (lists_file(old(reqs)@, f, l) || (f
                == file@ && l == lib@)),
{
    let ghost before = reqs@;
    let mut k: usize = 0;
    while k < reqs.len()
        invariant
            reqs@ == before,
            before == old(reqs)@,
            requirements_wf(before),
            k <= reqs@.len(),
            forall|m: int| 0 <= m < k ==> #[trigger] reqs@[m].library_name@ != lib@,
        decreases reqs@.len() - k,
    {
        if reqs[k].library_name == *lib {
            if !contains_string(&reqs[k].files_requiring, file) {
                let mut entry = reqs.remove(k);
                let ghost old_files = entry.files_requiring@;
                entry.files_requiring.push(file.clone());
                reqs.insert(k, entry);
                proof {
                    assert(views(entry.files_requiring@) =~= views(old_files).push(file@));
                    assert forall|a: int| 0 <= a < reqs@.len() implies #[trigger] reqs@[a]
                        == if a == k {
                        entry
                    } else {
                        before[a]
                    } by {}
                    let nf = views(entry.files_requiring@);
                    assert(old_files == before[k as int].files_requiring@);
                    assert(views(old_files).no_duplicates());
                    assert(!views(old_files).contains(file@));
                    assert(nf.no_duplicates()) by {
                        assert forall|x: int, y: int| 0 <= x < nf.len() && 0 <= y < nf.len() && x != y
                            implies nf[x] != nf[y] by {
                            if x == nf.len() - 1 {
                                assert(views(old_files)[y] == nf[y]);
                            } else if y == nf.len() - 1 {
                                assert(views(old_files)[x] == nf[x]);
                            } else {
                                assert(views(old_files)[x] == nf[x]);
                                assert(views(old_files)[y] == nf[y]);
                            }
                        }
                    }
                    assert(entry.library_name == before[k as int].library_name);
                    assert(requirements_wf(reqs@)) by {
                        assert forall|a: int, b: int|
                            0 <= a < reqs@.len() && 0 <= b < reqs@.len() && a != b implies #[trigger] reqs@[a].library_name@
                                != #[trigger] reqs@[b].library_name@ by {
                            assert(reqs@[a].library_name == before[a].library_name);
                            assert(reqs@[b].library_name == before[b].library_name);
                        }
                        assert forall|a: int| 0 <= a < reqs@.len() implies views(
                            (#[trigger] reqs@[a]).files_requiring@,
                        ).no_duplicates() && reqs@[a].files_requiring@.len() > 0 by {
                            if a != k {
                                assert(reqs@[a] == before[a]);
                            }
                        }
                    }
                    assert forall|f: Seq<char>, l: Seq<char>| #[trigger]
                        lists_file(reqs@, f, l) <==> (lists_file(before, f, l) || (f == file@ && l
                            == lib@)) by {
                        if lists_file(reqs@, f, l) {
                            let m = choose|m: int|
                                0 <= m < reqs@.len() && reqs@[m].library_name@ == l
                                    && #[trigger] views(reqs@[m].files_requiring@).contains(f);
                            if m != k {
                                assert(views(before[m].files_requiring@).contains(f));
                            } else if f != file@ {
                                let x = choose|x: int| 0 <= x < nf.len() && nf[x] == f;
                                assert(views(old_files)[x] == f);
                                assert(views(before[m].files_requiring@).contains(f));
                            }
                        }
                        if lists_file(before, f, l) {
                            let m = choose|m: int|
                                0 <= m < before.len() && before[m].library_name@ == l
                                    && #[trigger] views(before[m].files_requiring@).contains(f);
                            if m == k {
                                let x = choose|x: int| 0 <= x < views(old_files).len() && views(old_files)[x] == f;
                                assert(nf[x] == f);
                                assert(views(reqs@[m].files_requiring@).contains(f));
                            } else {
                                assert(views(reqs@[m].files_requiring@).contains(f));
                            }
                        }
                        if f == file@ && l == lib@ {
                            assert(nf[nf.len() - 1] == f);
                            assert(views(reqs@[k as int].files_requiring@).contains(f));
                            assert(lists_file(reqs@, f, l));
                        }
                    }
                }
            } else {
                proof {
                    assert forall|f: Seq<char>, l: Seq<char>| #[trigger]
                        lists_file(reqs@, f, l) <==> (lists_file(before, f, l) || (f == file@ && l
                            == lib@)) by {
                        if f == file@ && l == lib@ {
                            assert(reqs@[k as int].library_name@ == l);
                            assert(views(reqs@[k as int].files_requiring@).contains(f));
                            assert(lists_file(reqs@, f, l));
                        }
                    }
                }
            }
            return;
        }
        k = k + 1;
    }
    let mut files: Vec<String> = Vec::new();
    files.push(file.clone());
    reqs.push(LibraryRequired { library_name: lib.clone(), files_requiring: files });
    proof {
        let n = before.len();
        assert forall|a: int| 0 <= a < n implies #[trigger] reqs@[a] == before[a] by {}
        assert(views(files@) =~= seq![file@]);
        assert(requirements_wf(reqs@)) by {
            assert forall|a: int, b: int|
                0 <= a < reqs@.len() && 0 <= b < reqs@.len() && a != b implies #[trigger] reqs@[a].library_name@
                    != #[trigger] reqs@[b].library_name@ by {
                assert(reqs@[n as int].library_name@ == lib@);
                if a == n {
                    assert(reqs@[b] == before[b]);
                    assert(before[b].library_name@ != lib@);
                } else if b == n {
                    assert(reqs@[a] == before[a]);
                    assert(before[a].library_name@ != lib@);
                } else {
                    assert(reqs@[a] == before[a] && reqs@[b] == before[b]);
                }
            }
            assert forall|a: int| 0 <= a < reqs@.len() implies views(
                (#[trigger] reqs@[a]).files_requiring@,
            ).no_duplicates() && reqs@[a].files_requiring@.len() > 0 by {
                if a < n {
                    assert(reqs@[a] == before[a]);
                }
            }
        }
        assert forall|f: Seq<char>, l: Seq<char>| #[trigger] lists_file(reqs@, f, l) <==> (
        lists_file(before, f, l) || (f == file@ && l == lib@)) by {
            if lists_file(reqs@, f, l) {
                let m = choose|m: int|
                    0 <= m < reqs@.len() && reqs@[m].library_name@ == l && #[trigger] views(
                        reqs@[m].files_requiring@,
                    ).contains(f);
                if m < n {
                    assert(views(before[m].files_requiring@).contains(f));
                } else {
                    let x = choose|x: int| 0 <= x < views(files@).len() && views(files@)[x] == f;
                }
            }
            if lists_file(before, f, l) {
                let m = choose|m: int|
                    0 <= m < before.len() && before[m].library_name@ == l && #[trigger] views(
                        before[m].files_requiring@,
                    ).contains(f);
                assert(views(reqs@[m].files_requiring@).contains(f));
            }
            if f == file@ && l == lib@ {
                assert(views(files@)[0] == f);
                assert(views(reqs@[n as int].files_requiring@).contains(f));
            }
        }
    }
}

spec fn processed(deps: Seq<FileDependency>, i: int, j: int, file: Seq<char>, lib: Seq<char>) -> bool {
    requires_library(deps.take(i), file, lib) || (0 <= i < deps.len() && deps[i].file_name@ == file
        && views(deps[i].library_dependencies@).take(j).contains(lib))
}

proof fn lemma_take_one_more_contains(s: Seq<Seq<char>>, j: int, x: Seq<char>)
    requires
        0 <= j < s.len(),
    ensures
        s.take(j + 1).contains(x) <==> (s.take(j).contains(x) || s[j] == x),
{
    if s.take(j + 1).contains(x) {
        let t = s.take(j + 1);
        let k = choose|k: int| 0 <= k < t.len() && t[k] == x;
        if k < j {
            assert(s.take(j)[k] == x);
        }
    }
    if s.take(j).contains(x) {
        let t = s.take(j);
        let k = choose|k: int| 0 <= k < t.len() && t[k] == x;
        assert(s.take(j + 1)[k] == x);
    }
    if s[j] == x {
        assert(s.take(j + 1)[j] == x);
    }
}

proof fn lemma_requires_library_one_more(deps: Seq<FileDependency>, i: int, f: Seq<char>, l: Seq<char>)
    requires
        0 <= i < deps.len(),
    ensures
        requires_library(deps.take(i + 1), f, l) <==> (requires_library(deps.take(i), f, l) || (
        deps[i].file_name@ == f && views(deps[i].library_dependencies@).contains(l))),
{
    let next = deps.take(i + 1);
    let prev = deps.take(i);
    if requires_library(next, f, l) {
        let a = choose|a: int|
            0 <= a < next.len() && next[a].file_name@ == f && #[trigger] views(
                next[a].library_dependencies@,
            ).contains(l);
        if a < i {
            assert(prev[a] == next[a]);
        }
    }
    if requires_library(prev, f, l) {
        let a = choose|a: int|
            0 <= a < prev.len() && prev[a].file_name@ == f && #[trigger] views(
                prev[a].library_dependencies@,
            ).contains(l);
        assert(next[a] == prev[a]);
    }
    if deps[i].file_name@ == f && views(deps[i].library_dependencies@).contains(l) {
        assert(next[i] == deps[i]);
    }
}

/// Builds the per-library index of `package` by inverting its file records:
/// one entry for each library that some file fails to resolve, listing
/// exactly the files that fail to resolve it, each once.
pub fn setup_library_requirements(package: &mut Package)
    ensures
        final(package).name == old(package).name,
        final(package).file_dependencies == old(package).file_dependencies,
        final(package).packages_containing == old(package).packages_containing,
        requirements_wf(final(package).library_requirements@),
        forall|f: Seq<char>, l: Seq<char>|
            #[trigger] lists_file(final(package).library_requirements@, f, l) <==> requires_library(
                old(package).file_dependencies@,
                f,
                l,
            ),
{
    let ghost deps = package.file_dependencies@;
    let mut reqs: Vec<LibraryRequired> = Vec::new();
    let n = package.file_dependencies.len();
    let mut i: usize = 0;
    while i < n
        invariant
            deps == package.file_dependencies@,
            n == deps.len(),
            i <= n,
            requirements_wf(reqs@),
            forall|f: Seq<char>, l: Seq<char>|
                #[trigger] lists_file(reqs@, f, l) <==> requires_library(deps.take(i as int), f, l),
        decreases n - i,
    {
        let dep = &package.file_dependencies[i];
        let m = dep.library_dependencies.len();
        let mut j: usize = 0;
        assert forall|f: Seq<char>, l: Seq<char>| #[trigger] lists_file(reqs@, f, l) <==> processed(
            deps,
            i as int,
            0,
            f,
            l,
        ) by {
            assert(views(deps[i as int].library_dependencies@).take(0) =~= Seq::<Seq<char>>::empty());
        }
        while j < m
            invariant
                deps == package.file_dependencies@,
                n == deps.len(),
                i < n,
                *dep == deps[i as int],
                m == dep.library_dependencies@.len(),
                j <= m,
                requirements_wf(reqs@),
                forall|f: Seq<char>, l: Seq<char>|
                    #[trigger] lists_file(reqs@, f, l) <==> processed(deps, i as int, j as int, f, l),
            decreases m - j,
        {
            let ghost before = reqs@;
            add_requirement(&mut reqs, &dep.library_dependencies[j], &dep.file_name);
            assert forall|f: Seq<char>, l: Seq<char>| #[trigger] lists_file(reqs@, f, l) <==> processed(
                deps,
                i as int,
                j + 1,
                f,
                l,
            ) by {
                lemma_take_one_more_contains(views(dep.library_dependencies@), j as int, l);
                assert(lists_file(before, f, l) <==> processed(deps, i as int, j as int, f, l));
            }
            j = j + 1;
        }
        assert forall|f: Seq<char>, l: Seq<char>| #[trigger] lists_file(reqs@, f, l)
            <==> requires_library(deps.take(i + 1), f, l) by {
            lemma_requires_library_one_more(deps, i as int, f, l);
            assert(views(dep.library_dependencies@).take(m as int) =~= views(dep.library_dependencies@));
            assert(lists_file(reqs@, f, l) <==> processed(deps, i as int, m as int, f, l));
        }
        i = i + 1;
    }
    assert(deps.take(n as int) =~= deps);
    package.library_requirements = reqs;
}

/// Whether the packages come in the order of their names.
pub open spec fn sorted_by_name(s: Seq<Package>) -> bool {
    forall|a: int, b: int|
        0 <= a < b < s.len() ==> lex_le(#[trigger] s[a].name@, #[trigger] s[b].name@)
}

/// The same packages, ordered by name.
pub fn sort_packages(packages: Vec<Package>) -> (r: Vec<Package>)
    ensures
        sorted_by_name(r@),
        r@.len() == packages@.len(),
        r@.to_multiset() == packages@.to_multiset(),
{
    broadcast use vstd::seq_lib::group_to_multiset_ensures, vstd::multiset::group_multiset_axioms;

    let ghost all = packages@;
    let mut rest = packages;
    let mut out: Vec<Package> = Vec::new();
    assert(out@.to_multiset() =~= Multiset::empty());
    while rest.len() > 0
        invariant
            sorted_by_name(out@),
            out@.to_multiset().add(rest@.to_multiset()) == all.to_multiset(),
        decreases rest@.len(),
    {
        let ghost before_rest = rest@;
        match rest.pop() {
            Some(x) => {
                proof {
                    assert(before_rest =~= rest@.push(x));
                    vstd::seq_lib::to_multiset_build(rest@, x);
                    assert(before_rest.to_multiset() =~= rest@.to_multiset().insert(x));
                }
                let mut p: usize = 0;
                while p < out.len() && lex_less_or_equal(out[p].name.as_str(), x.name.as_str())
                    invariant
                        p <= out@.len(),
                        forall|a: int| 0 <= a < p ==> lex_le(#[trigger] out@[a].name@, x.name@),
                    decreases out@.len() - p,
                {
                    p = p + 1;
                }
                let ghost before = out@;
                out.insert(p, x);
                proof {
                    assert(out@ == before.insert(p as int, x));
                    vstd::seq_lib::to_multiset_insert(before, p as int, x);
                    assert(out@.to_multiset() =~= before.to_multiset().insert(x));
                    assert(out@.to_multiset().add(rest@.to_multiset()) =~= before.to_multiset().add(
                        before_rest.to_multiset(),
                    ));
                    assert forall|a: int, b: int| 0 <= a < b < out@.len() implies lex_le(
                        #[trigger] out@[a].name@,
                        #[trigger] out@[b].name@,
                    ) by {
                        if b == p {
                            assert(out@[a] == before[a]);
                        } else if a == p {
                            assert(out@[b] == before[b - 1]);
                            lemma_lex_le_total(before[p as int].name@, x.name@);
                            if b - 1 > p {
                                lemma_lex_le_transitive(
                                    x.name@,
                                    before[p as int].name@,
                                    before[b - 1].name@,
                                );
                            }
                        } else if b < p {
                            assert(out@[a] == before[a] && out@[b] == before[b]);
                        } else if a < p {
                            assert(out@[a] == before[a] && out@[b] == before[b - 1]);
                        } else {
                            assert(out@[a] == before[a - 1] && out@[b] == before[b - 1]);
                        }
                    }
                }
            },
            None => {},
        }
    }
    assert(rest@.to_multiset() =~= Multiset::empty());
    assert(out@.to_multiset().add(rest@.to_multiset()) =~= out@.to_multiset());
    assert(out@.to_multiset().len() == out@.len() && all.to_multiset().len() == all.len());
    out
}

/// What `std::path::Path::file_name` gives for a path: its final component,
/// if it has one.
pub uninterp spec fn file_name_of(path: Seq<char>) -> Option<Seq<char>>;

/// Relies on `std::path::Path::file_name`: the final component of the path,
/// or none where the path ends in `..` or has no component (a root, or empty).
#[verifier::external_body]
fn file_name(path: &str) -> (r: Option<String>)
    ensures
        match r {
            Some(name) => file_name_of(path@) == Some(name@),
            None => file_name_of(path@) is None,
        },
{
    match std::path::Path::new(path).file_name() {
        Some(name) => Some(name.to_string_lossy().into_owned()),
        None => None,
    }
}

/// The final components of the paths that have one, in order.
pub open spec fn base_names(files: Seq<Seq<char>>) -> Seq<Seq<char>>
    decreases files.len(),
{
    if files.len() == 0 {
        Seq::empty()
    } else {
        let rest = base_names(files.drop_last());
        match file_name_of(files.last()) {
            Some(name) => rest.push(name),
            None => rest,
        }
    }
}

/// The base names of the files of a package.
pub fn get_filenames_from_files(files: &Vec<String>) -> (r: Vec<String>)
    ensures
        views(r@) == base_names(views(files@)),
{
    let mut r: Vec<String> = Vec::new();
    let mut i: usize = 0;
    while i < files.len()
        invariant
            i <= files@.len(),
            views(r@) == base_names(views(files@).take(i as int)),
        decreases files@.len() - i,
    {
        let name = file_name(files[i].as_str());
        proof {
            assert(views(files@).take(i + 1).drop_last() =~= views(files@).take(i as int));
            assert(views(files@).take(i + 1).last() == files@[i as int]@);
        }
        match name {
            Some(n) => {
                let ghost before = r@;
                r.push(n);
                assert(views(r@) =~= views(before).push(n@));
            },
            None => {},
        }
        i = i + 1;
    }
    assert(views(files@).take(files@.len() as int) =~= views(files@));
    r
}

/// The records of the files that reported missing libraries, in order.
pub open spec fn present(results: Seq<Option<ProcessingFileDependency>>) -> Seq<ProcessingFileDependency>
    decreases results.len(),
{
    if results.len() == 0 {
        Seq::empty()
    } else {
        let rest = present(results.drop_last());
        match results.last() {
            Some(d) => rest.push(d),
            None => rest,
        }
    }
}

/// The record of one package from the files that it owns and what checking
/// each of them found: the records found, with the ignore policy applied, in
/// which the package's own files count as present.
pub fn verify_package(
    package_name: &str,
    files: &Vec<String>,
    results: Vec<Option<ProcessingFileDependency>>,
    settings: &CommandLineSettings,
) -> (r: ProcessingPackage)
    ensures
        r.name@ == package_name@,
        dep_views(r.file_dependencies@) == kept_dependencies(
            dep_views(present(results@)),
            base_names(views(files@)),
            views(settings.ignore_libraries@),
            settings_patterns(*settings),
        ),
        forall|k: int|
            0 <= k < r.file_dependencies@.len() ==> #[trigger] r.file_dependencies@[k].library_dependencies@.len()
                > 0,
        (forall|k: int| 0 <= k < present(results@).len() ==> (#[trigger] present(results@)[k]).wf())
            ==> (forall|k: int| 0 <= k < r.file_dependencies@.len() ==> (
        #[trigger] r.file_dependencies@[k]).wf()),
{
    let filenames = get_filenames_from_files(files);
    let mut package = ProcessingPackage::new(package_name);
    let ghost all = results@;
    let mut found: Vec<ProcessingFileDependency> = Vec::new();
    let mut rest = results;
    let total = rest.len();
    let mut taken: usize = 0;
    while rest.len() > 0
        invariant
            rest@ == all.skip(taken as int),
            rest@.len() + taken == all.len(),
            all.len() == total,
            taken <= all.len(),
            found@ == present(all.take(taken as int)),
        decreases rest@.len(),
    {
        let item = rest.remove(0);
        proof {
            assert(all.take(taken + 1).drop_last() =~= all.take(taken as int));
            assert(all.take(taken + 1).last() == item);
        }
        match item {
            Some(d) => {
                found.push(d);
            },
            None => {},
        }
        proof {
            assert(rest@ =~= all.skip(taken + 1));
        }
        taken = taken + 1;
    }
    assert(all.take(taken as int) =~= all);
    package.file_dependencies = found;
    remove_ignored_or_packaged_libraries(&mut package, &filenames, settings);
    package
}

/// Whether the per-library index of the package inverts its file records.
pub open spec fn library_index_of(p: Package) -> bool {
    &&& requirements_wf(p.library_requirements@)
    &&& forall|f: Seq<char>, l: Seq<char>|
        #[trigger] lists_file(p.library_requirements@, f, l) <==> requires_library(
            p.file_dependencies@,
            f,
            l,
        )
}

/// Whether the providing-package index is either not built, or has one entry
/// for each entry of the per-library index, for the same library.
pub open spec fn containing_index_of(p: Package) -> bool {
    p.packages_containing@.len() == 0 || (p.packages_containing@.len()
        == p.library_requirements@.len() && forall|k: int|
        0 <= k < p.packages_containing@.len() ==> (#[trigger] p.packages_containing@[k]).library_name
            == p.library_requirements@[k].library_name)
}

/// Whether `p` is the finished record of the checked package `q`: the same
/// name and file records, the per-library index built, and no lookups yet.
pub open spec fn finished(p: Package, q: ProcessingPackage) -> bool {
    &&& p.name == q.name
    &&& p.file_dependencies@.len() == q.file_dependencies@.len()
    &&& forall|i: int|
        0 <= i < p.file_dependencies@.len() ==> #[trigger] p.file_dependencies@[i]
            == FileDependency::from_spec(q.file_dependencies@[i])
    &&& library_index_of(p)
    &&& p.packages_containing@.len() == 0
}

/// Finishes the checked packages: builds the per-library index of each and
/// orders them by name.
pub fn verify_packages(packages: Vec<ProcessingPackage>) -> (r: Vec<Package>)
    ensures
        sorted_by_name(r@),
        r@.len() == packages@.len(),
        exists|done: Seq<Package>|
            {
                &&& done.len() == packages@.len()
                &&& forall|j: int| 0 <= j < done.len() ==> finished(#[trigger] done[j], packages@[j])
                &&& r@.to_multiset() == #[trigger] done.to_multiset()
            },
{
    let ghost all = packages@;
    let mut rest = packages;
    let mut done: Vec<Package> = Vec::new();
    while rest.len() > 0
        invariant
            done@.len() + rest@.len() == all.len(),
            rest@ == all.skip(done@.len() as int),
            forall|j: int| 0 <= j < done@.len() ==> finished(#[trigger] done@[j], all[j]),
        decreases rest@.len(),
    {
        let q = rest.remove(0);
        let ghost gq = q;
        assert(gq == all[done@.len() as int]);
        let mut p = Package::from(q);
        setup_library_requirements(&mut p);
        let ghost before = done@;
        done.push(p);
        proof {
            assert(rest@ =~= all.skip(done@.len() as int));
            assert forall|j: int| 0 <= j < done@.len() implies finished(#[trigger] done@[j], all[j]) by {
                if j < before.len() {
                    assert(done@[j] == before[j]);
                }
            }
        }
    }
    let ghost d = done@;
    let r = sort_packages(done);
    assert(d.len() == all.len());
    assert(r@.to_multiset() == d.to_multiset());
    r
}

/// Records, for each entry of the per-library index, the packages that the
/// lookup reported for its library; `lookups[k]` is the report for
/// `library_requirements[k]`.
pub fn setup_packages_containing(package: &mut Package, lookups: Vec<Vec<String>>)
    requires
        lookups@.len() == old(package).library_requirements@.len(),
    ensures
        final(package).name == old(package).name,
        final(package).file_dependencies == old(package).file_dependencies,
        final(package).library_requirements == old(package).library_requirements,
        final(package).packages_containing@.len() == lookups@.len(),
        forall|k: int|
            0 <= k < lookups@.len() ==> (#[trigger] final(package).packages_containing@[k]).library_name
                == old(package).library_requirements@[k].library_name
                && final(package).packages_containing@[k].packages_containing == lookups@[k],
{
    let ghost all = lookups@;
    let mut rest = lookups;
    let mut entries: Vec<PackagesContaining> = Vec::new();
    while rest.len() > 0
        invariant
            entries@.len() + rest@.len() == all.len(),
            all.len() == package.library_requirements@.len(),
            rest@ == all.skip(entries@.len() as int),
            forall|k: int|
                0 <= k < entries@.len() ==> (#[trigger] entries@[k]).library_name
                    == package.library_requirements@[k].library_name
                    && entries@[k].packages_containing == all[k],
        decreases rest@.len(),
    {
        let k = entries.len();
        let found = rest.remove(0);
        let name = package.library_requirements[k].library_name.clone();
        entries.push(PackagesContaining { library_name: name, packages_containing: found });
        assert(rest@ =~= all.skip(entries@.len() as int));
    }
    package.packages_containing = entries;
}

/// A package with no file record left after the ignore policy has no entry
/// in its per-library index, nor in its providing-package index.
pub proof fn law_clean_package_has_no_entries(p: Package)
    requires
        p.file_dependencies@.len() == 0,
        library_index_of(p),
        containing_index_of(p),
    ensures
        p.library_requirements@.len() == 0,
        p.packages_containing@.len() == 0,
{
    if p.library_requirements@.len() > 0 {
        let e = p.library_requirements@[0];
        assert(e.files_requiring@.len() > 0);
        assert(views(e.files_requiring@)[0] == e.files_requiring@[0]@);
        assert(views(e.files_requiring@).contains(e.files_requiring@[0]@));
        assert(lists_file(p.library_requirements@, e.files_requiring@[0]@, e.library_name@));
    }
}

/// A library that no file record names has no entry in a per-library index
/// that inverts the file records; with the laws on the ignore policy, a
/// dropped library appears in no index of the package.
pub proof fn law_unnamed_library_has_no_entry(p: Package, lib: Seq<char>)
    requires
        library_index_of(p),
        forall|a: int|
            0 <= a < p.file_dependencies@.len() ==> !views(
                (#[trigger] p.file_dependencies@[a]).library_dependencies@,
            ).contains(lib),
    ensures
        forall|k: int|
            0 <= k < p.library_requirements@.len() ==> (#[trigger] p.library_requirements@[k]).library_name@
                != lib,
{
    assert forall|k: int| 0 <= k < p.library_requirements@.len() implies (#[trigger] p.library_requirements@[k]).library_name@
        != lib by {
        let e = p.library_requirements@[k];
        if e.library_name@ == lib {
            assert(e.files_requiring@.len() > 0);
            let f = e.files_requiring@[0]@;
            assert(views(e.files_requiring@)[0] == f);
            assert(views(e.files_requiring@).contains(f));
            assert(lists_file(p.library_requirements@, f, lib));
        }
    }
}

/// Whether no two of the packages have the same name.
pub open spec fn distinct_names(s: Seq<Package>) -> bool {
    forall|a: int, b: int|
        0 <= a < s.len() && 0 <= b < s.len() && a != b ==> #[trigger] s[a].name@ != #[trigger] s[b].name@
}

/// The order of the output does not depend on the order of the input: two
/// orderings by name of the same packages, named distinctly, are the same.
pub proof fn law_order_by_name_is_unique(a: Seq<Package>, b: Seq<Package>)
    requires
        sorted_by_name(a),
        sorted_by_name(b),
        a.to_multiset() == b.to_multiset(),
        distinct_names(a),
    ensures
        a == b,
    decreases a.len(),
{
    broadcast use vstd::seq_lib::group_to_multiset_ensures, vstd::multiset::group_multiset_axioms;

    if a.len() == 0 {
        assert(b.to_multiset().len() == 0);
        assert(b =~= a);
    } else {
        assert(a.to_multiset().len() == a.len());
        assert(b.to_multiset().len() == b.len());
        assert(a.contains(a[0]));
        assert(b.to_multiset().count(a[0]) > 0);
        assert(b.contains(a[0]));
        let k = choose|k: int| 0 <= k < b.len() && b[k] == a[0];
        assert(b.contains(b[0]));
        assert(a.to_multiset().count(b[0]) > 0);
        assert(a.contains(b[0]));
        let j = choose|j: int| 0 <= j < a.len() && a[j] == b[0];
        if j > 0 {
            assert(lex_le(a[0].name@, a[j].name@));
            if k > 0 {
                assert(lex_le(b[0].name@, b[k].name@));
                lemma_lex_le_antisymmetric(a[0].name@, b[0].name@);
            }
            assert(a[j].name@ == a[0].name@);
        }
        assert(j == 0);
        let ra = a.drop_first();
        let rb = b.drop_first();
        assert(a.remove(0) =~= ra);
        assert(b.remove(0) =~= rb);
        assert(ra.to_multiset() == a.to_multiset().remove(a[0]));
        assert(rb.to_multiset() == b.to_multiset().remove(b[0]));
        assert(sorted_by_name(ra)) by {
            assert forall|x: int, y: int| 0 <= x < y < ra.len() implies lex_le(
                #[trigger] ra[x].name@,
                #[trigger] ra[y].name@,
            ) by {
                assert(ra[x] == a[x + 1] && ra[y] == a[y + 1]);
            }
        }
        assert(sorted_by_name(rb)) by {
            assert forall|x: int, y: int| 0 <= x < y < rb.len() implies lex_le(
                #[trigger] rb[x].name@,
                #[trigger] rb[y].name@,
            ) by {
                assert(rb[x] == b[x + 1] && rb[y] == b[y + 1]);
            }
        }
        assert(distinct_names(ra)) by {
            assert forall|x: int, y: int| 0 <= x < ra.len() && 0 <= y < ra.len() && x != y implies #[trigger] ra[x].name@
                != #[trigger] ra[y].name@ by {
                assert(ra[x] == a[x + 1] && ra[y] == a[y + 1]);
            }
        }
        law_order_by_name_is_unique(ra, rb);
        assert(a =~= seq![a[0]] + ra);
        assert(b =~= seq![b[0]] + rb);
    }
}

} // verus!
