use linkcheck::cli::{Command, CommandLineSettings, IgnorePatterns, Output};
use linkcheck::cmd::check_required_programs;
use linkcheck::data::{Error, Package, ProcessingFileDependency, ProcessingPackage};
use linkcheck::process::{
    get_filenames_from_files, library_is_ignored, remove_ignored_or_packaged_libraries, setup_library_requirements,
    setup_packages_containing, sort_packages, verify_package, verify_packages,
};

fn dep(file: &str, libs: &[&str]) -> ProcessingFileDependency {
    ProcessingFileDependency {
        file_name: file.to_string(),
        library_dependencies: libs.iter().map(|l| l.to_string()).collect(),
    }
}

fn strings(v: &[&str]) -> Vec<String> {
    v.iter().map(|s| s.to_string()).collect()
}

fn processing(name: &str, deps: Vec<ProcessingFileDependency>) -> ProcessingPackage {
    let mut p = ProcessingPackage::new(name);
    p.file_dependencies = deps;
    p
}

fn sorted(mut v: Vec<String>) -> Vec<String> {
    v.sort();
    v
}

#[test]
fn self_satisfied_library_is_suppressed() {
    let settings = CommandLineSettings::default();
    let files = strings(&["/usr/bin/foo", "/usr/lib/libbar.so.1"]);
    let results = vec![Some(dep("/usr/bin/foo", &["libbar.so.1"])), None];
    let package = verify_package("foo", &files, results, &settings);
    assert_eq!(package.name, "foo");
    assert!(package.file_dependencies.is_empty());
    let packages = verify_packages(vec![package]);
    assert_eq!(packages.len(), 1);
    assert!(packages[0].file_dependencies.is_empty());
    assert!(packages[0].library_requirements.is_empty());
    assert!(packages[0].packages_containing.is_empty());
}

#[test]
fn single_missing_library_is_reported() {
    let settings = CommandLineSettings::default();
    let files = strings(&["/usr/bin/baz"]);
    let results = vec![Some(dep("/usr/bin/baz", &["libqux.so.2"]))];
    let package = verify_package("baz", &files, results, &settings);
    let packages = verify_packages(vec![package]);
    let p = &packages[0];
    assert_eq!(p.file_dependencies.len(), 1);
    assert_eq!(p.file_dependencies[0].file_name, "/usr/bin/baz");
    assert_eq!(p.file_dependencies[0].library_dependencies, strings(&["libqux.so.2"]));
    assert_eq!(p.library_requirements.len(), 1);
    assert_eq!(p.library_requirements[0].library_name, "libqux.so.2");
    assert_eq!(p.library_requirements[0].files_requiring, strings(&["/usr/bin/baz"]));
}

#[test]
fn candidates_are_listed_for_each_package() {
    let a = processing("alpha", vec![dep("/usr/bin/alpha", &["libshared.so.1"])]);
    let b = processing("beta", vec![dep("/usr/bin/beta", &["libshared.so.1"])]);
    let mut packages = verify_packages(vec![a, b]);
    for p in packages.iter_mut() {
        assert_eq!(p.library_requirements.len(), 1);
        let lookups = vec![strings(&["pkg-a", "pkg-b"])];
        setup_packages_containing(p, lookups);
    }
    for p in packages.iter() {
        assert_eq!(p.packages_containing.len(), 1);
        assert_eq!(p.packages_containing[0].library_name, "libshared.so.1");
        assert_eq!(p.packages_containing[0].packages_containing, strings(&["pkg-a", "pkg-b"]));
    }
}

#[test]
fn missing_linkage_inspector_is_named() {
    let settings = CommandLineSettings::default();
    let installed = strings(&["pacman", "file", "which"]);
    match check_required_programs(&settings, &installed) {
        Err(Error::Dependency(name)) => assert_eq!(name, "ldd"),
        other => panic!("unexpected {:?}", other),
    }
}

#[test]
fn missing_index_lookup_is_named_only_when_candidates_are_shown() {
    let mut settings = CommandLineSettings::default();
    let installed = strings(&["pacman", "file", "ldd"]);
    assert!(check_required_programs(&settings, &installed).is_ok());
    settings.show_candidates = true;
    match check_required_programs(&settings, &installed) {
        Err(Error::Dependency(name)) => assert_eq!(name, "pkgfile"),
        other => panic!("unexpected {:?}", other),
    }
    settings.command = Command::Readelf;
    match check_required_programs(&settings, &installed) {
        Err(Error::Dependency(name)) => assert_eq!(name, "readelf"),
        other => panic!("unexpected {:?}", other),
    }
}

#[test]
fn package_manager_is_checked_first() {
    let settings = CommandLineSettings::default();
    match check_required_programs(&settings, &Vec::new()) {
        Err(Error::Dependency(name)) => assert_eq!(name, "pacman"),
        other => panic!("unexpected {:?}", other),
    }
}

#[test]
fn clean_package_has_no_entries() {
    let mut settings = CommandLineSettings::default();
    settings.ignore_libraries = strings(&["libgone.so"]);
    let files = strings(&["/usr/bin/clean", "/usr/share/doc/readme"]);
    let results = vec![Some(dep("/usr/bin/clean", &["libgone.so"])), None];
    let package = verify_package("clean", &files, results, &settings);
    let mut packages = verify_packages(vec![package]);
    assert!(packages[0].file_dependencies.is_empty());
    assert!(packages[0].library_requirements.is_empty());
    setup_packages_containing(&mut packages[0], Vec::new());
    assert!(packages[0].packages_containing.is_empty());
}

#[test]
fn emptied_records_are_dropped() {
    let mut settings = CommandLineSettings::default();
    settings.ignore_libraries = strings(&["liba.so"]);
    let mut package = processing(
        "p",
        vec![dep("/x", &["liba.so"]), dep("/y", &["liba.so", "libb.so"]), dep("/z", &[])],
    );
    remove_ignored_or_packaged_libraries(&mut package, &Vec::new(), &settings);
    assert_eq!(package.file_dependencies.len(), 1);
    assert_eq!(package.file_dependencies[0].file_name, "/y");
    assert_eq!(package.file_dependencies[0].library_dependencies, strings(&["libb.so"]));
    for d in package.file_dependencies.iter() {
        assert!(!d.library_dependencies.is_empty());
    }
}

#[test]
fn library_index_inverts_file_records() {
    let p = processing(
        "inv",
        vec![
            dep("/usr/bin/one", &["liba.so", "libb.so"]),
            dep("/usr/bin/two", &["libb.so"]),
            dep("/usr/bin/three", &["libc.so", "liba.so"]),
        ],
    );
    let mut package = Package::from(p);
    setup_library_requirements(&mut package);
    let reqs = &package.library_requirements;
    assert_eq!(reqs.len(), 3);
    let find = |name: &str| reqs.iter().find(|r| r.library_name == name).unwrap();
    assert_eq!(sorted(find("liba.so").files_requiring.clone()), strings(&["/usr/bin/one", "/usr/bin/three"]));
    assert_eq!(sorted(find("libb.so").files_requiring.clone()), strings(&["/usr/bin/one", "/usr/bin/two"]));
    assert_eq!(find("libc.so").files_requiring, strings(&["/usr/bin/three"]));
    let pairs: usize = reqs.iter().map(|r| r.files_requiring.len()).sum();
    let listed: usize = package.file_dependencies.iter().map(|d| d.library_dependencies.len()).sum();
    assert_eq!(pairs, listed);
}

#[test]
fn ignore_policy_is_idempotent() {
    let mut settings = CommandLineSettings::default();
    settings.ignore_libraries = strings(&["libx.so"]);
    settings.ignore_libraries_regex = Some(IgnorePatterns::new(strings(&["^libgl"])).unwrap());
    let filenames = strings(&["libself.so"]);
    let mut package = processing(
        "twice",
        vec![
            dep("/a", &["libx.so", "libglib.so", "libkeep.so"]),
            dep("/b", &["libself.so"]),
            dep("/c", &["libkeep.so", "libother.so"]),
        ],
    );
    remove_ignored_or_packaged_libraries(&mut package, &filenames, &settings);
    let once: Vec<(String, Vec<String>)> = package
        .file_dependencies
        .iter()
        .map(|d| (d.file_name.clone(), d.library_dependencies.clone()))
        .collect();
    remove_ignored_or_packaged_libraries(&mut package, &filenames, &settings);
    let twice: Vec<(String, Vec<String>)> = package
        .file_dependencies
        .iter()
        .map(|d| (d.file_name.clone(), d.library_dependencies.clone()))
        .collect();
    assert_eq!(once, twice);
    assert_eq!(
        once,
        vec![
            ("/a".to_string(), strings(&["libkeep.so"])),
            ("/c".to_string(), strings(&["libkeep.so", "libother.so"])),
        ]
    );
}

#[test]
fn ignore_list_entry_never_appears() {
    let mut settings = CommandLineSettings::default();
    settings.ignore_libraries = strings(&["libdrop.so.3"]);
    let files = strings(&["/bin/a", "/bin/b", "/bin/c"]);
    let results = vec![
        Some(dep("/bin/a", &["libdrop.so.3"])),
        Some(dep("/bin/b", &["libdrop.so.3", "libkeep.so.1"])),
        Some(dep("/bin/c", &["libdrop.so.3"])),
    ];
    let package = verify_package("many", &files, results, &settings);
    let packages = verify_packages(vec![package]);
    for d in packages[0].file_dependencies.iter() {
        assert!(!d.library_dependencies.iter().any(|l| l == "libdrop.so.3"));
    }
    assert!(!packages[0].library_requirements.iter().any(|r| r.library_name == "libdrop.so.3"));
    assert_eq!(packages[0].library_requirements.len(), 1);
}

#[test]
fn regex_match_is_dropped_and_others_kept() {
    let mut settings = CommandLineSettings::default();
    settings.ignore_libraries_regex =
        Some(IgnorePatterns::new(strings(&["^libQt5.*", "\\.so\\.9$"])).unwrap());
    let mut package = processing(
        "re",
        vec![dep("/bin/q", &["libQt5Core.so.5", "libz.so.9", "libpng.so.16"])],
    );
    remove_ignored_or_packaged_libraries(&mut package, &Vec::new(), &settings);
    assert_eq!(package.file_dependencies.len(), 1);
    assert_eq!(package.file_dependencies[0].library_dependencies, strings(&["libpng.so.16"]));
}

#[test]
fn packages_are_ordered_by_name() {
    let input = vec![
        processing("zeta", vec![]),
        processing("alpha", vec![dep("/a", &["l.so"])]),
        processing("Mu", vec![]),
        processing("beta", vec![]),
        processing("alph", vec![]),
    ];
    let packages = verify_packages(input);
    let names: Vec<&str> = packages.iter().map(|p| p.name.as_str()).collect();
    assert_eq!(names, vec!["Mu", "alph", "alpha", "beta", "zeta"]);
    assert_eq!(packages[2].file_dependencies.len(), 1);
}

#[test]
fn sorting_keeps_every_package() {
    let input = vec![
        Package::from(processing("b", vec![])),
        Package::from(processing("a", vec![])),
        Package::from(processing("b", vec![])),
    ];
    let out = sort_packages(input);
    let names: Vec<&str> = out.iter().map(|p| p.name.as_str()).collect();
    assert_eq!(names, vec!["a", "b", "b"]);
}

#[test]
fn base_names_of_files() {
    let files = strings(&["/usr/lib/libbar.so.1", "/usr/bin/", "relative/tool", "/", "/usr/.."]);
    assert_eq!(get_filenames_from_files(&files), strings(&["libbar.so.1", "bin", "tool"]));
}

#[test]
fn invalid_pattern_is_an_error() {
    match IgnorePatterns::new(strings(&["(unclosed"])) {
        Err(Error::Regex(message)) => assert!(!message.is_empty()),
        other => panic!("unexpected {:?}", other),
    }
    let ok = IgnorePatterns::new(strings(&["^a", "b$"])).unwrap();
    assert_eq!(ok.patterns(), &strings(&["^a", "b$"]));
}

#[test]
fn default_grouping() {
    let mut settings = CommandLineSettings::default();
    assert_eq!(settings.output, Output::Console);
    settings.apply_default_grouping();
    assert!(settings.group_by_file && settings.group_by_library);
    assert!(!settings.group_by_containing_package);

    let mut settings = CommandLineSettings::default();
    settings.show_candidates = true;
    settings.apply_default_grouping();
    assert!(settings.group_by_file && settings.group_by_library && settings.group_by_containing_package);

    let mut settings = CommandLineSettings::default();
    settings.show_candidates = true;
    settings.group_by_library = true;
    settings.apply_default_grouping();
    assert!(!settings.group_by_file && settings.group_by_library);
    assert!(!settings.group_by_containing_package);
}

#[test]
fn findings_as_json() {
    let p = processing("p", vec![dep("/x", &["l.so"])]);
    let mut packages = verify_packages(vec![p]);
    let mut settings = CommandLineSettings::default();
    settings.apply_default_grouping();
    assert_eq!(
        linkcheck::output::print_json(&packages, &settings),
        "[{\"package_name\":\"p\",\"file_dependencies\":[{\"file_name\":\"/x\",\"library_dependencies\":[\"l.so\"]}],\"library_requirements\":[{\"library_name\":\"l.so\",\"files_requiring\":[\"/x\"]}]}]"
    );
    setup_packages_containing(&mut packages[0], vec![strings(&["extra/q"])]);
    settings.group_by_file = false;
    settings.group_by_library = false;
    settings.group_by_containing_package = true;
    assert_eq!(
        linkcheck::output::print_json(&packages, &settings),
        "[{\"package_name\":\"p\",\"packages_containing\":[{\"library_name\":\"l.so\",\"packages_containing\":[\"extra/q\"]}]}]"
    );
    assert_eq!(linkcheck::output::print_json(&Vec::new(), &settings), "[]");
}

#[test]
fn order_does_not_depend_on_input_order() {
    let names = ["delta", "alpha", "charlie", "bravo"];
    let forward: Vec<ProcessingPackage> = names.iter().map(|n| processing(n, vec![])).collect();
    let backward: Vec<ProcessingPackage> = names.iter().rev().map(|n| processing(n, vec![])).collect();
    let a: Vec<String> = verify_packages(forward).into_iter().map(|p| p.name).collect();
    let b: Vec<String> = verify_packages(backward).into_iter().map(|p| p.name).collect();
    assert_eq!(a, b);
    assert_eq!(a, strings(&["alpha", "bravo", "charlie", "delta"]));
}

#[test]
fn ignore_decision_from_its_parts() {
    let lib = "libm.so".to_string();
    assert!(library_is_ignored(&lib, &Vec::new(), &strings(&["libm.so"]), false));
    assert!(library_is_ignored(&lib, &strings(&["libm.so"]), &Vec::new(), false));
    assert!(library_is_ignored(&lib, &Vec::new(), &Vec::new(), true));
    assert!(!library_is_ignored(&lib, &strings(&["libm.so.6"]), &strings(&["libM.so"]), false));
}
