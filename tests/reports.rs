use linkcheck::cli::{Command, CommandLineSettings};
use linkcheck::cmd::{
    extension_might_be_binary, file_is_elf, file_might_be_binary, get_all_packages, get_files_for_package,
    get_packages_containing_library, missing_library, required_programs, verify_files_via_ldd,
    verify_files_via_readelf,
};
use linkcheck::data::ProcessingPackage;
use linkcheck::text::{contains_text, has_suffix, lex_less_or_equal, white_space};

#[test]
fn ldd_line_with_missing_library() {
    assert_eq!(missing_library("\tlibfoo.so.1 => not found"), Some("libfoo.so.1".to_string()));
    assert_eq!(missing_library("  libbar.so  => not found"), Some("libbar.so ".to_string()));
    assert_eq!(missing_library("\tlibc.so.6 => /usr/lib/libc.so.6 (0x00007f)"), None);
    assert_eq!(missing_library("\t => not found"), None);
    assert_eq!(missing_library("=> not found"), None);
    assert_eq!(missing_library(""), None);
}

#[test]
fn ldd_report_is_read_into_a_set() {
    let output = "\tlinux-vdso.so.1 (0x00007ffd)\n\tlibfoo.so.1 => not found\n\tlibc.so.6 => /usr/lib/libc.so.6 (0x1)\n\tlibbar.so.2 => not found\r\n\tlibfoo.so.1 => not found\n";
    let dep = verify_files_via_ldd("/usr/bin/tool", output).unwrap();
    assert_eq!(dep.file_name, "/usr/bin/tool");
    assert_eq!(dep.library_dependencies, vec!["libfoo.so.1".to_string(), "libbar.so.2".to_string()]);
}

#[test]
fn ldd_report_without_missing_library() {
    assert!(verify_files_via_ldd("/usr/bin/ok", "\tlibc.so.6 => /usr/lib/libc.so.6 (0x1)\n").is_none());
    assert!(verify_files_via_ldd("/usr/bin/ok", "").is_none());
}

#[test]
fn readelf_strategy_reports_nothing() {
    assert!(matches!(verify_files_via_readelf("/usr/bin/tool"), Ok(None)));
}

#[test]
fn elf_probe_report() {
    assert!(file_is_elf("/usr/bin/ls: ELF 64-bit LSB pie executable, x86-64"));
    assert!(!file_is_elf("/usr/share/doc/readme: ASCII text"));
    assert!(!file_is_elf(""));
}

#[test]
fn binary_candidates_by_extension() {
    assert!(file_might_be_binary("/usr/bin/tool", true));
    assert!(file_might_be_binary("/usr/lib/libfoo.so", true));
    assert!(file_might_be_binary("/usr/lib/libfoo.so.1", true));
    assert!(!file_might_be_binary("/usr/bin/tool", false));
    assert!(!file_might_be_binary("/usr/share/icons/a.png", true));
    assert!(!file_might_be_binary("/usr/lib/libfoo.a", true));
    assert!(!file_might_be_binary("/etc/app.conf", true));
    assert!(file_might_be_binary("/usr/share/icons/a.PNG", true));
    assert!(file_might_be_binary("/home/user/.bashrc", true));
}

#[test]
fn report_lines() {
    assert_eq!(
        get_files_for_package("foo /usr/\nfoo /usr/bin/foo\r\n\nlast"),
        vec!["foo /usr/".to_string(), "foo /usr/bin/foo".to_string(), String::new(), "last".to_string()]
    );
    assert_eq!(get_packages_containing_library("extra/a\ncore/b\n"), vec!["extra/a".to_string(), "core/b".to_string()]);
    assert!(get_packages_containing_library("").is_empty());
}

#[test]
fn local_packages_are_added() {
    let mut settings = CommandLineSettings::default();
    settings.packages = vec!["first".to_string()];
    get_all_packages(&mut settings, "yay\nparu\n");
    assert_eq!(settings.packages, vec!["first".to_string(), "yay".to_string(), "paru".to_string()]);
}

#[test]
fn programs_for_each_strategy() {
    let mut settings = CommandLineSettings::default();
    assert_eq!(required_programs(&settings), vec!["pacman", "file", "ldd"]);
    settings.command = Command::Readelf;
    settings.show_candidates = true;
    assert_eq!(required_programs(&settings), vec!["pacman", "file", "readelf", "pkgfile"]);
}

#[test]
fn new_processing_package_is_empty() {
    let p = ProcessingPackage::new("name");
    assert_eq!(p.name, "name");
    assert!(p.file_dependencies.is_empty());
}

#[test]
fn text_helpers() {
    assert!(white_space(' ') && white_space('\t') && white_space('\u{3000}'));
    assert!(!white_space('a'));
    assert!(has_suffix("abc => not found", " => not found"));
    assert!(!has_suffix("found", " => not found"));
    assert!(contains_text("an ELF file", "ELF"));
    assert!(!contains_text("EL", "ELF"));
    assert!(lex_less_or_equal("abc", "abd"));
    assert!(lex_less_or_equal("ab", "abc"));
    assert!(lex_less_or_equal("same", "same"));
    assert!(!lex_less_or_equal("b", "a"));
    assert!(lex_less_or_equal("Z", "a"));
    assert!(lex_less_or_equal("z", "\u{e9}"));
}

#[test]
fn extension_deny_list() {
    assert!(!extension_might_be_binary("png"));
    assert!(!extension_might_be_binary("xz"));
    assert!(!extension_might_be_binary("desktop"));
    assert!(extension_might_be_binary("so"));
    assert!(extension_might_be_binary(""));
    assert!(extension_might_be_binary("PNG"));
}
