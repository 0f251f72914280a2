use netlist_ir::preprocessor::Preprocessor;

#[test]
fn absolute_path_is_kept() {
    let p = Preprocessor::new("/some/cwd");
    assert_eq!(
        p.resolve_path("/etc/alpha.v"),
        Some(String::from("/etc/alpha.v"))
    );
}

#[test]
fn missing_relative_path_resolves_to_none() {
    let mut p = Preprocessor::new("/no_such_directory_for_these_tests");
    p.add_inc_dir("/another_absent_directory");
    assert_eq!(p.resolve_path("missing.v"), None);
}

#[test]
fn empty_path_is_relative() {
    let p = Preprocessor::new("/no_such_directory_for_these_tests");
    assert_eq!(p.resolve_path(""), None);
}
