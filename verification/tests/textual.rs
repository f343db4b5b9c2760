use yac::lsp::{Clangd, YAC_INCLUDE_PATH};
use yac::new::{create_header, to_ascii_upper};
use yac::paths::join_paths;
use yac::prettify::{LeftAligned, RightAligned, PRETTY_ALIGN};
use yac::text::{concat_str, contains_string, replace_backslashes};

#[test]
fn joining_is_separator_aware() {
    assert_eq!(join_paths("./", "a"), "./a");
    assert_eq!(join_paths("a", "b"), "a/b");
    assert_eq!(join_paths("", "b"), "b");
    assert_eq!(join_paths("a", "/abs"), "/abs");
}

#[test]
fn backslashes_become_slashes() {
    assert_eq!(replace_backslashes("a\\b\\c"), "a/b/c");
    assert_eq!(replace_backslashes("plain"), "plain");
}

#[test]
fn string_helpers_concatenate_and_search() {
    assert_eq!(concat_str("ab", "cd"), "abcd");
    let hay = vec!["one".to_string(), "two".to_string()];
    assert!(contains_string(&hay, &"two".to_string()));
    assert!(!contains_string(&hay, &"three".to_string()));
}

#[test]
fn clangd_refresh_rebuilds_the_flags() {
    let mut clangd = Clangd::default();
    assert!(clangd.is_empty());
    clangd.add_include_path("/somewhere");
    assert!(!clangd.is_empty());

    let include_flags = vec!["-I/abs/dep/include".to_string()];
    clangd.refresh(true, &include_flags);
    assert_eq!(
        clangd.compile_flags.add.values,
        vec![format!("-I{}", YAC_INCLUDE_PATH), "-I/abs/dep/include".to_string()],
    );

    clangd.refresh(false, &vec![]);
    assert!(clangd.is_empty());
}

#[test]
fn headers_carry_the_uppercased_guard() {
    assert_eq!(to_ascii_upper("my_lib2"), "MY_LIB2");
    let header = create_header("mylib", "int sum(int a, int b);");
    let expected = "#ifndef _MYLIB_LIB_H_\n#define _MYLIB_LIB_H_\n\n\n\nint sum(int a, int b);\n\n\n\n#endif // !_MYLIB_LIB_H_";
    assert_eq!(header, expected);
}

#[test]
fn aligned_cells_pad_to_the_column() {
    assert_eq!(PRETTY_ALIGN, 12);
    assert_eq!(LeftAligned("Compiling").render(), "   Compiling ");
    assert_eq!(LeftAligned("Finished").render(), "    Finished ");
    assert_eq!(RightAligned("details").render(), "details ");
}

#[test]
fn minimal_manifest_defaults_to_initial_version() {
    let manifest = yac::package::YacToml::new("fresh");
    assert_eq!(manifest.package.name, "fresh");
    assert_eq!(manifest.package.version, "0.1.0");

    let full = yac::yac_toml::YacToml::new("fresh", yac::yac_toml::PackageType::StaticLib);
    assert_eq!(full.package.name, "fresh");
    assert_eq!(full.package.version, "0.1.0");
    assert_eq!(full.package.ty, yac::yac_toml::PackageType::StaticLib);
    assert!(full.dependencies.is_empty());
}
