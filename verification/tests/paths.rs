use rcl_core::paths::{
    join, lexical_normalize, normalize_for_compare, parent_path, to_posix_relative,
};
use rcl_core::release::{
    asset_name, first_step, installation_step, is_stale, plan_installation, Architecture,
    ArchiveFormat, Asset, Os, Step,
};

#[test]
fn lexical_normalize_collapses_current_directory_segments() {
    assert_eq!(lexical_normalize("a/./b", false), "a/b");
}

#[test]
fn lexical_normalize_preserves_orphan_parent_segments() {
    assert_eq!(lexical_normalize("../x", false), "../x");
    assert_eq!(lexical_normalize("..", false), "..");
}

#[test]
fn normalize_for_compare_lowercases_uppercase_drive_letter() {
    assert_eq!(normalize_for_compare("C:/Foo/Bar", false), "c:/Foo/Bar");
}

#[test]
fn parent_segments_take_the_segment_before_them() {
    assert_eq!(lexical_normalize("/a/b/../c", false), "/a/c");
    assert_eq!(lexical_normalize("/a/../../b", false), "/../b");
    assert_eq!(lexical_normalize("a//b/", false), "a/b");
    assert_eq!(lexical_normalize("./a", false), "a");
    assert_eq!(lexical_normalize("", false), "");
    assert_eq!(lexical_normalize("/", false), "/");
}

#[test]
fn paths_are_relative_to_the_directory_they_lie_in() {
    assert_eq!(to_posix_relative("/a/b", "/a/b/c/d.tsx", false), "c/d.tsx");
    assert_eq!(to_posix_relative("/a/b/", "/a/b/x/../d.tsx", false), "d.tsx");
    assert_eq!(to_posix_relative("/a/b", "/a/bc.tsx", false), "/a/bc.tsx");
    assert_eq!(to_posix_relative("/", "/a.tsx", false), "a.tsx");
}

#[test]
fn parents_are_those_of_the_standard_library() {
    for path in [
        "/a/b", "/a", "/", "", "a", "a/b", "a//b", "a/b/", "a/./b", "./a", ".", "..", "./.", "a/.",
        "//a", "/..", "/./a", "a/../b",
    ] {
        let expected = std::path::Path::new(path)
            .parent()
            .map(|parent| parent.to_str().expect("text").to_string());
        assert_eq!(parent_path(path, false), expected, "{path}");
    }
}

#[test]
fn joined_paths_have_one_separator() {
    assert_eq!(join("/a", "b", false), "/a/b");
    assert_eq!(join("/a/", "b", false), "/a/b");
    assert_eq!(join("", "b", false), "b");
}

fn assets() -> Vec<Asset> {
    vec![
        Asset {
            name: "rcl-lsp-v1.2.3-x86_64-unknown-linux-gnu.tar.gz".to_string(),
            download_url: "https://example.com/linux".to_string(),
        },
        Asset {
            name: "rcl-lsp-v1.2.3-aarch64-pc-windows-msvc.zip".to_string(),
            download_url: "https://example.com/windows".to_string(),
        },
    ]
}

#[test]
fn archives_are_named_after_their_platforms() {
    assert_eq!(
        asset_name("v1", Architecture::Aarch64, Os::Mac),
        "rcl-lsp-v1-aarch64-apple-darwin.tar.gz"
    );
    assert_eq!(
        asset_name("v1", Architecture::X86, Os::Windows),
        "rcl-lsp-v1-x86-pc-windows-msvc.zip"
    );
}

#[test]
fn releases_are_installed_in_their_own_directories() {
    let plan = plan_installation("v1.2.3", &assets(), Architecture::X8664, Os::Linux).expect("plan");
    assert_eq!(plan.download_url, "https://example.com/linux");
    assert_eq!(plan.directory, "rcl-lsp-v1.2.3");
    assert_eq!(plan.executable, "rcl-lsp-v1.2.3/rcl-lsp");
    assert_eq!(plan.archive, ArchiveFormat::GzipTar);
    assert!(!is_stale(Some("rcl-lsp-v1.2.3"), &plan));
    assert!(is_stale(Some("rcl-lsp-v1.2.2"), &plan));
    assert!(is_stale(None, &plan));

    let plan =
        plan_installation("v1.2.3", &assets(), Architecture::Aarch64, Os::Windows).expect("plan");
    assert_eq!(plan.executable, "rcl-lsp-v1.2.3/rcl-lsp.exe");
    assert_eq!(plan.archive, ArchiveFormat::Zip);

    assert_eq!(
        plan_installation("v1.2.3", &assets(), Architecture::X86, Os::Mac).expect_err("missing"),
        "rcl-lsp-v1.2.3-x86-apple-darwin.tar.gz"
    );
}

#[test]
fn executables_are_fetched_only_where_they_are_missing() {
    let cached = Some("old/rcl-lsp".to_string());
    let on_path = Some("/bin/rcl-lsp".to_string());
    assert!(matches!(
        first_step(cached.clone(), true, on_path.clone()),
        Step::Ready(path) if path == "old/rcl-lsp"
    ));
    assert!(matches!(
        first_step(cached.clone(), false, on_path.clone()),
        Step::Ready(path) if path == "/bin/rcl-lsp"
    ));
    assert!(matches!(
        first_step(None, true, on_path),
        Step::Ready(path) if path == "/bin/rcl-lsp"
    ));
    assert!(matches!(first_step(cached, false, None), Step::CheckForUpdate));
    assert!(matches!(first_step(None, true, None), Step::CheckForUpdate));

    let plan = plan_installation("v1.2.3", &assets(), Architecture::X8664, Os::Linux).expect("plan");
    assert!(matches!(installation_step(plan, false), Step::Download(_)));
    let plan = plan_installation("v1.2.3", &assets(), Architecture::X8664, Os::Linux).expect("plan");
    assert!(matches!(
        installation_step(plan, true),
        Step::Ready(path) if path == "rcl-lsp-v1.2.3/rcl-lsp"
    ));
}

#[test]
fn windows_paths_are_taken_apart_at_both_separators() {
    let cases = [
        ("C:\\p\\e.tsx", Some("C:\\p")),
        ("C:\\p/e.tsx", Some("C:\\p")),
        ("C:\\p", Some("C:\\")),
        ("C:\\", None),
        ("C:e.tsx", Some("C:")),
        ("C:", None),
        ("p\\e.tsx", Some("p")),
        ("\\\\server\\share\\e.tsx", Some("\\\\server\\share\\")),
        ("\\\\server\\share", None),
        ("\\\\server", Some("\\")),
    ];
    for (path, expected) in cases {
        assert_eq!(parent_path(path, true).as_deref(), expected, "{path}");
    }
    assert_eq!(parent_path("C:\\p\\e.tsx", false).as_deref(), Some(""));
    assert_eq!(join("C:\\p", "b", true), "C:\\p\\b");
    assert_eq!(join("C:\\", "b", true), "C:\\b");
    assert_eq!(join("C:", "b", true), "C:b");
    assert_eq!(join("p/", "b", true), "p/b");
}

#[test]
fn windows_paths_are_collapsed_and_compared() {
    assert_eq!(lexical_normalize("C:\\a\\.\\b\\..\\c", true), "C:\\a\\c");
    assert_eq!(lexical_normalize("C:\\..\\a", true), "C:\\..\\a");
    assert_eq!(lexical_normalize("C:a/../b", true), "C:b");
    assert_eq!(lexical_normalize("\\\\s\\t", true), "\\\\s\\t\\");
    assert_eq!(lexical_normalize("C:\\a\\d:b\\c", true), "d:b\\c");
    assert_eq!(lexical_normalize("C:/a/d:b/c", false), "C:/a/d:b/c");
    assert_eq!(normalize_for_compare("C:\\Foo\\..\\Bar", true), "c:/Bar");
    assert_eq!(
        to_posix_relative("C:\\a", "c:\\a\\b\\..\\d.tsx", true),
        "d.tsx"
    );
}

#[test]
fn verbatim_paths_are_taken_as_they_are_written() {
    let cases = [
        ("\\\\?\\UNC\\server\\share\\p\\e.tsx", Some("\\\\?\\UNC\\server\\share\\p")),
        ("\\\\?\\UNC\\server\\share\\e.tsx", Some("\\\\?\\UNC\\server\\share\\")),
        ("\\\\?\\UNC\\server\\share", None),
        ("\\\\?\\UNC\\server", None),
        ("\\\\?\\C:\\p\\e.tsx", Some("\\\\?\\C:\\p")),
        ("\\\\?\\C:\\e.tsx", Some("\\\\?\\C:\\")),
        ("\\\\?\\C:", None),
        ("\\\\?\\C:\\p/q\\e.tsx", Some("\\\\?\\C:\\p/q")),
        ("\\\\?\\C:\\p/q", Some("\\\\?\\C:\\")),
        ("\\\\?\\C:\\p\\.", Some("\\\\?\\C:\\p")),
        ("\\\\?\\volume\\e.tsx", Some("\\\\?\\volume\\")),
        ("\\\\.\\device\\e.tsx", Some("\\\\.\\device\\")),
        ("//?/C:/e.tsx", Some("//?/C:/")),
    ];
    for (path, expected) in cases {
        assert_eq!(parent_path(path, true).as_deref(), expected, "{path}");
    }
    assert_eq!(
        lexical_normalize("\\\\?\\UNC\\s\\t\\a\\..\\b", true),
        "\\\\?\\UNC\\s\\t\\b"
    );
    assert_eq!(lexical_normalize("\\\\?\\UNC\\s\\t", true), "\\\\?\\UNC\\s\\t");
    assert_eq!(lexical_normalize("\\\\?\\C:\\..\\a\\.\\b", true), "\\\\?\\C:\\a\\b");
    assert_eq!(lexical_normalize("\\\\?\\C:\\a/../b", true), "\\\\?\\C:\\b");
    assert_eq!(lexical_normalize("\\\\?\\C:\\a/b\\..", true), "\\\\?\\C:\\a");
    assert_eq!(lexical_normalize("\\\\?\\C:\\a\\/b", true), "\\\\?\\C:\\b");
    assert_eq!(lexical_normalize("\\\\.\\d\\..\\a", true), "\\\\.\\d\\..\\a");
    assert_eq!(join("\\\\?\\C:\\a\\", "b", true), "\\\\?\\C:\\a\\b");
    assert_eq!(join("\\\\?\\C:", "b", true), "\\\\?\\C:\\b");
    assert_eq!(join("\\\\?\\UNC\\s\\t", "b", true), "\\\\?\\UNC\\s\\t\\b");
    assert_eq!(join("\\\\?\\C:\\a\\.\\\\c", "b", true), "\\\\?\\C:\\a\\.\\c\\b");
}
