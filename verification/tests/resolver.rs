use std::collections::HashMap;
use std::io;
use std::path::{Path, PathBuf};

use oxc_resolver::{
    FileMetadata, FileSystem, ResolveError, ResolveOptions, ResolverGeneric, TsconfigDiscovery,
    TsconfigOptions, TsconfigReferences,
};
use rcl_core::resolver::{
    accept_resolution, find_nearest_config, is_rejected_dts, list_config_candidates,
    nearest_config, plan_lookup, resolve_import, References, Start,
};

#[derive(Clone, Default)]
struct MemoryProject {
    files: HashMap<PathBuf, String>,
}

impl MemoryProject {
    fn with_files(files: &[(&str, &str)]) -> Self {
        Self {
            files: files
                .iter()
                .map(|(path, contents)| (PathBuf::from(path), (*contents).to_string()))
                .collect(),
        }
    }

    fn is_dir(&self, path: &Path) -> bool {
        self.files
            .keys()
            .any(|file_path| file_path != path && file_path.starts_with(path))
    }

    fn read_file(&self, path: &Path) -> io::Result<String> {
        self.files
            .get(path)
            .cloned()
            .ok_or_else(|| io::Error::new(io::ErrorKind::NotFound, path.display().to_string()))
    }
}

impl FileSystem for MemoryProject {
    fn new() -> Self {
        Self::default()
    }

    fn read(&self, path: &Path) -> io::Result<Vec<u8>> {
        self.read_file(path).map(String::into_bytes)
    }

    fn read_to_string(&self, path: &Path) -> io::Result<String> {
        self.read_file(path)
    }

    fn metadata(&self, path: &Path) -> io::Result<FileMetadata> {
        if self.files.contains_key(path) {
            Ok(FileMetadata::new(true, false, false))
        } else if self.is_dir(path) {
            Ok(FileMetadata::new(false, true, false))
        } else {
            Err(io::Error::new(
                io::ErrorKind::NotFound,
                path.display().to_string(),
            ))
        }
    }

    fn symlink_metadata(&self, path: &Path) -> io::Result<FileMetadata> {
        self.metadata(path)
    }

    fn read_link(&self, path: &Path) -> Result<PathBuf, ResolveError> {
        Err(io::Error::new(io::ErrorKind::NotFound, path.display().to_string()).into())
    }

    fn canonicalize(&self, path: &Path) -> io::Result<PathBuf> {
        self.metadata(path)?;
        Ok(path.to_path_buf())
    }
}

fn find_nearest_config_in(from_file: &str, project: &MemoryProject) -> Option<String> {
    let present = list_config_candidates(from_file, false)
        .iter()
        .map(|candidate| project.files.contains_key(Path::new(candidate)))
        .collect();
    nearest_config(from_file, &present, false)
}

fn resolve_import_in(from_file: &str, specifier: &str, project: &MemoryProject) -> Option<String> {
    let lookup = plan_lookup(from_file, find_nearest_config_in(from_file, project), false)?;
    let settings = lookup.settings;
    let options = ResolveOptions {
        extensions: settings.extensions,
        extension_alias: settings
            .extension_alias
            .into_iter()
            .map(|alias| (alias.extension, alias.candidates))
            .collect(),
        main_files: settings.main_files,
        main_fields: settings.main_fields,
        condition_names: settings.condition_names,
        symlinks: settings.symlinks,
        tsconfig: settings.config_file.map(|file| {
            TsconfigDiscovery::Manual(TsconfigOptions {
                config_file: file.into(),
                references: TsconfigReferences::Auto,
            })
        }),
        ..ResolveOptions::default()
    };
    let resolver = ResolverGeneric::new_with_file_system(project.clone(), options);
    let found = match lookup.start {
        Start::Directory(directory) => resolver.resolve(directory, specifier),
        Start::File(file) => resolver.resolve_file(file, specifier),
    };
    accept_resolution(
        found
            .ok()
            .map(|resolution| resolution.into_path_buf().to_string_lossy().into_owned()),
    )
}

#[test]
fn find_nearest_config_with_fs_uses_injected_filesystem() {
    let project = MemoryProject::with_files(&[
        ("/proj/src/app/entry.tsx", "import { Button } from './button';"),
        ("/proj/tsconfig.json", "{}"),
    ]);

    assert_eq!(
        find_nearest_config_in("/proj/src/app/entry.tsx", &project),
        Some("/proj/tsconfig.json".to_string())
    );
}

#[test]
fn find_nearest_config_with_fs_returns_none_when_missing() {
    let project = MemoryProject::with_files(&[(
        "/proj/src/app/entry.tsx",
        "import { Button } from './button';",
    )]);

    assert_eq!(find_nearest_config_in("/proj/src/app/entry.tsx", &project), None);
}

#[test]
fn resolve_import_with_fs_resolves_relative_imports() {
    let project = MemoryProject::with_files(&[
        ("/proj/entry.tsx", "import { Button } from './button';"),
        ("/proj/button.tsx", "export function Button() { return null; }"),
    ]);

    assert_eq!(
        resolve_import_in("/proj/entry.tsx", "./button", &project),
        Some("/proj/button.tsx".to_string())
    );
}

#[test]
fn resolve_import_with_fs_resolves_tsconfig_paths() {
    let project = MemoryProject::with_files(&[
        ("/proj/src/app/entry.tsx", "import { Button } from '@ui/index';"),
        (
            "/proj/tsconfig.json",
            r#"{"compilerOptions":{"baseUrl":".","paths":{"@ui/*":["src/ui/*"]}}}"#,
        ),
        ("/proj/src/ui/index.ts", "export function Button() { return null; }"),
    ]);

    assert_eq!(
        resolve_import_in("/proj/src/app/entry.tsx", "@ui/index", &project),
        Some("/proj/src/ui/index.ts".to_string())
    );
}

#[test]
fn resolve_import_with_fs_rejects_declaration_files() {
    let project = MemoryProject::with_files(&[
        ("/proj/entry.tsx", "import { Typed } from './typed';"),
        ("/proj/typed.d.ts", "export declare function Typed(): unknown;"),
    ]);

    assert_eq!(resolve_import_in("/proj/entry.tsx", "./typed", &project), None);
}

#[test]
fn rejects_declaration_file_resolution() {
    let project = MemoryProject::with_files(&[
        ("/proj/entry.tsx", "import { Typed } from './Typed';"),
        ("/proj/Typed.d.ts", "export declare function Typed(): unknown;"),
    ]);

    assert!(is_rejected_dts("/proj/Typed.d.ts"));
    assert_eq!(resolve_import_in("/proj/entry.tsx", "./Typed.d.ts", &project), None);
    assert_eq!(resolve_import_in("/proj/entry.tsx", "./Typed", &project), None);
}

#[test]
fn resolves_js_specifier_to_ts_index_with_extension_alias() {
    let project = MemoryProject::with_files(&[
        ("/proj/entry.tsx", "import { Widget } from './components/index.js';"),
        ("/proj/components/index.ts", "export function Widget() { return null; }"),
    ]);

    assert_eq!(
        resolve_import_in("/proj/entry.tsx", "./components/index.js", &project),
        Some("/proj/components/index.ts".to_string())
    );
}

#[test]
fn resolves_directory_import_to_index_main_file() {
    let project = MemoryProject::with_files(&[
        ("/proj/entry.tsx", "import { Widget } from './components';"),
        ("/proj/components/index.tsx", "export function Widget() { return null; }"),
    ]);

    assert_eq!(
        resolve_import_in("/proj/entry.tsx", "./components", &project),
        Some("/proj/components/index.tsx".to_string())
    );
}

#[test]
fn declaration_files_of_all_module_kinds_are_rejected() {
    assert!(is_rejected_dts("a.d.mts"));
    assert!(is_rejected_dts("a.d.cts"));
    assert!(!is_rejected_dts("a.ts"));
    assert!(!is_rejected_dts("d.ts"));
    assert!(!is_rejected_dts("a.d.tsx"));
    assert_eq!(accept_resolution(Some("a.d.ts".to_string())), None);
    assert_eq!(
        accept_resolution(Some("a.ts".to_string())),
        Some("a.ts".to_string())
    );
    assert_eq!(accept_resolution(None), None);
    for path in ["/p/a.css", "/p/a.json", "/p/a.mts", "/p/a", "/p/a.d.mts", "/p/ts"] {
        assert_eq!(accept_resolution(Some(path.to_string())), None, "{path}");
    }
    for path in ["/p/a.ts", "/p/a.tsx", "/p/a.js", "/p/a.jsx", "/p/a.d.tsx"] {
        assert_eq!(accept_resolution(Some(path.to_string())).as_deref(), Some(path));
    }
}

#[test]
fn configuration_files_are_looked_for_upwards() {
    assert_eq!(
        list_config_candidates("/a/b/c.tsx", false),
        vec![
            "/a/b/tsconfig.json",
            "/a/b/jsconfig.json",
            "/a/tsconfig.json",
            "/a/jsconfig.json",
            "/tsconfig.json",
            "/jsconfig.json",
        ]
    );
    assert_eq!(
        list_config_candidates("c.tsx", false),
        vec!["tsconfig.json", "jsconfig.json"]
    );
    assert_eq!(
        nearest_config("/a/b/c.tsx", &vec![false, true, true], false),
        Some("/a/b/jsconfig.json".to_string())
    );
    assert_eq!(nearest_config("/a/b/c.tsx", &vec![false; 6], false), None);
}

#[test]
fn nothing_is_found_where_nothing_is() {
    assert_eq!(
        find_nearest_config("/rcl-core-nowhere/src/entry.tsx", false),
        find_nearest_config("/rcl-core-nowhere/entry.tsx", false)
    );
    assert_eq!(resolve_import("/rcl-core-nowhere/entry.tsx", "./button"), None);
    assert_eq!(resolve_import("", "./button"), None);
}

#[test]
fn lookups_start_where_the_configuration_says() {
    let lookup = plan_lookup("/proj/src/entry.tsx", Some("/proj/tsconfig.json".to_string()), false)
        .expect("plan with a configuration file");
    assert!(matches!(lookup.start, Start::Directory(path) if path == "/proj/src"));
    assert_eq!(
        lookup.settings.config_file,
        Some("/proj/tsconfig.json".to_string())
    );
    assert_eq!(lookup.settings.extensions, [".ts", ".tsx", ".js", ".jsx"]);

    let lookup = plan_lookup("/proj/src/entry.tsx", None, false).expect("plan without one");
    assert!(matches!(lookup.start, Start::File(path) if path == "/proj/src/entry.tsx"));
    assert_eq!(lookup.settings.config_file, None);

    assert!(plan_lookup("/", None, false).is_none());
    assert!(plan_lookup("", Some("/tsconfig.json".to_string()), false).is_none());
}

#[test]
fn styles_and_data_are_no_modules() {
    let project = MemoryProject::with_files(&[
        ("/proj/entry.tsx", "import * as Styles from './a.css';"),
        ("/proj/a.css", "a {}"),
        ("/proj/b.mts", "export const b = 1;"),
    ]);
    assert_eq!(resolve_import_in("/proj/entry.tsx", "./a.css", &project), None);
    assert_eq!(resolve_import_in("/proj/entry.tsx", "./b.mjs", &project), None);
}

#[test]
fn configuration_files_are_looked_for_beside_windows_paths() {
    assert_eq!(
        list_config_candidates("C:\\p\\e.tsx", true),
        [
            "C:\\p\\tsconfig.json",
            "C:\\p\\jsconfig.json",
            "C:\\tsconfig.json",
            "C:\\jsconfig.json",
        ]
    );
    let lookup = plan_lookup("C:\\p\\e.tsx", Some("C:\\tsconfig.json".to_string()), true)
        .expect("plan for a path with a drive");
    assert!(matches!(lookup.start, Start::Directory(path) if path == "C:\\p"));
    assert_eq!(lookup.settings.references, References::Auto);
}
