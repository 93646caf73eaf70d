use std::collections::{BTreeSet, HashMap};
use std::io;
use std::path::{Path, PathBuf};

use oxc_resolver::{
    FileMetadata, FileSystem, ResolveError, ResolveOptions, ResolverGeneric, TsconfigDiscovery,
    TsconfigOptions, TsconfigReferences,
};
use rcl_core::analyzer::{parse_file_analysis, FileAnalysis};
use rcl_core::declarations::{
    process_export_default_declaration, process_exported_declaration, register_component,
    Declarations, ImportEntry, SourceFile,
};
use rcl_core::document::{
    analyze_source_with_host, analyze_source_with_host_and_scope, answer, continue_analysis,
    find_component_declaration, Declared, Outcome, ScopeConfig, SourceHost,
};
use rcl_core::elements::{jsx_lookup_and_tag_name, track_function};
use rcl_core::exports::{
    add_exported_declaration_names, collect_local_component_declaration_names,
    collect_local_component_export_names, extract_file_component_exports, get_file_component_info,
};
use rcl_core::fixture::{find_entry_file, list_entry_candidates, report_directory, report_usages};
use rcl_core::modules::{
    resolve_export_declaration, ModuleFile, Modules, Request, Resolution, Search,
};
use rcl_core::names::{NameMap, NameSet};
use rcl_core::resolver::{
    accept_resolution, list_config_candidates, nearest_config, plan_lookup, Start,
};
use rcl_core::scope::{parse_scope, scope_with_flags};
use rcl_core::syntax::{get_child, get_items, is_kind};
use rcl_core::tree::{choose_dialect, parse_program, Tree};
use rcl_core::{Kind, Range, Span, Usage};

#[derive(Clone, Default)]
struct MemoryProject {
    files: HashMap<PathBuf, String>,
}

impl MemoryProject {
    fn with_files(files: &[(&str, &str)]) -> Self {
        Self {
            files: files
                .iter()
                .map(|(path, contents)| (PathBuf::from(path), (*contents).to_string()))
                .collect(),
        }
    }

    fn is_dir(&self, path: &Path) -> bool {
        self.files
            .keys()
            .any(|file_path| file_path != path && file_path.starts_with(path))
    }

    fn read_file(&self, path: &Path) -> io::Result<String> {
        self.files
            .get(path)
            .cloned()
            .ok_or_else(|| io::Error::new(io::ErrorKind::NotFound, path.display().to_string()))
    }
}

impl FileSystem for MemoryProject {
    fn new() -> Self {
        Self::default()
    }

    fn read(&self, path: &Path) -> io::Result<Vec<u8>> {
        self.read_file(path).map(String::into_bytes)
    }

    fn read_to_string(&self, path: &Path) -> io::Result<String> {
        self.read_file(path)
    }

    fn metadata(&self, path: &Path) -> io::Result<FileMetadata> {
        if self.files.contains_key(path) {
            Ok(FileMetadata::new(true, false, false))
        } else if self.is_dir(path) {
            Ok(FileMetadata::new(false, true, false))
        } else {
            Err(io::Error::new(
                io::ErrorKind::NotFound,
                path.display().to_string(),
            ))
        }
    }

    fn symlink_metadata(&self, path: &Path) -> io::Result<FileMetadata> {
        self.metadata(path)
    }

    fn read_link(&self, path: &Path) -> Result<PathBuf, ResolveError> {
        Err(io::Error::new(io::ErrorKind::NotFound, path.display().to_string()).into())
    }

    fn canonicalize(&self, path: &Path) -> io::Result<PathBuf> {
        self.metadata(path)?;
        Ok(path.to_path_buf())
    }
}

fn find_nearest_config_in(from_file: &str, project: &MemoryProject) -> Option<String> {
    let present = list_config_candidates(from_file, false)
        .iter()
        .map(|candidate| project.files.contains_key(Path::new(candidate)))
        .collect();
    nearest_config(from_file, &present, false)
}

fn resolve_import_in(from_file: &str, specifier: &str, project: &MemoryProject) -> Option<String> {
    let lookup = plan_lookup(from_file, find_nearest_config_in(from_file, project), false)?;
    let settings = lookup.settings;
    let options = ResolveOptions {
        extensions: settings.extensions,
        extension_alias: settings
            .extension_alias
            .into_iter()
            .map(|alias| (alias.extension, alias.candidates))
            .collect(),
        main_files: settings.main_files,
        main_fields: settings.main_fields,
        condition_names: settings.condition_names,
        symlinks: settings.symlinks,
        tsconfig: settings.config_file.map(|file| {
            TsconfigDiscovery::Manual(TsconfigOptions {
                config_file: file.into(),
                references: TsconfigReferences::Auto,
            })
        }),
        ..ResolveOptions::default()
    };
    let resolver = ResolverGeneric::new_with_file_system(project.clone(), options);
    let found = match lookup.start {
        Start::Directory(directory) => resolver.resolve(directory, specifier),
        Start::File(file) => resolver.resolve_file(file, specifier),
    };
    accept_resolution(
        found
            .ok()
            .map(|resolution| resolution.into_path_buf().to_string_lossy().into_owned()),
    )
}

struct EmptyHost;

impl SourceHost for EmptyHost {
    fn read_to_string(&self, _file_path: &str) -> Option<String> {
        None
    }
}

impl SourceHost for MemoryProject {
    fn read_to_string(&self, file_path: &str) -> Option<String> {
        self.files.get(Path::new(file_path)).cloned()
    }
}

/// Answers `request`: specifiers are resolved in `project`, and `host` reads modules.
fn answer_in<H: SourceHost>(
    request: Request,
    project: &MemoryProject,
    host: &H,
    modules: &mut Modules,
) {
    match request {
        Request::Resolve { from, specifier } => {
            let target = resolve_import_in(&from, &specifier, project);
            modules.resolutions.push(Resolution { from, specifier, target });
        }
        request => answer(request, host, modules, false),
    }
}

fn analyze_with<H: SourceHost>(
    project: &MemoryProject,
    host: &H,
    path: &str,
    source: &str,
    scope: ScopeConfig,
) -> Vec<Usage> {
    let analysis = parse_file_analysis(path, source, false);
    let mut modules = Modules::new();
    loop {
        match continue_analysis(&modules, path, &analysis, scope) {
            Outcome::Done(usages) => return usages,
            Outcome::Need(request) => answer_in(request, project, host, &mut modules),
        }
    }
}

fn analyze_in(project: &MemoryProject, path: &str, source: &str, scope: ScopeConfig) -> Vec<Usage> {
    analyze_with(project, project, path, source, scope)
}

fn search_in(
    project: &MemoryProject,
    modules: &mut Modules,
    from: &str,
    specifier: &str,
    name: &str,
) -> Search {
    loop {
        match resolve_export_declaration(modules, from, specifier, name) {
            Search::Need(request) => answer_in(request, project, project, modules),
            outcome => return outcome,
        }
    }
}

/// Whether `modules` know what the file `path` holds.
fn knows(modules: &Modules, path: &str) -> bool {
    matches!(modules.find_info(path), Some(Some(_)))
}

/// Analyzes the file `/proj/entry.tsx` of `project`.
fn analyze_entry(project: &MemoryProject) -> Vec<Usage> {
    let source = project.files[Path::new("/proj/entry.tsx")].clone();
    analyze_in(project, "/proj/entry.tsx", &source, ScopeConfig::default())
}

fn analyze_temp_source(path: &str, source: &str) -> Vec<Usage> {
    analyze_source_with_host(path, source, &EmptyHost)
}

fn names_with_kind(usages: &[Usage], kind: Kind) -> BTreeSet<String> {
    usages
        .iter()
        .filter(|usage| usage.kind == kind)
        .map(|usage| usage.tag_name.clone())
        .collect()
}

fn tag_names(usages: &[Usage]) -> Vec<&str> {
    usages.iter().map(|usage| usage.tag_name.as_str()).collect()
}

fn empty_declarations() -> Declarations {
    Declarations {
        async_components: NameSet::new(),
        component_ranges: Vec::new(),
        export_references: Vec::new(),
        imports: NameMap::new(),
        local_components: NameMap::new(),
        type_identifiers: Vec::new(),
    }
}

fn no_scope() -> ScopeConfig {
    ScopeConfig {
        declaration: false,
        element: false,
        export: false,
        import: false,
        types: false,
    }
}

#[test]
fn find_component_declaration_returns_single_line_ascii_position() {
    let source = "export function Button(){}";

    let position = find_component_declaration("/proj/entry.tsx", source, "Button", &EmptyHost);

    assert_eq!(position, Some((0, 16)));
}

#[test]
fn find_component_declaration_counts_utf16_units_before_declaration_line() {
    let source = "// 🦀 cool\nexport function Button(){}";

    let position = find_component_declaration("/proj/entry.tsx", source, "Button", &EmptyHost);

    assert_eq!(position, Some((1, 16)));
}

#[test]
fn find_component_declaration_handles_crlf_lines_like_typescript_oracle() {
    let source = "// header\r\nexport function Button(){}";

    let position = find_component_declaration("/proj/entry.tsx", source, "Button", &EmptyHost);

    assert_eq!(position, Some((1, 16)));
}

#[test]
fn find_component_declaration_returns_none_for_absent_component_name() {
    let source = "export function Button(){}";

    let position = find_component_declaration("/proj/entry.tsx", source, "Missing", &EmptyHost);

    assert_eq!(position, None);
}

#[test]
fn find_component_declaration_counts_the_first_of_several_lines_as_one_place() {
    let text = "function Local() {\n  return <span />;\n}\n";

    let position = find_component_declaration("/project/app/page.tsx", text, "Local", &EmptyHost);

    assert_eq!(position, Some((0, 0)));
}

#[test]
fn analyze_source_with_host_and_scope_can_emit_only_element_usages() {
    let source = "function Button(){ return <span/>; }\nexport function App(){ return <Button/>; }";
    let scope = ScopeConfig {
        declaration: false,
        element: true,
        export: false,
        import: false,
        types: false,
    };

    let usages = analyze_source_with_host_and_scope("/proj/entry.tsx", source, scope, &EmptyHost);

    assert_eq!(tag_names(&usages), vec!["Button"]);
}

#[test]
fn analyze_source_with_host_and_scope_covers_exported_variable_components() {
    let source = "const { Ignored } = props; const lower = () => null; let Missing; export const Button = () => <div/>;";
    let scope = ScopeConfig {
        declaration: true,
        element: false,
        export: false,
        import: false,
        types: false,
    };

    let usages = analyze_source_with_host_and_scope("/proj/entry.tsx", source, scope, &EmptyHost);

    assert_eq!(tag_names(&usages), vec!["Button"]);
}

#[test]
fn analyze_source_with_host_and_scope_and_fs_resolves_aliased_barrel_to_client_component() {
    let source = "import { Button } from '@ui';\nexport function App(){ return <Button/>; }";
    let project = MemoryProject::with_files(&[
        ("/proj/src/app/entry.tsx", source),
        (
            "/proj/tsconfig.json",
            r#"{"compilerOptions":{"baseUrl":".","paths":{"@ui":["src/ui/index.ts"]}}}"#,
        ),
        ("/proj/src/ui/index.ts", "export { Button } from './button';"),
        (
            "/proj/src/ui/button.tsx",
            "'use client';\nexport function Button() { return null; }",
        ),
    ]);
    let scope = ScopeConfig {
        declaration: false,
        element: true,
        export: false,
        import: false,
        types: false,
    };

    let usages = analyze_in(&project, "/proj/src/app/entry.tsx", source, scope);

    assert_eq!(usages.len(), 1);
    assert_eq!(usages[0].kind, Kind::Client);
    assert_eq!(usages[0].tag_name, "Button");
    assert_eq!(usages[0].source_file_path, "/proj/src/ui/button.tsx");
}

#[test]
fn analyze_path_canonical_relativizes_existing_file() {
    let project = MemoryProject::with_files(&[(
        "/proj/entry.tsx",
        "export function Page(){ return <Page/>; }",
    )]);

    let json = report_usages(&report_directory("/proj/entry.tsx", false), analyze_entry(&project), false);

    assert!(json.contains(r#""sourceFilePath":"entry.tsx""#));
    assert!(json.contains(r#""tagName":"Page""#));
}

#[test]
fn fixture_and_path_fallbacks_return_empty_canonical_json() {
    assert_eq!(find_entry_file("/proj", &vec![false; 4], false), None);
    assert_eq!(report_usages("/proj", Vec::new(), false), "[]");
}

#[test]
fn fixture_scope_handles_invalid_json_and_disabled_element_scope() {
    let source = "export function Page(){ return <Page/>; }";
    let invalid = parse_scope("{");
    assert_eq!(invalid, ScopeConfig::default());
    let usages = analyze_source_with_host_and_scope("/proj/entry.tsx", source, invalid, &EmptyHost);
    assert!(report_usages("/proj", usages, false).contains(r#""tagName":"Page""#));

    let scoped = parse_scope(
        r#"{"declaration":false,"element":false,"export":false,"import":false,"type":false}"#,
    );
    assert_eq!(scoped, no_scope());
    let usages = analyze_source_with_host_and_scope("/proj/entry.tsx", source, scoped, &EmptyHost);
    assert_eq!(report_usages("/proj", usages, false), "[]");
}

#[test]
fn flags_that_are_not_truth_values_do_not_count() {
    let scope = parse_scope(r#"{"declaration":0,"element":false,"type":"false","import":null}"#);

    assert_eq!(scope, ScopeConfig { element: false, ..ScopeConfig::default() });
    assert_eq!(
        scope_with_flags(Some(false), None, Some(true), None, Some(false)),
        ScopeConfig {
            declaration: false,
            element: true,
            export: true,
            import: true,
            types: false,
        }
    );
}

#[test]
fn entry_files_count_in_order() {
    assert_eq!(
        list_entry_candidates("/case", false),
        vec!["/case/entry.tsx", "/case/entry.jsx", "/case/entry.ts", "/case/entry.js"]
    );
    assert_eq!(
        find_entry_file("/case", &vec![false, false, true, true], false),
        Some("/case/entry.ts".to_string())
    );
}

#[test]
fn top_level_declarations_and_exports_cover_component_forms() {
    let source = r"
        export function ExportedFunction(){ return <ExportedFunction/>; }
        export class ExportedClass { render(){ return <ExportedClass/>; } }
        export type ExportedType = Props;
        export interface ExportedInterface { child: Props }
        export default class DefaultClass { render(){ return <DefaultClass/>; } }
        export default NamedDefault;
        class ClassExpressionBase {}
        const ClassExpression = class NamedInner extends ClassExpressionBase { render(){ return <ClassExpression/>; } };
        const PlainClass = class { render(){ return <PlainClass/>; } };
        function lower(){ return <lower/>; }
        function Local(){ return <Local/>; }
        export { Local as ExportedLocal };
        type Props = ExportedType;
        function UsesTypes(props: ExportedInterface): ExportedType { return <UsesTypes/>; }
    ";

    let usages = analyze_temp_source("/virtual/forms.tsx", source);
    let server_names = names_with_kind(&usages, Kind::Server);

    for expected in [
        "ExportedFunction",
        "ExportedClass",
        "DefaultClass",
        "ClassExpression",
        "PlainClass",
        "Local",
        "ExportedType",
        "ExportedInterface",
        "UsesTypes",
    ] {
        assert!(
            server_names.contains(expected),
            "missing {expected} in {server_names:?}"
        );
    }
    assert!(!server_names.contains("lower"));
}

#[test]
fn variable_component_detection_covers_skipped_and_async_initializer_paths() {
    let source = r"
        let [ArrayPattern] = [];
        let MissingInitializer;
        const lower = () => <lower/>;
        const AsyncClient = async () => null;
        const Wrapped = memo(function WrappedInner(){ return null; });
        const NotWrapped = notMemo(() => null);
        function Page(){ return <><AsyncClient/><Wrapped/></>; }
    ";

    let usages = analyze_temp_source("/virtual/variables.tsx", source);
    let server_names = names_with_kind(&usages, Kind::Server);

    assert!(server_names.contains("Wrapped"));
    assert!(!server_names.contains("MissingInitializer"));
    assert!(!server_names.contains("NotWrapped"));
}

#[test]
fn server_component_event_handler_inference_covers_inline_refs_and_use_server() {
    let source = r#"
        function InlineClient(){ return <button onClick={() => 1}><Child/></button>; }
        function RefClient(){ function handle(){ return 1; } return <button onClick={handle}><Child/></button>; }
        function ServerAction(){ function handle(){ "use server"; return 1; } return <button onClick={handle}><Child/></button>; }
        function NonEvent(){ const value = 1; return <button disabled><Child/></button>; }
        async function AsyncServer(){ return <Child/>; }
        function Child(){ return <Child/>; }
    "#;

    let usages = analyze_temp_source("/virtual/inference.tsx", source);
    let client_names = names_with_kind(&usages, Kind::Client);
    let server_names = names_with_kind(&usages, Kind::Server);

    assert!(client_names.contains("InlineClient"));
    assert!(client_names.contains("RefClient"));
    assert!(server_names.contains("ServerAction"));
    assert!(server_names.contains("NonEvent"));
    assert!(server_names.contains("AsyncServer"));
}

#[test]
fn jsx_member_namespaces_this_and_lowercase_roots_are_filtered() {
    let source = r"
        import * as UI from './ui';
        import * as lowercase from './ui';
        function Page(){ return <><UI.Card/><UI.Nested.Card/><lowercase.Card/><foo.Bar/><this.Card/><svg:path /></>; }
    ";
    let project = MemoryProject::with_files(&[
        ("/proj/entry.tsx", source),
        (
            "/proj/ui.tsx",
            "'use client'; export function Card(){ return <Card/>; } export const Nested = { Card };",
        ),
    ]);

    let usages = analyze_entry(&project);

    assert!(usages.iter().any(|usage| usage.tag_name == "UI.Card"));
    assert!(usages.iter().any(|usage| usage.tag_name == "UI.Nested.Card"));
    assert!(!usages.iter().any(|usage| usage.tag_name == "lowercase.Card"));
    assert!(!usages.iter().any(|usage| usage.tag_name == "foo.Bar"));
    assert!(!usages.iter().any(|usage| usage.tag_name == "this.Card"));
    assert!(!usages.iter().any(|usage| usage.tag_name == "svg:path"));
}

#[test]
fn lowercase_member_root_is_filtered_by_real_jsx_analysis() {
    let source = "function Page(){ return <foo.Bar/>; }";
    let usages = analyze_temp_source("/virtual/lowercase-member.tsx", source);

    assert!(usages.iter().all(|usage| usage.tag_name != "foo.Bar"));
}

#[test]
fn intrinsic_jsx_identifier_names_are_ignored() {
    let source = "function Page(){ return <div/>; }";
    let usages = analyze_temp_source("/virtual/intrinsic.tsx", source);

    assert!(!usages.iter().any(|usage| usage.tag_name == "div"));
}

#[test]
fn oxc_intrinsic_jsx_name_reaches_identifier_variant() {
    let source = "function Page(){ return <div/>; }";
    let program = parse_program("intrinsic.tsx", source, false);

    let function = &get_items(&program, "body")[0];
    assert!(is_kind(function, "FunctionDeclaration"));
    let statement = &get_items(get_child(function, "body"), "body")[0];
    assert!(is_kind(statement, "ReturnStatement"));
    let element = get_child(statement, "argument");
    assert!(is_kind(element, "JSXElement"));
    let name = get_child(get_child(element, "openingElement"), "name");

    assert!(is_kind(name, "JSXIdentifier"));
    assert!(jsx_lookup_and_tag_name(name, source).is_none());
}

#[test]
fn imported_components_cover_resolution_skips_reexports_and_star_fallbacks() {
    let project = MemoryProject::with_files(&[
        (
            "/proj/entry.tsx",
            r"
                import Missing from './missing';
                import LocalShadow from './client';
                import { LocalShadow } from './server';
                import { Button } from './barrel';
                import { StarThing } from './star-barrel';
                import { MissingStar } from './unresolved-star-barrel';
                import { LoopThing } from './cycle-a';
                import { NotAComponent as lowerAlias } from './client';
                function Page(){ return <><Missing/><LocalShadow/><Button/><StarThing/><MissingStar/><LoopThing/><lowerAlias/></>; }
                function LocalShadow(){ return <LocalShadow/>; }
            ",
        ),
        (
            "/proj/client.tsx",
            "'use client'; export function NotAComponent(){ return <NotAComponent/>; }",
        ),
        (
            "/proj/server.tsx",
            "export function LocalShadow(){ return <LocalShadow/>; }",
        ),
        (
            "/proj/barrel.tsx",
            "export { Button } from './button'; export { lower as Lower } from './button';",
        ),
        (
            "/proj/button.tsx",
            "'use client'; export function Button(){ return <Button/>; }",
        ),
        ("/proj/star-barrel.tsx", "export * from './star';"),
        (
            "/proj/star.tsx",
            "'use client'; export function StarThing(){ return <StarThing/>; }",
        ),
        (
            "/proj/unresolved-star-barrel.tsx",
            "export * from './missing-star'; export * from './star';",
        ),
        ("/proj/cycle-a.tsx", "export * from './cycle-b';"),
        ("/proj/cycle-b.tsx", "export * from './cycle-a';"),
    ]);

    let usages = analyze_entry(&project);
    let client_names = names_with_kind(&usages, Kind::Client);
    let server_names = names_with_kind(&usages, Kind::Server);

    assert!(client_names.contains("Button"));
    assert!(client_names.contains("StarThing"));
    assert!(usages
        .iter()
        .any(|usage| usage.tag_name == "StarThing" && usage.source_file_path.ends_with("star.tsx")));
    assert!(server_names.contains("LocalShadow"));
    assert!(!client_names.contains("Missing"));
    assert!(!client_names.contains("MissingStar"));
    assert!(!server_names.contains("LoopThing"));
}

#[test]
fn direct_reexport_resolution_covers_cache_misses_and_missing_star_sources() {
    let project = MemoryProject::with_files(&[
        (
            "/proj/barrel.tsx",
            "export { Button } from './button'; export * from './missing-star'; export * from './star';",
        ),
        (
            "/proj/button.tsx",
            "'use client'; export function Button(){ return <Button/>; }",
        ),
        (
            "/proj/star.tsx",
            "export function StarThing(){ return <StarThing/>; }",
        ),
    ]);

    let mut modules = Modules::new();
    match search_in(&project, &mut modules, "/proj/entry.tsx", "./barrel", "Button") {
        Search::Found { kind, path } => {
            assert_eq!((kind, path.as_str()), (Kind::Client, "/proj/button.tsx"));
        }
        outcome => panic!("resolve named re-export: {outcome:?}"),
    }
    match search_in(&project, &mut modules, "/proj/entry.tsx", "./barrel", "StarThing") {
        Search::Found { kind, path } => {
            assert_eq!((kind, path.as_str()), (Kind::Server, "/proj/star.tsx"));
        }
        outcome => panic!("resolve star export after missing star source is skipped: {outcome:?}"),
    }
}

#[test]
fn star_reexport_cache_miss_skips_unresolvable_source_then_resolves() {
    let project = MemoryProject::with_files(&[
        (
            "/proj/barrel.tsx",
            "export * from './missing-star'; export * from './star';",
        ),
        (
            "/proj/star.tsx",
            "'use client'; export function StarThing(){ return <StarThing/>; }",
        ),
    ]);

    let mut modules = Modules::new();
    match search_in(&project, &mut modules, "/proj/entry.tsx", "./barrel", "StarThing") {
        Search::Found { kind, path } => {
            assert_eq!((kind, path.as_str()), (Kind::Client, "/proj/star.tsx"));
        }
        outcome => panic!("resolve star export after skipping missing star source: {outcome:?}"),
    }
    assert!(knows(&modules, "/proj/barrel.tsx"));
    assert!(knows(&modules, "/proj/star.tsx"));
}

#[test]
fn named_reexport_with_unresolvable_source_returns_none() {
    let project = MemoryProject::with_files(&[(
        "/proj/barrel.tsx",
        "export { Missing } from './missing';",
    )]);

    let mut modules = Modules::new();
    assert!(matches!(
        search_in(&project, &mut modules, "/proj/entry.tsx", "./barrel", "Missing"),
        Search::Missing
    ));
    assert!(knows(&modules, "/proj/barrel.tsx"));
}

#[test]
fn source_host_analysis_prefers_host_text_for_imported_modules() {
    struct MemoryHost {
        files: HashMap<String, String>,
    }

    impl SourceHost for MemoryHost {
        fn read_to_string(&self, file_path: &str) -> Option<String> {
            self.files.get(file_path).cloned()
        }
    }

    let source = "import { Button } from './button'; function Page(){ return <Button/>; }";
    let project = MemoryProject::with_files(&[
        ("/proj/entry.tsx", source),
        ("/proj/button.tsx", "export function Button(){ return <Button/>; }"),
    ]);
    let host = MemoryHost {
        files: HashMap::from([(
            "/proj/button.tsx".to_string(),
            "'use client'; export function Button(){ return <Button/>; }".to_string(),
        )]),
    };

    let usages = analyze_with(&project, &host, "/proj/entry.tsx", source, ScopeConfig::default());

    assert!(names_with_kind(&usages, Kind::Client).contains("Button"));
    let buttons: Vec<&Usage> = usages.iter().filter(|usage| usage.tag_name == "Button").collect();
    assert_eq!(buttons.len(), 2);
    for button in buttons {
        assert_eq!(button.kind, Kind::Client);
        assert_eq!(button.source_file_path, "/proj/button.tsx");
    }
    assert!(names_with_kind(&usages, Kind::Server).contains("Page"));

    let from_project = analyze_entry(&project);
    assert!(names_with_kind(&from_project, Kind::Server).contains("Button"));
}

#[test]
fn hosts_are_asked_for_the_module_that_was_found() {
    struct OneModule;

    impl SourceHost for OneModule {
        fn read_to_string(&self, file_path: &str) -> Option<String> {
            if file_path == "/proj/known.tsx" {
                Some("'use client'; export function Known(){ return null; }".to_string())
            } else {
                None
            }
        }
    }

    let mut modules = Modules::new();
    for path in ["/proj/known.tsx", "/proj/unknown.tsx"] {
        let request = Request::Read { path: path.to_string() };
        answer(request, &OneModule, &mut modules, false);
    }
    let known = modules.find_info("/proj/known.tsx").expect("asked for");
    assert_eq!(known.as_ref().expect("read").kind, Kind::Client);
    assert!(matches!(modules.find_info("/proj/unknown.tsx"), Some(None)));

    let request = Request::Resolve {
        from: "/rcl-core-nowhere/entry.tsx".to_string(),
        specifier: "./missing".to_string(),
    };
    answer(request, &OneModule, &mut modules, false);
    assert_eq!(
        modules.find_target("/rcl-core-nowhere/entry.tsx", "./missing"),
        Some(&None)
    );
}

#[test]
fn usages_stand_inside_their_document() {
    let source = "type Props = {}; export const Card = (props: Props) => <Ui.Box><Card/></Ui.Box>;";
    let usages = analyze_temp_source("/proj/entry.tsx", source);
    assert!(!usages.is_empty());
    for usage in usages {
        assert!(!usage.ranges.is_empty());
        assert!(usage.tag_name.starts_with(|c: char| c.is_ascii_uppercase()));
        for range in usage.ranges {
            assert!(range.end as usize <= source.len());
        }
    }
}

#[test]
fn dialects_follow_the_names_of_files() {
    let dialect = |path: &str, windows: bool| {
        let dialect = choose_dialect(path, windows);
        (dialect.extension, dialect.declaration)
    };
    assert_eq!(dialect("/a/b.tsx", false), ("tsx".to_string(), false));
    assert_eq!(dialect("/a/b", false), ("ts".to_string(), false));
    assert_eq!(dialect("/a/b.css", false), ("ts".to_string(), false));
    assert_eq!(dialect("/a/.tsx", false), ("ts".to_string(), false));
    assert_eq!(dialect("/a/b.d.ts", false), ("ts".to_string(), true));
    assert_eq!(dialect("/a/.d.ts", false), ("ts".to_string(), false));
    assert_eq!(dialect("/a/b.d.css.ts", false), ("ts".to_string(), true));
    assert_eq!(dialect("/a/b.d.mts", false), ("mts".to_string(), true));
    assert_eq!(dialect("/a/.d.cts", false), ("cts".to_string(), false));
    assert_eq!(dialect("/a/b.d.css.mts", false), ("mts".to_string(), false));
    assert_eq!(dialect("C:\\a.d.b\\c.ts", true), ("ts".to_string(), false));
    assert_eq!(dialect("C:\\a\\b.tsx\\", true), ("tsx".to_string(), false));
    assert_eq!(dialect("C:\\a\\b.tsx\\", false), ("ts".to_string(), false));
    assert_eq!(dialect("C:.tsx", false), ("tsx".to_string(), false));
    assert_eq!(dialect("C:.tsx", true), ("ts".to_string(), false));
    assert_eq!(dialect("a\\.d.ts", false), ("ts".to_string(), true));
    assert_eq!(dialect("a\\.d.ts", true), ("ts".to_string(), false));
    assert_eq!(dialect("/a/b.t:s", false), ("ts".to_string(), false));
    for extension in ["js", "mjs", "cjs", "jsx", "ts", "mts", "cts", "tsx"] {
        assert_eq!(dialect(&format!("/a/b.{extension}"), false), (extension.to_string(), false));
    }

    let source = "const value = <Tag>{};";
    let in_tsx = format!("{:?}", parse_program("/a/b.tsx", "const Page = () => <Tag/>;", false));
    assert!(in_tsx.contains("JSXOpeningElement"));
    assert!(!format!("{:?}", parse_program("/a/b.ts", source, false)).contains("JSXOpeningElement"));
}

#[test]
fn extract_file_component_exports_covers_default_and_named_export_shapes() {
    let names = extract_file_component_exports(
        "/proj/exports.tsx",
        r"
            function Named(){ return <Named/>; }
            class LocalClass { render(){ return <LocalClass/>; } }
            const Variable = () => <Variable/>;
            const Wrapped = React.memo(function WrappedInner(){ return <Wrapped/>; });
            const NotComponent = value;
            export { Named, LocalClass as RenamedClass, Variable, Wrapped, NotComponent };
            export default Named;
        ",
        false,
    )
    .component_names;
    for expected in ["Named", "RenamedClass", "Variable", "Wrapped", "default"] {
        assert!(
            names.contains(expected),
            "missing {expected} from {names:?}"
        );
    }
    assert!(!names.contains("NotComponent"));

    for (path, source) in [
        (
            "/proj/default-function.tsx",
            "export default function(){ return <Anon/>; }",
        ),
        (
            "/proj/default-class.tsx",
            "export default class { render(){ return <Anon/>; } }",
        ),
        (
            "/proj/default-exprs.tsx",
            "export default () => <Anon/>; export const Other = 1;",
        ),
        (
            "/proj/default-wrapped.tsx",
            "export default memo(function Wrapped(){ return <Wrapped/>; });",
        ),
    ] {
        let names = extract_file_component_exports(path, source, false).component_names;
        assert!(
            names.contains("default"),
            "missing default from {path:?}: {names:?}"
        );
    }
}

#[test]
fn module_export_names_support_string_literals_in_imports_and_exports() {
    let project = MemoryProject::with_files(&[
        (
            "/proj/entry.tsx",
            "import { 'ClientThing' as ClientThing } from './client'; function Page(){ return <ClientThing/>; }",
        ),
        (
            "/proj/client.tsx",
            "'use client'; const ClientThing = () => <ClientThing/>; export { ClientThing as 'ClientThing' };",
        ),
    ]);

    let usages = analyze_entry(&project);

    assert!(names_with_kind(&usages, Kind::Client).contains("ClientThing"));
}

#[test]
fn miscellaneous_parser_branches_are_exercised_by_valid_sources() {
    let project = MemoryProject::with_files(&[
        (
            "/proj/entry.tsx",
            r#"
                import './side-effect';
                export * from './star';
                export { lower as lower } from './star';
                enum LocalEnum { A }
                interface TopInterface { value: string }
                type TopType = TopInterface;
                function Page(){ const [ArrayPattern] = []; let MissingInitializer; const expression = function named(){ "use server"; return null; }; return <Widget bare onClick={function(){ return expression; }} onMouseEnter={1}/>; }
                export default function(){ return <Anon/>; }
                export default class NamedDefaultClass { render(){ return <NamedDefaultClass/>; } }
                export default class { render(){ return <AnonClass/>; } }
                const FunctionExpression = function(){ return <FunctionExpression/>; };
                const MemoArrow = memo(() => null);
                const MemoMissing = memo(1);
                const ReactComputed = React['memo'](() => null);
            "#,
        ),
        ("/proj/side-effect.ts", "export const value = 1;"),
        ("/proj/star.tsx", "export function Star(){ return <Star/>; }"),
    ]);

    let usages = analyze_entry(&project);
    let server_names = names_with_kind(&usages, Kind::Server);

    for expected in [
        "TopInterface",
        "TopType",
        "NamedDefaultClass",
        "FunctionExpression",
        "MemoArrow",
    ] {
        assert!(
            server_names.contains(expected),
            "missing {expected} from {server_names:?}"
        );
    }
    assert!(!server_names.contains("MemoMissing"));
    assert!(!server_names.contains("ReactComputed"));
}

#[test]
fn unreadable_import_leaves_no_usage() {
    let source = "import Bad from './bad'; function Page(){ return <Bad/>; }";
    let analysis = parse_file_analysis("/proj/entry.tsx", source, false);
    let mut modules = Modules::new();
    modules.resolutions.push(Resolution {
        from: "/proj/entry.tsx".to_string(),
        specifier: "./bad".to_string(),
        target: Some("/proj/bad.tsx".to_string()),
    });
    modules.files.push(ModuleFile {
        path: "/proj/bad.tsx".to_string(),
        info: None,
    });

    match continue_analysis(&modules, "/proj/entry.tsx", &analysis, ScopeConfig::default()) {
        Outcome::Done(usages) => assert!(!usages.iter().any(|usage| usage.tag_name == "Bad")),
        Outcome::Need(request) => panic!("all answers are known: {request:?}"),
    }
}

#[test]
fn default_class_expression_and_non_component_default_are_visited() {
    let source = r"
        class Base {}
        export default (class NamedExpression extends Base { render(){ return <NamedExpression/>; } });
        export default 1;
        function Plain(){ return <div onClick={1}/>; }
    ";

    let usages = analyze_temp_source("/virtual/defaults.tsx", source);

    assert!(usages.iter().any(|usage| usage.tag_name == "Plain"));
}

#[test]
fn private_fallback_helpers_cover_none_and_lowercase_paths() {
    let declared: NameMap<Declared> = NameMap::new();
    assert!(declared.get("Missing").is_none());

    let mut imports = NameMap::new();
    imports.insert(
        "Missing",
        ImportEntry {
            export_name: "Missing".to_string(),
            ranges: Vec::new(),
            source: "./missing".to_string(),
        },
    );
    let analysis = FileAnalysis {
        export_references: Vec::new(),
        imports,
        jsx_tags: Vec::new(),
        local_components: NameMap::new(),
        own_component_kind: Kind::Server,
        type_identifiers: Vec::new(),
    };
    let mut modules = Modules::new();
    modules.resolutions.push(Resolution {
        from: "/tmp/entry.tsx".to_string(),
        specifier: "./missing".to_string(),
        target: None,
    });
    match continue_analysis(&modules, "/tmp/entry.tsx", &analysis, ScopeConfig::default()) {
        Outcome::Done(usages) => assert!(usages.is_empty()),
        Outcome::Need(request) => panic!("all answers are known: {request:?}"),
    }

    let mut modules = Modules::new();
    modules.resolutions.push(Resolution {
        from: "/tmp/entry.tsx".to_string(),
        specifier: "./missing".to_string(),
        target: Some("/tmp/missing.tsx".to_string()),
    });
    modules.files.push(ModuleFile {
        path: "/tmp/missing.tsx".to_string(),
        info: None,
    });
    match continue_analysis(&modules, "/tmp/entry.tsx", &analysis, ScopeConfig::default()) {
        Outcome::Done(usages) => assert!(usages.is_empty()),
        Outcome::Need(request) => panic!("all answers are known: {request:?}"),
    }

    let file = SourceFile::new("lower");
    let mut declarations = empty_declarations();
    register_component(
        "lower",
        Span { start: 0, end: 5 },
        Span { start: 0, end: 5 },
        &file,
        &mut declarations,
    );
    assert!(declarations.component_ranges.is_empty());
    assert!(declarations.local_components.entries.is_empty());
}

#[test]
fn direct_export_extraction_helpers_cover_remaining_declaration_shapes() {
    let source = r"
        function Fn(){ return null; }
        class Cls { render(){ return null; } }
        export function ExportedFn(){ return null; }
        export class ExportedCls { render(){ return null; } }
        export const ExportedVar = () => null, lower = () => null, MissingInit;
        const NamedDefaultClass = class { render(){ return null; } };
        export default class NamedDefault { render(){ return null; } }
        export { lower as lower } from './other';
        export default notMemo(() => null);
    ";
    let names = extract_file_component_exports("/proj/helpers.tsx", source, false).component_names;
    assert!(names.contains("ExportedFn"));
    assert!(names.contains("ExportedCls"));
    assert!(names.contains("ExportedVar"));
    assert!(names.contains("NamedDefault"));

    let program = parse_program("/proj/helpers.tsx", source, false);
    let mut local_names = NameSet::new();
    for name in ["Fn", "Cls", "ExportedFn", "ExportedCls", "ExportedVar"] {
        local_names.insert(name);
    }
    let mut component_names = NameSet::new();

    for statement in get_items(&program, "body") {
        if is_kind(statement, "ExportNamedDeclaration") {
            let declaration = get_child(statement, "declaration");
            if !matches!(declaration, Tree::Null) {
                add_exported_declaration_names(
                    declaration,
                    true,
                    &local_names,
                    &mut component_names,
                );
            }
        }
        if is_kind(statement, "FunctionDeclaration") || is_kind(statement, "ClassDeclaration") {
            collect_local_component_export_names(statement, &mut local_names);
        }
    }

    assert!(component_names.contains("ExportedFn"));
    assert!(component_names.contains("ExportedCls"));
    assert!(component_names.contains("ExportedVar"));
    assert!(component_names.contains("default"));
}

#[test]
fn direct_anonymous_default_declarations_cover_default_fallbacks() {
    let source = "export default function(){ return null; } export default class { render(){ return null; } }";
    let program = parse_program("anon.tsx", source, false);
    let statements = get_items(&program, "body");
    assert_eq!(statements.len(), 2);

    for statement in statements {
        assert!(is_kind(statement, "ExportDefaultDeclaration"));
        let mut component_names = NameSet::new();
        add_exported_declaration_names(
            get_child(statement, "declaration"),
            true,
            &NameSet::new(),
            &mut component_names,
        );
        assert!(component_names.contains("default"));
    }
}

#[test]
fn direct_pattern_declarations_cover_skipped_export_bindings() {
    let source = "const [LocalSkip] = []; export const [ExportSkip] = []; export enum ExportedEnum { A }";
    let program = parse_program("pattern.tsx", source, false);
    let file = SourceFile::new(source);
    let mut local_component_names = NameSet::new();
    let mut pattern_component_names = NameSet::new();
    let mut declarations = empty_declarations();
    for statement in get_items(&program, "body") {
        if is_kind(statement, "VariableDeclaration") {
            collect_local_component_declaration_names(statement, &mut local_component_names);
        }
        if is_kind(statement, "ExportNamedDeclaration") {
            let declaration = get_child(statement, "declaration");
            add_exported_declaration_names(
                declaration,
                false,
                &local_component_names,
                &mut pattern_component_names,
            );
            process_exported_declaration(declaration, &file, &mut declarations);
        }
    }
    assert!(local_component_names.names.is_empty());
    assert!(pattern_component_names.names.is_empty());
    assert!(declarations.local_components.entries.is_empty());
}

#[test]
fn direct_default_class_expression_branch_registers_named_expression() {
    let source = "const X = class NamedExpression { render(){ return null; } };";
    let program = parse_program("class-expression.tsx", source, false);
    let file = SourceFile::new(source);
    let mut declarations = empty_declarations();

    let statement = &get_items(&program, "body")[0];
    assert!(is_kind(statement, "VariableDeclaration"));
    let class = get_child(&get_items(statement, "declarations")[0], "init");
    assert!(is_kind(class, "ClassExpression"));
    process_export_default_declaration(class, &file, &mut declarations);

    assert!(declarations.local_components.contains_key("NamedExpression"));
}

#[test]
fn direct_visitor_helper_covers_function_expression_tracking_guard() {
    let source = "const inner = function named(){ return null; };";
    let program = parse_program("expr.tsx", source, false);

    let statement = &get_items(&program, "body")[0];
    let function = get_child(&get_items(statement, "declarations")[0], "init");
    assert!(is_kind(function, "FunctionExpression"));

    assert!(track_function("Component", function).is_none());
}

#[test]
fn opening_tags_have_two_ranges_and_closing_tags_one() {
    let source = "function A(){ return <A  ><A.B /></A>; }";
    let usages = analyze_source_with_host_and_scope(
        "/virtual/tags.tsx",
        source,
        ScopeConfig { element: true, ..no_scope() },
        &EmptyHost,
    );

    assert_eq!(tag_names(&usages), vec!["A", "A.B", "A"]);
    assert_eq!(
        usages[0].ranges,
        vec![Range { start: 21, end: 23 }, Range { start: 25, end: 26 }]
    );
    assert_eq!(
        usages[1].ranges,
        vec![Range { start: 26, end: 30 }, Range { start: 31, end: 33 }]
    );
    assert_eq!(usages[2].ranges, vec![Range { start: 33, end: 37 }]);
}

#[test]
fn ranges_count_utf16_units() {
    let source = "/* 🦀중 */ export function Page(){ return null; }";
    let usages = analyze_temp_source("/virtual/unicode.tsx", source);

    assert_eq!(tag_names(&usages), vec!["Page"]);
    assert_eq!(usages[0].ranges, vec![Range { start: 26, end: 30 }]);
}

#[test]
fn annotated_variables_are_marked_by_their_names_alone() {
    let source = "const Page: React.FC = () => null; const \\u0042ox: FC = () => null;";
    let usages = analyze_source_with_host_and_scope(
        "/virtual/annotated.tsx",
        source,
        ScopeConfig { declaration: true, ..no_scope() },
        &EmptyHost,
    );

    assert_eq!(tag_names(&usages), vec!["Box", "Page"]);
    assert_eq!(usages[0].ranges, vec![Range { start: 41, end: 49 }]);
    assert_eq!(usages[1].ranges, vec![Range { start: 6, end: 10 }]);
}

#[test]
fn literals_outside_of_json_do_not_stop_the_analysis() {
    let source = "const big = 1e999; const half = '\\ud800'; function Page(){ return <Page/>; }";
    let usages = analyze_temp_source("/virtual/literals.tsx", source);

    assert_eq!(tag_names(&usages), vec!["Page", "Page"]);
}

#[test]
fn types_take_the_kinds_of_their_components() {
    let source = r"
        type Shared = 1;
        type Alone = 2;
        type Hidden = { inner: Shared };
        function Button(p: Shared){ return <a onClick={() => 1}/>; }
        function Page(p: Shared){ return null; }
    ";
    let usages = analyze_source_with_host_and_scope(
        "/virtual/types.tsx",
        source,
        ScopeConfig { types: true, ..no_scope() },
        &EmptyHost,
    );

    assert_eq!(
        usages
            .iter()
            .map(|usage| (usage.tag_name.as_str(), usage.kind))
            .collect::<Vec<_>>(),
        vec![
            ("Shared", Kind::Client),
            ("Shared", Kind::Server),
            ("Shared", Kind::Client),
            ("Alone", Kind::Server),
            ("Hidden", Kind::Server),
        ]
    );
}

#[test]
fn client_modules_declare_client_components() {
    let source = "'use client';\nexport async function Page(){ return null; }\nexport class Box {}";
    let usages = analyze_temp_source("/virtual/client.tsx", source);

    assert_eq!(tag_names(&usages), vec!["Box", "Page"]);
    assert!(usages.iter().all(|usage| usage.kind == Kind::Client));
}

#[test]
fn asynchronous_components_stay_on_the_server() {
    let source = "async function Page(){ return <a onClick={() => 1}/>; }";
    let usages = analyze_temp_source("/virtual/async.tsx", source);

    assert_eq!(names_with_kind(&usages, Kind::Client).len(), 0);
    assert!(names_with_kind(&usages, Kind::Server).contains("Page"));
}

#[test]
fn scopes_add_up() {
    let source = "type Props = 1; function A(p: Props){ return <A/>; } export { A };";
    let all = analyze_temp_source("/virtual/sum.tsx", source);
    let mut parts = Vec::new();
    for scope in [
        ScopeConfig { element: true, ..no_scope() },
        ScopeConfig { import: true, ..no_scope() },
        ScopeConfig { declaration: true, ..no_scope() },
        ScopeConfig { types: true, ..no_scope() },
        ScopeConfig { export: true, ..no_scope() },
    ] {
        parts.extend(analyze_source_with_host_and_scope(
            "/virtual/sum.tsx",
            source,
            scope,
            &EmptyHost,
        ));
    }

    assert_eq!(tag_names(&all), vec!["A", "A", "Props", "Props", "A"]);
    assert_eq!(all, parts);
}

#[test]
fn whole_modules_are_found_where_they_are_imported_from() {
    let project = MemoryProject::with_files(&[("/proj/ui.tsx", "'use client'; export const x = 1;")]);

    match search_in(&project, &mut Modules::new(), "/proj/entry.tsx", "./ui", "*") {
        Search::Found { kind, path } => {
            assert_eq!((kind, path.as_str()), (Kind::Client, "/proj/ui.tsx"));
        }
        outcome => panic!("find the module itself: {outcome:?}"),
    }
}

#[test]
fn searches_ask_for_what_is_not_known() {
    let mut modules = Modules::new();
    match resolve_export_declaration(&modules, "/proj/entry.tsx", "./ui", "Button") {
        Search::Need(Request::Resolve { from, specifier }) => {
            assert_eq!((from.as_str(), specifier.as_str()), ("/proj/entry.tsx", "./ui"));
        }
        outcome => panic!("ask for the file: {outcome:?}"),
    }
    modules.resolutions.push(Resolution {
        from: "/proj/entry.tsx".to_string(),
        specifier: "./ui".to_string(),
        target: Some("/proj/ui.tsx".to_string()),
    });
    match resolve_export_declaration(&modules, "/proj/entry.tsx", "./ui", "Button") {
        Search::Need(Request::Read { path }) => assert_eq!(path, "/proj/ui.tsx"),
        outcome => panic!("ask for the text: {outcome:?}"),
    }
    modules.files.push(ModuleFile {
        path: "/proj/ui.tsx".to_string(),
        info: Some(get_file_component_info("/proj/ui.tsx", "export const x = 1;", false)),
    });
    assert!(matches!(
        resolve_export_declaration(&modules, "/proj/entry.tsx", "./ui", "Button"),
        Search::Missing
    ));
}

#[test]
fn known_answers_stay_as_they_are() {
    let mut modules = Modules::new();
    assert!(modules.find_target("/app/page.tsx", "./card").is_none());
    modules.resolutions.push(Resolution {
        from: "/app/page.tsx".to_string(),
        specifier: "./card".to_string(),
        target: Some("/app/card.tsx".to_string()),
    });
    modules.resolutions.push(Resolution {
        from: "/app/page.tsx".to_string(),
        specifier: "./card".to_string(),
        target: None,
    });
    assert_eq!(
        modules.find_target("/app/page.tsx", "./card"),
        Some(&Some("/app/card.tsx".to_string()))
    );
    assert!(modules.find_target("/app/page.tsx", "./other").is_none());

    modules.files.push(ModuleFile {
        path: "/app/card.tsx".to_string(),
        info: None,
    });
    modules.files.push(ModuleFile {
        path: "/app/card.tsx".to_string(),
        info: Some(get_file_component_info("/app/card.tsx", "'use client';", false)),
    });
    assert!(matches!(modules.find_info("/app/card.tsx"), Some(None)));
    assert!(modules.find_info("/app/other.tsx").is_none());
}

#[test]
fn scopes_add_up_where_modules_are_imported() {
    let source = "import { Card, Gone } from './ui'; function Page(){ return <Card><Gone/></Card>; }";
    let project = MemoryProject::with_files(&[
        ("/proj/entry.tsx", source),
        ("/proj/ui.tsx", "export * from './card';"),
        ("/proj/card.tsx", "'use client'; export function Card(){ return null; }"),
    ]);
    let all = analyze_entry(&project);
    let mut parts = Vec::new();
    for scope in [
        ScopeConfig { element: true, ..no_scope() },
        ScopeConfig { import: true, ..no_scope() },
        ScopeConfig { declaration: true, ..no_scope() },
        ScopeConfig { types: true, ..no_scope() },
        ScopeConfig { export: true, ..no_scope() },
    ] {
        parts.extend(analyze_in(&project, "/proj/entry.tsx", source, scope));
    }

    assert_eq!(tag_names(&all), vec!["Card", "Card", "Card", "Page"]);
    assert!(analyze_in(&project, "/proj/entry.tsx", source, no_scope()).is_empty());
    assert_eq!(all, parts);
    assert_eq!(all, analyze_entry(&project));
}

#[test]
fn answers_that_agree_lead_to_the_same_usages() {
    let source = "import { Card } from './card'; function Page(){ return <Card/>; }";
    let project = MemoryProject::with_files(&[
        ("/proj/entry.tsx", source),
        ("/proj/card.tsx", "'use client'; export function Card(){ return null; }"),
        ("/proj/other.tsx", "export function Other(){ return null; }"),
    ]);
    let analysis = parse_file_analysis("/proj/entry.tsx", source, false);
    let mut modules = Modules::new();
    let _ = search_in(&project, &mut modules, "/proj/entry.tsx", "./other", "Other");
    let _ = search_in(&project, &mut modules, "/proj/entry.tsx", "./card", "Card");

    match continue_analysis(&modules, "/proj/entry.tsx", &analysis, ScopeConfig::default()) {
        Outcome::Done(usages) => assert_eq!(usages, analyze_entry(&project)),
        outcome => panic!("all answers are known: {outcome:?}"),
    }
}

#[test]
fn self_contained_documents_need_no_host() {
    struct PanickingHost;

    impl SourceHost for PanickingHost {
        fn read_to_string(&self, file_path: &str) -> Option<String> {
            panic!("read {file_path}");
        }
    }

    let source = "import { helper } from './helper'; function Page(){ return <Page/>; }";
    let usages = analyze_source_with_host("/virtual/page.tsx", source, &PanickingHost);

    assert_eq!(tag_names(&usages), vec!["Page", "Page"]);
    assert_eq!(usages, analyze_temp_source("/virtual/page.tsx", source));
}

#[test]
fn ranges_do_not_end_before_they_start() {
    let source = "import { Card } from './card';\ntype Props = { \u{e9}: 1 };\n\
        export const Page: Typed = (p: Props) => <Page.Item><Page /></Page.Item>;\n\
        function Box(){ return <Box>\u{1f600}</Box>; }\nexport { Box };";
    let length = source.encode_utf16().count() as u32;
    let usages = analyze_temp_source("/virtual/ranges.tsx", source);

    assert!(usages.len() >= 9);
    for usage in &usages {
        assert!(!usage.ranges.is_empty());
        for range in &usage.ranges {
            assert!(range.start <= range.end && range.end <= length, "{usage:?}");
        }
    }
}
