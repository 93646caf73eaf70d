//! Which file an import means.
//!
//! Specifiers are resolved as bundlers do it for TypeScript: with the `paths` of the nearest
//! `tsconfig.json` or `jsconfig.json`, to source files but not to declaration files.
use vstd::prelude::*;

use crate::names;
use crate::paths;
use crate::text;

verus! {

/// The resolver of the `oxc_resolver` crate.
#[verifier::external_type_specification]
#[verifier::external_body]
#[verifier::reject_recursive_types(Fs)]
pub struct ExResolverGeneric<Fs>(oxc_resolver::ResolverGeneric<Fs>);

/// The disk, as the `oxc_resolver` crate looks at it.
#[verifier::external_type_specification]
#[verifier::external_body]
pub struct ExFileSystemOs(oxc_resolver::FileSystemOs);

/// The extensions to try in place of one that a specifier is written with.
#[derive(Debug)]
pub struct ExtensionAlias {
    pub extension: String,
    pub candidates: Vec<String>,
}

impl View for ExtensionAlias {
    type V = (Seq<char>, Seq<Seq<char>>);

    open spec fn view(&self) -> (Seq<char>, Seq<Seq<char>>) {
        (self.extension@, names::views(self.candidates@))
    }
}

/// Which projects a configuration file takes in besides its own.
#[derive(Debug, Clone, Copy, PartialEq, Eq, Structural)]
pub enum References {
    /// Those that it refers to.
    Auto,
    /// None.
    Disabled,
}

/// How specifiers are resolved.
#[derive(Debug)]
pub struct ResolverSettings {
    pub extensions: Vec<String>,
    pub extension_alias: Vec<ExtensionAlias>,
    pub main_files: Vec<String>,
    pub main_fields: Vec<String>,
    pub condition_names: Vec<String>,
    pub symlinks: bool,
    /// The configuration file to take paths from.
    pub config_file: Option<String>,
    pub references: References,
}

/// How specifiers are resolved.
#[verifier::ext_equal]
pub struct ResolverSettingsView {
    pub extensions: Seq<Seq<char>>,
    pub extension_alias: Seq<(Seq<char>, Seq<Seq<char>>)>,
    pub main_files: Seq<Seq<char>>,
    pub main_fields: Seq<Seq<char>>,
    pub condition_names: Seq<Seq<char>>,
    pub symlinks: bool,
    pub config_file: Option<Seq<char>>,
    pub references: References,
}

impl View for ResolverSettings {
    type V = ResolverSettingsView;

    open spec fn view(&self) -> ResolverSettingsView {
        ResolverSettingsView {
            extensions: names::views(self.extensions@),
            extension_alias: names::views(self.extension_alias@),
            main_files: names::views(self.main_files@),
            main_fields: names::views(self.main_fields@),
            condition_names: names::views(self.condition_names@),
            symlinks: self.symlinks,
            config_file: text::maybe_string(self.config_file),
            references: self.references,
        }
    }
}

/// The settings of TypeScript's bundler mode: TypeScript before JavaScript, also for specifiers
/// that are written with an extension of JavaScript; links are not followed.
pub open spec fn bundler_settings(config_file: Option<Seq<char>>) -> ResolverSettingsView {
    ResolverSettingsView {
        extensions: seq![".ts"@, ".tsx"@, ".js"@, ".jsx"@],
        extension_alias: seq![
            (".js"@, seq![".ts"@, ".tsx"@, ".js"@]),
            (".jsx"@, seq![".tsx"@, ".jsx"@]),
            (".mjs"@, seq![".mts"@, ".mjs"@]),
            (".cjs"@, seq![".cts"@, ".cjs"@]),
        ],
        main_files: seq!["index"@],
        main_fields: seq!["module"@, "main"@],
        condition_names: seq!["import"@, "default"@],
        symlinks: false,
        config_file,
        references: References::Auto,
    }
}

/// The views of string slices.
pub open spec fn slices(list: Seq<&str>) -> Seq<Seq<char>> {
    list.map_values(|item: &str| item@)
}

/// Owned copies of `list`.
fn owned(list: &[&str]) -> (copies: Vec<String>)
    ensures
        names::views(copies@) == slices(list@),
{
    broadcast use {names::views_of_push, names::views_of_none};

    let mut copies: Vec<String> = Vec::new();
    let mut i: usize = 0;
    while i < list.len()
        invariant
            i <= list@.len(),
            names::views(copies@) == slices(list@).take(i as int),
        decreases list@.len() - i,
    {
        let item: &str = list[i];
        let copy = item.to_owned();
        assert(slices(list@)[i as int] == copy@);
        let ghost earlier = names::views(copies@);
        let ghost added = copy@;
        copies.push(copy);
        assert(names::views(copies@) == earlier.push(added));
        i = i + 1;
        assert(names::views(copies@) =~= slices(list@).take(i as int));
    }
    assert(slices(list@).take(i as int) =~= slices(list@));
    copies
}

/// The extensions to try in place of `extension`.
fn alias(extension: &str, candidates: &[&str]) -> (alias: ExtensionAlias)
    ensures
        alias@ == (extension@, slices(candidates@)),
{
    ExtensionAlias { extension: extension.to_owned(), candidates: owned(candidates) }
}

/// The settings of TypeScript's bundler mode, with the paths of `config_file`.
pub fn resolver_settings(config_file: Option<String>) -> (settings: ResolverSettings)
    ensures
        settings@ == bundler_settings(text::maybe_string(config_file)),
{
    broadcast use {names::views_of_push, names::views_of_none};

    let mut extension_alias: Vec<ExtensionAlias> = Vec::new();
    extension_alias.push(alias(".js", &[".ts", ".tsx", ".js"]));
    extension_alias.push(alias(".jsx", &[".tsx", ".jsx"]));
    extension_alias.push(alias(".mjs", &[".mts", ".mjs"]));
    extension_alias.push(alias(".cjs", &[".cts", ".cjs"]));
    let settings = ResolverSettings {
        extensions: owned(&[".ts", ".tsx", ".js", ".jsx"]),
        extension_alias,
        main_files: owned(&["index"]),
        main_fields: owned(&["module", "main"]),
        condition_names: owned(&["import", "default"]),
        symlinks: false,
        config_file,
        references: References::Auto,
    };
    proof {
        let wanted = bundler_settings(text::maybe_string(config_file));
        assert(settings@.extensions =~= wanted.extensions);
        assert(settings@.extension_alias[0].1 =~= wanted.extension_alias[0].1);
        assert(settings@.extension_alias[1].1 =~= wanted.extension_alias[1].1);
        assert(settings@.extension_alias[2].1 =~= wanted.extension_alias[2].1);
        assert(settings@.extension_alias[3].1 =~= wanted.extension_alias[3].1);
        assert(settings@.extension_alias =~= wanted.extension_alias);
        assert(settings@.main_files =~= wanted.main_files);
        assert(settings@.main_fields =~= wanted.main_fields);
        assert(settings@.condition_names =~= wanted.condition_names);
    }
    settings
}

/// The configuration files that count for the file `path`, nearest first: those in its
/// directory, then those in each directory above.
pub open spec fn config_candidates(path: Seq<char>, windows: bool) -> Seq<Seq<char>>
    decreases path.len(),
{
    match paths::parent(path, windows) {
        Some(directory) => {
            proof {
                paths::parent_is_shorter(path, windows);
            }
            seq![
                paths::inside(directory, "tsconfig.json"@, windows),
                paths::inside(directory, "jsconfig.json"@, windows),
            ] + config_candidates(directory, windows)
        },
        None => Seq::empty(),
    }
}

/// The configuration files that count for the file `path`, nearest first.
pub fn list_config_candidates(path: &str, windows: bool) -> (candidates: Vec<String>)
    ensures
        names::views(candidates@) == config_candidates(path@, windows),
{
    broadcast use {names::views_of_push, names::views_of_none};

    let mut candidates: Vec<String> = Vec::new();
    let mut current = path.to_owned();
    proof {
        assert(names::views(candidates@) + config_candidates(path@, windows) =~= config_candidates(path@, windows));
    }
    loop
        invariant
            names::views(candidates@) + config_candidates(current@, windows) == config_candidates(path@, windows),
        decreases current@.len(),
    {
        let directory = match paths::parent_path(current.as_str(), windows) {
            Some(directory) => directory,
            None => {
                proof {
                    assert(names::views(candidates@) + config_candidates(current@, windows)
                        =~= names::views(candidates@));
                }
                return candidates;
            },
        };
        let ghost earlier = names::views(candidates@);
        let ghost rest = config_candidates(current@, windows);
        proof {
            paths::parent_is_shorter(current@, windows);
        }
        candidates.push(paths::join(directory.as_str(), "tsconfig.json", windows));
        candidates.push(paths::join(directory.as_str(), "jsconfig.json", windows));
        proof {
            assert(names::views(candidates@) + config_candidates(directory@, windows) =~= earlier + rest);
        }
        current = directory;
    }
}

/// The first of `candidates` that is there, where `present` says of each one in turn whether it
/// is.
pub open spec fn first_present(candidates: Seq<Seq<char>>, present: Seq<bool>) -> Option<Seq<char>>
    decreases candidates.len(),
{
    if candidates.len() == 0 || present.len() == 0 {
        None
    } else if present[0] {
        Some(candidates[0])
    } else {
        first_present(candidates.drop_first(), present.drop_first())
    }
}

/// The first of `candidates` that is there, where `present` says of each one in turn whether it
/// is.
pub fn pick_present(candidates: &Vec<String>, present: &Vec<bool>) -> (found: Option<String>)
    ensures
        text::maybe_string(found) == first_present(names::views(candidates@), present@),
{
    let ghost all = names::views(candidates@);
    let mut i: usize = 0;
    proof {
        assert(all.skip(0) =~= all);
        assert(present@.skip(0) =~= present@);
    }
    while i < candidates.len() && i < present.len()
        invariant
            i <= candidates.len(),
            i <= present.len(),
            all == names::views(candidates@),
            first_present(all, present@) == first_present(
                all.skip(i as int),
                present@.skip(i as int),
            ),
        decreases candidates.len() - i,
    {
        proof {
            assert(all.skip(i as int).drop_first() =~= all.skip(i + 1));
            assert(present@.skip(i as int).drop_first() =~= present@.skip(i + 1));
            assert(all.skip(i as int)[0] == candidates@[i as int]@);
            assert(present@.skip(i as int)[0] == present@[i as int]);
        }
        if present[i] {
            return Some(candidates[i].clone());
        }
        i = i + 1;
    }
    None
}

/// The nearest configuration file for the file `path`, where `present` says of each candidate in
/// turn whether it is there.
pub fn nearest_config(path: &str, present: &Vec<bool>, windows: bool) -> (config: Option<
    String,
>)
    ensures
        text::maybe_string(config) == first_present(config_candidates(path@, windows), present@),
{
    let candidates = list_config_candidates(path, windows);
    pick_present(&candidates, present)
}

/// `std::path::Path::is_file`. Nothing is claimed of the answer: it is up to the disk.
#[verifier::external_body]
fn is_file(path: &str) -> (result: bool) {
    std::path::Path::new(path).is_file()
}

/// Whether the disk says of the path `path` that it is, or is not, that of a file.
pub closed spec fn seen_as_file(path: Seq<char>, answer: bool) -> bool {
    exists|asked: &str| #[trigger] call_ensures(is_file, (asked,), answer) && asked@ == path
}

/// Whether `present` is what the disk says of `candidates` in turn, up to the first that is there.
pub open spec fn looked_for(candidates: Seq<Seq<char>>, present: Seq<bool>) -> bool {
    &&& present.len() <= candidates.len()
    &&& forall|i: int|
        0 <= i < present.len() ==> seen_as_file(candidates[i], #[trigger] present[i])
    &&& present.len() < candidates.len() ==> present.len() > 0 && present.last()
}

/// Whether `config` is the nearest configuration file of the file `path` on the disk.
pub open spec fn nearest_on_disk(
    path: Seq<char>,
    config: Option<Seq<char>>,
    windows: bool,
) -> bool {
    exists|present: Seq<bool>|
        #[trigger] looked_for(config_candidates(path, windows), present) && config
            == first_present(config_candidates(path, windows), present)
}

/// Looks for the nearest `tsconfig.json` or `jsconfig.json` of the file `path`. Which of the
/// candidates is there is up to the disk.
pub fn find_nearest_config(path: &str, windows: bool) -> (config: Option<String>)
    ensures
        nearest_on_disk(path@, text::maybe_string(config), windows),
{
    let candidates = list_config_candidates(path, windows);
    let ghost all = config_candidates(path@, windows);
    let mut present: Vec<bool> = Vec::new();
    let mut i: usize = 0;
    let mut found = false;
    while i < candidates.len() && !found
        invariant
            i <= candidates.len(),
            all == names::views(candidates@),
            present@.len() == i,
            forall|j: int| 0 <= j < i ==> seen_as_file(all[j], #[trigger] present@[j]),
            found ==> i > 0 && present@.last(),
        decreases candidates.len() - i,
    {
        let candidate = candidates[i].as_str();
        found = is_file(candidate);
        assert(all[i as int] == candidate@);
        assert(seen_as_file(all[i as int], found));
        present.push(found);
        i = i + 1;
    }
    assert(looked_for(all, present@));
    nearest_config(path, &present, windows)
}

/// Whether `path` is that of a declaration file.
pub open spec fn declaration_file(path: Seq<char>) -> bool {
    ||| ".d.ts"@.is_suffix_of(path)
    ||| ".d.mts"@.is_suffix_of(path)
    ||| ".d.cts"@.is_suffix_of(path)
}

/// Whether `path` is that of a declaration file, which no import is resolved to.
pub fn is_rejected_dts(path: &str) -> (result: bool)
    ensures
        result == declaration_file(path@),
{
    paths::ends_with(path, ".d.ts") || paths::ends_with(path, ".d.mts") || paths::ends_with(
        path,
        ".d.cts",
    )
}

/// Whether `path` is that of a source file: of TypeScript or JavaScript, with or without JSX, but
/// no declaration file.
pub open spec fn source_file(path: Seq<char>) -> bool {
    &&& ".ts"@.is_suffix_of(path) || ".tsx"@.is_suffix_of(path) || ".js"@.is_suffix_of(path)
        || ".jsx"@.is_suffix_of(path)
    &&& !declaration_file(path)
}

/// Whether `path` is that of a source file.
pub fn is_source_file(path: &str) -> (result: bool)
    ensures
        result == source_file(path@),
{
    (paths::ends_with(path, ".ts") || paths::ends_with(path, ".tsx") || paths::ends_with(
        path,
        ".js",
    ) || paths::ends_with(path, ".jsx")) && !is_rejected_dts(path)
}

/// What is left of a resolution: nothing, where it is no source file.
pub open spec fn accepted(found: Option<Seq<char>>) -> Option<Seq<char>> {
    match found {
        Some(path) => if source_file(path) {
            Some(path)
        } else {
            None
        },
        None => None,
    }
}

/// Turns a resolution to anything but a source file down.
pub fn accept_resolution(found: Option<String>) -> (path: Option<String>)
    ensures
        text::maybe_string(path) == accepted(text::maybe_string(found)),
{
    match found {
        Some(path) => if is_source_file(path.as_str()) {
            Some(path)
        } else {
            None
        },
        None => None,
    }
}

/// Whether each of `extensions` is empty or starts with a dot.
pub open spec fn dotted(extensions: Seq<Seq<char>>) -> bool {
    forall|i: int|
        0 <= i < extensions.len() ==> (#[trigger] extensions[i]).len() == 0 || extensions[i][0]
            == '.'
}

proof fn bundler_extensions_are_dotted(config_file: Option<Seq<char>>)
    ensures
        dotted(bundler_settings(config_file).extensions),
{
    reveal_strlit(".ts");
    reveal_strlit(".tsx");
    reveal_strlit(".js");
    reveal_strlit(".jsx");
}

/// `oxc_resolver::Resolver::new` with the given options; those that the settings do not name
/// keep their defaults. It takes only extensions that are empty or start with a dot. Nothing is
/// claimed of the resolver: what it finds is up to the disk.
#[verifier::external_body]
fn build_resolver(settings: ResolverSettings) -> (resolver: oxc_resolver::ResolverGeneric<
    oxc_resolver::FileSystemOs,
>)
    requires
        dotted(settings@.extensions),
{
    let references = match settings.references {
        References::Auto => oxc_resolver::TsconfigReferences::Auto,
        References::Disabled => oxc_resolver::TsconfigReferences::Disabled,
    };
    let options = |file: String| oxc_resolver::TsconfigOptions { config_file: file.into(), references };
    oxc_resolver::Resolver::new(oxc_resolver::ResolveOptions {
        extensions: settings.extensions,
        extension_alias: settings.extension_alias.into_iter().map(|alias| (alias.extension, alias.candidates)).collect(),
        main_files: settings.main_files,
        main_fields: settings.main_fields,
        condition_names: settings.condition_names,
        symlinks: settings.symlinks,
        tsconfig: settings.config_file.map(options).map(oxc_resolver::TsconfigDiscovery::Manual),
        ..Default::default()
    })
}

/// `oxc_resolver::ResolverImpl::resolve`: what `specifier` means in a directory; nothing, where it
/// is a path that is no text. Nothing is claimed of the path: it is up to the disk.
#[verifier::external_body]
fn resolve_in_directory(
    resolver: &oxc_resolver::ResolverGeneric<oxc_resolver::FileSystemOs>,
    directory: &str,
    specifier: &str,
) -> (found: Option<String>) {
    match resolver.resolve(directory, specifier) {
        Ok(resolution) => resolution.into_path_buf().into_os_string().into_string().ok(),
        Err(_) => None,
    }
}

/// `oxc_resolver::ResolverImpl::resolve_file`: what `specifier` means in a file; nothing, where it
/// is a path that is no text. Nothing is claimed of the path: it is up to the disk.
#[verifier::external_body]
fn resolve_in_file(
    resolver: &oxc_resolver::ResolverGeneric<oxc_resolver::FileSystemOs>,
    file: &str,
    specifier: &str,
) -> (found: Option<String>) {
    match resolver.resolve_file(file, specifier) {
        Ok(resolution) => resolution.into_path_buf().into_os_string().into_string().ok(),
        Err(_) => None,
    }
}

/// Where a specifier is looked up from.
#[derive(Debug)]
pub enum Start {
    Directory(String),
    File(String),
}

/// Where a specifier is looked up from.
#[verifier::ext_equal]
pub enum StartView {
    Directory(Seq<char>),
    File(Seq<char>),
}

impl View for Start {
    type V = StartView;

    open spec fn view(&self) -> StartView {
        match *self {
            Start::Directory(path) => StartView::Directory(path@),
            Start::File(path) => StartView::File(path@),
        }
    }
}

/// How the specifiers of a file are looked up.
#[derive(Debug)]
pub struct Lookup {
    pub settings: ResolverSettings,
    pub start: Start,
}

/// How the specifiers of a file are looked up.
#[verifier::ext_equal]
pub struct LookupView {
    pub settings: ResolverSettingsView,
    pub start: StartView,
}

impl View for Lookup {
    type V = LookupView;

    open spec fn view(&self) -> LookupView {
        LookupView { settings: self.settings@, start: self.start@ }
    }
}

/// How the specifiers of `from_file` are looked up, where `config_file` is its configuration
/// file: from its directory with the paths of that file; where there is none, from the file
/// itself. A file without a directory imports nothing.
pub open spec fn lookup_of(
    from_file: Seq<char>,
    config_file: Option<Seq<char>>,
    windows: bool,
) -> Option<LookupView> {
    match paths::parent(from_file, windows) {
        Some(directory) => Some(
            LookupView {
                settings: bundler_settings(config_file),
                start: match config_file {
                    Some(_) => StartView::Directory(directory),
                    None => StartView::File(from_file),
                },
            },
        ),
        None => None,
    }
}

/// How the specifiers of `from_file` are looked up, where `config_file` is its configuration
/// file; nothing where the file has no directory.
pub fn plan_lookup(from_file: &str, config_file: Option<String>, windows: bool) -> (lookup: Option<
    Lookup,
>)
    ensures
        match lookup {
            Some(lookup) => lookup_of(from_file@, text::maybe_string(config_file), windows)
                == Some(lookup@),
            None => lookup_of(from_file@, text::maybe_string(config_file), windows) is None,
        },
{
    let directory = match paths::parent_path(from_file, windows) {
        Some(directory) => directory,
        None => {
            return None;
        },
    };
    let start = if config_file.is_some() {
        Start::Directory(directory)
    } else {
        Start::File(from_file.to_owned())
    };
    Some(Lookup { settings: resolver_settings(config_file), start })
}

/// Whether a resolver that is set up for `lookup` finds `found` for `specifier`.
pub closed spec fn found_by(
    lookup: LookupView,
    specifier: Seq<char>,
    found: Option<Seq<char>>,
) -> bool {
    exists|
        settings: ResolverSettings,
        resolver: oxc_resolver::ResolverGeneric<oxc_resolver::FileSystemOs>,
        start: &str,
        asked: &str,
        answer: Option<String>,
    |
        #[trigger] set_up(settings, resolver) && settings@ == lookup.settings && asked@ == specifier
            && text::maybe_string(answer) == found && #[trigger] answered(
            resolver,
            lookup.start,
            start,
            asked,
            answer,
        )
}

/// Whether `resolver` comes from `settings`.
closed spec fn set_up(
    settings: ResolverSettings,
    resolver: oxc_resolver::ResolverGeneric<oxc_resolver::FileSystemOs>,
) -> bool {
    call_ensures(build_resolver, (settings,), resolver)
}

/// Whether `resolver` gives `answer` when it is asked for `asked` from `from`.
closed spec fn answered(
    resolver: oxc_resolver::ResolverGeneric<oxc_resolver::FileSystemOs>,
    from: StartView,
    start: &str,
    asked: &str,
    answer: Option<String>,
) -> bool {
    match from {
        StartView::Directory(directory) => start@ == directory && call_ensures(
            resolve_in_directory,
            (&resolver, start, asked),
            answer,
        ),
        StartView::File(file) => start@ == file && call_ensures(
            resolve_in_file,
            (&resolver, start, asked),
            answer,
        ),
    }
}

/// Whether `path` is what the disk makes of `specifier` in `from_file`, where its configuration
/// file is `config_file`: what a resolver that is set up for it finds, if that is a source file.
pub open spec fn resolved_with(
    from_file: Seq<char>,
    specifier: Seq<char>,
    config_file: Option<Seq<char>>,
    path: Option<Seq<char>>,
    windows: bool,
) -> bool {
    match lookup_of(from_file, config_file, windows) {
        Some(lookup) => exists|found: Option<Seq<char>>|
            #[trigger] found_by(lookup, specifier, found) && path == accepted(found),
        None => path is None,
    }
}

/// Resolves `specifier`, written in `from_file`, to the path of a source file: it is looked up as
/// [`plan_lookup`] says for the nearest configuration file, and [`accept_resolution`] says what
/// becomes of what is found. What is found is up to the disk, but the answer is always a source
/// file; a file without a directory imports nothing.
pub fn resolve_import(from_file: &str, specifier: &str) -> (path: Option<String>)
    ensures
        exists|config_file: Option<Seq<char>>, windows: bool|
            paths::on_this_system(windows) && #[trigger] nearest_on_disk(
                from_file@,
                config_file,
                windows,
            ) && resolved_with(
                from_file@,
                specifier@,
                config_file,
                text::maybe_string(path),
                windows,
            ),
        path matches Some(path) ==> source_file(path@),
{
    let windows = paths::has_windows_paths();
    let config_file = find_nearest_config(from_file, windows);
    let lookup = match plan_lookup(from_file, config_file, windows) {
        Some(lookup) => lookup,
        None => {
            return None;
        },
    };
    let ghost plan = lookup@;
    let ghost settings = lookup.settings;
    proof {
        bundler_extensions_are_dotted(settings@.config_file);
    }
    let resolver = build_resolver(lookup.settings);
    assert(set_up(settings, resolver));
    let found = match lookup.start {
        Start::Directory(directory) => {
            let start = directory.as_str();
            let found = resolve_in_directory(&resolver, start, specifier);
            assert(answered(resolver, plan.start, start, specifier, found));
            found
        },
        Start::File(file) => {
            let start = file.as_str();
            let found = resolve_in_file(&resolver, start, specifier);
            assert(answered(resolver, plan.start, start, specifier, found));
            found
        },
    };
    assert(found_by(plan, specifier@, text::maybe_string(found)));
    accept_resolution(found)
}

/// What is found for a specifier is what a resolver answers that was built from the settings of
/// the lookup and asked for this specifier, from where the lookup starts.
proof fn resolvers_are_asked_as_planned(
    lookup: LookupView,
    specifier: Seq<char>,
    found: Option<Seq<char>>,
)
    requires
        found_by(lookup, specifier, found),
    ensures
        exists|
            settings: ResolverSettings,
            resolver: oxc_resolver::ResolverGeneric<oxc_resolver::FileSystemOs>,
        | #[trigger]
            call_ensures(build_resolver, (settings,), resolver) && settings@ == lookup.settings && (
            match lookup.start {
                StartView::Directory(directory) => exists|
                    start: &str,
                    asked: &str,
                    answer: Option<String>,
                | #[trigger]
                    call_ensures(resolve_in_directory, (&resolver, start, asked), answer) && start@
                        == directory && asked@ == specifier && text::maybe_string(answer) == found,
                StartView::File(file) => exists|start: &str, asked: &str, answer: Option<String>|
                    #[trigger]
                    call_ensures(resolve_in_file, (&resolver, start, asked), answer) && start@
                        == file && asked@ == specifier && text::maybe_string(answer) == found,
            }),
{
    let (settings, resolver, start, asked, answer) = choose|
        settings: ResolverSettings,
        resolver: oxc_resolver::ResolverGeneric<oxc_resolver::FileSystemOs>,
        start: &str,
        asked: &str,
        answer: Option<String>,
    |
        #[trigger] set_up(settings, resolver) && settings@ == lookup.settings && asked@ == specifier
            && text::maybe_string(answer) == found && #[trigger] answered(
            resolver,
            lookup.start,
            start,
            asked,
            answer,
        );
    assert(call_ensures(build_resolver, (settings,), resolver));
}

/// A path counts as that of a file, or not, as the disk answers when it is asked for it.
proof fn disks_are_asked_for_their_files(path: Seq<char>, answer: bool)
    requires
        seen_as_file(path, answer),
    ensures
        exists|asked: &str| #[trigger] call_ensures(is_file, (asked,), answer) && asked@ == path,
{
}

} // verus!
