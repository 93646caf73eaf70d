//! The usages of a document: what its analysis and the modules around it say together.
use vstd::prelude::*;
use vstd::string::StringSliceAdditionalSpecFns;

use crate::analyzer;
use crate::analyzer::{FileAnalysis, FileAnalysisView};
use crate::declarations;
use crate::declarations::{Extent, TypeIdentifierView};
use crate::elements::JsxTagReferenceView;
use crate::exports;
use crate::modules;
use crate::modules::{
    EdgeView, ModuleFile, ModuleFileView, Modules, ModulesView, Request, RequestView, Resolution,
    ResolutionView, Search, SearchView,
};
use crate::names;
use crate::names::{NameEntry, NameMap};
use crate::paths;
use crate::resolver;
use crate::syntax;
use crate::text;
use crate::tree;
use crate::tree::Tree;
use crate::utf16;
use crate::utf16::Utf16Mapper;
use crate::{Kind, Range, Usage, UsageView};

verus! {

/// Which usages to give.
#[derive(Debug, Clone, Copy, PartialEq, Eq)]
pub struct ScopeConfig {
    pub declaration: bool,
    pub element: bool,
    pub export: bool,
    pub import: bool,
    pub types: bool,
}

impl Default for ScopeConfig {
    /// All usages.
    fn default() -> (scope: Self)
        ensures
            scope == (ScopeConfig {
                declaration: true,
                element: true,
                export: true,
                import: true,
                types: true,
            }),
    {
        ScopeConfig { declaration: true, element: true, export: true, import: true, types: true }
    }
}

/// Reads the modules that a document imports: from the disk, or from what an editor holds of
/// them before it is written there.
pub trait SourceHost {
    /// The text of the file `file_path`, if it can be read.
    fn read_to_string(&self, file_path: &str) -> Option<String>;
}

/// The module that declares something: its kind and its path.
#[derive(Debug)]
pub struct Declared {
    pub kind: Kind,
    pub path: String,
}

/// The module that declares something: its kind and its path.
#[verifier::ext_equal]
pub struct DeclaredView {
    pub kind: Kind,
    pub path: Seq<char>,
}

impl View for Declared {
    type V = DeclaredView;

    open spec fn view(&self) -> DeclaredView {
        DeclaredView { kind: self.kind, path: self.path@ }
    }
}

/// The modules that declare what a document imports, as far as the answers are known.
#[derive(Debug)]
pub enum Imports {
    Known(NameMap<Declared>),
    Need(Request),
}

/// The modules that declare what a document imports, as far as the answers are known.
#[verifier::ext_equal]
pub enum ImportsView {
    Known(Seq<(Seq<char>, DeclaredView)>),
    Need(RequestView),
}

impl View for Imports {
    type V = ImportsView;

    open spec fn view(&self) -> ImportsView {
        match *self {
            Imports::Known(found) => ImportsView::Known(found@),
            Imports::Need(request) => ImportsView::Need(request@),
        }
    }
}

/// The modules that declare what the first `count` imports of the document `file_path` import.
/// An import that a component of the document hides is left out, and so is one that no module
/// declares.
pub open spec fn declared_imports(
    modules: ModulesView,
    file_path: Seq<char>,
    analysis: FileAnalysisView,
    count: nat,
) -> ImportsView
    decreases count,
{
    if count == 0 || count > analysis.imports.len() {
        ImportsView::Known(Seq::empty())
    } else {
        let name = analysis.imports[count - 1].0;
        let entry = analysis.imports[count - 1].1;
        match declared_imports(modules, file_path, analysis, (count - 1) as nat) {
            ImportsView::Need(request) => ImportsView::Need(request),
            ImportsView::Known(found) => if names::has(analysis.local_components, name) {
                ImportsView::Known(found)
            } else {
                match modules::search_export(modules, file_path, entry.source, entry.export_name) {
                    SearchView::Found { kind, path } => ImportsView::Known(
                        found.push((name, DeclaredView { kind, path })),
                    ),
                    SearchView::Missing => ImportsView::Known(found),
                    SearchView::Need(request) => ImportsView::Need(request),
                }
            },
        }
    }
}

proof fn first_need_stays(
    modules: ModulesView,
    file_path: Seq<char>,
    analysis: FileAnalysisView,
    first: nat,
    count: nat,
)
    requires
        first <= count <= analysis.imports.len(),
        declared_imports(modules, file_path, analysis, first) is Need,
    ensures
        declared_imports(modules, file_path, analysis, count) == declared_imports(
            modules,
            file_path,
            analysis,
            first,
        ),
    decreases count,
{
    if first < count {
        first_need_stays(modules, file_path, analysis, first, (count - 1) as nat);
    }
}

/// Looks for the modules that declare what the document imports.
pub fn resolve_imports(modules: &Modules, file_path: &str, analysis: &FileAnalysis) -> (imports:
    Imports)
    ensures
        imports@ == declared_imports(
            modules@,
            file_path@,
            analysis@,
            analysis@.imports.len(),
        ),
{
    broadcast use {names::views_of_push, names::views_of_none};

    let mut found: NameMap<Declared> = NameMap::new();
    let entries = &analysis.imports.entries;
    let ghost all = analysis@.imports;
    let mut i: usize = 0;
    while i < entries.len()
        invariant
            i <= entries.len(),
            all == analysis@.imports,
            all == names::views(entries@),
            ImportsView::Known(found@) == declared_imports(
                modules@,
                file_path@,
                analysis@,
                i as nat,
            ),
        decreases entries.len() - i,
    {
        let entry = &entries[i];
        assert(all[i as int] == entry@);
        if !analysis.local_components.contains_key(entry.key.as_str()) {
            match modules::resolve_export_declaration(
                modules,
                file_path,
                entry.value.source.as_str(),
                entry.value.export_name.as_str(),
            ) {
                Search::Found { kind, path } => {
                    found.entries.push(
                        NameEntry { key: entry.key.clone(), value: Declared { kind, path } },
                    );
                },
                Search::Missing => {},
                Search::Need(request) => {
                    proof {
                        first_need_stays(modules@, file_path@, analysis@, (i + 1) as nat, all.len());
                    }
                    return Imports::Need(request);
                },
            }
        }
        i = i + 1;
    }
    Imports::Known(found)
}

/// The usage that a tag is: of a component of the document, or of one that it imports.
pub open spec fn element_usage(
    analysis: FileAnalysisView,
    imports: Seq<(Seq<char>, DeclaredView)>,
    file_path: Seq<char>,
    tag: JsxTagReferenceView,
) -> Option<UsageView> {
    match names::lookup(analysis.local_components, tag.lookup_name) {
        Some(component) => Some(
            UsageView {
                kind: component.kind,
                tag_name: tag.tag_name,
                source_file_path: file_path,
                ranges: tag.ranges,
            },
        ),
        None => match names::lookup(imports, tag.lookup_name) {
            Some(declared) => Some(
                UsageView {
                    kind: declared.kind,
                    tag_name: tag.tag_name,
                    source_file_path: declared.path,
                    ranges: tag.ranges,
                },
            ),
            None => None,
        },
    }
}

/// `usages` with the one that may be there.
pub open spec fn with_usage(usages: Seq<UsageView>, usage: Option<UsageView>) -> Seq<UsageView> {
    match usage {
        Some(usage) => usages.push(usage),
        None => usages,
    }
}

/// The usages that the first `count` tags of the document are.
pub open spec fn element_usages(
    analysis: FileAnalysisView,
    imports: Seq<(Seq<char>, DeclaredView)>,
    file_path: Seq<char>,
    count: nat,
) -> Seq<UsageView>
    decreases count,
{
    if count == 0 || count > analysis.jsx_tags.len() {
        Seq::empty()
    } else {
        with_usage(
            element_usages(analysis, imports, file_path, (count - 1) as nat),
            element_usage(analysis, imports, file_path, analysis.jsx_tags[count - 1]),
        )
    }
}

/// The usages that the first `count` imports of the document are.
pub open spec fn import_usages(
    analysis: FileAnalysisView,
    imports: Seq<(Seq<char>, DeclaredView)>,
    count: nat,
) -> Seq<UsageView>
    decreases count,
{
    if count == 0 || count > analysis.imports.len() {
        Seq::empty()
    } else {
        let name = analysis.imports[count - 1].0;
        with_usage(
            import_usages(analysis, imports, (count - 1) as nat),
            match names::lookup(imports, name) {
                Some(declared) => Some(
                    UsageView {
                        kind: declared.kind,
                        tag_name: name,
                        source_file_path: declared.path,
                        ranges: analysis.imports[count - 1].1.ranges,
                    },
                ),
                None => None,
            },
        )
    }
}

/// The usages that the components of the document are, where they are declared.
pub open spec fn declaration_usages(
    analysis: FileAnalysisView,
    file_path: Seq<char>,
) -> Seq<UsageView> {
    Seq::new(
        analysis.local_components.len(),
        |i: int|
            UsageView {
                kind: analysis.local_components[i].1.kind,
                tag_name: analysis.local_components[i].0,
                source_file_path: file_path,
                ranges: analysis.local_components[i].1.ranges,
            },
    )
}

/// The kind of what stands in `component`: that of the component, or the document's own.
pub open spec fn kind_inside(analysis: FileAnalysisView, component: Seq<char>) -> Kind {
    match names::lookup(analysis.local_components, component) {
        Some(component) => component.kind,
        None => analysis.own_component_kind,
    }
}

/// Whether `identifier` refers to the type `name` from a component of the kind `kind`.
pub open spec fn refers_from(
    analysis: FileAnalysisView,
    identifier: TypeIdentifierView,
    name: Seq<char>,
    kind: Kind,
) -> bool {
    identifier.enclosing_component matches Some(component) && identifier.name == name
        && kind_inside(analysis, component) == kind
}

/// Whether a component of the kind `kind` refers to the type `name`.
pub open spec fn referred_from(analysis: FileAnalysisView, name: Seq<char>, kind: Kind) -> bool {
    exists|i: int|
        0 <= i < analysis.type_identifiers.len() && refers_from(
            analysis,
            #[trigger] analysis.type_identifiers[i],
            name,
            kind,
        )
}

/// The kind of the type `name` outside of components: that of the components that refer to it,
/// client before server; the document's own where none does.
pub open spec fn type_kind(analysis: FileAnalysisView, name: Seq<char>) -> Kind {
    if referred_from(analysis, name, Kind::Client) {
        Kind::Client
    } else if referred_from(analysis, name, Kind::Server) {
        Kind::Server
    } else {
        analysis.own_component_kind
    }
}

/// The usages that the types inside components are, among the first `count` types.
pub open spec fn inner_type_usages(
    analysis: FileAnalysisView,
    file_path: Seq<char>,
    count: nat,
) -> Seq<UsageView>
    decreases count,
{
    if count == 0 || count > analysis.type_identifiers.len() {
        Seq::empty()
    } else {
        let identifier = analysis.type_identifiers[count - 1];
        with_usage(
            inner_type_usages(analysis, file_path, (count - 1) as nat),
            match identifier.enclosing_component {
                Some(component) => Some(
                    UsageView {
                        kind: kind_inside(analysis, component),
                        tag_name: identifier.name,
                        source_file_path: file_path,
                        ranges: identifier.ranges,
                    },
                ),
                None => None,
            },
        )
    }
}

/// The usages that the types outside of components are, among the first `count` types.
pub open spec fn outer_type_usages(
    analysis: FileAnalysisView,
    file_path: Seq<char>,
    count: nat,
) -> Seq<UsageView>
    decreases count,
{
    if count == 0 || count > analysis.type_identifiers.len() {
        Seq::empty()
    } else {
        let identifier = analysis.type_identifiers[count - 1];
        with_usage(
            outer_type_usages(analysis, file_path, (count - 1) as nat),
            match identifier.enclosing_component {
                Some(_) => None,
                None => Some(
                    UsageView {
                        kind: type_kind(analysis, identifier.name),
                        tag_name: identifier.name,
                        source_file_path: file_path,
                        ranges: identifier.ranges,
                    },
                ),
            },
        )
    }
}

/// The usages that the first `count` references of exports are: those to components of the
/// document.
pub open spec fn export_usages(
    analysis: FileAnalysisView,
    file_path: Seq<char>,
    count: nat,
) -> Seq<UsageView>
    decreases count,
{
    if count == 0 || count > analysis.export_references.len() {
        Seq::empty()
    } else {
        let reference = analysis.export_references[count - 1];
        with_usage(
            export_usages(analysis, file_path, (count - 1) as nat),
            if names::has(analysis.local_components, reference.name) {
                Some(
                    UsageView {
                        kind: analysis.own_component_kind,
                        tag_name: reference.name,
                        source_file_path: file_path,
                        ranges: reference.ranges,
                    },
                )
            } else {
                None
            },
        )
    }
}

/// `usages` where they are wanted, none otherwise.
pub open spec fn wanted(want: bool, usages: Seq<UsageView>) -> Seq<UsageView> {
    if want {
        usages
    } else {
        Seq::empty()
    }
}

/// The usages of the document `file_path`, where `imports` are the modules that declare what it
/// imports.
pub open spec fn usages_of(
    analysis: FileAnalysisView,
    imports: Seq<(Seq<char>, DeclaredView)>,
    file_path: Seq<char>,
    scope: ScopeConfig,
) -> Seq<UsageView> {
    wanted(
        scope.element,
        element_usages(analysis, imports, file_path, analysis.jsx_tags.len()),
    ) + wanted(scope.import, import_usages(analysis, imports, analysis.imports.len())) + wanted(
        scope.declaration,
        declaration_usages(analysis, file_path),
    ) + wanted(
        scope.types,
        inner_type_usages(analysis, file_path, analysis.type_identifiers.len())
            + outer_type_usages(analysis, file_path, analysis.type_identifiers.len()),
    ) + wanted(
        scope.export,
        export_usages(analysis, file_path, analysis.export_references.len()),
    )
}

/// A copy of `ranges`.
fn copy_ranges(ranges: &Vec<Range>) -> (copy: Vec<Range>)
    ensures
        copy@ == ranges@,
{
    let mut copy: Vec<Range> = Vec::new();
    let mut i: usize = 0;
    while i < ranges.len()
        invariant
            i <= ranges.len(),
            copy@ == ranges@.take(i as int),
        decreases ranges.len() - i,
    {
        copy.push(ranges[i]);
        i = i + 1;
        assert(copy@ =~= ranges@.take(i as int));
    }
    assert(ranges@.take(i as int) =~= ranges@);
    copy
}

/// Adds one usage.
fn push_usage(
    kind: Kind,
    tag_name: &str,
    source_file_path: &str,
    ranges: &Vec<Range>,
    usages: &mut Vec<Usage>,
)
    ensures
        names::views(final(usages)@) == names::views(old(usages)@).push(
            UsageView {
                kind,
                tag_name: tag_name@,
                source_file_path: source_file_path@,
                ranges: ranges@,
            },
        ),
{
    broadcast use names::views_of_push;

    usages.push(
        Usage {
            kind,
            tag_name: tag_name.to_owned(),
            source_file_path: source_file_path.to_owned(),
            ranges: copy_ranges(ranges),
        },
    );
}

/// Adds the usages that the tags of the document are.
fn push_element_usages(
    analysis: &FileAnalysis,
    imports: &NameMap<Declared>,
    file_path: &str,
    usages: &mut Vec<Usage>,
)
    ensures
        names::views(final(usages)@) == names::views(old(usages)@) + element_usages(
            analysis@,
            imports@,
            file_path@,
            analysis@.jsx_tags.len(),
        ),
{
    let ghost before = names::views(usages@);
    let tags = &analysis.jsx_tags;
    let mut i: usize = 0;
    assert(before + Seq::<UsageView>::empty() =~= before);
    while i < tags.len()
        invariant
            i <= tags.len(),
            names::views(tags@) == analysis@.jsx_tags,
            names::views(usages@) == before + element_usages(
                analysis@,
                imports@,
                file_path@,
                i as nat,
            ),
        decreases tags.len() - i,
    {
        let tag = &tags[i];
        assert(analysis@.jsx_tags[i as int] == tag@);
        match analysis.local_components.get(tag.lookup_name.as_str()) {
            Some(component) => {
                push_usage(component.kind, tag.tag_name.as_str(), file_path, &tag.ranges, usages);
            },
            None => match imports.get(tag.lookup_name.as_str()) {
                Some(declared) => {
                    push_usage(
                        declared.kind,
                        tag.tag_name.as_str(),
                        declared.path.as_str(),
                        &tag.ranges,
                        usages,
                    );
                },
                None => {},
            },
        }
        i = i + 1;
        assert(names::views(usages@) =~= before + element_usages(
            analysis@,
            imports@,
            file_path@,
            i as nat,
        ));
    }
}

/// Adds the usages that the imports of the document are.
fn push_import_usages(
    analysis: &FileAnalysis,
    imports: &NameMap<Declared>,
    usages: &mut Vec<Usage>,
)
    ensures
        names::views(final(usages)@) == names::views(old(usages)@) + import_usages(
            analysis@,
            imports@,
            analysis@.imports.len(),
        ),
{
    let ghost before = names::views(usages@);
    let entries = &analysis.imports.entries;
    let mut i: usize = 0;
    assert(before + Seq::<UsageView>::empty() =~= before);
    while i < entries.len()
        invariant
            i <= entries.len(),
            names::views(entries@) == analysis@.imports,
            names::views(usages@) == before + import_usages(analysis@, imports@, i as nat),
        decreases entries.len() - i,
    {
        let entry = &entries[i];
        assert(analysis@.imports[i as int] == entry@);
        match imports.get(entry.key.as_str()) {
            Some(declared) => {
                push_usage(
                    declared.kind,
                    entry.key.as_str(),
                    declared.path.as_str(),
                    &entry.value.ranges,
                    usages,
                );
            },
            None => {},
        }
        i = i + 1;
        assert(names::views(usages@) =~= before + import_usages(analysis@, imports@, i as nat));
    }
}

/// Adds the usages that the components of the document are, where they are declared.
fn push_declaration_usages(analysis: &FileAnalysis, file_path: &str, usages: &mut Vec<Usage>)
    ensures
        names::views(final(usages)@) == names::views(old(usages)@) + declaration_usages(
            analysis@,
            file_path@,
        ),
{
    let ghost before = names::views(usages@);
    let ghost all = declaration_usages(analysis@, file_path@);
    let entries = &analysis.local_components.entries;
    let mut i: usize = 0;
    assert(before + all.take(0) =~= before);
    while i < entries.len()
        invariant
            i <= entries.len(),
            names::views(entries@) == analysis@.local_components,
            all == declaration_usages(analysis@, file_path@),
            names::views(usages@) == before + all.take(i as int),
        decreases entries.len() - i,
    {
        let entry = &entries[i];
        assert(analysis@.local_components[i as int] == entry@);
        push_usage(
            entry.value.kind,
            entry.key.as_str(),
            file_path,
            &entry.value.ranges,
            usages,
        );
        i = i + 1;
        assert(names::views(usages@) =~= before + all.take(i as int));
    }
    assert(all.take(i as int) =~= all);
}

/// The kind of what stands in `component`.
fn get_kind_inside(analysis: &FileAnalysis, component: &str) -> (kind: Kind)
    ensures
        kind == kind_inside(analysis@, component@),
{
    match analysis.local_components.get(component) {
        Some(component) => component.kind,
        None => analysis.own_component_kind,
    }
}

/// Whether a component of the kind `kind` refers to the type `name`.
fn is_referred_from(analysis: &FileAnalysis, name: &str, kind: Kind) -> (result: bool)
    ensures
        result == referred_from(analysis@, name@, kind),
{
    let identifiers = &analysis.type_identifiers;
    let ghost all = analysis@.type_identifiers;
    let mut i: usize = 0;
    while i < identifiers.len()
        invariant
            i <= identifiers.len(),
            all == analysis@.type_identifiers,
            all == names::views(identifiers@),
            forall|j: int| 0 <= j < i ==> !refers_from(analysis@, #[trigger] all[j], name@, kind),
        decreases identifiers.len() - i,
    {
        let identifier = &identifiers[i];
        assert(all[i as int] == identifier@);
        match &identifier.enclosing_component {
            Some(component) => {
                if text::same_text(identifier.name.as_str(), name) && get_kind_inside(
                    analysis,
                    component.as_str(),
                ) == kind {
                    assert(refers_from(analysis@, all[i as int], name@, kind));
                    return true;
                }
            },
            None => {},
        }
        i = i + 1;
    }
    false
}

/// The kind of the type `name` outside of components.
fn get_type_kind(analysis: &FileAnalysis, name: &str) -> (kind: Kind)
    ensures
        kind == type_kind(analysis@, name@),
{
    if is_referred_from(analysis, name, Kind::Client) {
        Kind::Client
    } else if is_referred_from(analysis, name, Kind::Server) {
        Kind::Server
    } else {
        analysis.own_component_kind
    }
}

/// Adds the usages that types are: first inside components, then outside of them.
fn push_type_usages(analysis: &FileAnalysis, file_path: &str, usages: &mut Vec<Usage>)
    ensures
        names::views(final(usages)@) == names::views(old(usages)@) + (inner_type_usages(
            analysis@,
            file_path@,
            analysis@.type_identifiers.len(),
        ) + outer_type_usages(analysis@, file_path@, analysis@.type_identifiers.len())),
{
    let ghost before = names::views(usages@);
    let identifiers = &analysis.type_identifiers;
    let mut i: usize = 0;
    assert(before + Seq::<UsageView>::empty() =~= before);
    while i < identifiers.len()
        invariant
            i <= identifiers.len(),
            names::views(identifiers@) == analysis@.type_identifiers,
            names::views(usages@) == before + inner_type_usages(analysis@, file_path@, i as nat),
        decreases identifiers.len() - i,
    {
        let identifier = &identifiers[i];
        assert(analysis@.type_identifiers[i as int] == identifier@);
        match &identifier.enclosing_component {
            Some(component) => {
                push_usage(
                    get_kind_inside(analysis, component.as_str()),
                    identifier.name.as_str(),
                    file_path,
                    &identifier.ranges,
                    usages,
                );
            },
            None => {},
        }
        i = i + 1;
        assert(names::views(usages@) =~= before + inner_type_usages(
            analysis@,
            file_path@,
            i as nat,
        ));
    }
    let ghost between = names::views(usages@);
    let mut i: usize = 0;
    assert(between + Seq::<UsageView>::empty() =~= between);
    while i < identifiers.len()
        invariant
            i <= identifiers.len(),
            names::views(identifiers@) == analysis@.type_identifiers,
            names::views(usages@) == between + outer_type_usages(analysis@, file_path@, i as nat),
        decreases identifiers.len() - i,
    {
        let identifier = &identifiers[i];
        assert(analysis@.type_identifiers[i as int] == identifier@);
        match &identifier.enclosing_component {
            Some(_) => {},
            None => {
                push_usage(
                    get_type_kind(analysis, identifier.name.as_str()),
                    identifier.name.as_str(),
                    file_path,
                    &identifier.ranges,
                    usages,
                );
            },
        }
        i = i + 1;
        assert(names::views(usages@) =~= between + outer_type_usages(
            analysis@,
            file_path@,
            i as nat,
        ));
    }
    assert(names::views(usages@) =~= before + (inner_type_usages(
        analysis@,
        file_path@,
        analysis@.type_identifiers.len(),
    ) + outer_type_usages(analysis@, file_path@, analysis@.type_identifiers.len())));
}

/// Adds the usages that references of exports are.
fn push_export_usages(analysis: &FileAnalysis, file_path: &str, usages: &mut Vec<Usage>)
    ensures
        names::views(final(usages)@) == names::views(old(usages)@) + export_usages(
            analysis@,
            file_path@,
            analysis@.export_references.len(),
        ),
{
    let ghost before = names::views(usages@);
    let references = &analysis.export_references;
    let mut i: usize = 0;
    assert(before + Seq::<UsageView>::empty() =~= before);
    while i < references.len()
        invariant
            i <= references.len(),
            names::views(references@) == analysis@.export_references,
            names::views(usages@) == before + export_usages(analysis@, file_path@, i as nat),
        decreases references.len() - i,
    {
        let reference = &references[i];
        assert(analysis@.export_references[i as int] == reference@);
        if analysis.local_components.contains_key(reference.name.as_str()) {
            push_usage(
                analysis.own_component_kind,
                reference.name.as_str(),
                file_path,
                &reference.ranges,
                usages,
            );
        }
        i = i + 1;
        assert(names::views(usages@) =~= before + export_usages(analysis@, file_path@, i as nat));
    }
}

/// The usages of the document `file_path`, where `imports` are the modules that declare what it
/// imports.
pub fn collect_usages(
    analysis: &FileAnalysis,
    imports: &NameMap<Declared>,
    file_path: &str,
    scope: ScopeConfig,
) -> (usages: Vec<Usage>)
    ensures
        names::views(usages@) == usages_of(analysis@, imports@, file_path@, scope),
{
    broadcast use names::views_of_none;

    let mut usages: Vec<Usage> = Vec::new();
    if scope.element {
        push_element_usages(analysis, imports, file_path, &mut usages);
    }
    let ghost elements = names::views(usages@);
    assert(elements =~= wanted(
        scope.element,
        element_usages(analysis@, imports@, file_path@, analysis@.jsx_tags.len()),
    ));
    if scope.import {
        push_import_usages(analysis, imports, &mut usages);
    }
    assert(names::views(usages@) =~= elements + wanted(
        scope.import,
        import_usages(analysis@, imports@, analysis@.imports.len()),
    ));
    let ghost imported = names::views(usages@);
    if scope.declaration {
        push_declaration_usages(analysis, file_path, &mut usages);
    }
    assert(names::views(usages@) =~= imported + wanted(
        scope.declaration,
        declaration_usages(analysis@, file_path@),
    ));
    let ghost declared = names::views(usages@);
    if scope.types {
        push_type_usages(analysis, file_path, &mut usages);
    }
    assert(names::views(usages@) =~= declared + wanted(
        scope.types,
        inner_type_usages(analysis@, file_path@, analysis@.type_identifiers.len())
            + outer_type_usages(analysis@, file_path@, analysis@.type_identifiers.len()),
    ));
    let ghost typed = names::views(usages@);
    if scope.export {
        push_export_usages(analysis, file_path, &mut usages);
    }
    assert(names::views(usages@) =~= typed + wanted(
        scope.export,
        export_usages(analysis@, file_path@, analysis@.export_references.len()),
    ));
    usages
}

/// How the analysis of a document goes on.
#[derive(Debug)]
pub enum Outcome {
    /// It is done.
    Done(Vec<Usage>),
    /// The answer to a question is needed first.
    Need(Request),
}

/// How the analysis of a document goes on.
#[verifier::ext_equal]
pub enum OutcomeView {
    Done(Seq<UsageView>),
    Need(RequestView),
}

impl View for Outcome {
    type V = OutcomeView;

    open spec fn view(&self) -> OutcomeView {
        match *self {
            Outcome::Done(usages) => OutcomeView::Done(names::views(usages@)),
            Outcome::Need(request) => OutcomeView::Need(request@),
        }
    }
}

/// How the analysis of the document `file_path` goes on with the answers in `modules`. Imports
/// are only looked at where tags or imports are wanted.
pub open spec fn outcome_of(
    modules: ModulesView,
    file_path: Seq<char>,
    analysis: FileAnalysisView,
    scope: ScopeConfig,
) -> OutcomeView {
    if scope.element || scope.import {
        match declared_imports(modules, file_path, analysis, analysis.imports.len()) {
            ImportsView::Known(imports) => OutcomeView::Done(
                usages_of(analysis, imports, file_path, scope),
            ),
            ImportsView::Need(request) => OutcomeView::Need(request),
        }
    } else {
        OutcomeView::Done(usages_of(analysis, Seq::empty(), file_path, scope))
    }
}

/// Goes on with the analysis of the document `file_path` with the answers in `modules`.
pub fn continue_analysis(
    modules: &Modules,
    file_path: &str,
    analysis: &FileAnalysis,
    scope: ScopeConfig,
) -> (outcome: Outcome)
    ensures
        outcome@ == outcome_of(modules@, file_path@, analysis@, scope),
{
    if scope.element || scope.import {
        match resolve_imports(modules, file_path, analysis) {
            Imports::Known(imports) => Outcome::Done(
                collect_usages(analysis, &imports, file_path, scope),
            ),
            Imports::Need(request) => Outcome::Need(request),
        }
    } else {
        Outcome::Done(collect_usages(analysis, &NameMap::new(), file_path, scope))
    }
}

/// Whether `file` is what the host says of it: what its text shows, or nothing where the host
/// cannot read it.
pub open spec fn told_by_host<H: SourceHost>(
    host: &H,
    file: ModuleFileView,
    windows: bool,
) -> bool {
    exists|path: &str, text: Option<String>|
        #[trigger] call_ensures(H::read_to_string, (host, path), text) && path@ == file.path
            && file.info == (match text {
            Some(text) => Some(exports::component_info(file.path, text@, windows)),
            None => None,
        })
}

/// Whether `resolution` is what the resolver says of it.
pub open spec fn told_by_resolver(resolution: ResolutionView) -> bool {
    exists|from: &str, specifier: &str, target: Option<String>|
        #[trigger] call_ensures(resolver::resolve_import, (from, specifier), target) && from@
            == resolution.from && specifier@ == resolution.specifier && text::maybe_string(target)
            == resolution.target
}

/// Whether all answers in `modules` are those of the host and the resolver.
pub open spec fn truthful<H: SourceHost>(host: &H, modules: ModulesView, windows: bool) -> bool {
    &&& forall|i: int|
        0 <= i < modules.files.len() ==> told_by_host(host, #[trigger] modules.files[i], windows)
    &&& forall|i: int|
        0 <= i < modules.resolutions.len() ==> told_by_resolver(
            #[trigger] modules.resolutions[i],
        )
}

/// Whether `later` is `earlier` with one more answer: that of the resolver or the host to
/// `request`.
pub open spec fn answered<H: SourceHost>(
    host: &H,
    request: RequestView,
    earlier: ModulesView,
    later: ModulesView,
    windows: bool,
) -> bool {
    match request {
        RequestView::Resolve { from, specifier } => {
            let added = later.resolutions.last();
            &&& later.files == earlier.files
            &&& later.resolutions == earlier.resolutions.push(added)
            &&& added.from == from
            &&& added.specifier == specifier
            &&& told_by_resolver(added)
        },
        RequestView::Read { path } => {
            let added = later.files.last();
            &&& later.resolutions == earlier.resolutions
            &&& later.files == earlier.files.push(added)
            &&& added.path == path
            &&& told_by_host(host, added, windows)
        },
    }
}

/// Answers `request`: by the resolver, or by what `host` reads.
pub fn answer<H: SourceHost>(request: Request, host: &H, modules: &mut Modules, windows: bool)
    ensures
        answered(host, request@, old(modules)@, final(modules)@, windows),
{
    broadcast use names::views_of_push;

    let ghost earlier = modules@;
    match request {
        Request::Resolve { from, specifier } => {
            let target = resolver::resolve_import(from.as_str(), specifier.as_str());
            let resolution = Resolution { from, specifier, target };
            assert(told_by_resolver(resolution@));
            let ghost added = resolution@;
            modules.resolutions.push(resolution);
            assert(modules@.resolutions =~= earlier.resolutions.push(added));
        },
        Request::Read { path } => {
            let text = host.read_to_string(path.as_str());
            let info = match text {
                Some(source) => Some(
                    exports::get_file_component_info(path.as_str(), source.as_str(), windows),
                ),
                None => None,
            };
            let file = ModuleFile { path, info };
            assert(told_by_host(host, file@, windows));
            let ghost added = file@;
            modules.files.push(file);
            assert(modules@.files =~= earlier.files.push(added));
        },
    }
}

/// What was answered is known from then on, what was known stays as it is, and answers of the
/// host and the resolver stay theirs.
pub proof fn answers_add_up<H: SourceHost>(
    host: &H,
    request: RequestView,
    earlier: ModulesView,
    later: ModulesView,
    windows: bool,
)
    requires
        answered(host, request, earlier, later, windows),
    ensures
        later.answers(request),
        forall|other: RequestView| #[trigger] earlier.answers(other) ==> later.answers(other),
        truthful(host, earlier, windows) ==> truthful(host, later, windows),
{
    match request {
        RequestView::Resolve { from, specifier } => {
            modules::resolutions_stay_known(
                earlier.resolutions,
                later.resolutions.last(),
                from,
                specifier,
            );
        },
        RequestView::Read { path } => {
            modules::files_stay_known(earlier.files, later.files.last(), path);
        },
    }
    assert forall|other: RequestView| #[trigger] earlier.answers(other) implies later.answers(
        other,
    ) by {
        match (request, other) {
            (RequestView::Resolve { .. }, RequestView::Resolve { from, specifier }) => {
                modules::resolutions_stay_known(
                    earlier.resolutions,
                    later.resolutions.last(),
                    from,
                    specifier,
                );
            },
            (RequestView::Read { .. }, RequestView::Read { path }) => {
                modules::files_stay_known(earlier.files, later.files.last(), path);
            },
            _ => {},
        }
    }
    if truthful(host, earlier, windows) {
        assert forall|i: int| 0 <= i < later.files.len() implies told_by_host(
            host,
            #[trigger] later.files[i],
            windows,
        ) by {
            if i < earlier.files.len() {
                assert(later.files[i] == earlier.files[i]);
            }
        }
        assert forall|i: int| 0 <= i < later.resolutions.len() implies told_by_resolver(
            #[trigger] later.resolutions[i],
        ) by {
            if i < earlier.resolutions.len() {
                assert(later.resolutions[i] == earlier.resolutions[i]);
            }
        }
    }
}

/// Whether `usages` are those of the document `file_path` with the text `source`: the ones that
/// the answers of the resolver and of `host` lead to.
pub open spec fn usages_found<H: SourceHost>(
    host: &H,
    file_path: Seq<char>,
    source: Seq<char>,
    scope: ScopeConfig,
    usages: Seq<UsageView>,
) -> bool {
    exists|modules: ModulesView, windows: bool|
        paths::on_this_system(windows) && truthful(host, modules, windows)
            && #[trigger] outcome_of(
            modules,
            file_path,
            analyzer::file_analysis(file_path, source, windows),
            scope,
        ) == OutcomeView::Done(usages)
}

/// Analyzes the document `file_path` with the text `source`; `host` reads the modules that it
/// imports.
pub fn analyze_document<H: SourceHost>(
    file_path: &str,
    source: &str,
    scope: ScopeConfig,
    host: &H,
) -> (usages: Vec<Usage>)
    requires
        source.spec_bytes().len() <= u32::MAX,
    ensures
        usages_found(host, file_path@, source@, scope, names::views(usages@)),
{
    let windows = paths::has_windows_paths();
    let analysis = analyzer::parse_file_analysis(file_path, source, windows);
    let mut modules = Modules::new();
    loop
        invariant
            paths::on_this_system(windows),
            analysis@ == analyzer::file_analysis(file_path@, source@, windows),
            truthful(host, modules@, windows),
        decreases
                (usize::MAX - modules.resolutions.len()) + (usize::MAX - modules.files.len()),
    {
        match continue_analysis(&modules, file_path, &analysis, scope) {
            Outcome::Done(usages) => {
                return usages;
            },
            Outcome::Need(request) => {
                let ghost earlier = modules@;
                let ghost asked = request@;
                answer(request, host, &mut modules, windows);
                proof {
                    answers_add_up(host, asked, earlier, modules@, windows);
                }
            },
        }
    }
}

/// Analyzes the document `file_path` with the text `source` for the usages that `scope` names;
/// `host` reads the modules that it imports.
pub fn analyze_source_with_host_and_scope<H: SourceHost>(
    file_path: &str,
    source: &str,
    scope: ScopeConfig,
    host: &H,
) -> (usages: Vec<Usage>)
    requires
        source.spec_bytes().len() <= u32::MAX,
    ensures
        usages_found(host, file_path@, source@, scope, names::views(usages@)),
{
    analyze_document(file_path, source, scope, host)
}

/// The scope that wants everything.
pub open spec fn every_usage() -> ScopeConfig {
    ScopeConfig { declaration: true, element: true, export: true, import: true, types: true }
}

/// Analyzes the document `file_path` with the text `source` for all its usages; `host` reads the
/// modules that it imports.
pub fn analyze_source_with_host<H: SourceHost>(
    file_path: &str,
    source: &str,
    host: &H,
) -> (usages: Vec<Usage>)
    requires
        source.spec_bytes().len() <= u32::MAX,
    ensures
        usages_found(host, file_path@, source@, every_usage(), names::views(usages@)),
{
    let scope = ScopeConfig::default();
    assert(scope == every_usage());
    analyze_document(file_path, source, scope, host)
}

/// The zero-based line and character at which the name of the component `name` is declared in
/// the document with the text `source`. On the first line of a document of several lines every
/// character counts as the first.
pub open spec fn component_position(
    analysis: FileAnalysisView,
    source: Seq<char>,
    name: Seq<char>,
) -> Option<(int, int)> {
    match names::lookup(analysis.local_components, name) {
        Some(component) => if component.ranges.len() > 0 {
            Some(
                utf16::boundaries_of(source).line_and_character(component.ranges[0].start),
            )
        } else {
            None
        },
        None => None,
    }
}

/// Looks for the component `name` among those that the document `file_path` declares. Gives the
/// zero-based line and character of its name; on the first line of a document of several lines
/// every character counts as the first. Nothing is read through `_host`.
pub fn find_component_declaration<H: SourceHost>(
    file_path: &str,
    source: &str,
    name: &str,
    _host: &H,
) -> (position: Option<(u32, u32)>)
    requires
        source.spec_bytes().len() <= u32::MAX,
    ensures
        exists|windows: bool|
            paths::on_this_system(windows) && component_position(
                #[trigger] analyzer::file_analysis(file_path@, source@, windows),
                source@,
                name@,
            ) == (match position {
                Some(position) => Some((position.0 as int, position.1 as int)),
                None => None,
            }),
{
    let windows = paths::has_windows_paths();
    let analysis = analyzer::parse_file_analysis(file_path, source, windows);
    match analysis.local_components.get(name) {
        Some(component) => {
            if component.ranges.len() > 0 {
                let mapper = Utf16Mapper::new(source);
                Some(mapper.line_and_character_for_utf16(component.ranges[0].start))
            } else {
                None
            }
        },
        None => None,
    }
}

/// A document that imports nothing that could be a component asks nothing, and neither does one
/// whose tags and imports are not wanted: its usages are fixed by itself.
pub proof fn self_contained_documents_ask_nothing(
    modules: ModulesView,
    file_path: Seq<char>,
    analysis: FileAnalysisView,
    scope: ScopeConfig,
)
    requires
        analysis.imports.len() == 0 || !(scope.element || scope.import),
    ensures
        outcome_of(modules, file_path, analysis, scope) == OutcomeView::Done(
            usages_of(analysis, Seq::empty(), file_path, scope),
        ),
{
}

/// The analysis asks only for answers that are not known, so that each answer brings it on.
pub proof fn analysis_asks_for_the_unknown(
    modules: ModulesView,
    file_path: Seq<char>,
    analysis: FileAnalysisView,
    scope: ScopeConfig,
)
    ensures
        outcome_of(modules, file_path, analysis, scope) matches OutcomeView::Need(request)
            ==> !modules.answers(request),
{
    imports_ask_for_the_unknown(modules, file_path, analysis, analysis.imports.len());
}

proof fn imports_ask_for_the_unknown(
    modules: ModulesView,
    file_path: Seq<char>,
    analysis: FileAnalysisView,
    count: nat,
)
    ensures
        declared_imports(modules, file_path, analysis, count) matches ImportsView::Need(request)
            ==> !modules.answers(request),
    decreases count,
{
    if 0 < count <= analysis.imports.len() {
        let entry = analysis.imports[count - 1].1;
        imports_ask_for_the_unknown(modules, file_path, analysis, (count - 1) as nat);
        modules::searches_ask_for_the_unknown(
            modules,
            file_path,
            entry.source,
            entry.export_name,
        );
    }
}

/// The scope that wants nothing.
pub open spec fn no_usage() -> ScopeConfig {
    ScopeConfig { declaration: false, element: false, export: false, import: false, types: false }
}

/// The usages of each sort do not depend on which other sorts are wanted: those of a scope are
/// those of its single sorts, one after the other.
pub proof fn scopes_add_up(
    analysis: FileAnalysisView,
    imports: Seq<(Seq<char>, DeclaredView)>,
    file_path: Seq<char>,
    scope: ScopeConfig,
)
    ensures
        usages_of(analysis, imports, file_path, scope) == usages_of(
            analysis,
            imports,
            file_path,
            (ScopeConfig { element: scope.element, ..no_usage() }),
        ) + usages_of(
            analysis,
            imports,
            file_path,
            (ScopeConfig { import: scope.import, ..no_usage() }),
        ) + usages_of(
            analysis,
            imports,
            file_path,
            (ScopeConfig { declaration: scope.declaration, ..no_usage() }),
        ) + usages_of(
            analysis,
            imports,
            file_path,
            (ScopeConfig { types: scope.types, ..no_usage() }),
        ) + usages_of(
            analysis,
            imports,
            file_path,
            (ScopeConfig { export: scope.export, ..no_usage() }),
        ),
{
}

proof fn usages_need_imports_only_where_wanted(
    analysis: FileAnalysisView,
    imports: Seq<(Seq<char>, DeclaredView)>,
    file_path: Seq<char>,
    scope: ScopeConfig,
)
    requires
        !(scope.element || scope.import),
    ensures
        usages_of(analysis, imports, file_path, scope) == usages_of(
            analysis,
            Seq::empty(),
            file_path,
            scope,
        ),
{
}

/// Where the answers in `modules` are enough for a scope, they are enough for each of its single
/// sorts, and the usages of the scope are those of its sorts, one after the other.
pub proof fn scopes_are_done_together(
    modules: ModulesView,
    file_path: Seq<char>,
    analysis: FileAnalysisView,
    scope: ScopeConfig,
)
    requires
        outcome_of(modules, file_path, analysis, scope) is Done,
    ensures
        ({
            let elements = outcome_of(
                modules,
                file_path,
                analysis,
                (ScopeConfig { element: scope.element, ..no_usage() }),
            );
            let imported = outcome_of(
                modules,
                file_path,
                analysis,
                (ScopeConfig { import: scope.import, ..no_usage() }),
            );
            let declared = outcome_of(
                modules,
                file_path,
                analysis,
                (ScopeConfig { declaration: scope.declaration, ..no_usage() }),
            );
            let typed = outcome_of(
                modules,
                file_path,
                analysis,
                (ScopeConfig { types: scope.types, ..no_usage() }),
            );
            let exported = outcome_of(
                modules,
                file_path,
                analysis,
                (ScopeConfig { export: scope.export, ..no_usage() }),
            );
            &&& elements is Done
            &&& imported is Done
            &&& declared is Done
            &&& typed is Done
            &&& exported is Done
            &&& outcome_of(modules, file_path, analysis, scope)->Done_0 == elements->Done_0
                + imported->Done_0 + declared->Done_0 + typed->Done_0 + exported->Done_0
        }),
{
    let none = no_usage();
    let imports = if scope.element || scope.import {
        declared_imports(modules, file_path, analysis, analysis.imports.len())->Known_0
    } else {
        Seq::empty()
    };
    scopes_add_up(analysis, imports, file_path, scope);
    if !scope.element {
        usages_need_imports_only_where_wanted(
            analysis,
            imports,
            file_path,
            ScopeConfig { element: scope.element, ..none },
        );
    }
    if !scope.import {
        usages_need_imports_only_where_wanted(
            analysis,
            imports,
            file_path,
            ScopeConfig { import: scope.import, ..none },
        );
    }
    usages_need_imports_only_where_wanted(
        analysis,
        imports,
        file_path,
        ScopeConfig { declaration: scope.declaration, ..none },
    );
    usages_need_imports_only_where_wanted(
        analysis,
        imports,
        file_path,
        ScopeConfig { types: scope.types, ..none },
    );
    usages_need_imports_only_where_wanted(
        analysis,
        imports,
        file_path,
        ScopeConfig { export: scope.export, ..none },
    );
}

/// Whether two hosts read the same text from each file whenever they are asked, the resolver
/// gives the same file for each specifier, and the system takes paths apart in one way. A host
/// answers like itself where nothing is written between its answers.
pub open spec fn answer_alike<G: SourceHost, H: SourceHost>(one: &G, other: &H) -> bool {
    &&& forall|path: &str, again: &str, text: Option<String>, later: Option<String>|
        #![trigger call_ensures(G::read_to_string, (one, path), text),
            call_ensures(H::read_to_string, (other, again), later)]
        call_ensures(G::read_to_string, (one, path), text) && call_ensures(
            H::read_to_string,
            (other, again),
            later,
        ) && path@ == again@ ==> text::maybe_string(text) == text::maybe_string(later)
    &&& forall|
        from: &str,
        specifier: &str,
        target: Option<String>,
        whence: &str,
        again: &str,
        later: Option<String>,
    |
        #![trigger call_ensures(resolver::resolve_import, (from, specifier), target),
            call_ensures(resolver::resolve_import, (whence, again), later)]
        call_ensures(resolver::resolve_import, (from, specifier), target) && call_ensures(
            resolver::resolve_import,
            (whence, again),
            later,
        ) && from@ == whence@ && specifier@ == again@ ==> text::maybe_string(target)
            == text::maybe_string(later)
    &&& forall|windows: bool, again: bool| #[trigger]
        paths::on_this_system(windows) && #[trigger] paths::on_this_system(again) ==> windows
            == again
}

proof fn files_are_told_alike<G: SourceHost, H: SourceHost>(
    one: &G,
    other: &H,
    file: ModuleFileView,
    again: ModuleFileView,
    windows: bool,
)
    requires
        answer_alike(one, other),
        told_by_host(one, file, windows),
        told_by_host(other, again, windows),
        file.path == again.path,
    ensures
        file.info == again.info,
{
    let (path, text) = choose|path: &str, text: Option<String>| #[trigger]
        call_ensures(G::read_to_string, (one, path), text) && path@ == file.path && file.info == (
        match text {
            Some(text) => Some(exports::component_info(file.path, text@, windows)),
            None => None,
        });
    let (whence, later) = choose|path: &str, text: Option<String>| #[trigger]
        call_ensures(H::read_to_string, (other, path), text) && path@ == again.path && again.info
            == (match text {
            Some(text) => Some(exports::component_info(again.path, text@, windows)),
            None => None,
        });
    assert(text::maybe_string(text) == text::maybe_string(later));
}

proof fn truthful_answers_agree<G: SourceHost, H: SourceHost>(
    one: &G,
    other: &H,
    first: ModulesView,
    second: ModulesView,
    windows: bool,
)
    requires
        answer_alike(one, other),
        truthful(one, first, windows),
        truthful(other, second, windows),
    ensures
        modules::agree(first, second),
{
    assert forall|from: Seq<char>, specifier: Seq<char>| #[trigger]
        first.target(from, specifier) is Some && second.target(from, specifier) is Some implies
        first.target(from, specifier) == second.target(from, specifier) by {
        let i = modules::known_resolutions_are_listed(first.resolutions, from, specifier);
        let j = modules::known_resolutions_are_listed(second.resolutions, from, specifier);
        assert(told_by_resolver(first.resolutions[i]));
        assert(told_by_resolver(second.resolutions[j]));
    }
    assert forall|path: Seq<char>| #[trigger]
        first.info(path) is Some && second.info(path) is Some implies first.info(path)
        == second.info(path) by {
        let i = modules::known_files_are_listed(first.files, path);
        let j = modules::known_files_are_listed(second.files, path);
        files_are_told_alike(one, other, first.files[i], second.files[j], windows);
    }
}

proof fn imports_agree(
    first: ModulesView,
    second: ModulesView,
    file_path: Seq<char>,
    analysis: FileAnalysisView,
    count: nat,
)
    requires
        modules::agree(first, second),
        declared_imports(first, file_path, analysis, count) is Known,
        declared_imports(second, file_path, analysis, count) is Known,
    ensures
        declared_imports(first, file_path, analysis, count) == declared_imports(
            second,
            file_path,
            analysis,
            count,
        ),
    decreases count,
{
    if 0 < count <= analysis.imports.len() {
        let name = analysis.imports[count - 1].0;
        let entry = analysis.imports[count - 1].1;
        imports_agree(first, second, file_path, analysis, (count - 1) as nat);
        if !names::has(analysis.local_components, name) {
            modules::searches_agree(first, second, file_path, entry.source, entry.export_name);
        }
    }
}

/// Answers that agree lead to the same usages.
pub proof fn outcomes_agree(
    first: ModulesView,
    second: ModulesView,
    file_path: Seq<char>,
    analysis: FileAnalysisView,
    scope: ScopeConfig,
)
    requires
        modules::agree(first, second),
        outcome_of(first, file_path, analysis, scope) is Done,
        outcome_of(second, file_path, analysis, scope) is Done,
    ensures
        outcome_of(first, file_path, analysis, scope) == outcome_of(
            second,
            file_path,
            analysis,
            scope,
        ),
{
    if scope.element || scope.import {
        imports_agree(first, second, file_path, analysis, analysis.imports.len());
    }
}

/// Two analyses of a document find the same usages where the hosts answer alike.
pub proof fn runs_agree<G: SourceHost, H: SourceHost>(
    one: &G,
    other: &H,
    file_path: Seq<char>,
    source: Seq<char>,
    scope: ScopeConfig,
    usages: Seq<UsageView>,
    again: Seq<UsageView>,
)
    requires
        answer_alike(one, other),
        usages_found(one, file_path, source, scope, usages),
        usages_found(other, file_path, source, scope, again),
    ensures
        usages == again,
{
    let (first, windows) = choose|modules: ModulesView, windows: bool|
        paths::on_this_system(windows) && truthful(one, modules, windows)
            && #[trigger] outcome_of(
            modules,
            file_path,
            analyzer::file_analysis(file_path, source, windows),
            scope,
        ) == OutcomeView::Done(usages);
    let (second, same) = choose|modules: ModulesView, windows: bool|
        paths::on_this_system(windows) && truthful(other, modules, windows)
            && #[trigger] outcome_of(
            modules,
            file_path,
            analyzer::file_analysis(file_path, source, windows),
            scope,
        ) == OutcomeView::Done(again);
    assert(windows == same);
    let analysis = analyzer::file_analysis(file_path, source, windows);
    truthful_answers_agree(one, other, first, second, windows);
    outcomes_agree(first, second, file_path, analysis, scope);
}

/// What an analysis finds for a scope is what the analyses for its single sorts find, one after
/// the other, where the host answers each of them alike.
pub proof fn scopes_add_up_over_runs<H: SourceHost>(
    host: &H,
    file_path: Seq<char>,
    source: Seq<char>,
    scope: ScopeConfig,
    usages: Seq<UsageView>,
    elements: Seq<UsageView>,
    imported: Seq<UsageView>,
    declared: Seq<UsageView>,
    typed: Seq<UsageView>,
    exported: Seq<UsageView>,
)
    requires
        answer_alike(host, host),
        usages_found(host, file_path, source, scope, usages),
        usages_found(
            host,
            file_path,
            source,
            (ScopeConfig { element: scope.element, ..no_usage() }),
            elements,
        ),
        usages_found(
            host,
            file_path,
            source,
            (ScopeConfig { import: scope.import, ..no_usage() }),
            imported,
        ),
        usages_found(
            host,
            file_path,
            source,
            (ScopeConfig { declaration: scope.declaration, ..no_usage() }),
            declared,
        ),
        usages_found(
            host,
            file_path,
            source,
            (ScopeConfig { types: scope.types, ..no_usage() }),
            typed,
        ),
        usages_found(
            host,
            file_path,
            source,
            (ScopeConfig { export: scope.export, ..no_usage() }),
            exported,
        ),
    ensures
        usages == elements + imported + declared + typed + exported,
{
    let none = no_usage();
    let (modules, windows) = choose|modules: ModulesView, windows: bool|
        paths::on_this_system(windows) && truthful(host, modules, windows)
            && #[trigger] outcome_of(
            modules,
            file_path,
            analyzer::file_analysis(file_path, source, windows),
            scope,
        ) == OutcomeView::Done(usages);
    let analysis = analyzer::file_analysis(file_path, source, windows);
    scopes_are_done_together(modules, file_path, analysis, scope);
    part_is_found(
        host,
        modules,
        windows,
        file_path,
        source,
        ScopeConfig { element: scope.element, ..none },
        elements,
    );
    part_is_found(
        host,
        modules,
        windows,
        file_path,
        source,
        ScopeConfig { import: scope.import, ..none },
        imported,
    );
    part_is_found(
        host,
        modules,
        windows,
        file_path,
        source,
        ScopeConfig { declaration: scope.declaration, ..none },
        declared,
    );
    part_is_found(
        host,
        modules,
        windows,
        file_path,
        source,
        ScopeConfig { types: scope.types, ..none },
        typed,
    );
    part_is_found(
        host,
        modules,
        windows,
        file_path,
        source,
        ScopeConfig { export: scope.export, ..none },
        exported,
    );
}

proof fn part_is_found<H: SourceHost>(
    host: &H,
    modules: ModulesView,
    windows: bool,
    file_path: Seq<char>,
    source: Seq<char>,
    part: ScopeConfig,
    usages: Seq<UsageView>,
)
    requires
        answer_alike(host, host),
        paths::on_this_system(windows),
        truthful(host, modules, windows),
        outcome_of(
            modules,
            file_path,
            analyzer::file_analysis(file_path, source, windows),
            part,
        ) is Done,
        usages_found(host, file_path, source, part, usages),
    ensures
        outcome_of(
            modules,
            file_path,
            analyzer::file_analysis(file_path, source, windows),
            part,
        ) == OutcomeView::Done(usages),
{
    let outcome = outcome_of(
        modules,
        file_path,
        analyzer::file_analysis(file_path, source, windows),
        part,
    );
    assert(outcome == OutcomeView::Done(outcome->Done_0));
    assert(usages_found(host, file_path, source, part, outcome->Done_0));
    runs_agree(host, host, file_path, source, part, outcome->Done_0, usages);
}

/// Where nothing is wanted, nothing is found.
pub proof fn nothing_is_found_where_nothing_is_wanted<H: SourceHost>(
    host: &H,
    file_path: Seq<char>,
    source: Seq<char>,
    usages: Seq<UsageView>,
)
    requires
        usages_found(host, file_path, source, no_usage(), usages),
    ensures
        usages.len() == 0,
{
}

/// A document that imports nothing that could be a component has one result, whatever the hosts
/// answer, and so has one whose tags and imports are not wanted. Its path is one that every
/// system takes apart in the same way.
pub proof fn self_contained_documents_need_no_host<G: SourceHost, H: SourceHost>(
    one: &G,
    other: &H,
    file_path: Seq<char>,
    source: Seq<char>,
    scope: ScopeConfig,
    usages: Seq<UsageView>,
    again: Seq<UsageView>,
)
    requires
        paths::is_portable(file_path),
        analyzer::file_analysis(file_path, source, false).imports.len() == 0 || !(scope.element
            || scope.import),
        usages_found(one, file_path, source, scope, usages),
        usages_found(other, file_path, source, scope, again),
    ensures
        usages == again,
        usages == usages_of(
            analyzer::file_analysis(file_path, source, false),
            Seq::empty(),
            file_path,
            scope,
        ),
{
    let analysis = analyzer::file_analysis(file_path, source, false);
    tree::portable_files_have_one_dialect(file_path);
    assert(analyzer::file_analysis(file_path, source, true) == analysis);
    let (first, windows) = choose|modules: ModulesView, windows: bool|
        paths::on_this_system(windows) && truthful(one, modules, windows)
            && #[trigger] outcome_of(
            modules,
            file_path,
            analyzer::file_analysis(file_path, source, windows),
            scope,
        ) == OutcomeView::Done(usages);
    let (second, same) = choose|modules: ModulesView, windows: bool|
        paths::on_this_system(windows) && truthful(other, modules, windows)
            && #[trigger] outcome_of(
            modules,
            file_path,
            analyzer::file_analysis(file_path, source, windows),
            scope,
        ) == OutcomeView::Done(again);
    self_contained_documents_ask_nothing(first, file_path, analysis, scope);
    self_contained_documents_ask_nothing(second, file_path, analysis, scope);
}

/// A tag is a usage if and only if it names a component of the document or one that a module it
/// imports from declares; a component of the document comes first.
pub proof fn tags_of_known_components_are_usages(
    analysis: FileAnalysisView,
    imports: Seq<(Seq<char>, DeclaredView)>,
    file_path: Seq<char>,
    tag: JsxTagReferenceView,
)
    ensures
        element_usage(analysis, imports, file_path, tag) is Some <==> names::has(
            analysis.local_components,
            tag.lookup_name,
        ) || names::has(imports, tag.lookup_name),
        names::has(analysis.local_components, tag.lookup_name) ==> element_usage(
            analysis,
            imports,
            file_path,
            tag,
        )->0.source_file_path == file_path,
{
}

/// Each module that is given for an import is the one that the search for that import finds, and
/// the import is not hidden by a component of the document.
pub proof fn imports_come_from_their_searches(
    modules: ModulesView,
    file_path: Seq<char>,
    analysis: FileAnalysisView,
    count: nat,
    index: int,
)
    requires
        declared_imports(modules, file_path, analysis, count) matches ImportsView::Known(found)
            && 0 <= index < found.len(),
    ensures
        ({
            let found = declared_imports(modules, file_path, analysis, count)->Known_0;
            exists|i: int|
                0 <= i < analysis.imports.len() && (#[trigger] analysis.imports[i]).0
                    == found[index].0 && modules::search_export(
                    modules,
                    file_path,
                    analysis.imports[i].1.source,
                    analysis.imports[i].1.export_name,
                ) == (SearchView::Found { kind: found[index].1.kind, path: found[index].1.path })
        }),
        !names::has(
            analysis.local_components,
            declared_imports(modules, file_path, analysis, count)->Known_0[index].0,
        ),
    decreases count,
{
    let found = declared_imports(modules, file_path, analysis, count)->Known_0;
    let earlier = declared_imports(modules, file_path, analysis, (count - 1) as nat)->Known_0;
    if index < earlier.len() {
        assert(found[index] == earlier[index]);
        imports_come_from_their_searches(modules, file_path, analysis, (count - 1) as nat, index);
    } else {
        assert(analysis.imports[count - 1].0 == found[index].0);
    }
}

/// A tag that names no component of the document is a usage of what an import of that name leads
/// to: the module that the usage points to is reached from that import, declares what was looked
/// for there, and gives the usage its kind.
pub proof fn imported_tags_lead_to_their_declarations(
    modules: ModulesView,
    file_path: Seq<char>,
    analysis: FileAnalysisView,
    imports: Seq<(Seq<char>, DeclaredView)>,
    tag: JsxTagReferenceView,
)
    requires
        declared_imports(modules, file_path, analysis, analysis.imports.len())
            == ImportsView::Known(imports),
        !names::has(analysis.local_components, tag.lookup_name),
        element_usage(analysis, imports, file_path, tag) is Some,
    ensures
        ({
            let usage = element_usage(analysis, imports, file_path, tag)->0;
            exists|i: int, name: Seq<char>|
                0 <= i < analysis.imports.len() && (#[trigger] analysis.imports[i]).0
                    == tag.lookup_name && modules::provides(
                    modules,
                    (usage.source_file_path, name),
                ) && modules.info(usage.source_file_path)->0->0.kind == usage.kind
                    && #[trigger] modules::reachable(
                    modules,
                    seq![
                        EdgeView {
                            from: file_path,
                            specifier: analysis.imports[i].1.source,
                            name: analysis.imports[i].1.export_name,
                        },
                    ],
                    (usage.source_file_path, name),
                )
        }),
{
    let usage = element_usage(analysis, imports, file_path, tag)->0;
    let index = names::lookup_finds_an_entry(imports, tag.lookup_name);
    imports_come_from_their_searches(
        modules,
        file_path,
        analysis,
        analysis.imports.len(),
        index,
    );
    let i = choose|i: int|
        0 <= i < analysis.imports.len() && (#[trigger] analysis.imports[i]).0 == imports[index].0
            && modules::search_export(
            modules,
            file_path,
            analysis.imports[i].1.source,
            analysis.imports[i].1.export_name,
        ) == (SearchView::Found { kind: imports[index].1.kind, path: imports[index].1.path });
    let entry = analysis.imports[i].1;
    modules::found_exports_are_reachable(modules, file_path, entry.source, entry.export_name);
    let start = seq![
        EdgeView { from: file_path, specifier: entry.source, name: entry.export_name },
    ];
    let name = choose|name: Seq<char>| #[trigger]
        modules::reachable(modules, start, (usage.source_file_path, name)) && modules::provides(
            modules,
            (usage.source_file_path, name),
        );
    assert(analysis.imports[i].0 == tag.lookup_name);
    assert(modules::reachable(modules, start, (usage.source_file_path, name)));
}

/// Whether all of `usages` stand in `extent` and, where `named` asks for it, are named like
/// components.
pub open spec fn usages_within(usages: Seq<UsageView>, extent: Extent, named: bool) -> bool {
    forall|i: int|
        0 <= i < usages.len() ==> declarations::within((#[trigger] usages[i]).ranges, extent) && (
        named ==> syntax::names_component(usages[i].tag_name))
}

proof fn elements_stay_within(
    analysis: FileAnalysisView,
    imports: Seq<(Seq<char>, DeclaredView)>,
    file_path: Seq<char>,
    count: nat,
    extent: Extent,
)
    requires
        analyzer::analysis_within(analysis, extent),
    ensures
        usages_within(element_usages(analysis, imports, file_path, count), extent, false),
    decreases count,
{
    if 0 < count <= analysis.jsx_tags.len() {
        elements_stay_within(analysis, imports, file_path, (count - 1) as nat, extent);
        assert(declarations::within(analysis.jsx_tags[count - 1].ranges, extent));
    }
}

proof fn imports_stay_within(
    analysis: FileAnalysisView,
    imports: Seq<(Seq<char>, DeclaredView)>,
    count: nat,
    extent: Extent,
)
    requires
        analyzer::analysis_within(analysis, extent),
    ensures
        usages_within(import_usages(analysis, imports, count), extent, true),
    decreases count,
{
    if 0 < count <= analysis.imports.len() {
        imports_stay_within(analysis, imports, (count - 1) as nat, extent);
        assert(declarations::within(analysis.imports[count - 1].1.ranges, extent));
    }
}

proof fn types_stay_within(
    analysis: FileAnalysisView,
    file_path: Seq<char>,
    count: nat,
    extent: Extent,
)
    requires
        analyzer::analysis_within(analysis, extent),
    ensures
        usages_within(inner_type_usages(analysis, file_path, count), extent, true),
        usages_within(outer_type_usages(analysis, file_path, count), extent, true),
    decreases count,
{
    if 0 < count <= analysis.type_identifiers.len() {
        types_stay_within(analysis, file_path, (count - 1) as nat, extent);
        assert(declarations::within(analysis.type_identifiers[count - 1].ranges, extent));
    }
}

proof fn exports_stay_within(
    analysis: FileAnalysisView,
    file_path: Seq<char>,
    count: nat,
    extent: Extent,
)
    requires
        analyzer::analysis_within(analysis, extent),
    ensures
        usages_within(export_usages(analysis, file_path, count), extent, true),
    decreases count,
{
    if 0 < count <= analysis.export_references.len() {
        exports_stay_within(analysis, file_path, (count - 1) as nat, extent);
        assert(declarations::within(analysis.export_references[count - 1].ranges, extent));
    }
}

/// Every usage stands in its document: it has ranges, and none of them reaches behind the end of
/// the text. Where no node of the program ends before it starts and no opening tag starts behind
/// its name, no range ends before it starts. Every usage but those of tags is named like a
/// component; a tag is looked up under such a name, and may be written as a member of it.
pub proof fn usages_stand_in_the_document(
    source: Seq<char>,
    program: Tree,
    imports: Seq<(Seq<char>, DeclaredView)>,
    file_path: Seq<char>,
    scope: ScopeConfig,
)
    requires
        utf16::utf8_width(source) <= u32::MAX,
    ensures
        usages_within(
            usages_of(
                analyzer::analysis_of(declarations::source_file(source), program),
                imports,
                file_path,
                scope,
            ),
            declarations::extent_of(source, program),
            !scope.element,
        ),
{
    let analysis = analyzer::analysis_of(declarations::source_file(source), program);
    let extent = declarations::extent_of(source, program);
    let types = analysis.type_identifiers.len();
    analyzer::analysis_stands_in_the_source(source, program);
    elements_stay_within(analysis, imports, file_path, analysis.jsx_tags.len(), extent);
    imports_stay_within(analysis, imports, analysis.imports.len(), extent);
    types_stay_within(analysis, file_path, types, extent);
    exports_stay_within(analysis, file_path, analysis.export_references.len(), extent);
    let declared = declaration_usages(analysis, file_path);
    assert forall|i: int| 0 <= i < declared.len() implies declarations::within(
        (#[trigger] declared[i]).ranges,
        extent,
    ) && syntax::names_component(declared[i].tag_name) by {
        assert(declarations::within(analysis.local_components[i].1.ranges, extent));
    }
    let named = !scope.element;
    let tags = wanted(
        scope.element,
        element_usages(analysis, imports, file_path, analysis.jsx_tags.len()),
    );
    let imported = wanted(
        scope.import,
        import_usages(analysis, imports, analysis.imports.len()),
    );
    let inner = inner_type_usages(analysis, file_path, types);
    let outer = outer_type_usages(analysis, file_path, types);
    let typed = wanted(scope.types, inner + outer);
    let exported = wanted(
        scope.export,
        export_usages(analysis, file_path, analysis.export_references.len()),
    );
    joining_stays_within(inner, outer, extent, true);
    joining_stays_within(tags, imported, extent, named);
    joining_stays_within(tags + imported, wanted(scope.declaration, declared), extent, named);
    joining_stays_within(
        tags + imported + wanted(scope.declaration, declared),
        typed,
        extent,
        named,
    );
    joining_stays_within(
        tags + imported + wanted(scope.declaration, declared) + typed,
        exported,
        extent,
        named,
    );
}

proof fn joining_stays_within(
    first: Seq<UsageView>,
    second: Seq<UsageView>,
    extent: Extent,
    named: bool,
)
    requires
        usages_within(first, extent, named),
        usages_within(second, extent, named),
    ensures
        usages_within(first + second, extent, named),
{
    assert forall|i: int| 0 <= i < (first + second).len() implies declarations::within(
        (#[trigger] (first + second)[i]).ranges,
        extent,
    ) && (named ==> syntax::names_component((first + second)[i].tag_name)) by {
        if i < first.len() {
            assert((first + second)[i] == first[i]);
        } else {
            assert((first + second)[i] == second[i - first.len()]);
        }
    }
}

} // verus!
