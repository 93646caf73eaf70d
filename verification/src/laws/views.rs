//! What contracts speak of is what values hold, field by field.
use vstd::prelude::*;

use crate::analyzer::FileAnalysis;
use crate::declarations::{
    ComponentRange, Declarations, ImportEntry, LocalComponent, NamedRange, SourceFile,
    TypeIdentifier,
};
use crate::document::{Declared, Imports, ImportsView, Outcome, OutcomeView, ScopeConfig};
use crate::documents::OpenDocument;
use crate::elements::{Event, EventView, JsxTagReference};
use crate::exports::{FileComponentInfo, ModuleExports, ReExportTarget};
use crate::modules::{
    Edge, ExportKey, ModuleFile, Modules, Request, RequestView, Resolution, Search, SearchView,
};
use crate::names;
use crate::names::{NameEntry, NameMap, NameSet};
use crate::release::InstallPlan;
use crate::resolver::{Lookup, ResolverSettings, Start, StartView};
use crate::text;
use crate::tree::Dialect;
use crate::utf16::Utf16Mapper;
use crate::Usage;

verus! {

/// What is said of a usage, a tag, a name or a type is what it holds.
pub proof fn marked_things_are_what_they_hold(
    usage: Usage,
    tag: JsxTagReference,
    range: NamedRange,
    identifier: TypeIdentifier,
    component: LocalComponent,
)
    ensures
        usage@.kind == usage.kind && usage@.tag_name == usage.tag_name@ && usage@.source_file_path
            == usage.source_file_path@ && usage@.ranges == usage.ranges@,
        tag@.lookup_name == tag.lookup_name@ && tag@.tag_name == tag.tag_name@ && tag@.ranges
            == tag.ranges@,
        range@.name == range.name@ && range@.ranges == range.ranges@,
        identifier@.name == identifier.name@ && identifier@.ranges == identifier.ranges@
            && identifier@.enclosing_component == text::maybe_string(
            identifier.enclosing_component,
        ),
        component@.kind == component.kind && component@.ranges == component.ranges@,
{
}

/// What is said of lists, sets and maps is what they hold, item by item.
pub proof fn collections_are_what_they_hold(
    list: Seq<String>,
    i: int,
    set: NameSet,
    name: Seq<char>,
    map: NameMap<LocalComponent>,
    entry: NameEntry<LocalComponent>,
)
    requires
        0 <= i < list.len(),
    ensures
        names::views(list).len() == list.len(),
        names::views(list)[i] == list[i]@,
        set@.contains(name) <==> exists|k: int|
            0 <= k < set.names@.len() && (#[trigger] set.names@[k])@ == name,
        map@ == names::views(map.entries@),
        entry@ == (entry.key@, entry.value@),
{
    let all = names::views(set.names@);
    if set@.contains(name) {
        let k = choose|k: int| 0 <= k < all.len() && all[k] == name;
        assert(set.names@[k]@ == name);
    }
    if exists|k: int| 0 <= k < set.names@.len() && (#[trigger] set.names@[k])@ == name {
        let k = choose|k: int| 0 <= k < set.names@.len() && (#[trigger] set.names@[k])@ == name;
        assert(all[k] == name);
    }
}

/// What is said of a module and of what it declares, imports and exports is what is held of it.
pub proof fn modules_are_what_is_held_of_them(
    analysis: FileAnalysis,
    declared: Declarations,
    import: ImportEntry,
    range: ComponentRange,
    file: SourceFile<'_>,
    exports: ModuleExports,
    info: FileComponentInfo,
    target: ReExportTarget,
)
    ensures
        analysis@.imports == analysis.imports@ && analysis@.jsx_tags == names::views(
            analysis.jsx_tags@,
        ) && analysis@.local_components == analysis.local_components@
            && analysis@.export_references == names::views(analysis.export_references@)
            && analysis@.type_identifiers == names::views(analysis.type_identifiers@)
            && analysis@.own_component_kind == analysis.own_component_kind,
        declared@.async_components == declared.async_components@ && declared@.component_ranges
            == names::views(declared.component_ranges@) && declared@.export_references
            == names::views(declared.export_references@) && declared@.imports == declared.imports@
            && declared@.local_components == declared.local_components@
            && declared@.type_identifiers == names::views(declared.type_identifiers@),
        import@.export_name == import.export_name@ && import@.source == import.source@
            && import@.ranges == import.ranges@,
        range@.span == range.span && range@.name == range.name@,
        file@.text == file.text@ && file@.boundaries == file.mapper@ && file@.kind == file.kind,
        exports@.component_names == exports.component_names@ && exports@.re_exports
            == exports.re_exports@ && exports@.star_exports == names::views(exports.star_exports@),
        info@.kind == info.kind && info@.exports == info.exports@,
        target@.source == target.source@ && target@.source_name == target.source_name@,
{
}

/// What is said of answers, questions and outcomes is what they hold.
pub proof fn answers_are_what_they_hold(
    known: Modules,
    resolution: Resolution,
    file: ModuleFile,
    request: Request,
    edge: Edge,
    key: ExportKey,
    search: Search,
    declared: Declared,
    imports: Imports,
    outcome: Outcome,
)
    ensures
        known@.resolutions == names::views(known.resolutions@) && known@.files == names::views(
            known.files@,
        ),
        resolution@.from == resolution.from@ && resolution@.specifier == resolution.specifier@
            && resolution@.target == text::maybe_string(resolution.target),
        file@.path == file.path@ && (file.info is None <==> file@.info is None) && (
        file.info matches Some(info) ==> file@.info == Some(info@)),
        request matches Request::Resolve { from, specifier } ==> request@ == (RequestView::Resolve {
            from: from@,
            specifier: specifier@,
        }),
        request matches Request::Read { path } ==> request@ == (RequestView::Read { path: path@ }),
        edge@.from == edge.from@ && edge@.specifier == edge.specifier@ && edge@.name == edge.name@,
        key@ == (key.path@, key.name@),
        search matches Search::Found { kind, path } ==> search@ == (SearchView::Found {
            kind,
            path: path@,
        }),
        search is Missing ==> search@ is Missing,
        search matches Search::Need(request) ==> search@ == SearchView::Need(request@),
        declared@.kind == declared.kind && declared@.path == declared.path@,
        imports matches Imports::Known(found) ==> imports@ == ImportsView::Known(found@),
        imports matches Imports::Need(request) ==> imports@ == ImportsView::Need(request@),
        outcome matches Outcome::Done(usages) ==> outcome@ == OutcomeView::Done(
            names::views(usages@),
        ),
        outcome matches Outcome::Need(request) ==> outcome@ == OutcomeView::Need(request@),
{
}

/// What is said of what a walk comes across is what is noted of it.
pub proof fn events_are_what_is_noted(event: Event)
    ensures
        event matches Event::Tag(tag) ==> event@ == EventView::Tag(tag@),
        event matches Event::Type(identifier) ==> event@ == EventView::Type(identifier@),
        event matches Event::Function { component, name, on_server } ==> event@ == (
        EventView::Function { component: component@, name: name@, on_server }),
        event matches Event::Reference { component, name } ==> event@ == (EventView::Reference {
            component: component@,
            name: name@,
        }),
        event matches Event::Inline { component } ==> event@ == (EventView::Inline {
            component: component@,
        }),
{
}

/// What is said of dialects, documents, lookups and plans is what they hold.
pub proof fn plans_are_what_they_hold(
    dialect: Dialect,
    document: OpenDocument,
    settings: ResolverSettings,
    start: Start,
    lookup: Lookup,
    plan: InstallPlan,
    mapper: Utf16Mapper,
    some: Option<String>,
)
    ensures
        dialect@.extension == dialect.extension@ && dialect@.declaration == dialect.declaration,
        document@.path == document.path@ && document@.text == document.text@,
        settings@.extensions == names::views(settings.extensions@) && settings@.extension_alias
            == names::views(settings.extension_alias@) && settings@.main_files == names::views(
            settings.main_files@,
        ) && settings@.main_fields == names::views(settings.main_fields@)
            && settings@.condition_names == names::views(settings.condition_names@)
            && settings@.symlinks == settings.symlinks && settings@.config_file
            == text::maybe_string(settings.config_file) && settings@.references
            == settings.references,
        start matches Start::Directory(path) ==> start@ == StartView::Directory(path@),
        start matches Start::File(path) ==> start@ == StartView::File(path@),
        lookup@.settings == lookup.settings@ && lookup@.start == lookup.start@,
        plan@.download_url == plan.download_url@ && plan@.directory == plan.directory@
            && plan@.executable == plan.executable@ && plan@.archive == plan.archive,
        mapper@.mapping == mapper.mapping@ && mapper@.newlines == mapper.newline_utf16_offsets@
            && mapper@.source_len == mapper.source_len,
        some is None <==> text::maybe_string(some) is None,
        some matches Some(value) ==> text::maybe_string(some) == Some(value@),
{
}

/// The scope that nothing is said of has every flag, and a copy of a usage is the same usage.
pub proof fn defaults_want_everything(scope: ScopeConfig, usage: &Usage, copy: Usage)
    requires
        call_ensures(<ScopeConfig as Default>::default, (), scope),
        call_ensures(<Usage as Clone>::clone, (usage,), copy),
    ensures
        scope.declaration && scope.element && scope.export && scope.import && scope.types,
        copy@ == usage@,
{
}

} // verus!
