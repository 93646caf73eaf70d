//! Which usages a document has, said of what is known of it and of the modules around it.
use vstd::prelude::*;

use crate::analyzer::FileAnalysisView;
use crate::declarations::TypeIdentifierView;
use crate::document;
use crate::document::{DeclaredView, ImportsView, OutcomeView, ScopeConfig};
use crate::elements::JsxTagReferenceView;
use crate::modules;
use crate::modules::{ModulesView, SearchView};
use crate::names;
use crate::text;
use crate::{Kind, UsageView};

verus! {

/// Whether `at` picks some of the first `count` places, in order.
pub open spec fn picks(at: Seq<int>, count: int) -> bool {
    &&& forall|k: int| 0 <= k < at.len() ==> 0 <= #[trigger] at[k] < count
    &&& forall|j: int, k: int| 0 <= j < k < at.len() ==> #[trigger] at[j] < #[trigger] at[k]
}

proof fn one_more_is_picked(at: Seq<int>, count: int)
    requires
        picks(at, count),
        0 <= count,
    ensures
        picks(at, count + 1),
        picks(at.push(count), count + 1),
        at.push(count).contains(count),
        forall|i: int| #[trigger] at.contains(i) ==> at.push(count).contains(i),
{
    let more = at.push(count);
    assert(more[at.len() as int] == count);
    assert forall|i: int| #[trigger] at.contains(i) implies more.contains(i) by {
        let k = choose|k: int| 0 <= k < at.len() && at[k] == i;
        assert(more[k] == i);
    }
}

/// Whether the tag `tag` is one of a component of the document, or of one that it imports.
pub open spec fn is_known_tag(
    analysis: FileAnalysisView,
    imports: Seq<(Seq<char>, DeclaredView)>,
    tag: JsxTagReferenceView,
) -> bool {
    names::has(analysis.local_components, tag.lookup_name) || names::has(imports, tag.lookup_name)
}

/// Whether `usage` is what the tag `tag` is: written and marked as the tag is, with the kind of the
/// component of the document that it names, which the document itself declares; or with the kind
/// and the path of the module that declares what is imported under its name.
pub open spec fn is_tag_usage(
    analysis: FileAnalysisView,
    imports: Seq<(Seq<char>, DeclaredView)>,
    file_path: Seq<char>,
    tag: JsxTagReferenceView,
    usage: UsageView,
) -> bool {
    &&& usage.tag_name == tag.tag_name
    &&& usage.ranges == tag.ranges
    &&& names::lookup(analysis.local_components, tag.lookup_name) matches Some(component)
        ==> usage.kind == component.kind && usage.source_file_path == file_path
    &&& !names::has(analysis.local_components, tag.lookup_name) ==> (names::lookup(
        imports,
        tag.lookup_name,
    ) matches Some(declared) && usage.kind == declared.kind && usage.source_file_path
        == declared.path)
}

proof fn tag_usages_are_picked(
    analysis: FileAnalysisView,
    imports: Seq<(Seq<char>, DeclaredView)>,
    file_path: Seq<char>,
    count: nat,
) -> (at: Seq<int>)
    requires
        count <= analysis.jsx_tags.len(),
    ensures
        ({
            let usages = document::element_usages(analysis, imports, file_path, count);
            &&& picks(at, count as int)
            &&& at.len() == usages.len()
            &&& forall|k: int|
                0 <= k < at.len() ==> is_tag_usage(
                    analysis,
                    imports,
                    file_path,
                    analysis.jsx_tags[#[trigger] at[k]],
                    usages[k],
                )
            &&& forall|i: int|
                0 <= i < count && is_known_tag(analysis, imports, #[trigger] analysis.jsx_tags[i])
                    ==> at.contains(i)
        }),
    decreases count,
{
    if count == 0 {
        Seq::empty()
    } else {
        let before = (count - 1) as nat;
        let earlier = tag_usages_are_picked(analysis, imports, file_path, before);
        one_more_is_picked(earlier, before as int);
        if is_known_tag(analysis, imports, analysis.jsx_tags[count - 1]) {
            earlier.push(count - 1)
        } else {
            earlier
        }
    }
}

/// Every tag that names a component of the document, or one that it imports, is a usage, and there
/// are no others: `at` says which tag each of them is, in the order of the tags.
pub proof fn tags_are_usages(
    analysis: FileAnalysisView,
    imports: Seq<(Seq<char>, DeclaredView)>,
    file_path: Seq<char>,
) -> (at: Seq<int>)
    ensures
        ({
            let usages = document::usages_of(
                analysis,
                imports,
                file_path,
                (ScopeConfig { element: true, ..document::no_usage() }),
            );
            &&& picks(at, analysis.jsx_tags.len() as int)
            &&& at.len() == usages.len()
            &&& forall|k: int|
                0 <= k < at.len() ==> is_tag_usage(
                    analysis,
                    imports,
                    file_path,
                    analysis.jsx_tags[#[trigger] at[k]],
                    usages[k],
                )
            &&& forall|i: int|
                0 <= i < analysis.jsx_tags.len() && is_known_tag(
                    analysis,
                    imports,
                    #[trigger] analysis.jsx_tags[i],
                ) ==> at.contains(i)
        }),
{
    let all = document::element_usages(analysis, imports, file_path, analysis.jsx_tags.len());
    assert(document::usages_of(
        analysis,
        imports,
        file_path,
        ScopeConfig { element: true, ..document::no_usage() },
    ) =~= all);
    tag_usages_are_picked(analysis, imports, file_path, analysis.jsx_tags.len())
}

/// Whether the import `index` of the document leads to the module `path` of the kind `kind`: the
/// search for what it imports finds it there, and no component of the document hides it.
pub open spec fn leads_to(
    modules: ModulesView,
    file_path: Seq<char>,
    analysis: FileAnalysisView,
    index: int,
    kind: Kind,
    path: Seq<char>,
) -> bool {
    &&& 0 <= index < analysis.imports.len()
    &&& !names::has(analysis.local_components, analysis.imports[index].0)
    &&& modules::search_export(
        modules,
        file_path,
        analysis.imports[index].1.source,
        analysis.imports[index].1.export_name,
    ) == (SearchView::Found { kind, path })
}

proof fn lookup_of_pushed<T>(entries: Seq<(Seq<char>, T)>, added: (Seq<char>, T), name: Seq<char>)
    ensures
        names::lookup(entries.push(added), name) == (if names::has(entries, name) {
            names::lookup(entries, name)
        } else if added.0 == name {
            Some(added.1)
        } else {
            None
        }),
    decreases entries.len(),
{
    let longer = entries.push(added);
    if entries.len() == 0 {
        assert(longer.drop_first() =~= Seq::empty());
        reveal_with_fuel(names::lookup, 2);
    } else if entries[0].0 != name {
        assert(longer.drop_first() =~= entries.drop_first().push(added));
        lookup_of_pushed(entries.drop_first(), added, name);
    }
}

proof fn known_imports_are_found(
    modules: ModulesView,
    file_path: Seq<char>,
    analysis: FileAnalysisView,
    count: nat,
    name: Seq<char>,
)
    requires
        count <= analysis.imports.len(),
        names::sorted(analysis.imports),
        document::declared_imports(modules, file_path, analysis, count) is Known,
    ensures
        ({
            let imports = document::declared_imports(
                modules,
                file_path,
                analysis,
                count,
            )->Known_0;
            &&& names::lookup(imports, name) matches Some(found) ==> exists|index: int|
                index < count && (#[trigger] analysis.imports[index]).0 == name && leads_to(
                    modules,
                    file_path,
                    analysis,
                    index,
                    found.kind,
                    found.path,
                )
            &&& forall|index: int, kind: Kind, path: Seq<char>| #[trigger]
                leads_to(modules, file_path, analysis, index, kind, path) && index < count
                    && analysis.imports[index].0 == name ==> names::lookup(imports, name) == Some(
                    DeclaredView { kind, path },
                )
        }),
    decreases count,
{
    if count > 0 {
        let before = (count - 1) as nat;
        known_imports_are_found(modules, file_path, analysis, before, name);
        let earlier = document::declared_imports(modules, file_path, analysis, before)->Known_0;
        let entry = analysis.imports[count - 1];
        assert forall|index: int| 0 <= index < before implies (
        #[trigger] analysis.imports[index]).0 != entry.0 by {
            assert(text::before(analysis.imports[index].0, analysis.imports[count - 1].0));
            text::before_is_irreflexive(entry.0);
        }
        if !names::has(analysis.local_components, entry.0) {
            let outcome = modules::search_export(
                modules,
                file_path,
                entry.1.source,
                entry.1.export_name,
            );
            if let SearchView::Found { kind, path } = outcome {
                lookup_of_pushed(earlier, (entry.0, DeclaredView { kind, path }), name);
                assert(leads_to(modules, file_path, analysis, count - 1, kind, path));
                if name == entry.0 && names::has(earlier, name) {
                    let found = names::lookup(earlier, name)->0;
                    let index = choose|index: int|
                        index < before && (#[trigger] analysis.imports[index]).0 == name
                            && leads_to(
                            modules,
                            file_path,
                            analysis,
                            index,
                            found.kind,
                            found.path,
                        );
                    assert(analysis.imports[index].0 == entry.0);
                }
                assert(analysis.imports[count - 1].0 == entry.0);
            }
        }
        if let Some(found) = names::lookup(earlier, name) {
            let index = choose|index: int|
                index < before && (#[trigger] analysis.imports[index]).0 == name && leads_to(
                    modules,
                    file_path,
                    analysis,
                    index,
                    found.kind,
                    found.path,
                );
            assert(analysis.imports[index].0 == name);
        }
    }
}

/// What is imported under a name is declared by the module that the search for the import finds;
/// nothing is known of an import that a component of the document hides, or that no module
/// declares.
pub proof fn imports_lead_to_what_is_found(
    modules: ModulesView,
    file_path: Seq<char>,
    analysis: FileAnalysisView,
    imports: Seq<(Seq<char>, DeclaredView)>,
    name: Seq<char>,
)
    requires
        names::sorted(analysis.imports),
        document::declared_imports(modules, file_path, analysis, analysis.imports.len())
            == ImportsView::Known(imports),
    ensures
        names::lookup(imports, name) matches Some(found) ==> exists|index: int|
            (#[trigger] analysis.imports[index]).0 == name && leads_to(
                modules,
                file_path,
                analysis,
                index,
                found.kind,
                found.path,
            ),
        forall|index: int, kind: Kind, path: Seq<char>| #[trigger]
            leads_to(modules, file_path, analysis, index, kind, path) && analysis.imports[index].0
                == name ==> names::lookup(imports, name) == Some(DeclaredView { kind, path }),
{
    known_imports_are_found(modules, file_path, analysis, analysis.imports.len(), name);
}

/// Whether `usage` is the import `index`: under its local name, marked where that stands, and with
/// the kind and the path of the module that the search for it finds.
pub open spec fn is_import_usage(
    modules: ModulesView,
    file_path: Seq<char>,
    analysis: FileAnalysisView,
    index: int,
    usage: UsageView,
) -> bool {
    &&& leads_to(modules, file_path, analysis, index, usage.kind, usage.source_file_path)
    &&& usage.tag_name == analysis.imports[index].0
    &&& usage.ranges == analysis.imports[index].1.ranges
}

proof fn import_usages_are_picked(
    modules: ModulesView,
    file_path: Seq<char>,
    analysis: FileAnalysisView,
    imports: Seq<(Seq<char>, DeclaredView)>,
    count: nat,
) -> (at: Seq<int>)
    requires
        count <= analysis.imports.len(),
        names::sorted(analysis.imports),
        document::declared_imports(modules, file_path, analysis, analysis.imports.len())
            == ImportsView::Known(imports),
    ensures
        ({
            let usages = document::import_usages(analysis, imports, count);
            &&& picks(at, count as int)
            &&& at.len() == usages.len()
            &&& forall|k: int|
                0 <= k < at.len() ==> is_import_usage(
                    modules,
                    file_path,
                    analysis,
                    #[trigger] at[k],
                    usages[k],
                )
            &&& forall|index: int, kind: Kind, path: Seq<char>| #[trigger]
                leads_to(modules, file_path, analysis, index, kind, path) && index < count
                    ==> at.contains(index)
        }),
    decreases count,
{
    if count == 0 {
        Seq::empty()
    } else {
        let before = (count - 1) as nat;
        let earlier = import_usages_are_picked(modules, file_path, analysis, imports, before);
        let name = analysis.imports[count - 1].0;
        one_more_is_picked(earlier, before as int);
        imports_lead_to_what_is_found(modules, file_path, analysis, imports, name);
        if let Some(found) = names::lookup(imports, name) {
            let index = choose|index: int|
                (#[trigger] analysis.imports[index]).0 == name && leads_to(
                    modules,
                    file_path,
                    analysis,
                    index,
                    found.kind,
                    found.path,
                );
            if index < count - 1 {
                assert(text::before(analysis.imports[index].0, analysis.imports[count - 1].0));
                text::before_is_irreflexive(name);
            }
            if index > count - 1 {
                assert(text::before(analysis.imports[count - 1].0, analysis.imports[index].0));
                text::before_is_irreflexive(name);
            }
            earlier.push(count - 1)
        } else {
            earlier
        }
    }
}

/// Every import that leads to a module is a usage with the kind and the path of that module, and
/// there are no others: `at` says which import each of them is.
pub proof fn imports_are_usages(
    modules: ModulesView,
    file_path: Seq<char>,
    analysis: FileAnalysisView,
    usages: Seq<UsageView>,
) -> (at: Seq<int>)
    requires
        names::sorted(analysis.imports),
        document::outcome_of(
            modules,
            file_path,
            analysis,
            (ScopeConfig { import: true, ..document::no_usage() }),
        ) == OutcomeView::Done(usages),
    ensures
        picks(at, analysis.imports.len() as int),
        at.len() == usages.len(),
        forall|k: int|
            0 <= k < at.len() ==> is_import_usage(
                modules,
                file_path,
                analysis,
                #[trigger] at[k],
                usages[k],
            ),
        forall|index: int, kind: Kind, path: Seq<char>| #[trigger]
            leads_to(modules, file_path, analysis, index, kind, path) ==> at.contains(index),
{
    let imports = document::declared_imports(
        modules,
        file_path,
        analysis,
        analysis.imports.len(),
    )->Known_0;
    assert(usages =~= document::import_usages(analysis, imports, analysis.imports.len()));
    import_usages_are_picked(modules, file_path, analysis, imports, analysis.imports.len())
}

/// A tag that is looked up under an imported name has the kind and the path of the usage that the
/// import is.
pub proof fn tags_agree_with_imports(
    modules: ModulesView,
    file_path: Seq<char>,
    analysis: FileAnalysisView,
    tags: Seq<UsageView>,
    imported: Seq<UsageView>,
    tag: int,
    import: int,
)
    requires
        names::sorted(analysis.imports),
        document::outcome_of(
            modules,
            file_path,
            analysis,
            (ScopeConfig { element: true, ..document::no_usage() }),
        ) == OutcomeView::Done(tags),
        document::outcome_of(
            modules,
            file_path,
            analysis,
            (ScopeConfig { import: true, ..document::no_usage() }),
        ) == OutcomeView::Done(imported),
        0 <= tag < analysis.jsx_tags.len(),
        0 <= import < imported.len(),
        analysis.jsx_tags[tag].lookup_name == imported[import].tag_name,
    ensures
        exists|k: int|
            0 <= k < tags.len() && (#[trigger] tags[k]).tag_name == analysis.jsx_tags[tag].tag_name
                && tags[k].ranges == analysis.jsx_tags[tag].ranges && tags[k].kind
                == imported[import].kind && tags[k].source_file_path
                == imported[import].source_file_path,
{
    let imports = document::declared_imports(
        modules,
        file_path,
        analysis,
        analysis.imports.len(),
    )->Known_0;
    let name = analysis.jsx_tags[tag].lookup_name;
    let places = imports_are_usages(modules, file_path, analysis, imported);
    let index = places[import];
    assert(is_import_usage(modules, file_path, analysis, index, imported[import]));
    imports_lead_to_what_is_found(modules, file_path, analysis, imports, name);
    let at = tags_are_usages(analysis, imports, file_path);
    assert(tags == document::usages_of(
        analysis,
        imports,
        file_path,
        ScopeConfig { element: true, ..document::no_usage() },
    ));
    assert(is_known_tag(analysis, imports, analysis.jsx_tags[tag]));
    let k = choose|k: int| 0 <= k < at.len() && at[k] == tag;
    assert(is_tag_usage(analysis, imports, file_path, analysis.jsx_tags[at[k]], tags[k]));
    assert(tags[k].tag_name == analysis.jsx_tags[tag].tag_name);
}

/// Every component that the document declares is a usage, under its name, with its kind, marked
/// where it is declared, and declared by the document itself.
pub proof fn declarations_are_usages(
    analysis: FileAnalysisView,
    imports: Seq<(Seq<char>, DeclaredView)>,
    file_path: Seq<char>,
)
    ensures
        ({
            let usages = document::usages_of(
                analysis,
                imports,
                file_path,
                (ScopeConfig { declaration: true, ..document::no_usage() }),
            );
            &&& usages.len() == analysis.local_components.len()
            &&& forall|i: int|
                0 <= i < usages.len() ==> (#[trigger] usages[i]).tag_name
                    == analysis.local_components[i].0 && usages[i].kind
                    == analysis.local_components[i].1.kind && usages[i].ranges
                    == analysis.local_components[i].1.ranges && usages[i].source_file_path
                    == file_path
        }),
{
}

/// Whether `usage` is the type `identifier`, written in the document.
pub open spec fn is_type_usage(
    file_path: Seq<char>,
    identifier: TypeIdentifierView,
    usage: UsageView,
) -> bool {
    &&& usage.tag_name == identifier.name
    &&& usage.ranges == identifier.ranges
    &&& usage.source_file_path == file_path
}

/// Whether what stands in the component `name` has the kind `kind`: that of the component, or that
/// of the document where it has no such component.
pub open spec fn is_kind_inside(analysis: FileAnalysisView, name: Seq<char>, kind: Kind) -> bool {
    match names::lookup(analysis.local_components, name) {
        Some(component) => component.kind == kind,
        None => analysis.own_component_kind == kind,
    }
}

/// Whether the type `name` is referred to in a component of the kind `kind`.
pub open spec fn is_used_in(analysis: FileAnalysisView, name: Seq<char>, kind: Kind) -> bool {
    exists|i: int, component: Seq<char>|
        0 <= i < analysis.type_identifiers.len() && (#[trigger] analysis.type_identifiers[i]).name
            == name && analysis.type_identifiers[i].enclosing_component == Some(component)
            && #[trigger] is_kind_inside(analysis, component, kind)
}

/// Whether a type outside of components has the kind `kind`: client, if a client component refers
/// to a type of its name; else server, if a server component does; else that of the document.
pub open spec fn is_outer_kind(analysis: FileAnalysisView, name: Seq<char>, kind: Kind) -> bool {
    if is_used_in(analysis, name, Kind::Client) {
        kind == Kind::Client
    } else if is_used_in(analysis, name, Kind::Server) {
        kind == Kind::Server
    } else {
        kind == analysis.own_component_kind
    }
}

proof fn uses_are_references(analysis: FileAnalysisView, name: Seq<char>, kind: Kind)
    ensures
        document::referred_from(analysis, name, kind) <==> is_used_in(analysis, name, kind),
{
    if document::referred_from(analysis, name, kind) {
        let i = choose|i: int|
            0 <= i < analysis.type_identifiers.len() && document::refers_from(
                analysis,
                #[trigger] analysis.type_identifiers[i],
                name,
                kind,
            );
        let component = analysis.type_identifiers[i].enclosing_component->0;
        assert(is_kind_inside(analysis, component, kind));
    }
    if is_used_in(analysis, name, kind) {
        let (i, component) = choose|i: int, component: Seq<char>|
            0 <= i < analysis.type_identifiers.len() && (
            #[trigger] analysis.type_identifiers[i]).name == name
                && analysis.type_identifiers[i].enclosing_component == Some(component)
                && #[trigger] is_kind_inside(analysis, component, kind);
        assert(document::refers_from(analysis, analysis.type_identifiers[i], name, kind));
    }
}

proof fn type_usages_are_picked(
    analysis: FileAnalysisView,
    file_path: Seq<char>,
    count: nat,
) -> (at: (Seq<int>, Seq<int>))
    requires
        count <= analysis.type_identifiers.len(),
    ensures
        ({
            let inner = document::inner_type_usages(analysis, file_path, count);
            let outer = document::outer_type_usages(analysis, file_path, count);
            &&& picks(at.0, count as int)
            &&& picks(at.1, count as int)
            &&& at.0.len() == inner.len()
            &&& at.1.len() == outer.len()
            &&& forall|k: int|
                0 <= k < at.0.len() ==> is_type_usage(
                    file_path,
                    analysis.type_identifiers[#[trigger] at.0[k]],
                    inner[k],
                ) && (analysis.type_identifiers[at.0[k]].enclosing_component matches Some(component)
                    && is_kind_inside(analysis, component, inner[k].kind))
            &&& forall|k: int|
                0 <= k < at.1.len() ==> is_type_usage(
                    file_path,
                    analysis.type_identifiers[#[trigger] at.1[k]],
                    outer[k],
                ) && analysis.type_identifiers[at.1[k]].enclosing_component is None
                    && is_outer_kind(analysis, outer[k].tag_name, outer[k].kind)
            &&& forall|i: int|
                0 <= i < count && (
                #[trigger] analysis.type_identifiers[i]).enclosing_component is Some
                    ==> at.0.contains(i)
            &&& forall|i: int|
                0 <= i < count && (
                #[trigger] analysis.type_identifiers[i]).enclosing_component is None
                    ==> at.1.contains(i)
        }),
    decreases count,
{
    if count == 0 {
        (Seq::empty(), Seq::empty())
    } else {
        let before = (count - 1) as nat;
        let identifier = analysis.type_identifiers[count - 1];
        let earlier = type_usages_are_picked(analysis, file_path, before);
        one_more_is_picked(earlier.0, before as int);
        one_more_is_picked(earlier.1, before as int);
        uses_are_references(analysis, identifier.name, Kind::Client);
        uses_are_references(analysis, identifier.name, Kind::Server);
        if identifier.enclosing_component is Some {
            (earlier.0.push(count - 1), earlier.1)
        } else {
            (earlier.0, earlier.1.push(count - 1))
        }
    }
}

/// Every type is a usage: first those inside components, with the kind of their component; then
/// those outside, with the kind of the components that refer to types of their name, client before
/// server, or that of the document.
pub proof fn types_are_usages(
    analysis: FileAnalysisView,
    imports: Seq<(Seq<char>, DeclaredView)>,
    file_path: Seq<char>,
) -> (at: (Seq<int>, Seq<int>))
    ensures
        ({
            let usages = document::usages_of(
                analysis,
                imports,
                file_path,
                (ScopeConfig { types: true, ..document::no_usage() }),
            );
            let count = analysis.type_identifiers.len() as int;
            let inner = at.0.len() as int;
            &&& picks(at.0, count)
            &&& picks(at.1, count)
            &&& usages.len() == at.0.len() + at.1.len()
            &&& forall|k: int|
                0 <= k < at.0.len() ==> is_type_usage(
                    file_path,
                    analysis.type_identifiers[#[trigger] at.0[k]],
                    usages[k],
                ) && (analysis.type_identifiers[at.0[k]].enclosing_component matches Some(component)
                    && is_kind_inside(analysis, component, usages[k].kind))
            &&& forall|k: int|
                0 <= k < at.1.len() ==> is_type_usage(
                    file_path,
                    analysis.type_identifiers[#[trigger] at.1[k]],
                    usages[inner + k],
                ) && analysis.type_identifiers[at.1[k]].enclosing_component is None
                    && is_outer_kind(
                    analysis,
                    usages[inner + k].tag_name,
                    usages[inner + k].kind,
                )
            &&& forall|i: int|
                0 <= i < count && (
                #[trigger] analysis.type_identifiers[i]).enclosing_component is Some
                    ==> at.0.contains(i)
            &&& forall|i: int|
                0 <= i < count && (
                #[trigger] analysis.type_identifiers[i]).enclosing_component is None
                    ==> at.1.contains(i)
        }),
{
    let count = analysis.type_identifiers.len();
    let inner = document::inner_type_usages(analysis, file_path, count);
    let outer = document::outer_type_usages(analysis, file_path, count);
    let usages = document::usages_of(
        analysis,
        imports,
        file_path,
        ScopeConfig { types: true, ..document::no_usage() },
    );
    assert(usages =~= inner + outer);
    let at = type_usages_are_picked(analysis, file_path, count);
    assert forall|k: int| 0 <= k < at.1.len() implies usages[inner.len() + k] == outer[k] by {}
    at
}

proof fn export_usages_are_picked(
    analysis: FileAnalysisView,
    file_path: Seq<char>,
    count: nat,
) -> (at: Seq<int>)
    requires
        count <= analysis.export_references.len(),
    ensures
        ({
            let usages = document::export_usages(analysis, file_path, count);
            &&& picks(at, count as int)
            &&& at.len() == usages.len()
            &&& forall|k: int|
                0 <= k < at.len() ==> is_export_usage(
                    analysis,
                    file_path,
                    #[trigger] at[k],
                    usages[k],
                )
            &&& forall|i: int|
                0 <= i < count && names::has(
                    analysis.local_components,
                    (#[trigger] analysis.export_references[i]).name,
                ) ==> at.contains(i)
        }),
    decreases count,
{
    if count == 0 {
        Seq::empty()
    } else {
        let before = (count - 1) as nat;
        let earlier = export_usages_are_picked(analysis, file_path, before);
        one_more_is_picked(earlier, before as int);
        if names::has(analysis.local_components, analysis.export_references[count - 1].name) {
            earlier.push(count - 1)
        } else {
            earlier
        }
    }
}

/// Whether `usage` is the reference `index` of an export to a component of the document.
pub open spec fn is_export_usage(
    analysis: FileAnalysisView,
    file_path: Seq<char>,
    index: int,
    usage: UsageView,
) -> bool {
    &&& names::has(analysis.local_components, analysis.export_references[index].name)
    &&& usage.tag_name == analysis.export_references[index].name
    &&& usage.ranges == analysis.export_references[index].ranges
    &&& usage.kind == analysis.own_component_kind
    &&& usage.source_file_path == file_path
}

/// Every reference of an export to a component of the document is a usage with the kind of the
/// document, and there are no others: `at` says which reference each of them is.
pub proof fn exports_are_usages(
    analysis: FileAnalysisView,
    imports: Seq<(Seq<char>, DeclaredView)>,
    file_path: Seq<char>,
) -> (at: Seq<int>)
    ensures
        ({
            let usages = document::usages_of(
                analysis,
                imports,
                file_path,
                (ScopeConfig { export: true, ..document::no_usage() }),
            );
            &&& picks(at, analysis.export_references.len() as int)
            &&& at.len() == usages.len()
            &&& forall|k: int|
                0 <= k < at.len() ==> is_export_usage(
                    analysis,
                    file_path,
                    #[trigger] at[k],
                    usages[k],
                )
            &&& forall|i: int|
                0 <= i < analysis.export_references.len() && names::has(
                    analysis.local_components,
                    (#[trigger] analysis.export_references[i]).name,
                ) ==> at.contains(i)
        }),
{
    let count = analysis.export_references.len();
    assert(document::usages_of(
        analysis,
        imports,
        file_path,
        ScopeConfig { export: true, ..document::no_usage() },
    ) =~= document::export_usages(analysis, file_path, count));
    export_usages_are_picked(analysis, file_path, count)
}

/// Nothing has to be asked for imports whose searches come to an end, nor for imports that a
/// component of the document hides.
pub proof fn hidden_imports_ask_nothing(
    modules: ModulesView,
    file_path: Seq<char>,
    analysis: FileAnalysisView,
    count: nat,
)
    requires
        count <= analysis.imports.len(),
        forall|i: int|
            0 <= i < count ==> names::has(
                analysis.local_components,
                (#[trigger] analysis.imports[i]).0,
            ) || !(modules::search_export(
                modules,
                file_path,
                analysis.imports[i].1.source,
                analysis.imports[i].1.export_name,
            ) is Need),
    ensures
        document::declared_imports(modules, file_path, analysis, count) is Known,
    decreases count,
{
    if count > 0 {
        hidden_imports_ask_nothing(modules, file_path, analysis, (count - 1) as nat);
        assert(names::has(analysis.local_components, analysis.imports[count - 1].0)
            || !(modules::search_export(
            modules,
            file_path,
            analysis.imports[count - 1].1.source,
            analysis.imports[count - 1].1.export_name,
        ) is Need));
    }
}

} // verus!
