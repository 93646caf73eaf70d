//! Analysis of one module: its declarations, what it refers to, and the kinds of its components.
use vstd::prelude::*;
use vstd::string::StringSliceAdditionalSpecFns;

use crate::declarations;
use crate::declarations::{
    Declarations, DeclarationsView, Extent, ImportEntry, ImportEntryView, LocalComponent,
    LocalComponentView, NamedRange, NamedRangeView, SourceFile, SourceFileView, TypeIdentifier,
    TypeIdentifierView,
};
use crate::elements;
use crate::elements::{Event, EventView, JsxTagReference, JsxTagReferenceView};
use crate::names;
use crate::names::NameMap;
use crate::syntax;
use crate::text;
use crate::tree;
use crate::tree::Tree;
use crate::utf16;
use crate::Kind;

verus! {

/// What there is to know of a module before its imports are looked at.
#[derive(Debug)]
pub struct FileAnalysis {
    pub export_references: Vec<NamedRange>,
    pub imports: NameMap<ImportEntry>,
    pub jsx_tags: Vec<JsxTagReference>,
    pub local_components: NameMap<LocalComponent>,
    pub own_component_kind: Kind,
    pub type_identifiers: Vec<TypeIdentifier>,
}

/// What there is to know of a module before its imports are looked at.
#[verifier::ext_equal]
pub struct FileAnalysisView {
    pub export_references: Seq<NamedRangeView>,
    pub imports: Seq<(Seq<char>, ImportEntryView)>,
    pub jsx_tags: Seq<JsxTagReferenceView>,
    pub local_components: Seq<(Seq<char>, LocalComponentView)>,
    pub own_component_kind: Kind,
    pub type_identifiers: Seq<TypeIdentifierView>,
}

impl View for FileAnalysis {
    type V = FileAnalysisView;

    open spec fn view(&self) -> FileAnalysisView {
        FileAnalysisView {
            export_references: names::views(self.export_references@),
            imports: self.imports@,
            jsx_tags: names::views(self.jsx_tags@),
            local_components: self.local_components@,
            own_component_kind: self.own_component_kind,
            type_identifiers: names::views(self.type_identifiers@),
        }
    }
}

/// The tags among `events`, in order.
pub open spec fn tags_of(events: Seq<EventView>) -> Seq<JsxTagReferenceView>
    decreases events.len(),
{
    if events.len() == 0 {
        Seq::empty()
    } else {
        match events.last() {
            EventView::Tag(tag) => tags_of(events.drop_last()).push(tag),
            _ => tags_of(events.drop_last()),
        }
    }
}

/// The types among `events`, in order.
pub open spec fn types_of(events: Seq<EventView>) -> Seq<TypeIdentifierView>
    decreases events.len(),
{
    if events.len() == 0 {
        Seq::empty()
    } else {
        match events.last() {
            EventView::Type(identifier) => types_of(events.drop_last()).push(identifier),
            _ => types_of(events.drop_last()),
        }
    }
}

/// Whether the function `name` that `component` declares runs on the server; of several, the
/// last one counts.
pub open spec fn declared_on_server(
    events: Seq<EventView>,
    component: Seq<char>,
    name: Seq<char>,
) -> Option<bool>
    decreases events.len(),
{
    if events.len() == 0 {
        None
    } else {
        match events.last() {
            EventView::Function {
                component: owner,
                name: declared,
                on_server,
            } if owner == component && declared == name => Some(on_server),
            _ => declared_on_server(events.drop_last(), component, name),
        }
    }
}

/// Whether by `event` a function of `component` that runs on the client goes to an element.
pub open spec fn hands_over_at(
    events: Seq<EventView>,
    component: Seq<char>,
    event: EventView,
) -> bool {
    match event {
        EventView::Inline { component: owner } => owner == component,
        EventView::Reference { component: owner, name } => owner == component
            && declared_on_server(events, component, name) == Some(false),
        _ => false,
    }
}

/// Whether `component` hands a function that runs on the client to an element: one written in
/// place, or one of its own by name.
pub open spec fn hands_over_client_function(events: Seq<EventView>, component: Seq<char>) -> bool {
    exists|i: int| 0 <= i < events.len() && hands_over_at(events, component, #[trigger] events[i])
}

/// The kind of the component `name` in a module of the kind `own`: a component of a server
/// module that is not asynchronous and hands over a client function is a client component.
pub open spec fn inferred_kind(
    own: Kind,
    asynchronous: Set<Seq<char>>,
    events: Seq<EventView>,
    name: Seq<char>,
    declared: Kind,
) -> Kind {
    if own == Kind::Server && !asynchronous.contains(name) && hands_over_client_function(
        events,
        name,
    ) {
        Kind::Client
    } else {
        declared
    }
}

/// `components` with the kinds that the walk through the module gives them.
pub open spec fn inferred_components(
    own: Kind,
    asynchronous: Set<Seq<char>>,
    events: Seq<EventView>,
    components: Seq<(Seq<char>, LocalComponentView)>,
) -> Seq<(Seq<char>, LocalComponentView)> {
    components.map_values(
        |entry: (Seq<char>, LocalComponentView)|
            (
                entry.0,
                LocalComponentView {
                    kind: inferred_kind(own, asynchronous, events, entry.0, entry.1.kind),
                    ranges: entry.1.ranges,
                },
            ),
    )
}

/// Everything that the walk through `program` comes across.
pub open spec fn program_events(
    file: SourceFileView,
    declared: DeclarationsView,
    program: Tree,
) -> Seq<EventView> {
    elements::events_of(file, declared.component_ranges, None, false, program)
}

/// `declared` with what the walk through `program` adds: the types that are referred to, and the
/// kinds of components.
pub open spec fn with_source_elements(
    file: SourceFileView,
    declared: DeclarationsView,
    program: Tree,
) -> DeclarationsView {
    let events = program_events(file, declared, program);
    DeclarationsView {
        type_identifiers: declared.type_identifiers + types_of(events),
        local_components: inferred_components(
            file.kind,
            declared.async_components,
            events,
            declared.local_components,
        ),
        ..declared
    }
}

/// What there is to know of the module `file`, whose syntax tree is `program`.
pub open spec fn analysis_of(file: SourceFileView, program: Tree) -> FileAnalysisView {
    let declared = declarations::declarations_of(file, program);
    let complete = with_source_elements(file, declared, program);
    FileAnalysisView {
        export_references: complete.export_references,
        imports: complete.imports,
        jsx_tags: tags_of(program_events(file, declared, program)),
        local_components: complete.local_components,
        own_component_kind: file.kind,
        type_identifiers: complete.type_identifiers,
    }
}

/// Whether the function `name` that `component` declares runs on the server; of several, the
/// last one counts.
fn find_declared_on_server(events: &Vec<Event>, component: &str, name: &str) -> (found: Option<
    bool,
>)
    ensures
        found == declared_on_server(names::views(events@), component@, name@),
{
    let ghost all = names::views(events@);
    let mut i: usize = events.len();
    proof {
        assert(all.take(i as int) =~= all);
    }
    while i > 0
        invariant
            i <= events.len(),
            all == names::views(events@),
            declared_on_server(all, component@, name@) == declared_on_server(
                all.take(i as int),
                component@,
                name@,
            ),
        decreases i,
    {
        proof {
            assert(all.take(i as int).drop_last() =~= all.take(i - 1));
            assert(all.take(i as int).last() == all[i - 1]);
        }
        i = i - 1;
        assert(all[i as int] == events@[i as int]@);
        match &events[i] {
            Event::Function { component: owner, name: declared, on_server } => {
                if text::same_text(owner.as_str(), component) && text::same_text(
                    declared.as_str(),
                    name,
                ) {
                    return Some(*on_server);
                }
            },
            _ => {},
        }
    }
    None
}

/// Whether `component` hands a function that runs on the client to an element.
fn has_client_function(events: &Vec<Event>, component: &str) -> (result: bool)
    ensures
        result == hands_over_client_function(names::views(events@), component@),
{
    let ghost all = names::views(events@);
    let mut i: usize = 0;
    while i < events.len()
        invariant
            i <= events.len(),
            all == names::views(events@),
            forall|j: int| 0 <= j < i ==> !hands_over_at(all, component@, #[trigger] all[j]),
        decreases events.len() - i,
    {
        assert(all[i as int] == events@[i as int]@);
        let hands_over = match &events[i] {
            Event::Inline { component: owner } => text::same_text(owner.as_str(), component),
            Event::Reference { component: owner, name } => text::same_text(
                owner.as_str(),
                component,
            ) && (match find_declared_on_server(events, component, name.as_str()) {
                Some(on_server) => !on_server,
                None => false,
            }),
            _ => false,
        };
        assert(hands_over == hands_over_at(all, component@, all[i as int]));
        if hands_over {
            return true;
        }
        i = i + 1;
    }
    false
}

/// Gives the components of a server module the kinds that the walk through it shows.
fn infer_kinds(events: &Vec<Event>, own: Kind, declarations: &mut Declarations)
    ensures
        final(declarations)@ == (DeclarationsView {
            local_components: inferred_components(
                own,
                old(declarations)@.async_components,
                names::views(events@),
                old(declarations)@.local_components,
            ),
            ..old(declarations)@
        }),
{
    let ghost all = names::views(events@);
    let ghost start = declarations@;
    let ghost wanted = inferred_components(
        own,
        start.async_components,
        all,
        start.local_components,
    );
    if own == Kind::Client {
        proof {
            assert(wanted =~= start.local_components);
        }
        return ;
    }
    let mut i: usize = 0;
    while i < declarations.local_components.entries.len()
        invariant
            i <= declarations.local_components.entries.len(),
            own == Kind::Server,
            all == names::views(events@),
            start == old(declarations)@,
            wanted == inferred_components(
                own,
                start.async_components,
                all,
                start.local_components,
            ),
            declarations@ == (DeclarationsView {
                local_components: declarations@.local_components,
                ..start
            }),
            declarations@.local_components.len() == start.local_components.len(),
            declarations.local_components.entries@.len() == start.local_components.len(),
            forall|j: int| 0 <= j < i ==> declarations@.local_components[j] == wanted[j],
            forall|j: int|
                i <= j < start.local_components.len() ==> declarations@.local_components[j]
                    == start.local_components[j],
        decreases declarations.local_components.entries.len() - i,
    {
        let ghost earlier = declarations@.local_components;
        assert(earlier[i as int] == start.local_components[i as int]);
        let name = declarations.local_components.entries[i].key.as_str();
        assert(name@ == earlier[i as int].0);
        if !declarations.async_components.contains(name) && has_client_function(events, name) {
            declarations.local_components.entries[i].value.kind = Kind::Client;
        }
        proof {
            let later = declarations@.local_components;
            assert(later[i as int] == wanted[i as int]);
            assert forall|j: int| 0 <= j < later.len() && j != i implies later[j]
                == earlier[j] by {}
        }
        i = i + 1;
    }
    proof {
        assert(declarations@.local_components =~= wanted);
    }
}

/// Walks through `program`: gives back its tags, adds the types that it refers to, and gives the
/// components their kinds.
pub fn collect_source_elements(
    program: &Tree,
    file: &SourceFile<'_>,
    declarations: &mut Declarations,
) -> (jsx_tags: Vec<JsxTagReference>)
    requires
        file.well_formed(),
    ensures
        names::views(jsx_tags@) == tags_of(program_events(file@, old(declarations)@, *program)),
        final(declarations)@ == with_source_elements(file@, old(declarations)@, *program),
{
    broadcast use {names::views_of_push, names::views_of_none};

    let mut events: Vec<Event> = Vec::new();
    elements::collect_events(
        program,
        file,
        &declarations.component_ranges,
        None,
        false,
        &mut events,
    );
    let ghost all = names::views(events@);
    proof {
        assert(all =~= program_events(file@, old(declarations)@, *program));
    }
    infer_kinds(&events, file.kind, declarations);
    let ghost inferred = declarations@;
    let mut jsx_tags: Vec<JsxTagReference> = Vec::new();
    proof {
        assert(all.take(0) =~= Seq::<EventView>::empty());
        assert(inferred.type_identifiers + Seq::<TypeIdentifierView>::empty()
            =~= inferred.type_identifiers);
    }
    for event in it: events
        invariant
            all == names::views(it.seq()),
            names::views(jsx_tags@) == tags_of(all.take(it.index())),
            declarations@ == (DeclarationsView {
                type_identifiers: inferred.type_identifiers + types_of(all.take(it.index())),
                ..inferred
            }),
    {
        proof {
            let i = it.index();
            assert(all.take(i + 1).drop_last() =~= all.take(i));
            assert(all.take(i + 1).last() == event@);
        }
        let ghost earlier = declarations@.type_identifiers;
        match event {
            Event::Tag(tag) => {
                jsx_tags.push(tag);
            },
            Event::Type(identifier) => {
                declarations.type_identifiers.push(identifier);
                proof {
                    let i = it.index();
                    assert(earlier.push(identifier@) =~= inferred.type_identifiers + types_of(
                        all.take(i + 1),
                    ));
                }
            },
            _ => {},
        }
    }
    proof {
        assert(all.take(all.len() as int) =~= all);
    }
    jsx_tags
}

/// Analyzes the module `file`, whose syntax tree is `program`.
pub fn analyze_program(program: &Tree, file: &SourceFile<'_>) -> (analysis: FileAnalysis)
    requires
        file.well_formed(),
    ensures
        analysis@ == analysis_of(file@, *program),
{
    let mut declared = declarations::collect_declarations(program, file);
    let jsx_tags = collect_source_elements(program, file, &mut declared);
    FileAnalysis {
        export_references: declared.export_references,
        imports: declared.imports,
        jsx_tags,
        local_components: declared.local_components,
        own_component_kind: file.kind,
        type_identifiers: declared.type_identifiers,
    }
}

/// What there is to know of the file `file_path` with the text `source`.
pub open spec fn file_analysis(
    file_path: Seq<char>,
    source: Seq<char>,
    windows: bool,
) -> FileAnalysisView {
    analysis_of(declarations::source_file(source), tree::program_tree(file_path, source, windows))
}

/// Parses and analyzes the file `file_path` with the text `source`.
pub fn parse_file_analysis(file_path: &str, source: &str, windows: bool) -> (analysis:
    FileAnalysis)
    requires
        source.spec_bytes().len() <= u32::MAX,
    ensures
        analysis@ == file_analysis(file_path@, source@, windows),
{
    let program = tree::parse_program(file_path, source, windows);
    let file = SourceFile::new(source);
    analyze_program(&program, &file)
}

/// The components and the imports of a module come in the order of their names, each name once,
/// and all of them are named like components.
pub proof fn analysis_is_in_order(file: SourceFileView, program: Tree)
    ensures
        names::sorted(analysis_of(file, program).imports),
        names::sorted(analysis_of(file, program).local_components),
        forall|i: int|
            0 <= i < analysis_of(file, program).local_components.len()
                ==> syntax::names_component(
                (#[trigger] analysis_of(file, program).local_components[i]).0,
            ),
        forall|i: int|
            0 <= i < analysis_of(file, program).imports.len() ==> syntax::names_component(
                (#[trigger] analysis_of(file, program).imports[i]).0,
            ),
{
    let declared = declarations::declarations_of(file, program);
    let analysis = analysis_of(file, program);
    declarations::declarations_are_in_order(file, program);
    assert forall|i: int| 0 <= i < analysis.imports.len() implies syntax::names_component(
        (#[trigger] analysis.imports[i]).0,
    ) by {
        assert(declarations::sound_import()(declared.imports[i]));
    }
    assert forall|i: int| 0 <= i < analysis.local_components.len() implies syntax::names_component(
        (#[trigger] analysis.local_components[i]).0,
    ) by {
        assert(declarations::sound_component(file.kind)(declared.local_components[i]));
    }
    assert forall|i: int, j: int| 0 <= i < j < analysis.local_components.len() implies text::before(
        #[trigger] analysis.local_components[i].0,
        #[trigger] analysis.local_components[j].0,
    ) by {
        assert(text::before(declared.local_components[i].0, declared.local_components[j].0));
    }
}

/// Every component of a client module is a client component. A component of a server module is a
/// client component if and only if it is not asynchronous and hands a function that runs on the
/// client to an element.
pub proof fn component_kinds(file: SourceFileView, program: Tree, index: int)
    requires
        0 <= index < analysis_of(file, program).local_components.len(),
    ensures
        ({
            let declared = declarations::declarations_of(file, program);
            let name = analysis_of(file, program).local_components[index].0;
            let kind = analysis_of(file, program).local_components[index].1.kind;
            &&& file.kind == Kind::Client ==> kind == Kind::Client
            &&& file.kind == Kind::Server ==> (kind == Kind::Client
                <==> !declared.async_components.contains(name) && hands_over_client_function(
                program_events(file, declared, program),
                name,
            ))
        }),
{
    let declared = declarations::declarations_of(file, program);
    declarations::declarations_are_in_order(file, program);
    assert(declarations::sound_component(file.kind)(declared.local_components[index]));
}

/// Whether everything in `analysis` is named like a component and stands in `extent`.
pub open spec fn analysis_within(analysis: FileAnalysisView, extent: Extent) -> bool {
    &&& forall|i: int|
        0 <= i < analysis.jsx_tags.len() ==> syntax::names_component(
            (#[trigger] analysis.jsx_tags[i]).lookup_name,
        ) && declarations::within(analysis.jsx_tags[i].ranges, extent)
    &&& forall|i: int|
        0 <= i < analysis.imports.len() ==> syntax::names_component(
            (#[trigger] analysis.imports[i]).0,
        ) && declarations::within(analysis.imports[i].1.ranges, extent)
    &&& forall|i: int|
        0 <= i < analysis.local_components.len() ==> syntax::names_component(
            (#[trigger] analysis.local_components[i]).0,
        ) && declarations::within(analysis.local_components[i].1.ranges, extent)
    &&& forall|i: int|
        0 <= i < analysis.export_references.len() ==> syntax::names_component(
            (#[trigger] analysis.export_references[i]).name,
        ) && declarations::within(analysis.export_references[i].ranges, extent)
    &&& forall|i: int|
        0 <= i < analysis.type_identifiers.len() ==> syntax::names_component(
            (#[trigger] analysis.type_identifiers[i]).name,
        ) && declarations::within(analysis.type_identifiers[i].ranges, extent)
}

proof fn picked_events_stay_within(events: Seq<EventView>, extent: Extent)
    requires
        elements::events_within(events, extent),
    ensures
        forall|i: int|
            0 <= i < tags_of(events).len() ==> elements::event_within(
                EventView::Tag(#[trigger] tags_of(events)[i]),
                extent,
            ),
        forall|i: int|
            0 <= i < types_of(events).len() ==> elements::event_within(
                EventView::Type(#[trigger] types_of(events)[i]),
                extent,
            ),
    decreases events.len(),
{
    if events.len() > 0 {
        let shorter = events.drop_last();
        assert forall|i: int| 0 <= i < shorter.len() implies elements::event_within(
            #[trigger] shorter[i],
            extent,
        ) by {
            assert(shorter[i] == events[i]);
        }
        picked_events_stay_within(shorter, extent);
        assert(elements::event_within(events[events.len() - 1], extent));
        assert forall|i: int| 0 <= i < tags_of(events).len() implies elements::event_within(
            EventView::Tag(#[trigger] tags_of(events)[i]),
            extent,
        ) by {
            if i < tags_of(shorter).len() {
                assert(tags_of(events)[i] == tags_of(shorter)[i]);
            }
        }
        assert forall|i: int| 0 <= i < types_of(events).len() implies elements::event_within(
            EventView::Type(#[trigger] types_of(events)[i]),
            extent,
        ) by {
            if i < types_of(shorter).len() {
                assert(types_of(events)[i] == types_of(shorter)[i]);
            }
        }
    }
}

/// Everything that is known of a module is named like a component and stands in its source: there
/// are ranges for it, and none of them reaches behind the end of the source.
pub proof fn analysis_stands_in_the_source(source: Seq<char>, program: Tree)
    requires
        utf16::utf8_width(source) <= u32::MAX,
    ensures
        analysis_within(
            analysis_of(declarations::source_file(source), program),
            declarations::extent_of(source, program),
        ),
{
    let file = declarations::source_file(source);
    let extent = declarations::extent_of(source, program);
    let declared = declarations::declarations_of(file, program);
    let events = program_events(file, declared, program);
    let analysis = analysis_of(file, program);
    declarations::sources_map_within(source);
    declarations::declarations_stand_in_the_source(source, program);
    elements::events_stay_within(
        file,
        declared.component_ranges,
        None,
        false,
        program,
        extent,
    );
    picked_events_stay_within(events, extent);
    assert forall|i: int| 0 <= i < analysis.jsx_tags.len() implies syntax::names_component(
        (#[trigger] analysis.jsx_tags[i]).lookup_name,
    ) && declarations::within(analysis.jsx_tags[i].ranges, extent) by {
        assert(elements::event_within(EventView::Tag(tags_of(events)[i]), extent));
    }
    assert forall|i: int| 0 <= i < analysis.imports.len() implies syntax::names_component(
        (#[trigger] analysis.imports[i]).0,
    ) && declarations::within(analysis.imports[i].1.ranges, extent) by {
        assert(declarations::import_within(extent)(declared.imports[i]));
    }
    assert forall|i: int| 0 <= i < analysis.local_components.len() implies syntax::names_component(
        (#[trigger] analysis.local_components[i]).0,
    ) && declarations::within(analysis.local_components[i].1.ranges, extent) by {
        assert(declarations::component_within(extent)(declared.local_components[i]));
    }
    assert forall|i: int| 0 <= i < analysis.type_identifiers.len() implies syntax::names_component(
        (#[trigger] analysis.type_identifiers[i]).name,
    ) && declarations::within(analysis.type_identifiers[i].ranges, extent) by {
        let count = declared.type_identifiers.len();
        if i < count {
            assert(analysis.type_identifiers[i] == declared.type_identifiers[i]);
        } else {
            assert(analysis.type_identifiers[i] == types_of(events)[i - count]);
            assert(elements::event_within(EventView::Type(types_of(events)[i - count]), extent));
        }
    }
}

} // verus!
