//! Which components are client components, said of what stands in them.
use vstd::prelude::*;

use crate::analyzer;
use crate::declarations;
use crate::declarations::{ComponentRangeView, SourceFileView};
use crate::elements::EventView;
use crate::laws::declared;
use crate::laws::shapes;
use crate::laws::walk;
use crate::names;
use crate::tree::Tree;
use crate::Kind;

verus! {

/// The parts of the source that belong to the components of `program`.
pub open spec fn scopes_of(file: SourceFileView, program: Tree) -> Seq<ComponentRangeView> {
    declarations::declarations_of(file, program).component_ranges
}

/// Whether `way` leads down through `program` into the component `name`.
pub open spec fn leads_into(
    file: SourceFileView,
    program: Tree,
    way: Seq<Tree>,
    name: Seq<char>,
) -> bool {
    walk::leads_down(program, way) && walk::is_owned(scopes_of(file, program), way, Some(name))
}

/// Whether a declaration of the component `name` at the top level of `program` is asynchronous.
pub open spec fn is_asynchronous(program: Tree, name: Seq<char>) -> bool {
    exists|i: int, part: Tree|
        0 <= i < declared::statements_of(program).len() && #[trigger] declared::is_component_in(
            declared::statements_of(program)[i],
            part,
        ) && declared::own_name(part) == name && declared::is_async_in(
            declared::statements_of(program)[i],
            part,
        )
}

/// Whether an attribute at the end of `way`, in the component `name`, is given a function that
/// does not run on the server.
pub open spec fn hands_inline(
    file: SourceFileView,
    program: Tree,
    name: Seq<char>,
    way: Seq<Tree>,
) -> bool {
    &&& leads_into(file, program, way, name)
    &&& exists|function: Tree| #[trigger]
        walk::hands(way.last(), function) && shapes::is_function(function)
            && !shapes::says_server(function)
}

/// Whether an attribute at the end of `way`, in the component `name`, is given the name `handed`.
pub open spec fn hands_name(
    file: SourceFileView,
    program: Tree,
    name: Seq<char>,
    way: Seq<Tree>,
    handed: Seq<char>,
) -> bool {
    &&& leads_into(file, program, way, name)
    &&& exists|expression: Tree| #[trigger]
        walk::hands(way.last(), expression) && shapes::is_named(expression, handed)
}

/// Whether the end of `way`, in the component `name`, declares the function `handed`, and whether
/// it runs on the server is `on_server`.
pub open spec fn declares_as(
    file: SourceFileView,
    program: Tree,
    name: Seq<char>,
    way: Seq<Tree>,
    handed: Seq<char>,
    on_server: bool,
) -> bool {
    &&& leads_into(file, program, way, name)
    &&& exists|function: Tree| #[trigger]
        walk::declares_function(way.last(), handed, function) && shapes::says_server(function)
            == on_server
}

/// Whether `analysis` says that the component `name` has the kind `kind`.
pub open spec fn has_kind(file: SourceFileView, program: Tree, name: Seq<char>, kind: Kind) -> bool {
    names::lookup(analyzer::analysis_of(file, program).local_components, name) matches Some(found)
        && found.kind == kind
}

proof fn inferred_lookup(file: SourceFileView, program: Tree, name: Seq<char>) -> (index: int)
    requires
        declared::is_declared(
            declared::statements_of(program),
            declared::statements_of(program).len() as int,
            name,
        ),
    ensures
        ({
            let components = analyzer::analysis_of(file, program).local_components;
            &&& 0 <= index < components.len()
            &&& components[index].0 == name
            &&& names::lookup(components, name) == Some(components[index].1)
        }),
{
    let found = declarations::declarations_of(file, program);
    let components = analyzer::analysis_of(file, program).local_components;
    declared::components_are_those_that_are_declared(
        file,
        program,
        name,
        crate::Span { start: 0, end: 0 },
    );
    let index = names::lookup_finds_an_entry(found.local_components, name);
    analyzer::analysis_is_in_order(file, program);
    assert(components[index].0 == name);
    assert forall|j: int| 0 <= j < index implies (#[trigger] components[j]).0 != name by {
        assert(crate::text::before(components[j].0, components[index].0));
        crate::text::before_is_irreflexive(name);
    }
    names::lookup_skips(components, name, index);
    assert(components.skip(index)[0] == components[index]);
    index
}

/// Every component that the top level of a module declares is known with its kind. In a client
/// module it is a client component; in a server module an asynchronous component is not.
pub proof fn declared_components_have_kinds(file: SourceFileView, program: Tree, name: Seq<char>)
    requires
        declared::is_declared(
            declared::statements_of(program),
            declared::statements_of(program).len() as int,
            name,
        ),
    ensures
        has_kind(file, program, name, Kind::Client) || has_kind(file, program, name, Kind::Server),
        file.kind == Kind::Client ==> has_kind(file, program, name, Kind::Client),
        file.kind == Kind::Server && is_asynchronous(program, name) ==> has_kind(
            file,
            program,
            name,
            Kind::Server,
        ),
{
    let index = inferred_lookup(file, program, name);
    analyzer::component_kinds(file, program, index);
    declared::components_are_those_that_are_declared(
        file,
        program,
        name,
        crate::Span { start: 0, end: 0 },
    );
}

/// Nothing but what the top level of a module declares is a component of the module.
pub proof fn known_components_are_declared(file: SourceFileView, program: Tree, name: Seq<char>)
    requires
        names::has(analyzer::analysis_of(file, program).local_components, name),
    ensures
        declared::is_declared(
            declared::statements_of(program),
            declared::statements_of(program).len() as int,
            name,
        ),
{
    let found = declarations::declarations_of(file, program);
    let components = analyzer::analysis_of(file, program).local_components;
    let index = names::lookup_finds_an_entry(components, name);
    assert(found.local_components[index].0 == name);
    entry_is_had(found.local_components, index);
    declared::components_are_those_that_are_declared(
        file,
        program,
        name,
        crate::Span { start: 0, end: 0 },
    );
}

proof fn entry_is_had<T>(entries: Seq<(Seq<char>, T)>, index: int)
    requires
        0 <= index < entries.len(),
    ensures
        names::has(entries, entries[index].0),
    decreases entries.len(),
{
    if entries[0].0 != entries[index].0 {
        entry_is_had(entries.drop_first(), index - 1);
    }
}

/// A component of a server module that is not asynchronous and gives an attribute a function that
/// does not run on the server is a client component.
pub proof fn inline_functions_make_client_components(
    file: SourceFileView,
    program: Tree,
    name: Seq<char>,
    way: Seq<Tree>,
)
    requires
        file.kind == Kind::Server,
        declared::is_declared(
            declared::statements_of(program),
            declared::statements_of(program).len() as int,
            name,
        ),
        !is_asynchronous(program, name),
        hands_inline(file, program, name, way),
    ensures
        has_kind(file, program, name, Kind::Client),
{
    let found = declarations::declarations_of(file, program);
    let events = analyzer::program_events(file, found, program);
    let index = inferred_lookup(file, program, name);
    let function = choose|function: Tree| #[trigger]
        walk::hands(way.last(), function) && shapes::is_function(function)
            && !shapes::says_server(function);
    walk::every_inline_function_is_noted(
        file,
        found.component_ranges,
        program,
        way,
        name,
        function,
    );
    let k = choose|k: int|
        0 <= k < events.len() && #[trigger] events[k] == (EventView::Inline { component: name });
    assert(analyzer::hands_over_at(events, name, events[k]));
    analyzer::component_kinds(file, program, index);
    declared::components_are_those_that_are_declared(
        file,
        program,
        name,
        crate::Span { start: 0, end: 0 },
    );
}

proof fn declared_as_all_are(
    events: Seq<EventView>,
    component: Seq<char>,
    name: Seq<char>,
    on_server: bool,
)
    requires
        walk::among(events, EventView::Function { component, name, on_server }),
        !walk::among(events, EventView::Function { component, name, on_server: !on_server }),
    ensures
        analyzer::declared_on_server(events, component, name) == Some(on_server),
    decreases events.len(),
{
    let earlier = events.drop_last();
    let k = choose|k: int|
        0 <= k < events.len() && #[trigger] events[k] == (EventView::Function {
            component,
            name,
            on_server,
        });
    if let EventView::Function { component: owner, name: other, on_server: found } = events.last() {
        if owner == component && other == name {
            assert(events[events.len() - 1] == events.last());
            assert(found == on_server);
        }
    }
    if events.last() != (EventView::Function { component, name, on_server }) {
        assert(earlier[k] == events[k]);
        assert forall|j: int| 0 <= j < earlier.len() implies #[trigger] earlier[j] != (
        EventView::Function { component, name, on_server: !on_server }) by {
            assert(earlier[j] == events[j]);
        }
        declared_as_all_are(earlier, component, name, on_server);
    }
}

/// A component of a server module that is not asynchronous, declares a function that does not run
/// on the server, as a function or in a variable, and gives it to an attribute by its name, is a
/// client component.
pub proof fn named_functions_make_client_components(
    file: SourceFileView,
    program: Tree,
    name: Seq<char>,
    handed: Seq<char>,
    use_way: Seq<Tree>,
    declaring_way: Seq<Tree>,
)
    requires
        file.kind == Kind::Server,
        declared::is_declared(
            declared::statements_of(program),
            declared::statements_of(program).len() as int,
            name,
        ),
        !is_asynchronous(program, name),
        hands_name(file, program, name, use_way, handed),
        declares_as(file, program, name, declaring_way, handed, false),
        forall|way: Seq<Tree>| !#[trigger] declares_as(file, program, name, way, handed, true),
    ensures
        has_kind(file, program, name, Kind::Client),
{
    let found = declarations::declarations_of(file, program);
    let events = analyzer::program_events(file, found, program);
    let index = inferred_lookup(file, program, name);
    let expression = choose|expression: Tree| #[trigger]
        walk::hands(use_way.last(), expression) && shapes::is_named(expression, handed);
    walk::every_handed_name_is_noted(
        file,
        found.component_ranges,
        program,
        use_way,
        name,
        handed,
        expression,
    );
    let function = choose|function: Tree| #[trigger]
        walk::declares_function(declaring_way.last(), handed, function) && shapes::says_server(
            function,
        ) == false;
    walk::every_function_is_noted(
        file,
        found.component_ranges,
        program,
        declaring_way,
        name,
        handed,
        function,
    );
    if walk::among(
        events,
        EventView::Function { component: name, name: handed, on_server: true },
    ) {
        let (way, other) = walk::noted_functions_are_declared(
            file,
            found.component_ranges,
            program,
            name,
            handed,
            true,
        );
        assert(declares_as(file, program, name, way, handed, true));
    }
    declared_as_all_are(events, name, handed, false);
    let k = choose|k: int|
        0 <= k < events.len() && #[trigger] events[k] == (EventView::Reference {
            component: name,
            name: handed,
        });
    assert(analyzer::hands_over_at(events, name, events[k]));
    analyzer::component_kinds(file, program, index);
    declared::components_are_those_that_are_declared(
        file,
        program,
        name,
        crate::Span { start: 0, end: 0 },
    );
}

proof fn declared_is_among(events: Seq<EventView>, component: Seq<char>, name: Seq<char>)
    requires
        analyzer::declared_on_server(events, component, name) is Some,
    ensures
        walk::among(
            events,
            EventView::Function {
                component,
                name,
                on_server: analyzer::declared_on_server(events, component, name)->0,
            },
        ),
    decreases events.len(),
{
    let earlier = events.drop_last();
    let on_server = analyzer::declared_on_server(events, component, name)->0;
    if events.last() == (EventView::Function { component, name, on_server }) {
        assert(events[events.len() - 1] == events.last());
    } else {
        declared_is_among(earlier, component, name);
        let k = choose|k: int|
            0 <= k < earlier.len() && #[trigger] earlier[k] == (EventView::Function {
                component,
                name,
                on_server,
            });
        assert(events[k] == earlier[k]);
    }
}

/// A component of a server module is a client component only if it is not asynchronous and gives
/// an attribute a function that does not run on the server: one that is written there, or one that
/// it declares and gives by name.
pub proof fn client_components_hand_over_functions(
    file: SourceFileView,
    program: Tree,
    name: Seq<char>,
)
    requires
        file.kind == Kind::Server,
        has_kind(file, program, name, Kind::Client),
    ensures
        !is_asynchronous(program, name),
        (exists|way: Seq<Tree>| #[trigger] hands_inline(file, program, name, way)) || (exists|
            use_way: Seq<Tree>,
            declaring_way: Seq<Tree>,
            handed: Seq<char>,
        |
            #[trigger] hands_name(file, program, name, use_way, handed) && #[trigger] declares_as(
                file,
                program,
                name,
                declaring_way,
                handed,
                false,
            )),
{
    let found = declarations::declarations_of(file, program);
    let events = analyzer::program_events(file, found, program);
    known_components_are_declared(file, program, name);
    let index = inferred_lookup(file, program, name);
    analyzer::component_kinds(file, program, index);
    declared::components_are_those_that_are_declared(
        file,
        program,
        name,
        crate::Span { start: 0, end: 0 },
    );
    let k = choose|k: int|
        0 <= k < events.len() && analyzer::hands_over_at(events, name, #[trigger] events[k]);
    match events[k] {
        EventView::Inline { component } => {
            let (way, function) = walk::noted_inline_functions_are_handed(
                file,
                found.component_ranges,
                program,
                name,
            );
            assert(walk::hands(way.last(), function));
            assert(hands_inline(file, program, name, way));
        },
        EventView::Reference { component, name: handed } => {
            assert(walk::among(events, events[k]));
            let (use_way, expression) = walk::noted_names_are_handed(
                file,
                found.component_ranges,
                program,
                name,
                handed,
            );
            assert(walk::hands(use_way.last(), expression));
            assert(hands_name(file, program, name, use_way, handed));
            declared_is_among(events, name, handed);
            let (declaring_way, function) = walk::noted_functions_are_declared(
                file,
                found.component_ranges,
                program,
                name,
                handed,
                false,
            );
            assert(walk::declares_function(declaring_way.last(), handed, function));
            assert(declares_as(file, program, name, declaring_way, handed, false));
        },
        _ => {},
    }
}

/// Whether `event` notes a function `name` of `component`.
pub open spec fn notes(event: EventView, component: Seq<char>, name: Seq<char>) -> bool {
    event matches EventView::Function { component: owner, name: declared, .. } && owner == component
        && declared == name
}

/// Of several functions of one name in a component, the one that is noted last counts: a name that
/// is handed over makes the component a client component if and only if that one does not run on
/// the server.
pub proof fn last_functions_count(
    events: Seq<EventView>,
    component: Seq<char>,
    name: Seq<char>,
    on_server: bool,
    at: int,
    handed_at: int,
)
    requires
        0 <= at < events.len(),
        events[at] == (EventView::Function { component, name, on_server }),
        forall|i: int| at < i < events.len() ==> !notes(#[trigger] events[i], component, name),
        0 <= handed_at < events.len(),
        events[handed_at] == (EventView::Reference { component, name }),
    ensures
        analyzer::hands_over_at(events, component, events[handed_at]) <==> !on_server,
        !on_server ==> analyzer::hands_over_client_function(events, component),
{
    last_function_is_told(events, component, name, on_server, at);
}

proof fn last_function_is_told(
    events: Seq<EventView>,
    component: Seq<char>,
    name: Seq<char>,
    on_server: bool,
    at: int,
)
    requires
        0 <= at < events.len(),
        events[at] == (EventView::Function { component, name, on_server }),
        forall|i: int| at < i < events.len() ==> !notes(#[trigger] events[i], component, name),
    ensures
        analyzer::declared_on_server(events, component, name) == Some(on_server),
    decreases events.len(),
{
    if at < events.len() - 1 {
        let earlier = events.drop_last();
        let last = events[events.len() - 1];
        assert(events.last() == last);
        assert(!notes(last, component, name));
        assert forall|i: int| at < i < earlier.len() implies !notes(
            #[trigger] earlier[i],
            component,
            name,
        ) by {
            assert(earlier[i] == events[i]);
        }
        last_function_is_told(earlier, component, name, on_server, at);
    }
}

} // verus!
