//! What is known of a module, said of its syntax tree.
use vstd::prelude::*;

use crate::analyzer;
use crate::declarations;
use crate::declarations::{ComponentRangeView, SourceFileView, TypeIdentifierView};
use crate::elements;
use crate::elements::{EventView, JsxTagReferenceView};
use crate::laws::declared;
use crate::laws::kinds;
use crate::laws::usages;
use crate::laws::walk;
use crate::names;
use crate::syntax;
use crate::tree::Tree;

verus! {

/// The nodes of `tree` that the walk comes to, in the order in which they are written: each before
/// what it holds.
pub open spec fn nodes_in(tree: Tree) -> Seq<Tree>
    decreases tree, 0nat,
{
    match tree {
        Tree::List(list) => nodes_in_list(list@, list@.len()),
        Tree::Node(fields) => if walk::is_left_out(tree) {
            Seq::empty()
        } else {
            seq![tree] + nodes_in_fields(fields@, fields@.len())
        },
        _ => Seq::empty(),
    }
}

/// The nodes of the first `count` of `list`.
pub open spec fn nodes_in_list(list: Seq<Tree>, count: nat) -> Seq<Tree>
    decreases list, count,
{
    if count == 0 || count > list.len() {
        Seq::empty()
    } else {
        nodes_in_list(list, (count - 1) as nat) + nodes_in(list[count - 1])
    }
}

/// The nodes of what the first `count` of `fields` hold.
pub open spec fn nodes_in_fields(fields: Seq<(String, Tree)>, count: nat) -> Seq<Tree>
    decreases fields, count,
{
    if count == 0 || count > fields.len() {
        Seq::empty()
    } else {
        proof {
            assert(decreases_to!(fields => fields[count - 1]));
            assert(decreases_to!(fields[count - 1] => fields[count - 1].1));
        }
        nodes_in_fields(fields, (count - 1) as nat) + nodes_in(fields[count - 1].1)
    }
}

/// Whether `tags` are, in order, those of `nodes` that are tags with component names; `at` says
/// which node each of them is.
pub open spec fn are_tags(
    file: SourceFileView,
    nodes: Seq<Tree>,
    tags: Seq<JsxTagReferenceView>,
    at: Seq<int>,
) -> bool {
    &&& usages::picks(at, nodes.len() as int)
    &&& at.len() == tags.len()
    &&& forall|k: int|
        0 <= k < at.len() ==> walk::is_tag(file, nodes[#[trigger] at[k]], tags[k])
    &&& forall|i: int, lookup: Seq<char>|
        0 <= i < nodes.len() && #[trigger] walk::is_component_tag(file, nodes[i], lookup)
            ==> at.contains(i)
}

proof fn tags_of_both(first: Seq<EventView>, second: Seq<EventView>)
    ensures
        analyzer::tags_of(first + second) == analyzer::tags_of(first) + analyzer::tags_of(second),
    decreases second.len(),
{
    let all = first + second;
    if second.len() == 0 {
        assert(all =~= first);
        assert(analyzer::tags_of(first) + analyzer::tags_of(second) =~= analyzer::tags_of(first));
    } else {
        assert(all.drop_last() =~= first + second.drop_last());
        assert(all.last() == second.last());
        tags_of_both(first, second.drop_last());
        assert(analyzer::tags_of(all) =~= analyzer::tags_of(first) + analyzer::tags_of(second));
    }
}

proof fn tags_of_both_nodes(
    file: SourceFileView,
    first: Seq<Tree>,
    first_tags: Seq<JsxTagReferenceView>,
    first_at: Seq<int>,
    second: Seq<Tree>,
    second_tags: Seq<JsxTagReferenceView>,
    second_at: Seq<int>,
) -> (at: Seq<int>)
    requires
        are_tags(file, first, first_tags, first_at),
        are_tags(file, second, second_tags, second_at),
    ensures
        are_tags(file, first + second, first_tags + second_tags, at),
{
    let nodes = first + second;
    let tags = first_tags + second_tags;
    let shift = first.len() as int;
    let shifted = Seq::new(second_at.len(), |k: int| second_at[k] + shift);
    let at = first_at + shifted;
    assert forall|k: int| 0 <= k < at.len() implies 0 <= #[trigger] at[k] < nodes.len()
        && walk::is_tag(file, nodes[at[k]], tags[k]) by {
        if k < first_at.len() {
            assert(at[k] == first_at[k]);
            assert(walk::is_tag(file, first[first_at[k]], first_tags[k]));
        } else {
            let j = k - first_at.len();
            assert(at[k] == second_at[j] + shift);
            assert(walk::is_tag(file, second[second_at[j]], second_tags[j]));
        }
    }
    assert forall|j: int, k: int| 0 <= j < k < at.len() implies #[trigger] at[j]
        < #[trigger] at[k] by {
        if k < first_at.len() {
            assert(first_at[j] < first_at[k]);
        } else {
            assert(at[k] == second_at[k - first_at.len()] + shift);
            if j >= first_at.len() {
                assert(second_at[j - first_at.len()] < second_at[k - first_at.len()]);
            } else {
                assert(first_at[j] < shift);
                assert(second_at[k - first_at.len()] >= 0);
            }
        }
    }
    assert forall|i: int, lookup: Seq<char>|
        0 <= i < nodes.len() && #[trigger] walk::is_component_tag(
            file,
            nodes[i],
            lookup,
        ) implies at.contains(i) by {
        if i < shift {
            assert(walk::is_component_tag(file, first[i], lookup));
            let k = choose|k: int| 0 <= k < first_at.len() && first_at[k] == i;
            assert(at[k] == i);
        } else {
            assert(walk::is_component_tag(file, second[i - shift], lookup));
            let k = choose|k: int| 0 <= k < second_at.len() && second_at[k] == i - shift;
            assert(at[first_at.len() + k] == i);
        }
    }
    at
}

proof fn tags_of_node(
    file: SourceFileView,
    component: Option<Seq<char>>,
    literal: bool,
    node: Tree,
) -> (at: Seq<int>)
    ensures
        are_tags(
            file,
            seq![node],
            analyzer::tags_of(
                elements::listed(elements::event_at(file, component, literal, node)),
            ),
            at,
        ),
{
    let event = elements::event_at(file, component, literal, node);
    let events = elements::listed(event);
    let tags = analyzer::tags_of(events);
    reveal_with_fuel(analyzer::tags_of, 2);
    walk::nodes_show_their_tags(file, component, literal, node);
    if let Some(EventView::Tag(tag)) = event {
        assert(events.drop_last() =~= Seq::<EventView>::empty());
        assert(tags =~= seq![tag]);
        let at = seq![0int];
        assert(at[0] == 0);
        assert(at.contains(0));
        at
    } else {
        assert(tags =~= Seq::<JsxTagReferenceView>::empty()) by {
            if events.len() > 0 {
                assert(events.drop_last() =~= Seq::<EventView>::empty());
            }
        }
        Seq::empty()
    }
}

proof fn tags_below(
    file: SourceFileView,
    ranges: Seq<ComponentRangeView>,
    component: Option<Seq<char>>,
    literal: bool,
    node: Tree,
) -> (at: Seq<int>)
    ensures
        are_tags(
            file,
            nodes_in(node),
            analyzer::tags_of(elements::events_of(file, ranges, component, literal, node)),
            at,
        ),
    decreases node, 0nat,
{
    match node {
        Tree::List(list) => tags_below_list(
            file,
            ranges,
            component,
            literal,
            list@,
            list@.len(),
        ),
        Tree::Node(fields) => if walk::is_left_out(node) {
            Seq::empty()
        } else {
            let inside = elements::entered(ranges, component, node);
            let deeper = literal || syntax::is_a(node, "TSTypeLiteral"@);
            let own = elements::listed(elements::event_at(file, inside, literal, node));
            let below = elements::events_of_fields(
                file,
                ranges,
                inside,
                deeper,
                fields@,
                fields@.len(),
            );
            let own_at = tags_of_node(file, inside, literal, node);
            let below_at = tags_below_fields(
                file,
                ranges,
                inside,
                deeper,
                fields@,
                fields@.len(),
            );
            tags_of_both(own, below);
            tags_of_both_nodes(
                file,
                seq![node],
                analyzer::tags_of(own),
                own_at,
                nodes_in_fields(fields@, fields@.len()),
                analyzer::tags_of(below),
                below_at,
            )
        },
        _ => Seq::empty(),
    }
}

proof fn tags_below_list(
    file: SourceFileView,
    ranges: Seq<ComponentRangeView>,
    component: Option<Seq<char>>,
    literal: bool,
    list: Seq<Tree>,
    count: nat,
) -> (at: Seq<int>)
    ensures
        are_tags(
            file,
            nodes_in_list(list, count),
            analyzer::tags_of(
                elements::events_of_list(file, ranges, component, literal, list, count),
            ),
            at,
        ),
    decreases list, count,
{
    if count == 0 || count > list.len() {
        Seq::empty()
    } else {
        let before = (count - 1) as nat;
        let earlier = elements::events_of_list(file, ranges, component, literal, list, before);
        let own = elements::events_of(file, ranges, component, literal, list[count - 1]);
        let earlier_at = tags_below_list(file, ranges, component, literal, list, before);
        let own_at = tags_below(file, ranges, component, literal, list[count - 1]);
        tags_of_both(earlier, own);
        tags_of_both_nodes(
            file,
            nodes_in_list(list, before),
            analyzer::tags_of(earlier),
            earlier_at,
            nodes_in(list[count - 1]),
            analyzer::tags_of(own),
            own_at,
        )
    }
}

proof fn tags_below_fields(
    file: SourceFileView,
    ranges: Seq<ComponentRangeView>,
    component: Option<Seq<char>>,
    literal: bool,
    fields: Seq<(String, Tree)>,
    count: nat,
) -> (at: Seq<int>)
    ensures
        are_tags(
            file,
            nodes_in_fields(fields, count),
            analyzer::tags_of(
                elements::events_of_fields(file, ranges, component, literal, fields, count),
            ),
            at,
        ),
    decreases fields, count,
{
    if count == 0 || count > fields.len() {
        Seq::empty()
    } else {
        let before = (count - 1) as nat;
        let earlier = elements::events_of_fields(
            file,
            ranges,
            component,
            literal,
            fields,
            before,
        );
        let own = elements::events_of(file, ranges, component, literal, fields[count - 1].1);
        let earlier_at = tags_below_fields(file, ranges, component, literal, fields, before);
        assert(decreases_to!(fields => fields[count - 1]));
        assert(decreases_to!(fields[count - 1] => fields[count - 1].1));
        let own_at = tags_below(file, ranges, component, literal, fields[count - 1].1);
        tags_of_both(earlier, own);
        tags_of_both_nodes(
            file,
            nodes_in_fields(fields, before),
            analyzer::tags_of(earlier),
            earlier_at,
            nodes_in(fields[count - 1].1),
            analyzer::tags_of(own),
            own_at,
        )
    }
}

/// The tags of a module are all opening and closing tags with component names that are written in
/// it, each once and in the order in which they are written, but for those inside imports,
/// enumerations, and exports that declare nothing.
pub proof fn tags_come_in_the_order_of_the_source(file: SourceFileView, program: Tree) -> (at: Seq<
    int,
>)
    ensures
        are_tags(
            file,
            nodes_in(program),
            analyzer::analysis_of(file, program).jsx_tags,
            at,
        ),
{
    tags_below(
        file,
        declarations::declarations_of(file, program).component_ranges,
        None,
        false,
        program,
    )
}

proof fn picked_types(events: Seq<EventView>, found: TypeIdentifierView)
    ensures
        analyzer::types_of(events).contains(found) <==> walk::among(
            events,
            EventView::Type(found),
        ),
    decreases events.len(),
{
    if events.len() > 0 {
        let earlier = events.drop_last();
        let types = analyzer::types_of(earlier);
        picked_types(earlier, found);
        if walk::among(earlier, EventView::Type(found)) {
            let k = choose|k: int|
                0 <= k < earlier.len() && #[trigger] earlier[k] == EventView::Type(found);
            assert(events[k] == earlier[k]);
        }
        if walk::among(events, EventView::Type(found)) {
            let k = choose|k: int|
                0 <= k < events.len() && #[trigger] events[k] == EventView::Type(found);
            if k < earlier.len() {
                assert(earlier[k] == events[k]);
            }
        }
        if let EventView::Type(last) = events.last() {
            let more = types.push(last);
            if types.contains(found) {
                let k = choose|k: int| 0 <= k < types.len() && types[k] == found;
                assert(more[k] == found);
            }
            if last == found {
                assert(more[types.len() as int] == found);
                assert(events[events.len() - 1] == EventView::Type(found));
            }
            if more.contains(found) {
                let k = choose|k: int| 0 <= k < more.len() && more[k] == found;
                if k < types.len() {
                    assert(types[k] == found);
                }
            }
        }
    }
}

/// The types of a module are the aliases and interfaces that its top level declares, and the types
/// that are referred to outside of type literals, each with the component that it stands in; all
/// under names that begin in upper case.
pub proof fn types_are_declared_or_referred_to(
    file: SourceFileView,
    program: Tree,
    found: TypeIdentifierView,
)
    ensures
        analyzer::analysis_of(file, program).type_identifiers.contains(found) <==> (exists|i: int|
            0 <= i < declared::statements_of(program).len() && declared::declares_type(
                file,
                #[trigger] declared::statements_of(program)[i],
                found,
            )) || (exists|way: Seq<Tree>| #[trigger]
            walk::leads_down(program, way) && !walk::in_type_literal(way) && walk::is_owned(
                kinds::scopes_of(file, program),
                way,
                found.enclosing_component,
            ) && walk::is_type_reference(file, way.last(), found.enclosing_component, found)),
{
    let all = declarations::declarations_of(file, program);
    let events = analyzer::program_events(file, all, program);
    let first = all.type_identifiers;
    let second = analyzer::types_of(events);
    declared::types_are_those_that_are_declared(file, program, found);
    picked_types(events, found);
    assert((first + second).contains(found) <==> first.contains(found) || second.contains(found))
        by {
        if first.contains(found) {
            let k = choose|k: int| 0 <= k < first.len() && first[k] == found;
            assert((first + second)[k] == found);
        }
        if second.contains(found) {
            let k = choose|k: int| 0 <= k < second.len() && second[k] == found;
            assert((first + second)[first.len() + k] == found);
        }
        if (first + second).contains(found) {
            let k = choose|k: int|
                0 <= k < (first + second).len() && (first + second)[k] == found;
            if k < first.len() {
                assert(first[k] == found);
            } else {
                assert(second[k - first.len()] == found);
            }
        }
    }
    if walk::among(events, EventView::Type(found)) {
        let way = walk::noted_types_are_references(file, all.component_ranges, program, found);
        assert(walk::leads_down(program, way));
    }
    if exists|way: Seq<Tree>| #[trigger]
        walk::leads_down(program, way) && !walk::in_type_literal(way) && walk::is_owned(
            kinds::scopes_of(file, program),
            way,
            found.enclosing_component,
        ) && walk::is_type_reference(file, way.last(), found.enclosing_component, found) {
        let way = choose|way: Seq<Tree>| #[trigger]
            walk::leads_down(program, way) && !walk::in_type_literal(way) && walk::is_owned(
                kinds::scopes_of(file, program),
                way,
                found.enclosing_component,
            ) && walk::is_type_reference(file, way.last(), found.enclosing_component, found);
        walk::every_type_is_noted(
            file,
            all.component_ranges,
            program,
            way,
            found.enclosing_component,
            found,
        );
    }
}

/// What a module imports and which names its exports refer to is what its top level says; its
/// components stand where they are declared; and its own kind is that of the file.
pub proof fn the_rest_is_what_is_declared(file: SourceFileView, program: Tree, name: Seq<char>)
    ensures
        ({
            let analysis = analyzer::analysis_of(file, program);
            let all = declarations::declarations_of(file, program);
            &&& analysis.imports == all.imports
            &&& analysis.export_references == all.export_references
            &&& analysis.own_component_kind == file.kind
            &&& names::has(analysis.local_components, name) <==> names::has(
                all.local_components,
                name,
            )
            &&& names::lookup(analysis.local_components, name) matches Some(found)
                ==> found.ranges == names::lookup(all.local_components, name)->0.ranges
        }),
{
    let all = declarations::declarations_of(file, program);
    let analysis = analyzer::analysis_of(file, program);
    assert(analysis.local_components.len() == all.local_components.len());
    same_places(all.local_components, analysis.local_components, name);
}

proof fn same_places(
    before: Seq<(Seq<char>, declarations::LocalComponentView)>,
    after: Seq<(Seq<char>, declarations::LocalComponentView)>,
    name: Seq<char>,
)
    requires
        before.len() == after.len(),
        forall|i: int|
            0 <= i < before.len() ==> (#[trigger] after[i]).0 == before[i].0 && after[i].1.ranges
                == before[i].1.ranges,
    ensures
        names::has(after, name) <==> names::has(before, name),
        names::lookup(after, name) matches Some(found) ==> found.ranges == names::lookup(
            before,
            name,
        )->0.ranges,
    decreases before.len(),
{
    if before.len() > 0 {
        assert(after[0].0 == before[0].0);
        let rest = after.drop_first();
        assert forall|i: int| 0 <= i < rest.len() implies (#[trigger] rest[i]).0
            == before.drop_first()[i].0 && rest[i].1.ranges
            == before.drop_first()[i].1.ranges by {
            assert(rest[i] == after[i + 1]);
        }
        same_places(before.drop_first(), rest, name);
    }
}

/// Whether `events` are shown by some of `nodes`, in their order; `at` says by which.
pub open spec fn are_shown(
    file: SourceFileView,
    nodes: Seq<Tree>,
    events: Seq<EventView>,
    at: Seq<int>,
) -> bool {
    &&& usages::picks(at, nodes.len() as int)
    &&& at.len() == events.len()
    &&& forall|k: int|
        0 <= k < at.len() ==> walk::comes_from(file, nodes[#[trigger] at[k]], events[k])
}

proof fn shown_by_both(
    file: SourceFileView,
    first: Seq<Tree>,
    first_events: Seq<EventView>,
    first_at: Seq<int>,
    second: Seq<Tree>,
    second_events: Seq<EventView>,
    second_at: Seq<int>,
) -> (at: Seq<int>)
    requires
        are_shown(file, first, first_events, first_at),
        are_shown(file, second, second_events, second_at),
    ensures
        are_shown(file, first + second, first_events + second_events, at),
{
    let nodes = first + second;
    let events = first_events + second_events;
    let shift = first.len() as int;
    let shifted = Seq::new(second_at.len(), |k: int| second_at[k] + shift);
    let at = first_at + shifted;
    assert forall|k: int| 0 <= k < at.len() implies 0 <= #[trigger] at[k] < nodes.len()
        && walk::comes_from(file, nodes[at[k]], events[k]) by {
        if k < first_at.len() {
            assert(at[k] == first_at[k]);
            assert(walk::comes_from(file, first[first_at[k]], first_events[k]));
        } else {
            let j = k - first_at.len();
            assert(at[k] == second_at[j] + shift);
            assert(walk::comes_from(file, second[second_at[j]], second_events[j]));
        }
    }
    assert forall|j: int, k: int| 0 <= j < k < at.len() implies #[trigger] at[j]
        < #[trigger] at[k] by {
        if k < first_at.len() {
            assert(first_at[j] < first_at[k]);
        } else {
            assert(at[k] == second_at[k - first_at.len()] + shift);
            if j >= first_at.len() {
                assert(second_at[j - first_at.len()] < second_at[k - first_at.len()]);
            } else {
                assert(first_at[j] < shift);
                assert(second_at[k - first_at.len()] >= 0);
            }
        }
    }
    at
}

proof fn shown_below(
    file: SourceFileView,
    ranges: Seq<ComponentRangeView>,
    component: Option<Seq<char>>,
    literal: bool,
    node: Tree,
) -> (at: Seq<int>)
    ensures
        are_shown(
            file,
            nodes_in(node),
            elements::events_of(file, ranges, component, literal, node),
            at,
        ),
    decreases node, 0nat,
{
    match node {
        Tree::List(list) => shown_below_list(
            file,
            ranges,
            component,
            literal,
            list@,
            list@.len(),
        ),
        Tree::Node(fields) => if walk::is_left_out(node) {
            Seq::empty()
        } else {
            let inside = elements::entered(ranges, component, node);
            let deeper = literal || syntax::is_a(node, "TSTypeLiteral"@);
            let event = elements::event_at(file, inside, literal, node);
            let own_at = if event is Some {
                seq![0int]
            } else {
                Seq::empty()
            };
            if event is Some {
                walk::nodes_show_what_they_are(file, inside, literal, node, event->0);
            }
            assert(are_shown(file, seq![node], elements::listed(event), own_at));
            let below_at = shown_below_fields(
                file,
                ranges,
                inside,
                deeper,
                fields@,
                fields@.len(),
            );
            shown_by_both(
                file,
                seq![node],
                elements::listed(event),
                own_at,
                nodes_in_fields(fields@, fields@.len()),
                elements::events_of_fields(file, ranges, inside, deeper, fields@, fields@.len()),
                below_at,
            )
        },
        _ => Seq::empty(),
    }
}

proof fn shown_below_list(
    file: SourceFileView,
    ranges: Seq<ComponentRangeView>,
    component: Option<Seq<char>>,
    literal: bool,
    list: Seq<Tree>,
    count: nat,
) -> (at: Seq<int>)
    ensures
        are_shown(
            file,
            nodes_in_list(list, count),
            elements::events_of_list(file, ranges, component, literal, list, count),
            at,
        ),
    decreases list, count,
{
    if count == 0 || count > list.len() {
        Seq::empty()
    } else {
        let before = (count - 1) as nat;
        let earlier_at = shown_below_list(file, ranges, component, literal, list, before);
        let own_at = shown_below(file, ranges, component, literal, list[count - 1]);
        shown_by_both(
            file,
            nodes_in_list(list, before),
            elements::events_of_list(file, ranges, component, literal, list, before),
            earlier_at,
            nodes_in(list[count - 1]),
            elements::events_of(file, ranges, component, literal, list[count - 1]),
            own_at,
        )
    }
}

proof fn shown_below_fields(
    file: SourceFileView,
    ranges: Seq<ComponentRangeView>,
    component: Option<Seq<char>>,
    literal: bool,
    fields: Seq<(String, Tree)>,
    count: nat,
) -> (at: Seq<int>)
    ensures
        are_shown(
            file,
            nodes_in_fields(fields, count),
            elements::events_of_fields(file, ranges, component, literal, fields, count),
            at,
        ),
    decreases fields, count,
{
    if count == 0 || count > fields.len() {
        Seq::empty()
    } else {
        let before = (count - 1) as nat;
        let earlier_at = shown_below_fields(file, ranges, component, literal, fields, before);
        assert(decreases_to!(fields => fields[count - 1]));
        assert(decreases_to!(fields[count - 1] => fields[count - 1].1));
        let own_at = shown_below(file, ranges, component, literal, fields[count - 1].1);
        shown_by_both(
            file,
            nodes_in_fields(fields, before),
            elements::events_of_fields(file, ranges, component, literal, fields, before),
            earlier_at,
            nodes_in(fields[count - 1].1),
            elements::events_of(file, ranges, component, literal, fields[count - 1].1),
            own_at,
        )
    }
}

/// What the walk comes across is noted in the order in which it is written, and each at most once.
pub proof fn the_walk_follows_the_source(file: SourceFileView, program: Tree) -> (at: Seq<int>)
    ensures
        are_shown(
            file,
            nodes_in(program),
            elements::events_of(
                file,
                kinds::scopes_of(file, program),
                None,
                false,
                program,
            ),
            at,
        ),
{
    shown_below(file, kinds::scopes_of(file, program), None, false, program)
}

} // verus!
