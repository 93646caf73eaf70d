//! What the walk through a module comes to: everything that can be reached without going through
//! imports, enumerations and exports that declare nothing.
use vstd::prelude::*;

use crate::declarations;
use crate::declarations::{ComponentRangeView, SourceFileView, TypeIdentifierView};
use crate::elements;
use crate::elements::{EventView, JsxTagReferenceView};
use crate::laws::shapes;
use crate::syntax;
use crate::text;
use crate::tree::Tree;
use crate::{Range, Span};

verus! {

/// Whether `part` is an item of the list `whole`, or what one of the fields of the node `whole`
/// holds.
pub open spec fn holds(whole: Tree, part: Tree) -> bool {
    match whole {
        Tree::List(list) => list@.contains(part),
        Tree::Node(fields) => exists|i: int|
            0 <= i < fields@.len() && (#[trigger] fields@[i]).1 == part,
        _ => false,
    }
}

/// Whether what stands at `at` in `way` holds what stands next.
pub open spec fn goes_on(way: Seq<Tree>, at: int) -> bool {
    holds(way[at], way[at + 1])
}

/// Whether the walk leaves out `node` and what it holds: imports, enumerations, and exports that
/// declare nothing.
pub open spec fn is_left_out(node: Tree) -> bool {
    ||| syntax::is_a(node, "ImportDeclaration"@)
    ||| syntax::is_a(node, "ExportAllDeclaration"@)
    ||| syntax::is_a(node, "TSEnumDeclaration"@)
    ||| syntax::is_a(node, "ExportNamedDeclaration"@) && syntax::child(node, "declaration"@)
        == Tree::Null
}

/// Whether `way` leads down from `root`, each holding the next, past nothing that is left out.
pub open spec fn leads_down(root: Tree, way: Seq<Tree>) -> bool {
    &&& way.len() > 0
    &&& way[0] == root
    &&& forall|i: int| 0 <= i < way.len() - 1 ==> #[trigger] goes_on(way, i)
    &&& forall|i: int| 0 <= i < way.len() ==> !is_left_out(#[trigger] way[i])
}

/// Whether a type literal stands above the end of `way`.
pub open spec fn in_type_literal(way: Seq<Tree>) -> bool {
    exists|i: int| 0 <= i < way.len() - 1 && syntax::is_a(#[trigger] way[i], "TSTypeLiteral"@)
}

/// Whether `node` may be a component of its own, and `span` is its part of the source: a function
/// or a class that is declared, a variable, or a class behind `export default`.
pub open spec fn starts_scope(node: Tree, span: Span) -> bool {
    if syntax::is_a(node, "ExportDefaultDeclaration"@) {
        syntax::is_a(syntax::child(node, "declaration"@), "ClassExpression"@) && span
            == syntax::span_of(syntax::child(node, "declaration"@))
    } else {
        (syntax::is_a(node, "FunctionDeclaration"@) || syntax::is_a(node, "TSDeclareFunction"@)
            || syntax::is_a(node, "ClassDeclaration"@) || syntax::is_a(
            node,
            "VariableDeclarator"@,
        )) && span == syntax::span_of(node)
    }
}

/// Whether `span` belongs to the component `name`; of several, the last one counts.
pub open spec fn belongs(ranges: Seq<ComponentRangeView>, span: Span, name: Seq<char>) -> bool {
    exists|i: int|
        0 <= i < ranges.len() && (#[trigger] ranges[i]).span == span && ranges[i].name == name
            && forall|j: int| i < j < ranges.len() ==> (#[trigger] ranges[j]).span != span
}

/// Whether `node` is the component `name`.
pub open spec fn is_component(ranges: Seq<ComponentRangeView>, node: Tree, name: Seq<char>) -> bool {
    exists|span: Span| #[trigger] starts_scope(node, span) && belongs(ranges, span, name)
}

/// Whether `node` is no component.
pub open spec fn is_no_component(ranges: Seq<ComponentRangeView>, node: Tree) -> bool {
    forall|name: Seq<char>| !#[trigger] is_component(ranges, node, name)
}

/// Whether the end of `way` stands in the component `owner`: the last one on the way, if any.
pub open spec fn is_owned(
    ranges: Seq<ComponentRangeView>,
    way: Seq<Tree>,
    owner: Option<Seq<char>>,
) -> bool {
    match owner {
        Some(name) => exists|i: int|
            0 <= i < way.len() && is_component(ranges, #[trigger] way[i], name) && forall|j: int|
                i < j < way.len() ==> is_no_component(ranges, #[trigger] way[j]),
        None => forall|i: int| 0 <= i < way.len() ==> is_no_component(ranges, #[trigger] way[i]),
    }
}

/// Whether `events` holds `event`.
pub open spec fn among(events: Seq<EventView>, event: EventView) -> bool {
    exists|i: int| 0 <= i < events.len() && #[trigger] events[i] == event
}

proof fn scope_types_differ()
    ensures
        "ExportDefaultDeclaration"@ != "FunctionDeclaration"@,
        "ExportDefaultDeclaration"@ != "TSDeclareFunction"@,
        "ExportDefaultDeclaration"@ != "ClassDeclaration"@,
        "ExportDefaultDeclaration"@ != "VariableDeclarator"@,
{
    reveal_strlit("ExportDefaultDeclaration");
    reveal_strlit("FunctionDeclaration");
    reveal_strlit("TSDeclareFunction");
    reveal_strlit("ClassDeclaration");
    reveal_strlit("VariableDeclarator");
    assert("ExportDefaultDeclaration"@.len() == 24);
    assert("FunctionDeclaration"@.len() == 19);
    assert("TSDeclareFunction"@.len() == 17);
    assert("ClassDeclaration"@.len() == 16);
    assert("VariableDeclarator"@.len() == 18);
}

proof fn last_range_counts(ranges: Seq<ComponentRangeView>, span: Span)
    ensures
        elements::component_at(ranges, span) matches Some(name) ==> belongs(ranges, span, name),
        elements::component_at(ranges, span) is None ==> forall|i: int|
            0 <= i < ranges.len() ==> (#[trigger] ranges[i]).span != span,
    decreases ranges.len(),
{
    if ranges.len() > 0 {
        let rest = ranges.drop_last();
        last_range_counts(rest, span);
        if ranges.last().span == span {
            let i = ranges.len() - 1;
            assert(ranges[i].span == span);
        } else if let Some(name) = elements::component_at(rest, span) {
            let i = choose|i: int|
                0 <= i < rest.len() && (#[trigger] rest[i]).span == span && rest[i].name == name
                    && forall|j: int| i < j < rest.len() ==> (#[trigger] rest[j]).span != span;
            assert(ranges[i] == rest[i]);
            assert forall|j: int| i < j < ranges.len() implies (#[trigger] ranges[j]).span
                != span by {
                if j < rest.len() {
                    assert(rest[j] == ranges[j]);
                }
            }
        } else {
            assert forall|i: int| 0 <= i < ranges.len() implies (#[trigger] ranges[i]).span
                != span by {
                if i < rest.len() {
                    assert(rest[i] == ranges[i]);
                }
            }
        }
    }
}

proof fn owners_are_unique(ranges: Seq<ComponentRangeView>, span: Span, a: Seq<char>, b: Seq<char>)
    requires
        belongs(ranges, span, a),
        belongs(ranges, span, b),
    ensures
        a == b,
{
    let i = choose|i: int|
        0 <= i < ranges.len() && (#[trigger] ranges[i]).span == span && ranges[i].name == a
            && forall|j: int| i < j < ranges.len() ==> (#[trigger] ranges[j]).span != span;
    let k = choose|k: int|
        0 <= k < ranges.len() && (#[trigger] ranges[k]).span == span && ranges[k].name == b
            && forall|j: int| k < j < ranges.len() ==> (#[trigger] ranges[j]).span != span;
    assert(i == k);
}

/// Entering a component is entering what is that component.
proof fn entering_is_being(
    ranges: Seq<ComponentRangeView>,
    component: Option<Seq<char>>,
    node: Tree,
)
    ensures
        is_no_component(ranges, node) ==> elements::entered(ranges, component, node) == component,
        forall|name: Seq<char>| #[trigger]
            is_component(ranges, node, name) ==> elements::entered(ranges, component, node)
                == Some(name),
        is_no_component(ranges, node) || exists|name: Seq<char>|
            is_component(ranges, node, name),
{
    scope_types_differ();
    let entered = elements::entered(ranges, component, node);
    match elements::scope_span(node) {
        Some(span) => {
            assert(starts_scope(node, span));
            assert(forall|other: Span| #[trigger] starts_scope(node, other) ==> other == span);
            last_range_counts(ranges, span);
            assert forall|name: Seq<char>| #[trigger] is_component(ranges, node, name) implies entered
                == Some(name) by {
                assert(belongs(ranges, span, name));
                let found = elements::component_at(ranges, span);
                let i = choose|i: int|
                    0 <= i < ranges.len() && (#[trigger] ranges[i]).span == span && ranges[i].name
                        == name && forall|j: int|
                        i < j < ranges.len() ==> (#[trigger] ranges[j]).span != span;
                assert(ranges[i].span == span);
                assert(found is Some);
                owners_are_unique(ranges, span, name, found->0);
            }
            if let Some(name) = elements::component_at(ranges, span) {
                assert(is_component(ranges, node, name));
            } else {
                assert forall|name: Seq<char>| !#[trigger] is_component(ranges, node, name) by {
                    if is_component(ranges, node, name) {
                        assert(belongs(ranges, span, name));
                    }
                }
            }
        },
        None => {
            assert(forall|span: Span| !#[trigger] starts_scope(node, span));
        },
    }
}

/// The component that the end of `way` stands in, where what surrounds it stands in `component`.
spec fn owner_along(
    ranges: Seq<ComponentRangeView>,
    component: Option<Seq<char>>,
    way: Seq<Tree>,
) -> Option<Seq<char>>
    decreases way.len(),
{
    if way.len() == 0 {
        component
    } else {
        elements::entered(ranges, owner_along(ranges, component, way.drop_last()), way.last())
    }
}

proof fn owner_behind_first(
    ranges: Seq<ComponentRangeView>,
    component: Option<Seq<char>>,
    way: Seq<Tree>,
)
    requires
        way.len() > 0,
    ensures
        owner_along(ranges, component, way) == owner_along(
            ranges,
            elements::entered(ranges, component, way[0]),
            way.drop_first(),
        ),
    decreases way.len(),
{
    if way.len() > 1 {
        owner_behind_first(ranges, component, way.drop_last());
        assert(way.drop_last().drop_first() =~= way.drop_first().drop_last());
        assert(way.drop_first().last() == way.last());
    } else {
        reveal_with_fuel(owner_along, 2);
        assert(way.drop_last() =~= Seq::<Tree>::empty());
        assert(way.drop_first() =~= Seq::<Tree>::empty());
    }
}

proof fn owners_are_the_last(
    ranges: Seq<ComponentRangeView>,
    way: Seq<Tree>,
    owner: Option<Seq<char>>,
)
    ensures
        is_owned(ranges, way, owner) <==> owner_along(ranges, None, way) == owner,
    decreases way.len(),
{
    if way.len() > 0 {
        let shorter = way.drop_last();
        let last = way.last();
        let before = owner_along(ranges, None, shorter);
        owners_are_the_last(ranges, shorter, owner);
        owners_are_the_last(ranges, shorter, before);
        entering_is_being(ranges, before, last);
        if is_no_component(ranges, last) {
            if is_owned(ranges, shorter, owner) {
                one_more_keeps_owner(ranges, way, owner);
            }
            if is_owned(ranges, way, owner) {
                one_less_keeps_owner(ranges, way, owner);
            }
        } else {
            let name = choose|name: Seq<char>| is_component(ranges, last, name);
            assert(owner_along(ranges, None, way) == Some(name));
            assert(is_component(ranges, way[way.len() - 1], name));
            assert(is_owned(ranges, way, Some(name)));
            if is_owned(ranges, way, owner) {
                assert(!is_no_component(ranges, way[way.len() - 1]));
                assert(owner is Some);
                let i = choose|i: int|
                    0 <= i < way.len() && is_component(ranges, #[trigger] way[i], owner->0)
                        && forall|j: int|
                        i < j < way.len() ==> is_no_component(ranges, #[trigger] way[j]);
                assert(i == way.len() - 1);
                assert(is_component(ranges, last, owner->0));
            }
        }
    }
}

proof fn one_more_keeps_owner(
    ranges: Seq<ComponentRangeView>,
    way: Seq<Tree>,
    owner: Option<Seq<char>>,
)
    requires
        way.len() > 0,
        is_no_component(ranges, way.last()),
        is_owned(ranges, way.drop_last(), owner),
    ensures
        is_owned(ranges, way, owner),
{
    let shorter = way.drop_last();
    assert(forall|j: int| 0 <= j < shorter.len() ==> shorter[j] == way[j]);
    match owner {
        Some(name) => {
            let i = choose|i: int|
                0 <= i < shorter.len() && is_component(ranges, #[trigger] shorter[i], name)
                    && forall|j: int|
                    i < j < shorter.len() ==> is_no_component(ranges, #[trigger] shorter[j]);
            assert(is_component(ranges, way[i], name));
            assert forall|j: int| i < j < way.len() implies is_no_component(
                ranges,
                #[trigger] way[j],
            ) by {
                if j < shorter.len() {
                    assert(is_no_component(ranges, shorter[j]));
                }
            }
        },
        None => {
            assert forall|j: int| 0 <= j < way.len() implies is_no_component(
                ranges,
                #[trigger] way[j],
            ) by {
                if j < shorter.len() {
                    assert(is_no_component(ranges, shorter[j]));
                }
            }
        },
    }
}

proof fn one_less_keeps_owner(
    ranges: Seq<ComponentRangeView>,
    way: Seq<Tree>,
    owner: Option<Seq<char>>,
)
    requires
        way.len() > 0,
        is_no_component(ranges, way.last()),
        is_owned(ranges, way, owner),
    ensures
        is_owned(ranges, way.drop_last(), owner),
{
    let shorter = way.drop_last();
    assert(forall|j: int| 0 <= j < shorter.len() ==> shorter[j] == way[j]);
    match owner {
        Some(name) => {
            let i = choose|i: int|
                0 <= i < way.len() && is_component(ranges, #[trigger] way[i], name) && forall|j: int|
                    i < j < way.len() ==> is_no_component(ranges, #[trigger] way[j]);
            assert(way[i] == shorter[i]);
            assert forall|j: int| i < j < shorter.len() implies is_no_component(
                ranges,
                #[trigger] shorter[j],
            ) by {
                assert(is_no_component(ranges, way[j]));
            }
        },
        None => {
            assert forall|j: int| 0 <= j < shorter.len() implies is_no_component(
                ranges,
                #[trigger] shorter[j],
            ) by {
                assert(is_no_component(ranges, way[j]));
            }
        },
    }
}

proof fn only_nodes_show_anything(
    file: SourceFileView,
    component: Option<Seq<char>>,
    literal: bool,
    node: Tree,
)
    requires
        !(node is Node),
    ensures
        elements::event_at(file, component, literal, node) is None,
{
}

proof fn listed_event_is_among(
    file: SourceFileView,
    ranges: Seq<ComponentRangeView>,
    component: Option<Seq<char>>,
    literal: bool,
    list: Seq<Tree>,
    count: nat,
    index: int,
    event: EventView,
)
    requires
        0 <= index < count <= list.len(),
        among(elements::events_of(file, ranges, component, literal, list[index]), event),
    ensures
        among(
            elements::events_of_list(file, ranges, component, literal, list, count),
            event,
        ),
    decreases count,
{
    let earlier = elements::events_of_list(
        file,
        ranges,
        component,
        literal,
        list,
        (count - 1) as nat,
    );
    let own = elements::events_of(file, ranges, component, literal, list[count - 1]);
    let all = earlier + own;
    if index == count - 1 {
        let k = choose|k: int| 0 <= k < own.len() && #[trigger] own[k] == event;
        assert(all[earlier.len() + k] == event);
    } else {
        listed_event_is_among(
            file,
            ranges,
            component,
            literal,
            list,
            (count - 1) as nat,
            index,
            event,
        );
        let k = choose|k: int| 0 <= k < earlier.len() && #[trigger] earlier[k] == event;
        assert(all[k] == event);
    }
}

proof fn field_event_is_among(
    file: SourceFileView,
    ranges: Seq<ComponentRangeView>,
    component: Option<Seq<char>>,
    literal: bool,
    fields: Seq<(String, Tree)>,
    count: nat,
    index: int,
    event: EventView,
)
    requires
        0 <= index < count <= fields.len(),
        among(elements::events_of(file, ranges, component, literal, fields[index].1), event),
    ensures
        among(
            elements::events_of_fields(file, ranges, component, literal, fields, count),
            event,
        ),
    decreases count,
{
    let earlier = elements::events_of_fields(
        file,
        ranges,
        component,
        literal,
        fields,
        (count - 1) as nat,
    );
    let own = elements::events_of(file, ranges, component, literal, fields[count - 1].1);
    let all = earlier + own;
    if index == count - 1 {
        let k = choose|k: int| 0 <= k < own.len() && #[trigger] own[k] == event;
        assert(all[earlier.len() + k] == event);
    } else {
        field_event_is_among(
            file,
            ranges,
            component,
            literal,
            fields,
            (count - 1) as nat,
            index,
            event,
        );
        let k = choose|k: int| 0 <= k < earlier.len() && #[trigger] earlier[k] == event;
        assert(all[k] == event);
    }
}

proof fn rest_leads_down(way: Seq<Tree>)
    requires
        way.len() > 1,
        leads_down(way[0], way),
    ensures
        leads_down(way[1], way.drop_first()),
        holds(way[0], way[1]),
{
    let rest = way.drop_first();
    assert(goes_on(way, 0));
    assert forall|i: int| 0 <= i < rest.len() - 1 implies #[trigger] goes_on(rest, i) by {
        assert(goes_on(way, i + 1));
    }
    assert forall|i: int| 0 <= i < rest.len() implies !is_left_out(#[trigger] rest[i]) by {
        assert(rest[i] == way[i + 1]);
    }
}

proof fn literal_behind_first(way: Seq<Tree>)
    requires
        way.len() > 1,
    ensures
        in_type_literal(way) <==> syntax::is_a(way[0], "TSTypeLiteral"@) || in_type_literal(
            way.drop_first(),
        ),
{
    let rest = way.drop_first();
    if in_type_literal(way) {
        let i = choose|i: int|
            0 <= i < way.len() - 1 && syntax::is_a(#[trigger] way[i], "TSTypeLiteral"@);
        if i > 0 {
            assert(rest[i - 1] == way[i]);
        }
    }
    if in_type_literal(rest) {
        let i = choose|i: int|
            0 <= i < rest.len() - 1 && syntax::is_a(#[trigger] rest[i], "TSTypeLiteral"@);
        assert(rest[i] == way[i + 1]);
    }
}

proof fn way_shows(
    file: SourceFileView,
    ranges: Seq<ComponentRangeView>,
    component: Option<Seq<char>>,
    literal: bool,
    way: Seq<Tree>,
    event: EventView,
)
    requires
        way.len() > 0,
        leads_down(way[0], way),
        elements::event_at(
            file,
            owner_along(ranges, component, way),
            literal || in_type_literal(way),
            way.last(),
        ) == Some(event),
    ensures
        among(elements::events_of(file, ranges, component, literal, way[0]), event),
    decreases way.len(),
{
    let node = way[0];
    let inside = elements::entered(ranges, component, node);
    let deeper = literal || syntax::is_a(node, "TSTypeLiteral"@);
    assert(!elements::passed_over(node)) by {
        assert(!is_left_out(way[0]));
    }
    if way.len() == 1 {
        assert(way.drop_last() =~= Seq::<Tree>::empty());
        assert(owner_along(ranges, component, way.drop_last()) == component);
        assert(!in_type_literal(way));
        if !(node is Node) {
            only_nodes_show_anything(file, inside, literal, node);
        }
        let all = elements::events_of(file, ranges, component, literal, node);
        assert(all[0] == event);
    } else {
        let rest = way.drop_first();
        rest_leads_down(way);
        literal_behind_first(way);
        owner_behind_first(ranges, component, way);
        assert(rest.last() == way.last());
        way_shows(file, ranges, inside, deeper, rest, event);
        match node {
            Tree::List(list) => {
                let index = choose|i: int| 0 <= i < list@.len() && list@[i] == way[1];
                assert(inside == component && deeper == literal);
                listed_event_is_among(
                    file,
                    ranges,
                    component,
                    literal,
                    list@,
                    list@.len(),
                    index,
                    event,
                );
            },
            Tree::Node(fields) => {
                let index = choose|i: int|
                    0 <= i < fields@.len() && (#[trigger] fields@[i]).1 == way[1];
                field_event_is_among(
                    file,
                    ranges,
                    inside,
                    deeper,
                    fields@,
                    fields@.len(),
                    index,
                    event,
                );
                let own = elements::listed(elements::event_at(file, inside, literal, node));
                let below = elements::events_of_fields(
                    file,
                    ranges,
                    inside,
                    deeper,
                    fields@,
                    fields@.len(),
                );
                let k = choose|k: int| 0 <= k < below.len() && #[trigger] below[k] == event;
                assert((own + below)[own.len() + k] == event);
            },
            _ => {},
        }
    }
}

/// Whether the end of `way` shows `event`.
spec fn shows(
    file: SourceFileView,
    ranges: Seq<ComponentRangeView>,
    component: Option<Seq<char>>,
    literal: bool,
    way: Seq<Tree>,
    event: EventView,
) -> bool {
    elements::event_at(
        file,
        owner_along(ranges, component, way),
        literal || in_type_literal(way),
        way.last(),
    ) == Some(event)
}

proof fn longer_way_shows(
    file: SourceFileView,
    ranges: Seq<ComponentRangeView>,
    component: Option<Seq<char>>,
    literal: bool,
    node: Tree,
    rest: Seq<Tree>,
    event: EventView,
) -> (way: Seq<Tree>)
    requires
        rest.len() > 0,
        leads_down(rest[0], rest),
        holds(node, rest[0]),
        !is_left_out(node),
        shows(
            file,
            ranges,
            elements::entered(ranges, component, node),
            literal || syntax::is_a(node, "TSTypeLiteral"@),
            rest,
            event,
        ),
    ensures
        leads_down(node, way),
        shows(file, ranges, component, literal, way, event),
{
    let way = seq![node] + rest;
    assert(way.drop_first() =~= rest);
    assert(way.last() == rest.last());
    assert forall|i: int| 0 <= i < way.len() - 1 implies #[trigger] goes_on(way, i) by {
        if i > 0 {
            assert(goes_on(rest, i - 1));
        }
    }
    assert forall|i: int| 0 <= i < way.len() implies !is_left_out(#[trigger] way[i]) by {
        if i > 0 {
            assert(!is_left_out(rest[i - 1]));
        }
    }
    literal_behind_first(way);
    owner_behind_first(ranges, component, way);
    way
}

proof fn shown_has_way(
    file: SourceFileView,
    ranges: Seq<ComponentRangeView>,
    component: Option<Seq<char>>,
    literal: bool,
    node: Tree,
    event: EventView,
) -> (way: Seq<Tree>)
    requires
        among(elements::events_of(file, ranges, component, literal, node), event),
    ensures
        leads_down(node, way),
        shows(file, ranges, component, literal, way, event),
    decreases node, 0nat,
{
    let all = elements::events_of(file, ranges, component, literal, node);
    let k = choose|k: int| 0 <= k < all.len() && #[trigger] all[k] == event;
    assert(!is_left_out(node));
    let inside = elements::entered(ranges, component, node);
    let deeper = literal || syntax::is_a(node, "TSTypeLiteral"@);
    match node {
        Tree::List(list) => {
            assert(inside == component && deeper == literal);
            syntax::contents_are_smaller(node);
            let (index, rest) = shown_in_list(
                file,
                ranges,
                component,
                literal,
                list@,
                list@.len(),
                event,
            );
            assert(list@[index] == rest[0]);
            longer_way_shows(file, ranges, component, literal, node, rest, event)
        },
        Tree::Node(fields) => {
            let own = elements::listed(elements::event_at(file, inside, literal, node));
            let below = elements::events_of_fields(
                file,
                ranges,
                inside,
                deeper,
                fields@,
                fields@.len(),
            );
            if k < own.len() {
                assert(all[k] == own[k]);
                let way = seq![node];
                assert(way.drop_last() =~= Seq::<Tree>::empty());
                assert(owner_along(ranges, component, way.drop_last()) == component);
                assert(!in_type_literal(way));
                way
            } else {
                assert(below[k - own.len()] == event);
                syntax::contents_are_smaller(node);
                let (index, rest) = shown_in_fields(
                    file,
                    ranges,
                    inside,
                    deeper,
                    fields@,
                    fields@.len(),
                    event,
                );
                assert(fields@[index].1 == rest[0]);
                longer_way_shows(file, ranges, component, literal, node, rest, event)
            }
        },
        _ => seq![node],
    }
}

proof fn shown_in_list(
    file: SourceFileView,
    ranges: Seq<ComponentRangeView>,
    component: Option<Seq<char>>,
    literal: bool,
    list: Seq<Tree>,
    count: nat,
    event: EventView,
) -> (found: (int, Seq<Tree>))
    requires
        among(
            elements::events_of_list(file, ranges, component, literal, list, count),
            event,
        ),
    ensures
        0 <= found.0 < list.len(),
        found.1.len() > 0,
        found.1[0] == list[found.0],
        leads_down(list[found.0], found.1),
        shows(file, ranges, component, literal, found.1, event),
    decreases list, count,
{
    let all = elements::events_of_list(file, ranges, component, literal, list, count);
    let k = choose|k: int| 0 <= k < all.len() && #[trigger] all[k] == event;
    let earlier = elements::events_of_list(
        file,
        ranges,
        component,
        literal,
        list,
        (count - 1) as nat,
    );
    let own = elements::events_of(file, ranges, component, literal, list[count - 1]);
    if k < earlier.len() {
        assert(earlier[k] == event);
        shown_in_list(file, ranges, component, literal, list, (count - 1) as nat, event)
    } else {
        assert(own[k - earlier.len()] == event);
        let way = shown_has_way(file, ranges, component, literal, list[count - 1], event);
        (count - 1, way)
    }
}

proof fn shown_in_fields(
    file: SourceFileView,
    ranges: Seq<ComponentRangeView>,
    component: Option<Seq<char>>,
    literal: bool,
    fields: Seq<(String, Tree)>,
    count: nat,
    event: EventView,
) -> (found: (int, Seq<Tree>))
    requires
        among(
            elements::events_of_fields(file, ranges, component, literal, fields, count),
            event,
        ),
    ensures
        0 <= found.0 < fields.len(),
        found.1.len() > 0,
        found.1[0] == fields[found.0].1,
        leads_down(fields[found.0].1, found.1),
        shows(file, ranges, component, literal, found.1, event),
    decreases fields, count,
{
    let all = elements::events_of_fields(file, ranges, component, literal, fields, count);
    let k = choose|k: int| 0 <= k < all.len() && #[trigger] all[k] == event;
    let earlier = elements::events_of_fields(
        file,
        ranges,
        component,
        literal,
        fields,
        (count - 1) as nat,
    );
    let own = elements::events_of(file, ranges, component, literal, fields[count - 1].1);
    if k < earlier.len() {
        assert(earlier[k] == event);
        shown_in_fields(file, ranges, component, literal, fields, (count - 1) as nat, event)
    } else {
        assert(own[k - earlier.len()] == event);
        assert(decreases_to!(fields => fields[count - 1]));
        assert(decreases_to!(fields[count - 1] => fields[count - 1].1));
        let way = shown_has_way(file, ranges, component, literal, fields[count - 1].1, event);
        (count - 1, way)
    }
}

/// Whether the expression `object` begins with the identifier `root`, each member expression in
/// `chain` holding the next in its object.
pub open spec fn begins_with(object: Tree, chain: Seq<Tree>, root: Seq<char>) -> bool {
    &&& chain.len() > 0
    &&& chain[0] == object
    &&& syntax::is_a(chain.last(), "JSXIdentifier"@)
    &&& syntax::name_of(chain.last()) == root
    &&& forall|i: int|
        0 <= i < chain.len() - 1 ==> is_member(#[trigger] chain[i]) && chain[i + 1]
            == syntax::child(chain[i], "object"@)
}

/// Whether `node` is a member expression of JSX.
pub open spec fn is_member(node: Tree) -> bool {
    syntax::is_a(node, "JSXMemberExpression"@)
}

/// Whether the tag with the name `name` is looked up under `lookup` and written `written`: an
/// identifier, or a member expression that begins with an identifier.
pub open spec fn is_tag_name(
    source: Seq<char>,
    name: Tree,
    lookup: Seq<char>,
    written: Seq<char>,
) -> bool {
    ||| syntax::is_a(name, "JSXIdentifier"@) && lookup == syntax::name_of(name) && written
        == lookup
    ||| is_member(name) && (exists|chain: Seq<Tree>| #[trigger]
        begins_with(syntax::child(name, "object"@), chain, lookup)) && written == text::slice(
        source,
        syntax::span_of(name).start as int,
        syntax::span_of(name).end as int,
    )
}

/// Whether `/>` stands right before the byte `end`.
pub open spec fn ends_itself(source: Seq<char>, end: int) -> bool {
    let bytes = vstd::utf8::encode_utf8(source);
    2 <= end <= bytes.len() && bytes[end - 2] == '/' as u8 && bytes[end - 1] == '>' as u8
}

/// Whether `ranges` mark the opening tag `node`: from its start to the end of its name, and its
/// last one or two characters, `>` or `/>`, where these stand behind the name.
pub open spec fn marks_opening(file: SourceFileView, node: Tree, ranges: Seq<Range>) -> bool {
    let span = syntax::span_of(node);
    let name_end = syntax::span_of(syntax::child(node, "name"@)).end;
    let width: int = if ends_itself(file.text, span.end as int) {
        2
    } else {
        1
    };
    &&& ranges.len() > 0
    &&& ranges[0].start == file.boundaries.utf16(span.start)
    &&& ranges[0].end == file.boundaries.utf16(name_end)
    &&& span.end - width >= name_end ==> ranges.len() == 2 && ranges[1].start
        == file.boundaries.utf16((span.end - width) as u32) && ranges[1].end
        == file.boundaries.utf16(span.end)
    &&& 0 <= span.end - width < name_end ==> ranges.len() == 1
}

/// Whether `ranges` are the one place from `start` to `end`, counted in UTF-16.
pub open spec fn marks_span(file: SourceFileView, span: Span, ranges: Seq<Range>) -> bool {
    &&& ranges.len() == 1
    &&& ranges[0].start == file.boundaries.utf16(span.start)
    &&& ranges[0].end == file.boundaries.utf16(span.end)
}

/// Whether `tag` is the opening or closing tag `node`, and its name that of a component.
pub open spec fn is_tag(file: SourceFileView, node: Tree, tag: JsxTagReferenceView) -> bool {
    &&& 0 < tag.lookup_name.len()
    &&& 'A' <= tag.lookup_name[0] <= 'Z'
    &&& is_tag_name(file.text, syntax::child(node, "name"@), tag.lookup_name, tag.tag_name)
    &&& {
        ||| syntax::is_a(node, "JSXOpeningElement"@) && marks_opening(file, node, tag.ranges)
        ||| syntax::is_a(node, "JSXClosingElement"@) && marks_span(
            file,
            syntax::span_of(node),
            tag.ranges,
        )
    }
}

/// Whether `node` is an opening or closing tag whose name, looked up under `lookup`, is that of a
/// component.
pub open spec fn is_component_tag(file: SourceFileView, node: Tree, lookup: Seq<char>) -> bool {
    &&& syntax::is_a(node, "JSXOpeningElement"@) || syntax::is_a(node, "JSXClosingElement"@)
    &&& 0 < lookup.len()
    &&& 'A' <= lookup[0] <= 'Z'
    &&& exists|written: Seq<char>| #[trigger]
        is_tag_name(file.text, syntax::child(node, "name"@), lookup, written)
}

proof fn tag_types_differ()
    ensures
        "JSXIdentifier"@ != "JSXMemberExpression"@,
        "JSXOpeningElement"@ != "JSXClosingElement"@,
        "JSXOpeningElement"@ != "TSTypeReference"@,
        "JSXClosingElement"@ != "TSTypeReference"@,
{
    reveal_strlit("JSXIdentifier");
    reveal_strlit("JSXMemberExpression");
    reveal_strlit("JSXOpeningElement");
    reveal_strlit("JSXClosingElement");
    reveal_strlit("TSTypeReference");
    assert("JSXIdentifier"@.len() == 13);
    assert("JSXMemberExpression"@.len() == 19);
    assert("JSXOpeningElement"@[3] != "JSXClosingElement"@[3]);
    assert("JSXOpeningElement"@.len() == 17);
    assert("JSXClosingElement"@.len() == 17);
    assert("TSTypeReference"@.len() == 15);
}

proof fn roots_begin(object: Tree, chain: Seq<Tree>, root: Seq<char>)
    requires
        begins_with(object, chain, root),
    ensures
        elements::member_root(object) == Some(root),
    decreases chain.len(),
{
    tag_types_differ();
    if chain.len() > 1 {
        assert(is_member(chain[0]));
        let rest = chain.drop_first();
        assert(rest.last() == chain.last());
        assert forall|i: int| 0 <= i < rest.len() - 1 implies is_member(#[trigger] rest[i])
            && rest[i + 1] == syntax::child(rest[i], "object"@) by {
            assert(rest[i] == chain[i + 1]);
            assert(is_member(chain[i + 1]));
        }
        roots_begin(rest[0], rest, root);
        assert(syntax::child(object, "object"@) == rest[0]);
        if rest[0] is Null {
            assert(elements::member_root(rest[0]) is None);
        }
    }
}

proof fn beginnings_are_roots(object: Tree, root: Seq<char>) -> (chain: Seq<Tree>)
    requires
        elements::member_root(object) == Some(root),
    ensures
        begins_with(object, chain, root),
    decreases object,
{
    tag_types_differ();
    if syntax::is_a(object, "JSXIdentifier"@) {
        seq![object]
    } else {
        syntax::child_is_smaller(object, "object"@);
        let rest = beginnings_are_roots(syntax::child(object, "object"@), root);
        let chain = seq![object] + rest;
        assert(chain.last() == rest.last());
        assert forall|i: int| 0 <= i < chain.len() - 1 implies is_member(#[trigger] chain[i])
            && chain[i + 1] == syntax::child(chain[i], "object"@) by {
            if i > 0 {
                assert(chain[i] == rest[i - 1]);
                assert(is_member(rest[i - 1]));
            }
        }
        chain
    }
}

proof fn tag_names_are_found(source: Seq<char>, name: Tree)
    ensures
        elements::tag_names(source, name) matches Some(names) ==> is_tag_name(
            source,
            name,
            names.0,
            names.1,
        ) && syntax::names_component(names.0),
        forall|lookup: Seq<char>, written: Seq<char>| #[trigger]
            is_tag_name(source, name, lookup, written) && syntax::names_component(lookup)
                ==> elements::tag_names(source, name) == Some((lookup, written)),
{
    tag_types_differ();
    if let Some(names) = elements::tag_names(source, name) {
        if !syntax::is_a(name, "JSXIdentifier"@) {
            let chain = beginnings_are_roots(syntax::child(name, "object"@), names.0);
            assert(begins_with(syntax::child(name, "object"@), chain, names.0));
        }
    }
    assert forall|lookup: Seq<char>, written: Seq<char>| #[trigger]
        is_tag_name(source, name, lookup, written) && syntax::names_component(lookup) implies
        elements::tag_names(source, name) == Some((lookup, written)) by {
        if is_member(name) {
            let chain = choose|chain: Seq<Tree>| #[trigger]
                begins_with(syntax::child(name, "object"@), chain, lookup);
            roots_begin(syntax::child(name, "object"@), chain, lookup);
        }
    }
}

/// A tag is looked up under one name only.
pub proof fn tags_have_one_name(
    file: SourceFileView,
    node: Tree,
    tag: JsxTagReferenceView,
    lookup: Seq<char>,
)
    requires
        is_tag(file, node, tag),
        is_component_tag(file, node, lookup),
    ensures
        tag.lookup_name == lookup,
{
    let name = syntax::child(node, "name"@);
    tag_names_are_found(file.text, name);
    let written = choose|written: Seq<char>| #[trigger]
        is_tag_name(file.text, name, lookup, written);
    assert(elements::tag_names(file.text, name) == Some((lookup, written)));
    assert(elements::tag_names(file.text, name) == Some((tag.lookup_name, tag.tag_name)));
}

/// A node shows a tag if and only if it is an opening or closing tag with a component's name.
pub proof fn nodes_show_their_tags(
    file: SourceFileView,
    component: Option<Seq<char>>,
    literal: bool,
    node: Tree,
)
    ensures
        elements::event_at(file, component, literal, node) matches Some(EventView::Tag(tag))
            ==> is_tag(file, node, tag),
        forall|lookup: Seq<char>| #[trigger]
            is_component_tag(file, node, lookup) ==> (elements::event_at(
                file,
                component,
                literal,
                node,
            ) matches Some(EventView::Tag(tag)) && tag.lookup_name == lookup),
{
    tag_types_differ();
    let name = syntax::child(node, "name"@);
    tag_names_are_found(file.text, name);
    assert forall|lookup: Seq<char>| #[trigger] is_component_tag(file, node, lookup) implies (
    elements::event_at(file, component, literal, node) matches Some(EventView::Tag(tag))
        && tag.lookup_name == lookup) by {
        let written = choose|written: Seq<char>| #[trigger]
            is_tag_name(file.text, name, lookup, written);
        assert(elements::tag_names(file.text, name) == Some((lookup, written)));
    }
}

/// Every opening and closing tag that the walk comes to and that has a component's name is noted,
/// and what is noted is nothing else. The walk leaves out nothing but imports, enumerations, and
/// exports that declare nothing.
pub proof fn every_tag_is_noted(
    file: SourceFileView,
    ranges: Seq<ComponentRangeView>,
    program: Tree,
    way: Seq<Tree>,
    lookup: Seq<char>,
)
    requires
        leads_down(program, way),
        is_component_tag(file, way.last(), lookup),
    ensures
        exists|tag: JsxTagReferenceView|
            tag.lookup_name == lookup && #[trigger] is_tag(file, way.last(), tag) && among(
                elements::events_of(file, ranges, None, false, program),
                EventView::Tag(tag),
            ),
{
    tag_types_differ();
    let node = way.last();
    let name = syntax::child(node, "name"@);
    let written = choose|written: Seq<char>| #[trigger]
        is_tag_name(file.text, name, lookup, written);
    tag_names_are_found(file.text, name);
    assert(elements::tag_names(file.text, name) == Some((lookup, written)));
    let owner = owner_along(ranges, None, way);
    let event = elements::event_at(file, owner, in_type_literal(way), node);
    let tag = event->0->Tag_0;
    assert(event == Some(EventView::Tag(tag)));
    assert(is_tag(file, node, tag));
    way_shows(file, ranges, None, false, way, EventView::Tag(tag));
}

/// Everything that is noted as a tag is an opening or closing tag with a component's name that the
/// walk comes to.
pub proof fn noted_tags_are_tags(
    file: SourceFileView,
    ranges: Seq<ComponentRangeView>,
    program: Tree,
    tag: JsxTagReferenceView,
) -> (way: Seq<Tree>)
    requires
        among(elements::events_of(file, ranges, None, false, program), EventView::Tag(tag)),
    ensures
        leads_down(program, way),
        is_tag(file, way.last(), tag),
{
    tag_types_differ();
    let way = shown_has_way(file, ranges, None, false, program, EventView::Tag(tag));
    tag_names_are_found(file.text, syntax::child(way.last(), "name"@));
    way
}

/// Whether `found` is the type that `node` refers to from the component `owner`.
pub open spec fn is_type_reference(
    file: SourceFileView,
    node: Tree,
    owner: Option<Seq<char>>,
    found: TypeIdentifierView,
) -> bool {
    let name = syntax::child(node, "typeName"@);
    &&& syntax::is_a(node, "TSTypeReference"@)
    &&& syntax::is_a(name, "Identifier"@)
    &&& found.enclosing_component == owner
    &&& found.name == syntax::name_of(name)
    &&& 0 < found.name.len()
    &&& 'A' <= found.name[0] <= 'Z'
    &&& marks_span(file, syntax::span_of(name), found.ranges)
}

/// Every reference to a type with a component's name that the walk comes to is noted with the
/// component that it stands in, unless it stands in a type literal.
pub proof fn every_type_is_noted(
    file: SourceFileView,
    ranges: Seq<ComponentRangeView>,
    program: Tree,
    way: Seq<Tree>,
    owner: Option<Seq<char>>,
    found: TypeIdentifierView,
)
    requires
        leads_down(program, way),
        is_owned(ranges, way, owner),
        !in_type_literal(way),
        is_type_reference(file, way.last(), owner, found),
    ensures
        among(elements::events_of(file, ranges, None, false, program), EventView::Type(found)),
{
    tag_types_differ();
    owners_are_the_last(ranges, way, owner);
    let name = syntax::child(way.last(), "typeName"@);
    assert(found.ranges =~= declarations::span_ranges(file.boundaries, syntax::span_of(name)));
    way_shows(file, ranges, None, false, way, EventView::Type(found));
}

/// Everything that is noted as a type is a reference to a type with a component's name that the
/// walk comes to outside of type literals.
pub proof fn noted_types_are_references(
    file: SourceFileView,
    ranges: Seq<ComponentRangeView>,
    program: Tree,
    found: TypeIdentifierView,
) -> (way: Seq<Tree>)
    requires
        among(elements::events_of(file, ranges, None, false, program), EventView::Type(found)),
    ensures
        leads_down(program, way),
        !in_type_literal(way),
        is_owned(ranges, way, found.enclosing_component),
        is_type_reference(file, way.last(), found.enclosing_component, found),
{
    tag_types_differ();
    let way = shown_has_way(file, ranges, None, false, program, EventView::Type(found));
    owners_are_the_last(ranges, way, found.enclosing_component);
    way
}

/// Whether `node` declares the function `name`, whose text is `function`: as a function, or as a
/// variable that holds one.
pub open spec fn declares_function(node: Tree, name: Seq<char>, function: Tree) -> bool {
    let id = syntax::child(node, "id"@);
    ||| syntax::is_a(node, "FunctionDeclaration"@) && id != Tree::Null && name == syntax::name_of(
        id,
    ) && function == node
    ||| syntax::is_a(node, "VariableDeclarator"@) && shapes::is_named(id, name)
        && shapes::is_function(syntax::child(node, "init"@)) && function == syntax::child(
        node,
        "init"@,
    )
}

proof fn function_types_differ()
    ensures
        "FunctionDeclaration"@ != "VariableDeclarator"@,
        "FunctionDeclaration"@ != "JSXOpeningElement"@,
        "FunctionDeclaration"@ != "JSXClosingElement"@,
        "FunctionDeclaration"@ != "TSTypeReference"@,
        "FunctionDeclaration"@ != "JSXAttribute"@,
        "VariableDeclarator"@ != "JSXOpeningElement"@,
        "VariableDeclarator"@ != "JSXClosingElement"@,
        "VariableDeclarator"@ != "TSTypeReference"@,
        "VariableDeclarator"@ != "JSXAttribute"@,
        "JSXAttribute"@ != "JSXOpeningElement"@,
        "JSXAttribute"@ != "JSXClosingElement"@,
        "JSXAttribute"@ != "TSTypeReference"@,
        "Identifier"@ != "ArrowFunctionExpression"@,
        "Identifier"@ != "FunctionExpression"@,
{
    reveal_strlit("FunctionDeclaration");
    reveal_strlit("VariableDeclarator");
    reveal_strlit("JSXOpeningElement");
    reveal_strlit("JSXClosingElement");
    reveal_strlit("TSTypeReference");
    reveal_strlit("JSXAttribute");
    reveal_strlit("Identifier");
    reveal_strlit("ArrowFunctionExpression");
    reveal_strlit("FunctionExpression");
    assert("FunctionDeclaration"@.len() == 19);
    assert("VariableDeclarator"@.len() == 18);
    assert("JSXOpeningElement"@.len() == 17);
    assert("JSXClosingElement"@.len() == 17);
    assert("TSTypeReference"@.len() == 15);
    assert("JSXAttribute"@.len() == 12);
    assert("Identifier"@.len() == 10);
    assert("ArrowFunctionExpression"@.len() == 23);
    assert("FunctionExpression"@.len() == 18);
}

/// Every function that is declared inside a component is noted with its name, whether it is
/// declared as a function or held in a variable, and with whether it runs on the server.
pub proof fn every_function_is_noted(
    file: SourceFileView,
    ranges: Seq<ComponentRangeView>,
    program: Tree,
    way: Seq<Tree>,
    component: Seq<char>,
    name: Seq<char>,
    function: Tree,
)
    requires
        leads_down(program, way),
        is_owned(ranges, way, Some(component)),
        declares_function(way.last(), name, function),
    ensures
        among(
            elements::events_of(file, ranges, None, false, program),
            EventView::Function { component, name, on_server: shapes::says_server(function) },
        ),
{
    function_types_differ();
    owners_are_the_last(ranges, way, Some(component));
    shapes::functions_run_on_the_server_by_directive(function);
    way_shows(
        file,
        ranges,
        None,
        false,
        way,
        EventView::Function { component, name, on_server: shapes::says_server(function) },
    );
}

/// Every function that is noted is declared inside its component.
pub proof fn noted_functions_are_declared(
    file: SourceFileView,
    ranges: Seq<ComponentRangeView>,
    program: Tree,
    component: Seq<char>,
    name: Seq<char>,
    on_server: bool,
) -> (found: (Seq<Tree>, Tree))
    requires
        among(
            elements::events_of(file, ranges, None, false, program),
            EventView::Function { component, name, on_server },
        ),
    ensures
        leads_down(program, found.0),
        is_owned(ranges, found.0, Some(component)),
        declares_function(found.0.last(), name, found.1),
        on_server == shapes::says_server(found.1),
{
    function_types_differ();
    let way = shown_has_way(
        file,
        ranges,
        None,
        false,
        program,
        EventView::Function { component, name, on_server },
    );
    owners_are_the_last(ranges, way, Some(component));
    let node = way.last();
    let function = if syntax::is_a(node, "FunctionDeclaration"@) {
        node
    } else {
        syntax::child(node, "init"@)
    };
    shapes::functions_run_on_the_server_by_directive(function);
    (way, function)
}

/// Whether `node` is an attribute that is given the value of `expression` in braces.
pub open spec fn hands(node: Tree, expression: Tree) -> bool {
    &&& syntax::is_a(node, "JSXAttribute"@)
    &&& syntax::is_a(syntax::child(node, "value"@), "JSXExpressionContainer"@)
    &&& expression == syntax::child(syntax::child(node, "value"@), "expression"@)
}

/// Every function that is written in an attribute inside a component, and does not run on the
/// server, is noted.
pub proof fn every_inline_function_is_noted(
    file: SourceFileView,
    ranges: Seq<ComponentRangeView>,
    program: Tree,
    way: Seq<Tree>,
    component: Seq<char>,
    function: Tree,
)
    requires
        leads_down(program, way),
        is_owned(ranges, way, Some(component)),
        hands(way.last(), function),
        shapes::is_function(function),
        !shapes::says_server(function),
    ensures
        among(
            elements::events_of(file, ranges, None, false, program),
            EventView::Inline { component },
        ),
{
    function_types_differ();
    owners_are_the_last(ranges, way, Some(component));
    shapes::functions_run_on_the_server_by_directive(function);
    way_shows(file, ranges, None, false, way, EventView::Inline { component });
}

/// Every function that is noted as written in an attribute is one that does not run on the server.
pub proof fn noted_inline_functions_are_handed(
    file: SourceFileView,
    ranges: Seq<ComponentRangeView>,
    program: Tree,
    component: Seq<char>,
) -> (found: (Seq<Tree>, Tree))
    requires
        among(
            elements::events_of(file, ranges, None, false, program),
            EventView::Inline { component },
        ),
    ensures
        leads_down(program, found.0),
        is_owned(ranges, found.0, Some(component)),
        hands(found.0.last(), found.1),
        shapes::is_function(found.1),
        !shapes::says_server(found.1),
{
    function_types_differ();
    let way = shown_has_way(file, ranges, None, false, program, EventView::Inline { component });
    owners_are_the_last(ranges, way, Some(component));
    let function = syntax::child(syntax::child(way.last(), "value"@), "expression"@);
    shapes::functions_run_on_the_server_by_directive(function);
    (way, function)
}

/// Every name that is handed to an attribute inside a component is noted.
pub proof fn every_handed_name_is_noted(
    file: SourceFileView,
    ranges: Seq<ComponentRangeView>,
    program: Tree,
    way: Seq<Tree>,
    component: Seq<char>,
    name: Seq<char>,
    expression: Tree,
)
    requires
        leads_down(program, way),
        is_owned(ranges, way, Some(component)),
        hands(way.last(), expression),
        shapes::is_named(expression, name),
    ensures
        among(
            elements::events_of(file, ranges, None, false, program),
            EventView::Reference { component, name },
        ),
{
    function_types_differ();
    owners_are_the_last(ranges, way, Some(component));
    way_shows(file, ranges, None, false, way, EventView::Reference { component, name });
}

/// Every name that is noted as handed over is handed to an attribute inside its component.
pub proof fn noted_names_are_handed(
    file: SourceFileView,
    ranges: Seq<ComponentRangeView>,
    program: Tree,
    component: Seq<char>,
    name: Seq<char>,
) -> (found: (Seq<Tree>, Tree))
    requires
        among(
            elements::events_of(file, ranges, None, false, program),
            EventView::Reference { component, name },
        ),
    ensures
        leads_down(program, found.0),
        is_owned(ranges, found.0, Some(component)),
        hands(found.0.last(), found.1),
        shapes::is_named(found.1, name),
{
    function_types_differ();
    let way = shown_has_way(
        file,
        ranges,
        None,
        false,
        program,
        EventView::Reference { component, name },
    );
    owners_are_the_last(ranges, way, Some(component));
    (way, syntax::child(syntax::child(way.last(), "value"@), "expression"@))
}

/// Whether `event` is one that `node` shows: the tag or the type that it is, the function that it
/// declares, or what it hands to an element.
pub open spec fn comes_from(file: SourceFileView, node: Tree, event: EventView) -> bool {
    match event {
        EventView::Tag(tag) => is_tag(file, node, tag),
        EventView::Type(found) => is_type_reference(file, node, found.enclosing_component, found),
        EventView::Function { name, on_server, .. } => exists|function: Tree| #[trigger]
            declares_function(node, name, function) && shapes::says_server(function) == on_server,
        EventView::Reference { name, .. } => exists|expression: Tree| #[trigger]
            hands(node, expression) && shapes::is_named(expression, name),
        EventView::Inline { .. } => exists|function: Tree| #[trigger]
            hands(node, function) && shapes::is_function(function) && !shapes::says_server(
                function,
            ),
    }
}

/// What is shown at a node comes from it.
pub proof fn nodes_show_what_they_are(
    file: SourceFileView,
    component: Option<Seq<char>>,
    literal: bool,
    node: Tree,
    event: EventView,
)
    requires
        elements::event_at(file, component, literal, node) == Some(event),
    ensures
        comes_from(file, node, event),
{
    tag_types_differ();
    function_types_differ();
    nodes_show_their_tags(file, component, literal, node);
    let init = syntax::child(node, "init"@);
    let expression = syntax::child(syntax::child(node, "value"@), "expression"@);
    shapes::functions_run_on_the_server_by_directive(node);
    shapes::functions_run_on_the_server_by_directive(init);
    shapes::functions_run_on_the_server_by_directive(expression);
    match event {
        EventView::Function { name, on_server, .. } => {
            let function = if syntax::is_a(node, "FunctionDeclaration"@) {
                node
            } else {
                init
            };
            assert(declares_function(node, name, function));
        },
        EventView::Reference { name, .. } => {
            assert(hands(node, expression));
        },
        EventView::Inline { .. } => {
            assert(hands(node, expression));
        },
        _ => {},
    }
}

} // verus!
