//! What the inside of a module refers to: JSX tags, types, and the functions that components
//! hand to the elements they render.
use vstd::prelude::*;

use crate::declarations;
use crate::declarations::{
    ComponentRange, ComponentRangeView, Extent, SourceFile, SourceFileView, TypeIdentifier,
    TypeIdentifierView,
};
use crate::names;
use crate::syntax;
use crate::text;
use crate::tree::Tree;
use crate::utf16::{Boundaries, Utf16Mapper};
use crate::{Range, Span};

verus! {

/// A JSX tag: the name to look up, the name as it is written, and where it stands.
#[derive(Debug)]
pub struct JsxTagReference {
    pub lookup_name: String,
    pub ranges: Vec<Range>,
    pub tag_name: String,
}

/// A JSX tag: the name to look up, the name as it is written, and where it stands.
#[verifier::ext_equal]
pub struct JsxTagReferenceView {
    pub lookup_name: Seq<char>,
    pub ranges: Seq<Range>,
    pub tag_name: Seq<char>,
}

impl View for JsxTagReference {
    type V = JsxTagReferenceView;

    open spec fn view(&self) -> JsxTagReferenceView {
        JsxTagReferenceView {
            lookup_name: self.lookup_name@,
            ranges: self.ranges@,
            tag_name: self.tag_name@,
        }
    }
}

/// Something that a walk through the module comes across.
#[derive(Debug)]
pub enum Event {
    Tag(JsxTagReference),
    Type(TypeIdentifier),
    /// A component declares a function.
    Function { component: String, name: String, on_server: bool },
    /// A component hands a name to an attribute.
    Reference { component: String, name: String },
    /// A component hands a function that runs on the client to an attribute.
    Inline { component: String },
}

/// Something that a walk through the module comes across.
#[verifier::ext_equal]
pub enum EventView {
    Tag(JsxTagReferenceView),
    Type(TypeIdentifierView),
    Function { component: Seq<char>, name: Seq<char>, on_server: bool },
    Reference { component: Seq<char>, name: Seq<char> },
    Inline { component: Seq<char> },
}

impl View for Event {
    type V = EventView;

    open spec fn view(&self) -> EventView {
        match *self {
            Event::Tag(tag) => EventView::Tag(tag@),
            Event::Type(identifier) => EventView::Type(identifier@),
            Event::Function { component, name, on_server } => EventView::Function {
                component: component@,
                name: name@,
                on_server,
            },
            Event::Reference { component, name } => EventView::Reference {
                component: component@,
                name: name@,
            },
            Event::Inline { component } => EventView::Inline { component: component@ },
        }
    }
}

/// The identifier that a member expression of JSX starts with.
pub open spec fn member_root(object: Tree) -> Option<Seq<char>>
    decreases object,
{
    if syntax::is_a(object, "JSXIdentifier"@) {
        Some(syntax::name_of(object))
    } else if syntax::is_a(object, "JSXMemberExpression"@) && !(syntax::child(object, "object"@) is Null) {
        proof {
            syntax::child_is_smaller(object, "object"@);
        }
        member_root(syntax::child(object, "object"@))
    } else {
        None
    }
}

/// The identifier that a member expression of JSX starts with.
pub fn jsx_member_root_identifier<'a>(object: &'a Tree) -> (root: Option<&'a str>)
    ensures
        text::maybe_str(root) == member_root(*object),
    decreases object,
{
    if syntax::is_kind(object, "JSXIdentifier") {
        Some(syntax::get_name(object))
    } else if syntax::is_kind(object, "JSXMemberExpression") {
        let inner = syntax::get_child(object, "object");
        match inner {
            Tree::Null => None,
            _ => {
                proof {
                    syntax::child_is_smaller(*object, "object"@);
                }
                jsx_member_root_identifier(inner)
            },
        }
    } else {
        None
    }
}

/// The name to look up for a tag, and the name as it is written: none where the tag can be no
/// component's.
pub open spec fn tag_names(source: Seq<char>, name: Tree) -> Option<(Seq<char>, Seq<char>)> {
    if syntax::is_a(name, "JSXIdentifier"@) {
        if syntax::names_component(syntax::name_of(name)) {
            Some((syntax::name_of(name), syntax::name_of(name)))
        } else {
            None
        }
    } else if syntax::is_a(name, "JSXMemberExpression"@) {
        match member_root(syntax::child(name, "object"@)) {
            Some(root) => if syntax::names_component(root) {
                let span = syntax::span_of(name);
                Some((root, text::slice(source, span.start as int, span.end as int)))
            } else {
                None
            },
            None => None,
        }
    } else {
        None
    }
}

/// The name to look up for a tag, and the name as it is written: none where the tag can be no
/// component's.
pub fn jsx_lookup_and_tag_name(name: &Tree, source: &str) -> (found: Option<(String, String)>)
    ensures
        match found {
            Some(pair) => tag_names(source@, *name) == Some((pair.0@, pair.1@)),
            None => tag_names(source@, *name) is None,
        },
{
    if syntax::is_kind(name, "JSXIdentifier") {
        let identifier = syntax::get_name(name);
        if syntax::is_component_identifier(identifier) {
            Some((identifier.to_owned(), identifier.to_owned()))
        } else {
            None
        }
    } else if syntax::is_kind(name, "JSXMemberExpression") {
        match jsx_member_root_identifier(syntax::get_child(name, "object")) {
            Some(root) => if syntax::is_component_identifier(root) {
                let span = syntax::get_span(name);
                Some((root.to_owned(), text::source_slice(source, span.start, span.end)))
            } else {
                None
            },
            None => None,
        }
    } else {
        None
    }
}

/// The ranges of an opening tag: from its start to the end of its name, and its closing
/// delimiter where that does not overlap the name.
pub open spec fn opening_tag_ranges(
    boundaries: Boundaries,
    node: Span,
    tag_name: Span,
    self_closing: bool,
) -> Seq<Range> {
    let delimiter_length: int = if self_closing {
        2
    } else {
        1
    };
    let delimiter_start = if node.end >= delimiter_length {
        (node.end - delimiter_length) as u32
    } else {
        0u32
    };
    let name = declarations::range_of(boundaries, node.start, tag_name.end);
    if delimiter_start >= tag_name.end {
        seq![name, declarations::range_of(boundaries, delimiter_start, node.end)]
    } else {
        seq![name]
    }
}

/// The ranges of an opening tag: from its start to the end of its name, and its closing
/// delimiter where that does not overlap the name.
pub fn get_opening_tag_ranges(
    node: Span,
    tag_name: Span,
    self_closing: bool,
    mapper: &Utf16Mapper,
) -> (ranges: Vec<Range>)
    requires
        mapper@.well_formed(),
    ensures
        ranges@ == opening_tag_ranges(mapper@, node, tag_name, self_closing),
{
    let delimiter_length: u32 = if self_closing {
        2
    } else {
        1
    };
    let delimiter_start: u32 = if node.end >= delimiter_length {
        node.end - delimiter_length
    } else {
        0
    };
    let mut ranges: Vec<Range> = Vec::new();
    ranges.push(declarations::range_for_bounds(node.start, tag_name.end, mapper));
    if delimiter_start >= tag_name.end {
        ranges.push(declarations::range_for_bounds(delimiter_start, node.end, mapper));
    }
    ranges
}

/// Whether the bytes before `end` are `/>`.
pub open spec fn closes_itself(source: Seq<char>, end: int) -> bool {
    let bytes = vstd::utf8::encode_utf8(source);
    2 <= end <= bytes.len() && bytes[end - 2] == 47 && bytes[end - 1] == 62
}

/// Whether an opening tag closes itself: it ends in `/>`.
pub fn is_self_closing_opening(opening: &Tree, source: &str) -> (result: bool)
    ensures
        result == closes_itself(source@, syntax::span_of(*opening).end as int),
{
    let bytes = source.as_bytes();
    let end = syntax::get_span(opening).end as usize;
    end >= 2 && end <= bytes.len() && bytes[end - 2] == 47 && bytes[end - 1] == 62
}

/// The tag that an opening element is, if it can be a component's.
pub open spec fn opening_tag(file: SourceFileView, opening: Tree) -> Option<JsxTagReferenceView> {
    let name = syntax::child(opening, "name"@);
    match tag_names(file.text, name) {
        Some((lookup_name, tag_name)) => Some(
            JsxTagReferenceView {
                lookup_name,
                ranges: opening_tag_ranges(
                    file.boundaries,
                    syntax::span_of(opening),
                    syntax::span_of(name),
                    closes_itself(file.text, syntax::span_of(opening).end as int),
                ),
                tag_name,
            },
        ),
        None => None,
    }
}

/// The tag that an opening element is, if it can be a component's.
pub fn create_jsx_tag_reference_opening(opening: &Tree, file: &SourceFile<'_>) -> (tag: Option<
    JsxTagReference,
>)
    requires
        file.well_formed(),
    ensures
        match tag {
            Some(tag) => opening_tag(file@, *opening) == Some(tag@),
            None => opening_tag(file@, *opening) is None,
        },
{
    let name = syntax::get_child(opening, "name");
    match jsx_lookup_and_tag_name(name, file.text) {
        Some((lookup_name, tag_name)) => Some(
            JsxTagReference {
                lookup_name,
                ranges: get_opening_tag_ranges(
                    syntax::get_span(opening),
                    syntax::get_span(name),
                    is_self_closing_opening(opening, file.text),
                    &file.mapper,
                ),
                tag_name,
            },
        ),
        None => None,
    }
}

/// The tag that a closing element is, if it can be a component's.
pub open spec fn closing_tag(file: SourceFileView, closing: Tree) -> Option<JsxTagReferenceView> {
    match tag_names(file.text, syntax::child(closing, "name"@)) {
        Some((lookup_name, tag_name)) => Some(
            JsxTagReferenceView {
                lookup_name,
                ranges: declarations::span_ranges(file.boundaries, syntax::span_of(closing)),
                tag_name,
            },
        ),
        None => None,
    }
}

/// The tag that a closing element is, if it can be a component's.
pub fn create_jsx_tag_reference_closing(closing: &Tree, file: &SourceFile<'_>) -> (tag: Option<
    JsxTagReference,
>)
    requires
        file.well_formed(),
    ensures
        match tag {
            Some(tag) => closing_tag(file@, *closing) == Some(tag@),
            None => closing_tag(file@, *closing) is None,
        },
{
    match jsx_lookup_and_tag_name(syntax::get_child(closing, "name"), file.text) {
        Some((lookup_name, tag_name)) => Some(
            JsxTagReference {
                lookup_name,
                ranges: declarations::ranges_for_span(syntax::get_span(closing), &file.mapper),
                tag_name,
            },
        ),
        None => None,
    }
}

/// The component that the part `span` of the source belongs to: the last one declared for it.
pub open spec fn component_at(components: Seq<ComponentRangeView>, span: Span) -> Option<Seq<char>>
    decreases components.len(),
{
    if components.len() == 0 {
        None
    } else if components.last().span == span {
        Some(components.last().name)
    } else {
        component_at(components.drop_last(), span)
    }
}

/// The component that the part `span` of the source belongs to: the last one declared for it.
fn find_component_at<'a>(components: &'a Vec<ComponentRange>, span: Span) -> (found: Option<
    &'a str,
>)
    ensures
        text::maybe_str(found) == component_at(names::views(components@), span),
{
    let mut i: usize = components.len();
    let ghost all = names::views(components@);
    proof {
        assert(all.take(i as int) =~= all);
    }
    while i > 0
        invariant
            i <= components.len(),
            all == names::views(components@),
            component_at(all, span) == component_at(all.take(i as int), span),
        decreases i,
    {
        proof {
            assert(all.take(i as int).drop_last() =~= all.take(i - 1));
            assert(all.take(i as int).last() == all[i - 1]);
        }
        i = i - 1;
        if components[i].span == span {
            return Some(components[i].name.as_str());
        }
    }
    None
}

/// The part of the source that may belong to a component of its own when the walk comes to
/// `node`.
pub open spec fn scope_span(node: Tree) -> Option<Span> {
    if syntax::function_declaration(node) || syntax::is_a(node, "ClassDeclaration"@) || syntax::is_a(
        node,
        "VariableDeclarator"@,
    ) {
        Some(syntax::span_of(node))
    } else if syntax::is_a(node, "ExportDefaultDeclaration"@) && syntax::is_a(
        syntax::child(node, "declaration"@),
        "ClassExpression"@,
    ) {
        Some(syntax::span_of(syntax::child(node, "declaration"@)))
    } else {
        None
    }
}

/// The component that `node` stands in, where what surrounds it stands in `component`.
pub open spec fn entered(
    components: Seq<ComponentRangeView>,
    component: Option<Seq<char>>,
    node: Tree,
) -> Option<Seq<char>> {
    match scope_span(node) {
        Some(span) => match component_at(components, span) {
            Some(name) => Some(name),
            None => component,
        },
        None => component,
    }
}

/// The component that `node` stands in, where what surrounds it stands in `component`.
fn enter_component<'a>(
    components: &'a Vec<ComponentRange>,
    component: Option<&'a str>,
    node: &Tree,
) -> (inside: Option<&'a str>)
    ensures
        text::maybe_str(inside) == entered(names::views(components@), text::maybe_str(component), *node),
{
    let span = if syntax::is_function_declaration(node) || syntax::is_kind(node, "ClassDeclaration")
        || syntax::is_kind(node, "VariableDeclarator") {
        syntax::get_span(node)
    } else {
        let declaration = syntax::get_child(node, "declaration");
        if syntax::is_kind(node, "ExportDefaultDeclaration") && syntax::is_kind(
            declaration,
            "ClassExpression",
        ) {
            syntax::get_span(declaration)
        } else {
            return component;
        }
    };
    match find_component_at(components, span) {
        Some(name) => Some(name),
        None => component,
    }
}

/// Whether the walk passes over `node`: imports, enumerations, and exports that declare nothing.
pub open spec fn passed_over(node: Tree) -> bool {
    ||| syntax::is_a(node, "ImportDeclaration"@)
    ||| syntax::is_a(node, "ExportAllDeclaration"@)
    ||| syntax::is_a(node, "TSEnumDeclaration"@)
    ||| syntax::is_a(node, "ExportNamedDeclaration"@) && syntax::child(
        node,
        "declaration"@,
    ) is Null
}

/// Whether the walk passes over `node`: imports, enumerations, and exports that declare nothing.
fn is_passed_over(node: &Tree) -> (result: bool)
    ensures
        result == passed_over(*node),
{
    if syntax::is_kind(node, "ImportDeclaration") || syntax::is_kind(node, "ExportAllDeclaration")
        || syntax::is_kind(node, "TSEnumDeclaration") {
        true
    } else if syntax::is_kind(node, "ExportNamedDeclaration") {
        match syntax::get_child(node, "declaration") {
            Tree::Null => true,
            _ => false,
        }
    } else {
        false
    }
}

/// The function that `node` declares inside `component`.
pub open spec fn declared_function(component: Seq<char>, node: Tree) -> Option<EventView> {
    let id = syntax::child(node, "id"@);
    if syntax::is_a(node, "FunctionDeclaration"@) {
        if id is Null {
            None
        } else {
            Some(
                EventView::Function {
                    component,
                    name: syntax::name_of(id),
                    on_server: syntax::runs_on_server(node),
                },
            )
        }
    } else if syntax::is_a(node, "VariableDeclarator"@) && syntax::is_a(id, "Identifier"@)
        && syntax::function_like(syntax::child(node, "init"@)) {
        Some(
            EventView::Function {
                component,
                name: syntax::name_of(id),
                on_server: syntax::runs_on_server(syntax::child(node, "init"@)),
            },
        )
    } else {
        None
    }
}

/// What `component` hands to an element by the attribute `node`.
pub open spec fn handed_over(component: Seq<char>, node: Tree) -> Option<EventView> {
    let value = syntax::child(node, "value"@);
    let expression = syntax::child(value, "expression"@);
    if !syntax::is_a(node, "JSXAttribute"@) || !syntax::is_a(value, "JSXExpressionContainer"@) {
        None
    } else if syntax::function_like(expression) {
        if syntax::runs_on_server(expression) {
            None
        } else {
            Some(EventView::Inline { component })
        }
    } else if syntax::is_a(expression, "Identifier"@) {
        Some(EventView::Reference { component, name: syntax::name_of(expression) })
    } else {
        None
    }
}

/// The type that `node` refers to.
pub open spec fn referred_type(
    file: SourceFileView,
    component: Option<Seq<char>>,
    node: Tree,
) -> Option<EventView> {
    let name = syntax::child(node, "typeName"@);
    if syntax::is_a(node, "TSTypeReference"@) && syntax::is_a(name, "Identifier"@)
        && syntax::names_component(syntax::name_of(name)) {
        Some(
            EventView::Type(
                TypeIdentifierView {
                    enclosing_component: component,
                    name: syntax::name_of(name),
                    ranges: declarations::span_ranges(file.boundaries, syntax::span_of(name)),
                },
            ),
        )
    } else {
        None
    }
}

/// What the walk comes across at `node` itself, inside `component`. Types inside type literals
/// do not count.
pub open spec fn event_at(
    file: SourceFileView,
    component: Option<Seq<char>>,
    in_type_literal: bool,
    node: Tree,
) -> Option<EventView> {
    if syntax::is_a(node, "JSXOpeningElement"@) {
        match opening_tag(file, node) {
            Some(tag) => Some(EventView::Tag(tag)),
            None => None,
        }
    } else if syntax::is_a(node, "JSXClosingElement"@) {
        match closing_tag(file, node) {
            Some(tag) => Some(EventView::Tag(tag)),
            None => None,
        }
    } else if syntax::is_a(node, "TSTypeReference"@) {
        if in_type_literal {
            None
        } else {
            referred_type(file, component, node)
        }
    } else {
        match component {
            Some(component) => match declared_function(component, node) {
                Some(event) => Some(event),
                None => handed_over(component, node),
            },
            None => None,
        }
    }
}

/// The event that may be there, as a list.
pub open spec fn listed(event: Option<EventView>) -> Seq<EventView> {
    match event {
        Some(event) => seq![event],
        None => Seq::empty(),
    }
}

/// Everything that the walk through `node` comes across, in the order of the source.
pub open spec fn events_of(
    file: SourceFileView,
    components: Seq<ComponentRangeView>,
    component: Option<Seq<char>>,
    in_type_literal: bool,
    node: Tree,
) -> Seq<EventView>
    decreases node, 0nat,
{
    match node {
        Tree::List(list) => events_of_list(
            file,
            components,
            component,
            in_type_literal,
            list@,
            list@.len(),
        ),
        Tree::Node(fields) => if passed_over(node) {
            Seq::empty()
        } else {
            let inside = entered(components, component, node);
            listed(event_at(file, inside, in_type_literal, node)) + events_of_fields(
                file,
                components,
                inside,
                in_type_literal || syntax::is_a(node, "TSTypeLiteral"@),
                fields@,
                fields@.len(),
            )
        },
        _ => Seq::empty(),
    }
}

/// Everything that the walk through the first `count` of `list` comes across.
pub open spec fn events_of_list(
    file: SourceFileView,
    components: Seq<ComponentRangeView>,
    component: Option<Seq<char>>,
    in_type_literal: bool,
    list: Seq<Tree>,
    count: nat,
) -> Seq<EventView>
    decreases list, count,
{
    if count == 0 || count > list.len() {
        Seq::empty()
    } else {
        events_of_list(file, components, component, in_type_literal, list, (count - 1) as nat)
            + events_of(file, components, component, in_type_literal, list[count - 1])
    }
}

/// Everything that the walk through the first `count` of `fields` comes across.
pub open spec fn events_of_fields(
    file: SourceFileView,
    components: Seq<ComponentRangeView>,
    component: Option<Seq<char>>,
    in_type_literal: bool,
    fields: Seq<(String, Tree)>,
    count: nat,
) -> Seq<EventView>
    decreases fields, count,
{
    if count == 0 || count > fields.len() {
        Seq::empty()
    } else {
        proof {
            assert(decreases_to!(fields => fields[count - 1]));
            assert(decreases_to!(fields[count - 1] => fields[count - 1].1));
        }
        events_of_fields(file, components, component, in_type_literal, fields, (count - 1) as nat)
            + events_of(file, components, component, in_type_literal, fields[count - 1].1)
    }
}

/// The function that `node` declares inside `component`.
pub fn track_function(component: &str, node: &Tree) -> (event: Option<Event>)
    ensures
        match event {
            Some(event) => declared_function(component@, *node) == Some(event@),
            None => declared_function(component@, *node) is None,
        },
{
    let id = syntax::get_child(node, "id");
    if syntax::is_kind(node, "FunctionDeclaration") {
        match id {
            Tree::Null => None,
            _ => Some(
                Event::Function {
                    component: component.to_owned(),
                    name: syntax::get_name(id).to_owned(),
                    on_server: syntax::has_use_server_directive(node),
                },
            ),
        }
    } else {
        let init = syntax::get_child(node, "init");
        if syntax::is_kind(node, "VariableDeclarator") && syntax::is_kind(id, "Identifier")
            && syntax::is_function_like(init) {
            Some(
                Event::Function {
                    component: component.to_owned(),
                    name: syntax::get_name(id).to_owned(),
                    on_server: syntax::has_use_server_directive(init),
                },
            )
        } else {
            None
        }
    }
}

/// What `component` hands to an element by the attribute `node`.
fn track_jsx_attribute(component: &str, node: &Tree) -> (event: Option<Event>)
    ensures
        match event {
            Some(event) => handed_over(component@, *node) == Some(event@),
            None => handed_over(component@, *node) is None,
        },
{
    let value = syntax::get_child(node, "value");
    let expression = syntax::get_child(value, "expression");
    if !syntax::is_kind(node, "JSXAttribute") || !syntax::is_kind(value, "JSXExpressionContainer") {
        None
    } else if syntax::is_function_like(expression) {
        if syntax::has_use_server_directive(expression) {
            None
        } else {
            Some(Event::Inline { component: component.to_owned() })
        }
    } else if syntax::is_kind(expression, "Identifier") {
        Some(
            Event::Reference {
                component: component.to_owned(),
                name: syntax::get_name(expression).to_owned(),
            },
        )
    } else {
        None
    }
}

/// The type that `node` refers to.
fn track_type(component: Option<&str>, node: &Tree, file: &SourceFile<'_>) -> (event: Option<Event>)
    requires
        file.well_formed(),
    ensures
        match event {
            Some(event) => referred_type(file@, text::maybe_str(component), *node) == Some(event@),
            None => referred_type(file@, text::maybe_str(component), *node) is None,
        },
{
    let identifier = syntax::get_child(node, "typeName");
    let name = syntax::get_name(identifier);
    if syntax::is_kind(node, "TSTypeReference") && syntax::is_kind(identifier, "Identifier")
        && syntax::is_component_identifier(name) {
        let enclosing_component = match component {
            Some(component) => Some(component.to_owned()),
            None => None,
        };
        Some(
            Event::Type(
                TypeIdentifier {
                    enclosing_component,
                    name: name.to_owned(),
                    ranges: declarations::ranges_for_span(
                        syntax::get_span(identifier),
                        &file.mapper,
                    ),
                },
            ),
        )
    } else {
        None
    }
}

/// What the walk comes across at `node` itself, inside `component`.
fn track_node(
    node: &Tree,
    component: Option<&str>,
    in_type_literal: bool,
    file: &SourceFile<'_>,
) -> (event: Option<Event>)
    requires
        file.well_formed(),
    ensures
        match event {
            Some(event) => event_at(file@, text::maybe_str(component), in_type_literal, *node) == Some(
                event@,
            ),
            None => event_at(file@, text::maybe_str(component), in_type_literal, *node) is None,
        },
{
    if syntax::is_kind(node, "JSXOpeningElement") {
        match create_jsx_tag_reference_opening(node, file) {
            Some(tag) => Some(Event::Tag(tag)),
            None => None,
        }
    } else if syntax::is_kind(node, "JSXClosingElement") {
        match create_jsx_tag_reference_closing(node, file) {
            Some(tag) => Some(Event::Tag(tag)),
            None => None,
        }
    } else if syntax::is_kind(node, "TSTypeReference") {
        if in_type_literal {
            None
        } else {
            track_type(component, node, file)
        }
    } else {
        match component {
            Some(component) => match track_function(component, node) {
                Some(event) => Some(event),
                None => track_jsx_attribute(component, node),
            },
            None => None,
        }
    }
}

/// Walks through `node` and notes everything that it comes across, in the order of the source.
pub fn collect_events(
    node: &Tree,
    file: &SourceFile<'_>,
    components: &Vec<ComponentRange>,
    component: Option<&str>,
    in_type_literal: bool,
    events: &mut Vec<Event>,
)
    requires
        file.well_formed(),
    ensures
        names::views(final(events)@) == names::views(old(events)@) + events_of(
            file@,
            names::views(components@),
            text::maybe_str(component),
            in_type_literal,
            *node,
        ),
    decreases node,
{
    broadcast use names::views_of_push;

    let ghost ranges = names::views(components@);
    match node {
        Tree::List(list) => {
            let mut i: usize = 0;
            proof {
                assert(names::views(events@) =~= names::views(old(events)@) + events_of_list(
                    file@,
                    ranges,
                    text::maybe_str(component),
                    in_type_literal,
                    list@,
                    0,
                ));
            }
            while i < list.len()
                invariant
                    i <= list.len(),
                    *node == Tree::List(*list),
                    file.well_formed(),
                    ranges == names::views(components@),
                    names::views(events@) == names::views(old(events)@) + events_of_list(
                        file@,
                        ranges,
                        text::maybe_str(component),
                        in_type_literal,
                        list@,
                        i as nat,
                    ),
                decreases list.len() - i,
            {
                proof {
                    syntax::contents_are_smaller(*node);
                    assert(decreases_to!(list@ => list@[i as int]));
                }
                collect_events(&list[i], file, components, component, in_type_literal, events);
                i = i + 1;
                proof {
                    assert(names::views(events@) =~= names::views(old(events)@) + events_of_list(
                        file@,
                        ranges,
                        text::maybe_str(component),
                        in_type_literal,
                        list@,
                        i as nat,
                    ));
                }
            }
        },
        Tree::Node(fields) => {
            if is_passed_over(node) {
                proof {
                    assert(names::views(events@) =~= names::views(old(events)@) + Seq::empty());
                }
                return ;
            }
            let inside = enter_component(components, component, node);
            let ghost own = listed(event_at(file@, text::maybe_str(inside), in_type_literal, *node));
            match track_node(node, inside, in_type_literal, file) {
                Some(event) => {
                    events.push(event);
                },
                None => {},
            }
            let in_literal = in_type_literal || syntax::is_kind(node, "TSTypeLiteral");
            let ghost start = names::views(events@);
            let mut i: usize = 0;
            proof {
                assert(start =~= names::views(old(events)@) + own);
                assert(start =~= start + events_of_fields(
                    file@,
                    ranges,
                    text::maybe_str(inside),
                    in_literal,
                    fields@,
                    0,
                ));
            }
            while i < fields.len()
                invariant
                    i <= fields.len(),
                    *node == Tree::Node(*fields),
                    file.well_formed(),
                    ranges == names::views(components@),
                    names::views(events@) == start + events_of_fields(
                        file@,
                        ranges,
                        text::maybe_str(inside),
                        in_literal,
                        fields@,
                        i as nat,
                    ),
                decreases fields.len() - i,
            {
                proof {
                    syntax::contents_are_smaller(*node);
                    assert(decreases_to!(fields@ => fields@[i as int]));
                    assert(decreases_to!(fields@[i as int] => fields@[i as int].1));
                }
                collect_events(&fields[i].1, file, components, inside, in_literal, events);
                i = i + 1;
                proof {
                    assert(names::views(events@) =~= start + events_of_fields(
                        file@,
                        ranges,
                        text::maybe_str(inside),
                        in_literal,
                        fields@,
                        i as nat,
                    ));
                }
            }
            proof {
                assert(names::views(events@) =~= names::views(old(events)@) + (own
                    + events_of_fields(
                    file@,
                    ranges,
                    text::maybe_str(inside),
                    in_literal,
                    fields@,
                    fields@.len(),
                )));
            }
        },
        _ => {
            proof {
                assert(names::views(events@) =~= names::views(old(events)@) + Seq::empty());
            }
        },
    }
}

/// Whether a tag or a type is named like a component and stands in `extent`.
pub open spec fn event_within(event: EventView, extent: Extent) -> bool {
    match event {
        EventView::Tag(tag) => syntax::names_component(tag.lookup_name) && declarations::within(
            tag.ranges,
            extent,
        ),
        EventView::Type(identifier) => syntax::names_component(identifier.name)
            && declarations::within(identifier.ranges, extent),
        _ => true,
    }
}

/// Whether all tags and types among `events` stand in `extent`.
pub open spec fn events_within(events: Seq<EventView>, extent: Extent) -> bool {
    forall|i: int| 0 <= i < events.len() ==> event_within(#[trigger] events[i], extent)
}

proof fn event_stays_within(
    file: SourceFileView,
    component: Option<Seq<char>>,
    in_type_literal: bool,
    node: Tree,
    extent: Extent,
)
    requires
        declarations::maps_within(file.boundaries, extent.length),
        extent.ordered ==> syntax::spans_ordered(node),
    ensures
        events_within(listed(event_at(file, component, in_type_literal, node)), extent),
{
    if extent.ordered {
        syntax::children_are_ordered(node, "name"@);
        syntax::children_are_ordered(node, "typeName"@);
    }
}

/// Every tag and every type that the walk through `node` comes across is named like a component
/// and stands in the text.
pub proof fn events_stay_within(
    file: SourceFileView,
    components: Seq<ComponentRangeView>,
    component: Option<Seq<char>>,
    in_type_literal: bool,
    node: Tree,
    extent: Extent,
)
    requires
        declarations::maps_within(file.boundaries, extent.length),
        extent.ordered ==> syntax::spans_ordered(node),
    ensures
        events_within(events_of(file, components, component, in_type_literal, node), extent),
    decreases node, 0nat,
{
    match node {
        Tree::List(list) => {
            listed_events_stay_within(
                file,
                components,
                component,
                in_type_literal,
                list@,
                list@.len(),
                extent,
            );
        },
        Tree::Node(fields) => {
            if !passed_over(node) {
                let inside = entered(components, component, node);
                event_stays_within(file, inside, in_type_literal, node, extent);
                field_events_stay_within(
                    file,
                    components,
                    inside,
                    in_type_literal || syntax::is_a(node, "TSTypeLiteral"@),
                    fields@,
                    fields@.len(),
                    extent,
                );
            }
        },
        _ => {},
    }
}

proof fn listed_events_stay_within(
    file: SourceFileView,
    components: Seq<ComponentRangeView>,
    component: Option<Seq<char>>,
    in_type_literal: bool,
    list: Seq<Tree>,
    count: nat,
    extent: Extent,
)
    requires
        declarations::maps_within(file.boundaries, extent.length),
        extent.ordered ==> syntax::listed_spans_ordered(list, list.len()),
    ensures
        events_within(
            events_of_list(file, components, component, in_type_literal, list, count),
            extent,
        ),
    decreases list, count,
{
    if 0 < count <= list.len() {
        listed_events_stay_within(
            file,
            components,
            component,
            in_type_literal,
            list,
            (count - 1) as nat,
            extent,
        );
        if extent.ordered {
            syntax::listed_spans_are_ordered(list, list.len(), count - 1);
        }
        events_stay_within(
            file,
            components,
            component,
            in_type_literal,
            list[count - 1],
            extent,
        );
    }
}

proof fn field_events_stay_within(
    file: SourceFileView,
    components: Seq<ComponentRangeView>,
    component: Option<Seq<char>>,
    in_type_literal: bool,
    fields: Seq<(String, Tree)>,
    count: nat,
    extent: Extent,
)
    requires
        declarations::maps_within(file.boundaries, extent.length),
        extent.ordered ==> syntax::field_spans_ordered(fields, fields.len()),
    ensures
        events_within(
            events_of_fields(file, components, component, in_type_literal, fields, count),
            extent,
        ),
    decreases fields, count,
{
    if 0 < count <= fields.len() {
        field_events_stay_within(
            file,
            components,
            component,
            in_type_literal,
            fields,
            (count - 1) as nat,
            extent,
        );
        if extent.ordered {
            syntax::field_spans_are_ordered(fields, fields.len(), count - 1);
        }
        assert(decreases_to!(fields => fields[count - 1]));
        assert(decreases_to!(fields[count - 1] => fields[count - 1].1));
        events_stay_within(
            file,
            components,
            component,
            in_type_literal,
            fields[count - 1].1,
            extent,
        );
    }
}

} // verus!
