//! Reading syntax trees: fields of nodes, names, functions and wrappers of components.
use vstd::prelude::*;

use crate::text;
use crate::tree::Tree;
use crate::Span;

verus! {

/// The first of `fields` that is called `name`.
pub open spec fn field_of(fields: Seq<(String, Tree)>, name: Seq<char>) -> Tree
    decreases fields.len(),
{
    if fields.len() == 0 {
        Tree::Null
    } else if fields[0].0@ == name {
        fields[0].1
    } else {
        field_of(fields.drop_first(), name)
    }
}

/// The field `name` of `node`; null where it has none.
pub open spec fn child(node: Tree, name: Seq<char>) -> Tree {
    match node {
        Tree::Node(fields) => field_of(fields@, name),
        _ => Tree::Null,
    }
}

/// A field of a node is smaller than the node.
pub proof fn child_is_smaller(node: Tree, name: Seq<char>)
    ensures
        child(node, name) is Null || decreases_to!(node => child(node, name)),
{
    if let Tree::Node(fields) = node {
        field_is_smaller(fields@, name);
        assert(decreases_to!(node => fields@));
    }
}

/// What a list or a node holds is smaller than itself.
pub proof fn contents_are_smaller(node: Tree)
    ensures
        node matches Tree::List(list) ==> decreases_to!(node => list@),
        node matches Tree::Node(fields) ==> decreases_to!(node => fields@),
{
    match node {
        Tree::List(list) => {
            assert(decreases_to!(node => list@));
        },
        Tree::Node(fields) => {
            assert(decreases_to!(node => fields@));
        },
        _ => {},
    }
}

proof fn field_is_smaller(fields: Seq<(String, Tree)>, name: Seq<char>)
    ensures
        field_of(fields, name) is Null || decreases_to!(fields => field_of(fields, name)),
    decreases fields.len(),
{
    if fields.len() > 0 {
        if fields[0].0@ == name {
            assert(decreases_to!(fields => fields[0]));
            assert(decreases_to!(fields[0] => fields[0].1));
        } else {
            field_is_smaller(fields.drop_first(), name);
            assert(decreases_to!(fields => fields.drop_first()));
        }
    }
}

/// The field `name` of `node`; null where it has none.
pub fn get_child<'a>(node: &'a Tree, name: &str) -> (found: &'a Tree)
    ensures
        *found == child(*node, name@),
{
    match node {
        Tree::Node(fields) => {
            let mut i: usize = 0;
            proof {
                assert(fields@.skip(0) =~= fields@);
            }
            while i < fields.len()
                invariant
                    i <= fields.len(),
                    child(*node, name@) == field_of(fields@, name@),
                    field_of(fields@, name@) == field_of(fields@.skip(i as int), name@),
                decreases fields.len() - i,
            {
                proof {
                    assert(fields@.skip(i as int)[0] == fields@[i as int]);
                    assert(fields@.skip(i as int).drop_first() =~= fields@.skip(i + 1));
                }
                if text::same_text(fields[i].0.as_str(), name) {
                    return &fields[i].1;
                }
                i = i + 1;
            }
            &Tree::Null
        },
        _ => &Tree::Null,
    }
}

/// The text in the field `name` of `node`.
pub open spec fn text_field(node: Tree, name: Seq<char>) -> Option<Seq<char>> {
    match child(node, name) {
        Tree::Text(value) => Some(value@),
        _ => None,
    }
}

/// The text in the field `name` of `node`.
pub fn get_text<'a>(node: &'a Tree, name: &str) -> (found: Option<&'a str>)
    ensures
        match found {
            Some(value) => text_field(*node, name@) == Some(value@),
            None => text_field(*node, name@) is None,
        },
{
    match get_child(node, name) {
        Tree::Text(value) => Some(value.as_str()),
        _ => None,
    }
}

/// Whether `node` is a node of the type `kind`.
pub open spec fn is_a(node: Tree, kind: Seq<char>) -> bool {
    text_field(node, "type"@) == Some(kind)
}

/// Whether `node` is a node of the type `kind`.
pub fn is_kind(node: &Tree, kind: &str) -> (result: bool)
    ensures
        result == is_a(*node, kind@),
{
    match get_text(node, "type") {
        Some(value) => text::same_text(value, kind),
        None => false,
    }
}

/// Whether the field `name` of `node` is there and true.
pub open spec fn flag(node: Tree, name: Seq<char>) -> bool {
    child(node, name) == Tree::Bool(true)
}

/// Whether the field `name` of `node` is there and true.
pub fn has_flag(node: &Tree, name: &str) -> (result: bool)
    ensures
        result == flag(*node, name@),
{
    match get_child(node, name) {
        Tree::Bool(value) => *value,
        _ => false,
    }
}

/// The byte offset in the field `name` of `node`.
pub open spec fn offset(node: Tree, name: Seq<char>) -> u32 {
    match child(node, name) {
        Tree::Number(Some(value)) => if value <= u32::MAX {
            value as u32
        } else {
            0
        },
        _ => 0,
    }
}

/// The byte offset in the field `name` of `node`.
pub fn get_offset(node: &Tree, name: &str) -> (result: u32)
    ensures
        result == offset(*node, name@),
{
    match get_child(node, name) {
        Tree::Number(Some(value)) => if *value <= 0xffff_ffff {
            *value as u32
        } else {
            0
        },
        _ => 0,
    }
}

/// Where `node` stands in the source.
pub open spec fn span_of(node: Tree) -> Span {
    Span { start: offset(node, "start"@), end: offset(node, "end"@) }
}

/// Where `node` stands in the source.
pub fn get_span(node: &Tree) -> (span: Span)
    ensures
        span == span_of(*node),
{
    Span { start: get_offset(node, "start"), end: get_offset(node, "end") }
}

/// The items of the list in the field `name` of `node`.
pub open spec fn items(node: Tree, name: Seq<char>) -> Seq<Tree> {
    match child(node, name) {
        Tree::List(list) => list@,
        _ => Seq::empty(),
    }
}

/// The items of the list in the field `name` of `node`.
pub fn get_items<'a>(node: &'a Tree, name: &str) -> (list: &'a [Tree])
    ensures
        list@ == items(*node, name@),
{
    match get_child(node, name) {
        Tree::List(list) => list.as_slice(),
        _ => &[],
    }
}

/// Whether `node` does not end before it starts and, where it is an opening tag, does not start
/// behind its name.
pub open spec fn span_ordered(node: Tree) -> bool {
    &&& span_of(node).start <= span_of(node).end
    &&& is_a(node, "JSXOpeningElement"@) ==> span_of(node).start <= span_of(
        child(node, "name"@),
    ).end
}

/// Whether no node of `tree` ends before it starts, and no opening tag starts behind its name.
pub open spec fn spans_ordered(tree: Tree) -> bool
    decreases tree, 0nat,
{
    match tree {
        Tree::List(list) => listed_spans_ordered(list@, list@.len()),
        Tree::Node(fields) => span_ordered(tree) && field_spans_ordered(fields@, fields@.len()),
        _ => true,
    }
}

/// Whether no node of the first `count` of `list` ends before it starts, and no opening tag among
/// them starts behind its name.
pub open spec fn listed_spans_ordered(list: Seq<Tree>, count: nat) -> bool
    decreases list, count,
{
    count == 0 || count > list.len() || listed_spans_ordered(list, (count - 1) as nat)
        && spans_ordered(list[count - 1])
}

/// Whether no node of the first `count` of `fields` ends before it starts, and no opening tag
/// among them starts behind its name.
pub open spec fn field_spans_ordered(fields: Seq<(String, Tree)>, count: nat) -> bool
    decreases fields, count,
{
    if count == 0 || count > fields.len() {
        true
    } else {
        proof {
            assert(decreases_to!(fields => fields[count - 1]));
            assert(decreases_to!(fields[count - 1] => fields[count - 1].1));
        }
        field_spans_ordered(fields, (count - 1) as nat) && spans_ordered(fields[count - 1].1)
    }
}

/// What a list holds is ordered where the list is.
pub proof fn listed_spans_are_ordered(list: Seq<Tree>, count: nat, index: int)
    requires
        listed_spans_ordered(list, count),
        0 <= index < count <= list.len(),
    ensures
        spans_ordered(list[index]),
    decreases count,
{
    if index < count - 1 {
        listed_spans_are_ordered(list, (count - 1) as nat, index);
    }
}

/// What a field holds is ordered where the fields are.
pub proof fn field_spans_are_ordered(fields: Seq<(String, Tree)>, count: nat, index: int)
    requires
        field_spans_ordered(fields, count),
        0 <= index < count <= fields.len(),
    ensures
        spans_ordered(fields[index].1),
    decreases count,
{
    if index < count - 1 {
        field_spans_are_ordered(fields, (count - 1) as nat, index);
    }
}

proof fn fields_are_listed(fields: Seq<(String, Tree)>, name: Seq<char>)
    ensures
        field_of(fields, name) is Null || exists|i: int|
            0 <= i < fields.len() && field_of(fields, name) == (#[trigger] fields[i]).1,
    decreases fields.len(),
{
    if fields.len() > 0 {
        if fields[0].0@ == name {
            assert(field_of(fields, name) == fields[0].1);
        } else {
            let rest = fields.drop_first();
            fields_are_listed(rest, name);
            if !(field_of(rest, name) is Null) {
                let i = choose|i: int|
                    0 <= i < rest.len() && field_of(rest, name) == (#[trigger] rest[i]).1;
                assert(fields[i + 1] == rest[i]);
            }
        }
    }
}

/// A field of a node does not end before it starts, and neither does what it holds, where that is
/// so of the node.
pub proof fn children_are_ordered(node: Tree, name: Seq<char>)
    requires
        spans_ordered(node),
    ensures
        spans_ordered(child(node, name)),
        span_of(child(node, name)).start <= span_of(child(node, name)).end,
{
    if let Tree::Node(fields) = node {
        fields_are_listed(fields@, name);
        if !(child(node, name) is Null) {
            let i = choose|i: int|
                0 <= i < fields@.len() && child(node, name) == (#[trigger] fields@[i]).1;
            field_spans_are_ordered(fields@, fields@.len(), i);
        }
    }
}

/// The name of an identifier; empty where `node` has none.
pub open spec fn name_of(node: Tree) -> Seq<char> {
    match text_field(node, "name"@) {
        Some(name) => name,
        None => Seq::empty(),
    }
}

/// The name of an identifier; empty where `node` has none.
pub fn get_name<'a>(node: &'a Tree) -> (name: &'a str)
    ensures
        name@ == name_of(*node),
{
    match get_text(node, "name") {
        Some(name) => name,
        None => {
            proof {
                reveal_strlit("");
                assert(""@ =~= Seq::<char>::empty());
            }
            ""
        },
    }
}

/// The value of a string literal; empty where `node` has none.
pub open spec fn literal_of(node: Tree) -> Seq<char> {
    match text_field(node, "value"@) {
        Some(value) => value,
        None => Seq::empty(),
    }
}

/// The value of a string literal; empty where `node` has none.
pub fn get_literal<'a>(node: &'a Tree) -> (value: &'a str)
    ensures
        value@ == literal_of(*node),
{
    match get_text(node, "value") {
        Some(value) => value,
        None => {
            proof {
                reveal_strlit("");
                assert(""@ =~= Seq::<char>::empty());
            }
            ""
        },
    }
}

/// Whether `name` can name a component: it starts with an upper-case ASCII letter.
pub open spec fn names_component(name: Seq<char>) -> bool {
    name.len() > 0 && 'A' <= name[0] <= 'Z'
}

/// Whether `name` can name a component: it starts with an upper-case ASCII letter.
pub fn is_component_identifier(name: &str) -> (result: bool)
    ensures
        result == names_component(name@),
{
    if name.is_empty() {
        false
    } else {
        let first = name.get_char(0);
        'A' <= first && first <= 'Z'
    }
}

/// The name that a module exports or imports something under: an identifier or a string.
pub open spec fn module_export_name(node: Tree) -> Seq<char> {
    if is_a(node, "Identifier"@) {
        name_of(node)
    } else {
        literal_of(node)
    }
}

/// The name that a module exports or imports something under: an identifier or a string.
pub fn module_export_name_text<'a>(node: &'a Tree) -> (name: &'a str)
    ensures
        name@ == module_export_name(*node),
{
    if is_kind(node, "Identifier") {
        get_name(node)
    } else {
        get_literal(node)
    }
}

/// Whether `node` is an arrow function or a function expression.
pub open spec fn function_like(node: Tree) -> bool {
    is_a(node, "ArrowFunctionExpression"@) || is_a(node, "FunctionExpression"@)
}

/// Whether `node` is an arrow function or a function expression.
pub fn is_function_like(node: &Tree) -> (result: bool)
    ensures
        result == function_like(*node),
{
    is_kind(node, "ArrowFunctionExpression") || is_kind(node, "FunctionExpression")
}

/// Whether `node` declares a function, with or without a body.
pub open spec fn function_declaration(node: Tree) -> bool {
    is_a(node, "FunctionDeclaration"@) || is_a(node, "TSDeclareFunction"@)
}

/// Whether `node` declares a function, with or without a body.
pub fn is_function_declaration(node: &Tree) -> (result: bool)
    ensures
        result == function_declaration(*node),
{
    is_kind(node, "FunctionDeclaration") || is_kind(node, "TSDeclareFunction")
}

/// Whether `statement` is the directive `"use server"`.
pub open spec fn use_server_directive(statement: Tree) -> bool {
    text_field(statement, "directive"@) is Some && text_field(
        child(statement, "expression"@),
        "value"@,
    ) == Some("use server"@)
}

/// Whether one of `statements` is the directive `"use server"`.
pub open spec fn any_use_server(statements: Seq<Tree>) -> bool {
    exists|i: int| 0 <= i < statements.len() && use_server_directive(#[trigger] statements[i])
}

/// Whether a function body holds the directive `"use server"`.
pub fn body_has_use_server_directive(body: &Tree) -> (result: bool)
    ensures
        result == any_use_server(items(*body, "body"@)),
{
    let statements = get_items(body, "body");
    let mut i: usize = 0;
    while i < statements.len()
        invariant
            i <= statements.len(),
            statements@ == items(*body, "body"@),
            forall|j: int|
                0 <= j < i ==> !use_server_directive(#[trigger] items(*body, "body"@)[j]),
        decreases statements.len() - i,
    {
        let statement = &statements[i];
        if get_text(statement, "directive").is_some() {
            match get_text(get_child(statement, "expression"), "value") {
                Some(value) => if text::same_text(value, "use server") {
                    assert(use_server_directive(items(*body, "body"@)[i as int]));
                    return true;
                },
                None => {},
            }
        }
        i = i + 1;
    }
    false
}

/// Whether a function runs on the server by its own directive. An arrow function whose body is
/// an expression has no directives.
pub open spec fn runs_on_server(function: Tree) -> bool {
    &&& !(is_a(function, "ArrowFunctionExpression"@) && flag(function, "expression"@))
    &&& any_use_server(items(child(function, "body"@), "body"@))
}

/// Whether a function runs on the server by its own directive. An arrow function whose body is
/// an expression has no directives.
pub fn has_use_server_directive(function: &Tree) -> (result: bool)
    ensures
        result == runs_on_server(*function),
{
    if is_kind(function, "ArrowFunctionExpression") && has_flag(function, "expression") {
        false
    } else {
        body_has_use_server_directive(get_child(function, "body"))
    }
}

/// Whether `name` is that of a function that wraps a component.
pub open spec fn wrapper_name(name: Seq<char>) -> bool {
    name == "forwardRef"@ || name == "memo"@
}

/// Whether `callee` is `forwardRef`, `memo`, or one of them as a member of `React`.
pub open spec fn wraps_component(callee: Tree) -> bool {
    if is_a(callee, "Identifier"@) {
        wrapper_name(name_of(callee))
    } else {
        &&& is_a(callee, "MemberExpression"@)
        &&& !flag(callee, "computed"@)
        &&& is_a(child(callee, "property"@), "Identifier"@)
        &&& is_a(child(callee, "object"@), "Identifier"@)
        &&& name_of(child(callee, "object"@)) == "React"@
        &&& wrapper_name(name_of(child(callee, "property"@)))
    }
}

/// Whether `callee` is `forwardRef`, `memo`, or one of them as a member of `React`.
pub fn is_component_wrapper(callee: &Tree) -> (result: bool)
    ensures
        result == wraps_component(*callee),
{
    if is_kind(callee, "Identifier") {
        let name = get_name(callee);
        text::same_text(name, "forwardRef") || text::same_text(name, "memo")
    } else {
        let object = get_child(callee, "object");
        let property = get_child(callee, "property");
        let name = get_name(property);
        is_kind(callee, "MemberExpression") && !has_flag(callee, "computed") && is_kind(
            property,
            "Identifier",
        ) && is_kind(object, "Identifier") && text::same_text(get_name(object), "React") && (
        text::same_text(name, "forwardRef") || text::same_text(name, "memo"))
    }
}

/// The first function among `arguments`.
pub open spec fn first_function(arguments: Seq<Tree>) -> Option<Tree>
    decreases arguments.len(),
{
    if arguments.len() == 0 {
        None
    } else if function_like(arguments[0]) {
        Some(arguments[0])
    } else {
        first_function(arguments.drop_first())
    }
}

/// The function that makes `initializer` a component: itself, or the first function that is
/// handed to a wrapper of components.
pub open spec fn component_function(initializer: Tree) -> Option<Tree> {
    if function_like(initializer) {
        Some(initializer)
    } else if is_a(initializer, "CallExpression"@) && wraps_component(
        child(initializer, "callee"@),
    ) {
        first_function(items(initializer, "arguments"@))
    } else {
        None
    }
}

/// The function that makes `initializer` a component: itself, or the first function that is
/// handed to a wrapper of components.
pub fn get_component_function<'a>(initializer: &'a Tree) -> (function: Option<&'a Tree>)
    ensures
        match function {
            Some(found) => component_function(*initializer) == Some(*found),
            None => component_function(*initializer) is None,
        },
{
    if is_function_like(initializer) {
        return Some(initializer);
    }
    if !is_kind(initializer, "CallExpression") || !is_component_wrapper(
        get_child(initializer, "callee"),
    ) {
        return None;
    }
    let arguments = get_items(initializer, "arguments");
    let mut i: usize = 0;
    proof {
        assert(arguments@.skip(0) =~= arguments@);
    }
    while i < arguments.len()
        invariant
            i <= arguments.len(),
            component_function(*initializer) == first_function(arguments@.skip(i as int)),
        decreases arguments.len() - i,
    {
        proof {
            assert(arguments@.skip(i as int)[0] == arguments@[i as int]);
            assert(arguments@.skip(i as int).drop_first() =~= arguments@.skip(i + 1));
        }
        if is_function_like(&arguments[i]) {
            return Some(&arguments[i]);
        }
        i = i + 1;
    }
    None
}

} // verus!
