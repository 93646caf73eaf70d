//! How syntax trees are read: fields, names, functions, directives and wrappers of components.
use vstd::prelude::*;

use crate::syntax;
use crate::tree::Tree;

verus! {

/// A field is found by its name; of several with one name, the first counts.
pub proof fn fields_are_found_by_name(fields: Vec<(String, Tree)>, name: Seq<char>, index: int)
    requires
        0 <= index < fields@.len(),
        fields@[index].0@ == name,
        forall|i: int| 0 <= i < index ==> (#[trigger] fields@[i]).0@ != name,
    ensures
        syntax::child(Tree::Node(fields), name) == fields@[index].1,
{
    first_field(fields@, name, index);
}

proof fn first_field(fields: Seq<(String, Tree)>, name: Seq<char>, index: int)
    requires
        0 <= index < fields.len(),
        fields[index].0@ == name,
        forall|i: int| 0 <= i < index ==> (#[trigger] fields[i]).0@ != name,
    ensures
        syntax::field_of(fields, name) == fields[index].1,
    decreases fields.len(),
{
    if index > 0 {
        assert(fields[0].0@ != name);
        let rest = fields.drop_first();
        assert forall|i: int| 0 <= i < index - 1 implies (#[trigger] rest[i]).0@ != name by {
            assert(rest[i] == fields[i + 1]);
        }
        first_field(rest, name, index - 1);
    }
}

/// A field that is not there is null, and only nodes have fields.
pub proof fn absent_fields_are_null(node: Tree, name: Seq<char>)
    requires
        node matches Tree::Node(fields) ==> forall|i: int|
            0 <= i < fields@.len() ==> (#[trigger] fields@[i]).0@ != name,
    ensures
        syntax::child(node, name) == Tree::Null,
{
    if let Tree::Node(fields) = node {
        no_field(fields@, name);
    }
}

proof fn no_field(fields: Seq<(String, Tree)>, name: Seq<char>)
    requires
        forall|i: int| 0 <= i < fields.len() ==> (#[trigger] fields[i]).0@ != name,
    ensures
        syntax::field_of(fields, name) == Tree::Null,
    decreases fields.len(),
{
    if fields.len() > 0 {
        let rest = fields.drop_first();
        assert forall|i: int| 0 <= i < rest.len() implies (#[trigger] rest[i]).0@ != name by {
            assert(rest[i] == fields[i + 1]);
        }
        no_field(rest, name);
        assert(fields[0].0@ != name);
    }
}

/// What nodes are called, where they stand and which lists they hold is what their fields say:
/// `type`, `name`, `value`, `start` and `end`.
pub proof fn nodes_are_what_their_fields_say(node: Tree, kind: Seq<char>, name: Seq<char>)
    ensures
        syntax::is_a(node, kind) <==> (syntax::child(node, "type"@) matches Tree::Text(found)
            && found@ == kind),
        syntax::child(node, "name"@) matches Tree::Text(found) ==> syntax::name_of(node) == found@,
        !(syntax::child(node, "name"@) is Text) ==> syntax::name_of(node).len() == 0,
        syntax::child(node, "value"@) matches Tree::Text(found) ==> syntax::literal_of(node)
            == found@,
        !(syntax::child(node, "value"@) is Text) ==> syntax::literal_of(node).len() == 0,
        syntax::flag(node, name) <==> syntax::child(node, name) == Tree::Bool(true),
        syntax::child(node, name) matches Tree::List(list) ==> syntax::items(node, name) == list@,
        !(syntax::child(node, name) is List) ==> syntax::items(node, name).len() == 0,
        syntax::child(node, "start"@) matches Tree::Number(Some(value)) ==> value <= u32::MAX
            ==> syntax::span_of(node).start == value,
        syntax::child(node, "end"@) matches Tree::Number(Some(value)) ==> value <= u32::MAX
            ==> syntax::span_of(node).end == value,
{
}

/// A node is of one type only.
pub proof fn types_exclude_each_other(node: Tree, one: Seq<char>, other: Seq<char>)
    requires
        syntax::is_a(node, one),
        syntax::is_a(node, other),
    ensures
        one == other,
{
}

/// A component's name is one that begins with one of the 26 upper-case letters of ASCII.
pub proof fn component_names_begin_in_upper_case(name: Seq<char>)
    ensures
        name.len() == 0 ==> !syntax::names_component(name),
        name.len() > 0 ==> (syntax::names_component(name) <==> 65 <= name[0] as int <= 90),
{
}

/// Whether `node` is an arrow function or a function expression.
pub open spec fn is_function(node: Tree) -> bool {
    syntax::is_a(node, "ArrowFunctionExpression"@) || syntax::is_a(node, "FunctionExpression"@)
}

/// Whether `node` is the identifier `name`.
pub open spec fn is_named(node: Tree, name: Seq<char>) -> bool {
    syntax::is_a(node, "Identifier"@) && syntax::name_of(node) == name
}

/// Whether `node` is `React.` and then the identifier `name`.
pub open spec fn is_react_member(node: Tree, name: Seq<char>) -> bool {
    &&& syntax::is_a(node, "MemberExpression"@)
    &&& syntax::child(node, "computed"@) != Tree::Bool(true)
    &&& is_named(syntax::child(node, "object"@), "React"@)
    &&& is_named(syntax::child(node, "property"@), name)
}

/// Whether `node` is one of the four functions that wrap a component.
pub open spec fn is_wrapper(node: Tree) -> bool {
    ||| is_named(node, "forwardRef"@)
    ||| is_named(node, "memo"@)
    ||| is_react_member(node, "forwardRef"@)
    ||| is_react_member(node, "memo"@)
}

/// Components are wrapped by `forwardRef`, `memo`, `React.forwardRef` and `React.memo`, and by
/// nothing else.
pub proof fn components_have_four_wrappers(callee: Tree)
    ensures
        is_named(callee, "forwardRef"@) ==> syntax::wraps_component(callee),
        is_named(callee, "memo"@) ==> syntax::wraps_component(callee),
        is_react_member(callee, "forwardRef"@) ==> syntax::wraps_component(callee),
        is_react_member(callee, "memo"@) ==> syntax::wraps_component(callee),
        syntax::wraps_component(callee) ==> is_wrapper(callee),
{
    reveal_strlit("Identifier");
    reveal_strlit("MemberExpression");
    assert("Identifier"@.len() != "MemberExpression"@.len());
}

/// Whether the initializer `init` is a component's: a class, a function, or a call of one of the
/// four wrappers with a function among its arguments.
pub open spec fn makes_component(init: Tree) -> bool {
    syntax::is_a(init, "ClassExpression"@) || makes_function_component(init)
}

/// Whether the initializer `init` is that of a component that is a function: by itself, or among
/// the arguments of one of the four wrappers.
pub open spec fn makes_function_component(init: Tree) -> bool {
    ||| is_function(init)
    ||| syntax::is_a(init, "CallExpression"@) && is_wrapper(syntax::child(init, "callee"@))
        && exists|i: int|
        0 <= i < syntax::items(init, "arguments"@).len() && is_function(
            #[trigger] syntax::items(init, "arguments"@)[i],
        )
}

/// Whether `function` is the one that makes the initializer `init` a component: itself, or the
/// first function among the arguments of a wrapper.
pub open spec fn function_of(init: Tree, function: Tree) -> bool {
    if is_function(init) {
        function == init
    } else {
        &&& syntax::is_a(init, "CallExpression"@)
        &&& is_wrapper(syntax::child(init, "callee"@))
        &&& exists|i: int|
            0 <= i < syntax::items(init, "arguments"@).len() && is_function(
                #[trigger] syntax::items(init, "arguments"@)[i],
            ) && function == syntax::items(init, "arguments"@)[i] && forall|j: int|
                0 <= j < i ==> !is_function(#[trigger] syntax::items(init, "arguments"@)[j])
    }
}

/// A variable is a component by its function: by the function that it is, or by the first one that
/// is handed to a wrapper.
pub proof fn component_functions_are_found(init: Tree)
    ensures
        syntax::component_function(init) is Some <==> makes_function_component(init),
        syntax::component_function(init) matches Some(function) ==> function_of(init, function),
        forall|function: Tree| #[trigger]
            function_of(init, function) ==> syntax::component_function(init) == Some(function),
{
    components_have_four_wrappers(syntax::child(init, "callee"@));
    let arguments = syntax::items(init, "arguments"@);
    first_function_is_first(arguments);
    assert forall|function: Tree| #[trigger] function_of(init, function) implies
        syntax::component_function(init) == Some(function) by {
        if !is_function(init) {
            let i = choose|i: int|
                0 <= i < arguments.len() && is_function(#[trigger] arguments[i]) && function
                    == arguments[i] && forall|j: int|
                    0 <= j < i ==> !is_function(#[trigger] arguments[j]);
            let found = syntax::first_function(arguments);
            assert(found is Some);
            let k = choose|k: int|
                0 <= k < arguments.len() && is_function(#[trigger] arguments[k]) && found
                    == Some(arguments[k]) && forall|j: int|
                    0 <= j < k ==> !is_function(#[trigger] arguments[j]);
            assert(i == k);
        }
    }
}

proof fn first_function_is_first(arguments: Seq<Tree>)
    ensures
        syntax::first_function(arguments) matches Some(function) ==> exists|i: int|
            0 <= i < arguments.len() && is_function(#[trigger] arguments[i]) && function
                == arguments[i] && forall|j: int|
                0 <= j < i ==> !is_function(#[trigger] arguments[j]),
        syntax::first_function(arguments) is None ==> forall|i: int|
            0 <= i < arguments.len() ==> !is_function(#[trigger] arguments[i]),
    decreases arguments.len(),
{
    if arguments.len() > 0 {
        let rest = arguments.drop_first();
        first_function_is_first(rest);
        if syntax::function_like(arguments[0]) {
            assert(is_function(arguments[0]));
        } else if syntax::first_function(rest) is Some {
            let function = syntax::first_function(rest)->0;
            let i = choose|i: int|
                0 <= i < rest.len() && is_function(#[trigger] rest[i]) && function == rest[i]
                    && forall|j: int| 0 <= j < i ==> !is_function(#[trigger] rest[j]);
            assert(arguments[i + 1] == rest[i]);
            assert forall|j: int| 0 <= j < i + 1 implies !is_function(#[trigger] arguments[j]) by {
                if j > 0 {
                    assert(rest[j - 1] == arguments[j]);
                }
            }
        } else {
            assert forall|i: int| 0 <= i < arguments.len() implies !is_function(
                #[trigger] arguments[i],
            ) by {
                if i > 0 {
                    assert(rest[i - 1] == arguments[i]);
                }
            }
        }
    }
}

/// Whether `statement` is the directive `"use server"`.
pub open spec fn says_use_server(statement: Tree) -> bool {
    &&& syntax::child(statement, "directive"@) is Text
    &&& syntax::child(syntax::child(statement, "expression"@), "value"@) matches Tree::Text(value)
        && value@ == "use server"@
}

/// Whether the body of `function` says that it runs on the server: one of its statements is the
/// directive `"use server"`. An arrow function whose body is an expression has no statements.
pub open spec fn says_server(function: Tree) -> bool {
    let statements = syntax::items(syntax::child(function, "body"@), "body"@);
    &&& !(syntax::is_a(function, "ArrowFunctionExpression"@) && syntax::child(
        function,
        "expression"@,
    ) == Tree::Bool(true))
    &&& exists|i: int| 0 <= i < statements.len() && says_use_server(#[trigger] statements[i])
}

/// A function runs on the server if and only if its body says so.
pub proof fn functions_run_on_the_server_by_directive(function: Tree)
    ensures
        syntax::runs_on_server(function) <==> says_server(function),
{
    let statements = syntax::items(syntax::child(function, "body"@), "body"@);
    if says_server(function) {
        let i = choose|i: int|
            0 <= i < statements.len() && says_use_server(#[trigger] statements[i]);
        assert(syntax::use_server_directive(statements[i]));
    }
    if syntax::runs_on_server(function) {
        let i = choose|i: int|
            0 <= i < statements.len() && syntax::use_server_directive(#[trigger] statements[i]);
        assert(says_use_server(statements[i]));
    }
}

/// The name of an import or an export is that of an identifier, or the value of a string.
pub proof fn exported_names_are_identifiers_or_strings(node: Tree)
    ensures
        syntax::is_a(node, "Identifier"@) ==> syntax::module_export_name(node) == syntax::name_of(
            node,
        ),
        !syntax::is_a(node, "Identifier"@) ==> syntax::module_export_name(node)
            == syntax::literal_of(node),
{
}

} // verus!
