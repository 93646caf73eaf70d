//! What the top level of a module declares, said of its statements.
use vstd::prelude::*;

use crate::declarations;
use crate::declarations::{
    ComponentRangeView, DeclarationsView, ImportEntryView, LocalComponentView, NamedRangeView,
    SourceFileView, TypeIdentifierView,
};
use crate::laws::shapes;
use crate::laws::walk;
use crate::names;
use crate::syntax;
use crate::tree::Tree;
use crate::utf16;
use crate::{Range, Span};

verus! {

/// Whether `name` begins with an upper-case letter of ASCII.
pub open spec fn is_upper(name: Seq<char>) -> bool {
    name.len() > 0 && 'A' <= name[0] <= 'Z'
}

/// The statements of the top level of `program`.
pub open spec fn statements_of(program: Tree) -> Seq<Tree> {
    syntax::items(program, "body"@)
}

/// The name that `part` gives to what it declares.
pub open spec fn own_name(part: Tree) -> Seq<char> {
    syntax::name_of(syntax::child(part, "id"@))
}

/// Whether `statement` exports what it declares, by name or as the default.
pub open spec fn is_export(statement: Tree) -> bool {
    syntax::is_a(statement, "ExportNamedDeclaration"@) || syntax::is_a(
        statement,
        "ExportDefaultDeclaration"@,
    )
}

/// What `statement` declares: itself, or what stands behind `export`.
pub open spec fn declaration_in(statement: Tree) -> Tree {
    if is_export(statement) {
        syntax::child(statement, "declaration"@)
    } else {
        statement
    }
}

/// Whether `declaration` declares a function or a class.
pub open spec fn is_function_or_class(declaration: Tree) -> bool {
    ||| syntax::is_a(declaration, "FunctionDeclaration"@)
    ||| syntax::is_a(declaration, "TSDeclareFunction"@)
    ||| syntax::is_a(declaration, "ClassDeclaration"@)
}

/// Whether the variable `part` holds a component.
pub open spec fn is_component_variable(part: Tree) -> bool {
    syntax::is_a(syntax::child(part, "id"@), "Identifier"@) && shapes::makes_component(
        syntax::child(part, "init"@),
    )
}

/// Whether `statement` declares a component by `part`: a function or a class; one of its
/// variables that holds a class, a function, or a function in one of the four wrappers; or a class
/// behind `export default`.
pub open spec fn is_component_in(statement: Tree, part: Tree) -> bool {
    let declaration = declaration_in(statement);
    &&& is_upper(own_name(part))
    &&& {
        ||| part == declaration && is_function_or_class(declaration)
        ||| part == declaration && syntax::is_a(statement, "ExportDefaultDeclaration"@)
            && syntax::is_a(declaration, "ClassExpression"@)
        ||| !syntax::is_a(statement, "ExportDefaultDeclaration"@) && syntax::is_a(
            declaration,
            "VariableDeclaration"@,
        ) && syntax::items(declaration, "declarations"@).contains(part) && is_component_variable(
            part,
        )
    }
}

/// Whether what a variable or a declaration `part` declares is asynchronous: it holds, or is, an
/// `async` function.
pub open spec fn is_async(part: Tree, variable: bool) -> bool {
    if variable {
        !syntax::is_a(syntax::child(part, "init"@), "ClassExpression"@) && exists|function: Tree|
            #[trigger] shapes::function_of(syntax::child(part, "init"@), function)
                && syntax::child(function, "async"@) == Tree::Bool(true)
    } else {
        (syntax::is_a(part, "FunctionDeclaration"@) || syntax::is_a(part, "TSDeclareFunction"@))
            && syntax::child(part, "async"@) == Tree::Bool(true)
    }
}

/// Whether the component that `statement` declares by `part` is asynchronous.
pub open spec fn is_async_in(statement: Tree, part: Tree) -> bool {
    is_async(part, syntax::is_a(declaration_in(statement), "VariableDeclaration"@))
}

/// Whether one of the first `count` of `statements` declares the component `name`.
pub open spec fn is_declared(statements: Seq<Tree>, count: int, name: Seq<char>) -> bool {
    exists|i: int, part: Tree|
        0 <= i < count && #[trigger] is_component_in(statements[i], part) && own_name(part) == name
}

/// Whether one of the first `count` of `statements` declares the component `name` in `span`.
pub open spec fn is_declared_in(
    statements: Seq<Tree>,
    count: int,
    name: Seq<char>,
    span: Span,
) -> bool {
    exists|i: int, part: Tree|
        0 <= i < count && #[trigger] is_component_in(statements[i], part) && own_name(part) == name
            && syntax::span_of(part) == span
}

proof fn statement_types_differ()
    ensures
        "ExportNamedDeclaration"@ != "ExportDefaultDeclaration"@,
        "ImportDeclaration"@ != "ExportNamedDeclaration"@,
        "ImportDeclaration"@ != "ExportDefaultDeclaration"@,
        "ImportDeclaration"@ != "FunctionDeclaration"@,
        "ImportDeclaration"@ != "TSDeclareFunction"@,
        "ImportDeclaration"@ != "ClassDeclaration"@,
        "ImportDeclaration"@ != "VariableDeclaration"@,
        "ImportDeclaration"@ != "TSTypeAliasDeclaration"@,
        "ImportDeclaration"@ != "TSInterfaceDeclaration"@,
        "ExportNamedDeclaration"@ != "FunctionDeclaration"@,
        "ExportNamedDeclaration"@ != "TSDeclareFunction"@,
        "ExportNamedDeclaration"@ != "ClassDeclaration"@,
        "ExportNamedDeclaration"@ != "VariableDeclaration"@,
        "ExportNamedDeclaration"@ != "TSTypeAliasDeclaration"@,
        "ExportNamedDeclaration"@ != "TSInterfaceDeclaration"@,
        "ExportDefaultDeclaration"@ != "FunctionDeclaration"@,
        "ExportDefaultDeclaration"@ != "TSDeclareFunction"@,
        "ExportDefaultDeclaration"@ != "ClassDeclaration"@,
        "ExportDefaultDeclaration"@ != "VariableDeclaration"@,
        "FunctionDeclaration"@ != "TSDeclareFunction"@,
        "FunctionDeclaration"@ != "ClassDeclaration"@,
        "FunctionDeclaration"@ != "VariableDeclaration"@,
        "FunctionDeclaration"@ != "VariableDeclarator"@,
        "FunctionDeclaration"@ != "ClassExpression"@,
        "FunctionDeclaration"@ != "Identifier"@,
        "FunctionDeclaration"@ != "TSTypeAliasDeclaration"@,
        "FunctionDeclaration"@ != "TSInterfaceDeclaration"@,
        "TSDeclareFunction"@ != "ClassDeclaration"@,
        "TSDeclareFunction"@ != "VariableDeclaration"@,
        "TSDeclareFunction"@ != "VariableDeclarator"@,
        "TSDeclareFunction"@ != "ClassExpression"@,
        "TSDeclareFunction"@ != "Identifier"@,
        "TSDeclareFunction"@ != "TSTypeAliasDeclaration"@,
        "TSDeclareFunction"@ != "TSInterfaceDeclaration"@,
        "ClassDeclaration"@ != "VariableDeclaration"@,
        "ClassDeclaration"@ != "VariableDeclarator"@,
        "ClassDeclaration"@ != "ClassExpression"@,
        "ClassDeclaration"@ != "Identifier"@,
        "ClassDeclaration"@ != "TSTypeAliasDeclaration"@,
        "ClassDeclaration"@ != "TSInterfaceDeclaration"@,
        "ClassExpression"@ != "VariableDeclarator"@,
        "ClassExpression"@ != "Identifier"@,
        "ClassExpression"@ != "ArrowFunctionExpression"@,
        "ClassExpression"@ != "FunctionExpression"@,
        "ClassExpression"@ != "CallExpression"@,
        "VariableDeclaration"@ != "TSTypeAliasDeclaration"@,
        "VariableDeclaration"@ != "TSInterfaceDeclaration"@,
        "VariableDeclaration"@ != "ClassExpression"@,
{
    reveal_strlit("ExportNamedDeclaration");
    reveal_strlit("ExportDefaultDeclaration");
    reveal_strlit("ImportDeclaration");
    reveal_strlit("FunctionDeclaration");
    reveal_strlit("TSDeclareFunction");
    reveal_strlit("ClassDeclaration");
    reveal_strlit("VariableDeclaration");
    reveal_strlit("VariableDeclarator");
    reveal_strlit("TSTypeAliasDeclaration");
    reveal_strlit("TSInterfaceDeclaration");
    reveal_strlit("ClassExpression");
    reveal_strlit("Identifier");
    reveal_strlit("ArrowFunctionExpression");
    reveal_strlit("FunctionExpression");
    reveal_strlit("CallExpression");
    assert("ExportNamedDeclaration"@.len() == 22 && "ExportNamedDeclaration"@[0] == 'E');
    assert("ExportDefaultDeclaration"@.len() == 24);
    assert("ImportDeclaration"@.len() == 17 && "ImportDeclaration"@[0] == 'I');
    assert("FunctionDeclaration"@.len() == 19 && "FunctionDeclaration"@[0] == 'F');
    assert("TSDeclareFunction"@.len() == 17 && "TSDeclareFunction"@[0] == 'T');
    assert("ClassDeclaration"@.len() == 16);
    assert("VariableDeclaration"@.len() == 19 && "VariableDeclaration"@[0] == 'V');
    assert("VariableDeclarator"@.len() == 18);
    assert("TSTypeAliasDeclaration"@.len() == 22 && "TSTypeAliasDeclaration"@[0] == 'T');
    assert("TSInterfaceDeclaration"@.len() == 22 && "TSInterfaceDeclaration"@[0] == 'T');
    assert("ClassExpression"@.len() == 15);
    assert("Identifier"@.len() == 10);
    assert("ArrowFunctionExpression"@.len() == 23);
    assert("FunctionExpression"@.len() == 18);
    assert("CallExpression"@.len() == 14);
}

/// Whether `later` holds the components of `earlier` and those of `parts`, and nothing else.
spec fn adds_components(
    earlier: DeclarationsView,
    later: DeclarationsView,
    parts: spec_fn(Tree) -> bool,
    variable: bool,
) -> bool {
    &&& forall|name: Seq<char>| #[trigger]
        names::has(later.local_components, name) <==> names::has(earlier.local_components, name)
            || exists|part: Tree| #[trigger] parts(part) && own_name(part) == name
    &&& forall|range: ComponentRangeView| #[trigger]
        later.component_ranges.contains(range) <==> earlier.component_ranges.contains(range)
            || exists|part: Tree| #[trigger]
            parts(part) && own_name(part) == range.name && syntax::span_of(part) == range.span
    &&& forall|name: Seq<char>| #[trigger]
        later.async_components.contains(name) <==> earlier.async_components.contains(name)
            || exists|part: Tree| #[trigger] parts(part) && own_name(part) == name && is_async(part, variable)
}

proof fn one_component_is_added(
    declared: DeclarationsView,
    file: SourceFileView,
    part: Tree,
    name_span: Span,
    asynchronous: bool,
    variable: bool,
)
    requires
        is_upper(own_name(part)),
        asynchronous == is_async(part, variable),
    ensures
        adds_components(
            declared,
            declarations::with_async(
                declarations::with_component(
                    declared,
                    file,
                    own_name(part),
                    name_span,
                    syntax::span_of(part),
                ),
                own_name(part),
                asynchronous,
            ),
            |other: Tree| other == part,
            variable,
        ),
{
    let only = |other: Tree| other == part;
    let name = own_name(part);
    let added = ComponentRangeView { span: syntax::span_of(part), name };
    let value = LocalComponentView {
        kind: file.kind,
        ranges: declarations::span_ranges(file.boundaries, name_span),
    };
    let later = declarations::with_async(
        declarations::with_component(declared, file, name, name_span, syntax::span_of(part)),
        name,
        asynchronous,
    );
    assert(only(part));
    assert forall|other: Seq<char>| #[trigger]
        names::has(later.local_components, other) <==> names::has(declared.local_components, other)
            || exists|found: Tree| #[trigger] only(found) && own_name(found) == other by {
        names::lookup_after_put(declared.local_components, name, value, other);
    }
    assert(later.component_ranges == declared.component_ranges.push(added));
    assert forall|range: ComponentRangeView| #[trigger]
        later.component_ranges.contains(range) <==> declared.component_ranges.contains(range)
            || exists|found: Tree| #[trigger]
            only(found) && own_name(found) == range.name && syntax::span_of(found) == range.span by {
        let earlier = declared.component_ranges;
        if earlier.contains(range) {
            let i = choose|i: int| 0 <= i < earlier.len() && earlier[i] == range;
            assert(later.component_ranges[i] == range);
        }
        if range == added {
            assert(later.component_ranges[earlier.len() as int] == range);
        }
        if later.component_ranges.contains(range) {
            let i = choose|i: int|
                0 <= i < later.component_ranges.len() && later.component_ranges[i] == range;
            if i < earlier.len() {
                assert(earlier[i] == range);
            }
        }
    }
}

/// Whether `part` is a variable with a component's name that holds a component, among the first
/// `count` of `declarators`.
spec fn is_variable_among(declarators: Seq<Tree>, count: int, part: Tree) -> bool {
    exists|i: int|
        0 <= i < count && #[trigger] declarators[i] == part && is_upper(own_name(part))
            && is_component_variable(part)
}

proof fn same_parts_are_added(
    earlier: DeclarationsView,
    later: DeclarationsView,
    parts: spec_fn(Tree) -> bool,
    others: spec_fn(Tree) -> bool,
    variable: bool,
)
    requires
        adds_components(earlier, later, parts, variable),
        forall|part: Tree| #[trigger] parts(part) ==> others(part),
        forall|part: Tree| #[trigger] others(part) ==> parts(part),
    ensures
        adds_components(earlier, later, others, variable),
{
    assert(forall|part: Tree| parts(part) <==> #[trigger] others(part));
    assert forall|name: Seq<char>| #[trigger]
        names::has(later.local_components, name) <==> names::has(earlier.local_components, name)
            || exists|part: Tree| #[trigger] others(part) && own_name(part) == name by {
        if exists|part: Tree| #[trigger] others(part) && own_name(part) == name {
            let part = choose|part: Tree| #[trigger] others(part) && own_name(part) == name;
            assert(parts(part));
        }
    }
    assert forall|range: ComponentRangeView| #[trigger]
        later.component_ranges.contains(range) <==> earlier.component_ranges.contains(range)
            || exists|part: Tree| #[trigger]
            others(part) && own_name(part) == range.name && syntax::span_of(part) == range.span by {
        if exists|part: Tree| #[trigger]
            others(part) && own_name(part) == range.name && syntax::span_of(part) == range.span {
            let part = choose|part: Tree| #[trigger]
                others(part) && own_name(part) == range.name && syntax::span_of(part) == range.span;
            assert(parts(part));
        }
    }
    assert forall|name: Seq<char>| #[trigger]
        later.async_components.contains(name) <==> earlier.async_components.contains(name)
            || exists|part: Tree| #[trigger]
            others(part) && own_name(part) == name && is_async(part, variable) by {
        if exists|part: Tree| #[trigger]
            others(part) && own_name(part) == name && is_async(part, variable) {
            let part = choose|part: Tree| #[trigger]
                others(part) && own_name(part) == name && is_async(part, variable);
            assert(parts(part));
        }
    }
}

proof fn parts_add_up(
    first: DeclarationsView,
    second: DeclarationsView,
    third: DeclarationsView,
    parts: spec_fn(Tree) -> bool,
    others: spec_fn(Tree) -> bool,
    variable: bool,
)
    requires
        adds_components(first, second, parts, variable),
        adds_components(second, third, others, variable),
    ensures
        adds_components(first, third, |part: Tree| parts(part) || others(part), variable),
{
    let both = |part: Tree| parts(part) || others(part);
    assert(forall|part: Tree| #[trigger] parts(part) ==> both(part));
    assert(forall|part: Tree| #[trigger] others(part) ==> both(part));
    assert forall|name: Seq<char>| #[trigger]
        names::has(third.local_components, name) <==> names::has(first.local_components, name)
            || exists|part: Tree| #[trigger] both(part) && own_name(part) == name by {
        if exists|part: Tree| #[trigger] both(part) && own_name(part) == name {
            let part = choose|part: Tree| #[trigger] both(part) && own_name(part) == name;
            assert(parts(part) || others(part));
        }
    }
    assert forall|range: ComponentRangeView| #[trigger]
        third.component_ranges.contains(range) <==> first.component_ranges.contains(range)
            || exists|part: Tree| #[trigger]
            both(part) && own_name(part) == range.name && syntax::span_of(part) == range.span by {
        if exists|part: Tree| #[trigger]
            both(part) && own_name(part) == range.name && syntax::span_of(part) == range.span {
            let part = choose|part: Tree| #[trigger]
                both(part) && own_name(part) == range.name && syntax::span_of(part) == range.span;
            assert(parts(part) || others(part));
        }
    }
    assert forall|name: Seq<char>| #[trigger]
        third.async_components.contains(name) <==> first.async_components.contains(name)
            || exists|part: Tree| #[trigger]
            both(part) && own_name(part) == name && is_async(part, variable) by {
        if exists|part: Tree| #[trigger] both(part) && own_name(part) == name && is_async(part, variable) {
            let part = choose|part: Tree| #[trigger]
                both(part) && own_name(part) == name && is_async(part, variable);
            assert(parts(part) || others(part));
        }
    }
}

proof fn nothing_is_added(
    earlier: DeclarationsView,
    later: DeclarationsView,
    parts: spec_fn(Tree) -> bool,
    variable: bool,
)
    requires
        later.local_components == earlier.local_components,
        later.component_ranges == earlier.component_ranges,
        later.async_components == earlier.async_components,
        forall|part: Tree| !#[trigger] parts(part),
    ensures
        adds_components(earlier, later, parts, variable),
{
}

proof fn variables_are_added(
    declared: DeclarationsView,
    file: SourceFileView,
    declarators: Seq<Tree>,
    count: nat,
)
    requires
        count <= declarators.len(),
    ensures
        adds_components(
            declared,
            declarations::with_variables(declared, file, declarators, count),
            |part: Tree| is_variable_among(declarators, count as int, part),
            true,
        ),
    decreases count,
{
    let later = declarations::with_variables(declared, file, declarators, count);
    let parts = |part: Tree| is_variable_among(declarators, count as int, part);
    if count == 0 {
        nothing_is_added(declared, later, parts, true);
    } else {
        let before = (count - 1) as nat;
        let earlier = declarations::with_variables(declared, file, declarators, before);
        let few = |part: Tree| is_variable_among(declarators, before as int, part);
        let part = declarators[count - 1];
        let init = syntax::child(part, "init"@);
        let added = |other: Tree|
            other == part && is_upper(own_name(part)) && is_component_variable(part);
        variables_are_added(declared, file, declarators, before);
        statement_types_differ();
        shapes::component_functions_are_found(init);
        if is_upper(own_name(part)) && is_component_variable(part) {
            let asynchronous = !syntax::is_a(init, "ClassExpression"@) && syntax::flag(
                syntax::component_function(init)->0,
                "async"@,
            );
            if asynchronous {
                assert(shapes::function_of(init, syntax::component_function(init)->0));
            }
            one_component_is_added(
                earlier,
                file,
                part,
                declarations::binding_span(file.text, syntax::child(part, "id"@)),
                asynchronous,
                true,
            );
            same_parts_are_added(earlier, later, |other: Tree| other == part, added, true);
        } else {
            nothing_is_added(earlier, later, added, true);
        }
        parts_add_up(declared, earlier, later, few, added, true);
        let both = |other: Tree| few(other) || added(other);
        assert forall|other: Tree| #[trigger] both(other) implies parts(other) by {
            if few(other) {
                let i = choose|i: int|
                    0 <= i < before && #[trigger] declarators[i] == other && is_upper(
                        own_name(other),
                    ) && is_component_variable(other);
                assert(declarators[i] == other);
            } else {
                assert(declarators[count - 1] == other);
            }
        }
        assert forall|other: Tree| #[trigger] parts(other) implies both(other) by {
            let i = choose|i: int|
                0 <= i < count && #[trigger] declarators[i] == other && is_upper(own_name(other))
                    && is_component_variable(other);
            if i < before {
                assert(few(other));
            }
        }
        same_parts_are_added(declared, later, both, parts, true);
    }
}

proof fn statement_adds_components(
    declared: DeclarationsView,
    file: SourceFileView,
    statement: Tree,
)
    ensures
        adds_components(
            declared,
            declarations::with_statement(declared, file, statement),
            |part: Tree| is_component_in(statement, part),
            syntax::is_a(declaration_in(statement), "VariableDeclaration"@),
        ),
{
    statement_types_differ();
    let later = declarations::with_statement(declared, file, statement);
    let parts = |part: Tree| is_component_in(statement, part);
    let declaration = declaration_in(statement);
    let variable = syntax::is_a(declaration, "VariableDeclaration"@);
    let default = syntax::is_a(statement, "ExportDefaultDeclaration"@);
    let specifiers = syntax::items(statement, "specifiers"@);
    let inner = if syntax::is_a(statement, "ExportNamedDeclaration"@) {
        declarations::with_exported_declaration(declared, file, declaration)
    } else {
        later
    };
    if syntax::is_a(statement, "ExportNamedDeclaration"@) {
        references_add_no_components(inner, file, specifiers, specifiers.len());
    }
    if syntax::is_a(statement, "ImportDeclaration"@) {
        imports_add_no_components(
            declared,
            file,
            syntax::literal_of(syntax::child(statement, "source"@)),
            specifiers,
            specifiers.len(),
        );
        nothing_is_added(declared, later, parts, variable);
    } else if (is_function_or_class(declaration) || default && syntax::is_a(
        declaration,
        "ClassExpression"@,
    )) && is_upper(own_name(declaration)) {
        let id = syntax::child(declaration, "id"@);
        let asynchronous = is_async(declaration, false);
        one_component_is_added(
            declared,
            file,
            declaration,
            syntax::span_of(id),
            asynchronous,
            false,
        );
        let only = |other: Tree| other == declaration;
        assert(adds_components(declared, inner, only, false));
        assert(later.local_components == inner.local_components && later.component_ranges
            == inner.component_ranges && later.async_components == inner.async_components);
        same_parts_are_added(declared, later, only, parts, false);
    } else if variable && !default {
        let declarators = syntax::items(declaration, "declarations"@);
        let found = |part: Tree| is_variable_among(declarators, declarators.len() as int, part);
        variables_are_added(declared, file, declarators, declarators.len());
        assert forall|part: Tree| #[trigger] found(part) implies parts(part) by {
            let i = choose|i: int|
                0 <= i < declarators.len() && #[trigger] declarators[i] == part && is_upper(
                    own_name(part),
                ) && is_component_variable(part);
            assert(declarators.contains(part));
        }
        assert forall|part: Tree| #[trigger] parts(part) implies found(part) by {
            let i = choose|i: int| 0 <= i < declarators.len() && declarators[i] == part;
            assert(declarators[i] == part);
        }
        assert(adds_components(declared, inner, found, true));
        assert(adds_components(declared, later, found, true));
        same_parts_are_added(declared, later, found, parts, true);
    } else {
        nothing_is_added(declared, later, parts, variable);
    }
}

proof fn references_add_no_components(
    declared: DeclarationsView,
    file: SourceFileView,
    specifiers: Seq<Tree>,
    count: nat,
)
    ensures
        ({
            let later = declarations::with_export_specifiers(declared, file, specifiers, count);
            &&& later.local_components == declared.local_components
            &&& later.component_ranges == declared.component_ranges
            &&& later.async_components == declared.async_components
            &&& later.imports == declared.imports
            &&& later.type_identifiers == declared.type_identifiers
        }),
    decreases count,
{
    if 0 < count <= specifiers.len() {
        references_add_no_components(declared, file, specifiers, (count - 1) as nat);
    }
}

proof fn imports_add_no_components(
    declared: DeclarationsView,
    file: SourceFileView,
    source: Seq<char>,
    specifiers: Seq<Tree>,
    count: nat,
)
    ensures
        ({
            let later = declarations::with_imports(declared, file, source, specifiers, count);
            &&& later.local_components == declared.local_components
            &&& later.component_ranges == declared.component_ranges
            &&& later.async_components == declared.async_components
            &&& later.export_references == declared.export_references
            &&& later.type_identifiers == declared.type_identifiers
        }),
    decreases count,
{
    if 0 < count <= specifiers.len() {
        imports_add_no_components(declared, file, source, specifiers, (count - 1) as nat);
    }
}

proof fn statements_add_components(file: SourceFileView, statements: Seq<Tree>, count: nat)
    requires
        count <= statements.len(),
    ensures
        ({
            let declared = declarations::declared_by(file, statements, count);
            &&& forall|name: Seq<char>| #[trigger]
                names::has(declared.local_components, name) <==> is_declared(
                    statements,
                    count as int,
                    name,
                )
            &&& forall|range: ComponentRangeView| #[trigger]
                declared.component_ranges.contains(range) <==> is_declared_in(
                    statements,
                    count as int,
                    range.name,
                    range.span,
                )
            &&& forall|name: Seq<char>| #[trigger]
                declared.async_components.contains(name) <==> exists|i: int, part: Tree|
                    0 <= i < count && #[trigger] is_component_in(statements[i], part) && own_name(
                        part,
                    ) == name && is_async_in(statements[i], part)
        }),
    decreases count,
{
    let later = declarations::declared_by(file, statements, count);
    if count > 0 {
        let before = (count - 1) as nat;
        let earlier = declarations::declared_by(file, statements, before);
        let statement = statements[count - 1];
        let parts = |part: Tree| is_component_in(statement, part);
        let variable = syntax::is_a(declaration_in(statement), "VariableDeclaration"@);
        statements_add_components(file, statements, before);
        statement_adds_components(earlier, file, statement);
        assert(adds_components(earlier, later, parts, variable));
        assert forall|name: Seq<char>| #[trigger]
            names::has(later.local_components, name) <==> is_declared(
                statements,
                count as int,
                name,
            ) by {
            if exists|part: Tree| #[trigger] parts(part) && own_name(part) == name {
                let part = choose|part: Tree| #[trigger] parts(part) && own_name(part) == name;
                assert(is_component_in(statements[count - 1], part));
            }
            if is_declared(statements, before as int, name) {
                let (i, part) = choose|i: int, part: Tree|
                    0 <= i < before && #[trigger] is_component_in(statements[i], part) && own_name(
                        part,
                    ) == name;
                assert(is_component_in(statements[i], part));
            }
            if is_declared(statements, count as int, name) {
                let (i, part) = choose|i: int, part: Tree|
                    0 <= i < count && #[trigger] is_component_in(statements[i], part) && own_name(
                        part,
                    ) == name;
                if i == count - 1 {
                    assert(parts(part));
                } else {
                    assert(is_declared(statements, before as int, name));
                }
            }
        }
        assert forall|range: ComponentRangeView| #[trigger]
            later.component_ranges.contains(range) <==> is_declared_in(
                statements,
                count as int,
                range.name,
                range.span,
            ) by {
            if exists|part: Tree| #[trigger]
                parts(part) && own_name(part) == range.name && syntax::span_of(part)
                    == range.span {
                let part = choose|part: Tree| #[trigger]
                    parts(part) && own_name(part) == range.name && syntax::span_of(part)
                        == range.span;
                assert(is_component_in(statements[count - 1], part));
            }
            if is_declared_in(statements, before as int, range.name, range.span) {
                let (i, part) = choose|i: int, part: Tree|
                    0 <= i < before && #[trigger] is_component_in(statements[i], part) && own_name(
                        part,
                    ) == range.name && syntax::span_of(part) == range.span;
                assert(is_component_in(statements[i], part));
            }
            if is_declared_in(statements, count as int, range.name, range.span) {
                let (i, part) = choose|i: int, part: Tree|
                    0 <= i < count && #[trigger] is_component_in(statements[i], part) && own_name(
                        part,
                    ) == range.name && syntax::span_of(part) == range.span;
                if i == count - 1 {
                    assert(parts(part));
                } else {
                    assert(is_declared_in(statements, before as int, range.name, range.span));
                }
            }
        }
        assert forall|name: Seq<char>| #[trigger]
            later.async_components.contains(name) <==> exists|i: int, part: Tree|
                0 <= i < count && #[trigger] is_component_in(statements[i], part) && own_name(part)
                    == name && is_async_in(statements[i], part) by {
            if earlier.async_components.contains(name) {
                let (i, part) = choose|i: int, part: Tree|
                    0 <= i < before && #[trigger] is_component_in(statements[i], part) && own_name(
                        part,
                    ) == name && is_async_in(statements[i], part);
                assert(is_component_in(statements[i], part));
            }
            if exists|part: Tree| #[trigger]
                parts(part) && own_name(part) == name && is_async(part, variable) {
                let part = choose|part: Tree| #[trigger]
                    parts(part) && own_name(part) == name && is_async(part, variable);
                assert(is_component_in(statements[count - 1], part));
                assert(is_async_in(statements[count - 1], part));
            }
            if exists|i: int, part: Tree|
                0 <= i < count && #[trigger] is_component_in(statements[i], part) && own_name(part)
                    == name && is_async_in(statements[i], part) {
                let (i, part) = choose|i: int, part: Tree|
                    0 <= i < count && #[trigger] is_component_in(statements[i], part) && own_name(
                        part,
                    ) == name && is_async_in(statements[i], part);
                if i == count - 1 {
                    assert(parts(part));
                }
            }
        }
    }
}

/// The components of a module are those that its top level declares as functions, as classes, and
/// as variables that hold a class, a function, or a function in `forwardRef`, `memo`,
/// `React.forwardRef` or `React.memo`, each under a name that begins in upper case. To each
/// belongs the part of the source that declares it, and it is asynchronous if one of its
/// declarations is.
pub proof fn components_are_those_that_are_declared(
    file: SourceFileView,
    program: Tree,
    name: Seq<char>,
    span: Span,
)
    ensures
        ({
            let declared = declarations::declarations_of(file, program);
            let statements = statements_of(program);
            let count = statements.len() as int;
            &&& names::has(declared.local_components, name) <==> is_declared(
                statements,
                count,
                name,
            )
            &&& declared.component_ranges.contains(ComponentRangeView { span, name })
                <==> is_declared_in(statements, count, name, span)
            &&& declared.async_components.contains(name) <==> exists|i: int, part: Tree|
                0 <= i < count && #[trigger] is_component_in(statements[i], part) && own_name(part)
                    == name && is_async_in(statements[i], part)
        }),
{
    let statements = statements_of(program);
    statements_add_components(file, statements, statements.len());
    let declared = declarations::declarations_of(file, program);
    let range = ComponentRangeView { span, name };
    assert(declared.component_ranges.contains(range) <==> is_declared_in(
        statements,
        statements.len() as int,
        range.name,
        range.span,
    ));
}

/// Whether the specifier `at` of the statement `index` imports something under `name`.
pub open spec fn imports_at(statements: Seq<Tree>, index: int, at: int, name: Seq<char>) -> bool {
    let specifiers = syntax::items(statements[index], "specifiers"@);
    &&& 0 <= index < statements.len()
    &&& 0 <= at < specifiers.len()
    &&& syntax::is_a(statements[index], "ImportDeclaration"@)
    &&& is_imported_as(specifiers[at], name)
}

/// Whether `specifier` imports something under `name`.
pub open spec fn is_imported_as(specifier: Tree, name: Seq<char>) -> bool {
    is_upper(name) && syntax::name_of(syntax::child(specifier, "local"@)) == name
}

/// The name under which another module exports what `specifier` imports from it: `default` for a
/// default import, `*` for the whole module, else the name that is written before `as`.
pub open spec fn exported_name_of(specifier: Tree) -> Seq<char> {
    let imported = syntax::child(specifier, "imported"@);
    if syntax::is_a(specifier, "ImportDefaultSpecifier"@) {
        "default"@
    } else if syntax::is_a(specifier, "ImportNamespaceSpecifier"@) {
        "*"@
    } else if syntax::is_a(imported, "Identifier"@) {
        syntax::name_of(imported)
    } else {
        syntax::literal_of(imported)
    }
}

/// Whether `entry` is what the specifier `at` of the statement `index` imports: from the module
/// that stands behind `from`, under the name that it has there, and marked at its local name.
pub open spec fn is_import_at(
    file: SourceFileView,
    statements: Seq<Tree>,
    index: int,
    at: int,
    entry: ImportEntryView,
) -> bool {
    let specifier = syntax::items(statements[index], "specifiers"@)[at];
    &&& entry.source == syntax::literal_of(syntax::child(statements[index], "source"@))
    &&& entry.export_name == exported_name_of(specifier)
    &&& walk::marks_span(
        file,
        syntax::span_of(syntax::child(specifier, "local"@)),
        entry.ranges,
    )
}

/// The last of the first `count` of `specifiers` that imports something under `name`.
spec fn last_imported(specifiers: Seq<Tree>, count: int, name: Seq<char>) -> Option<int>
    decreases count,
{
    if count <= 0 || count > specifiers.len() {
        None
    } else if is_imported_as(specifiers[count - 1], name) {
        Some(count - 1)
    } else {
        last_imported(specifiers, count - 1, name)
    }
}

proof fn last_imported_is_last(specifiers: Seq<Tree>, count: int, name: Seq<char>)
    requires
        0 <= count <= specifiers.len(),
    ensures
        match last_imported(specifiers, count, name) {
            Some(at) => 0 <= at < count && is_imported_as(specifiers[at], name) && forall|j: int|
                at < j < count ==> !is_imported_as(#[trigger] specifiers[j], name),
            None => forall|j: int|
                0 <= j < count ==> !is_imported_as(#[trigger] specifiers[j], name),
        },
    decreases count,
{
    if count > 0 && !is_imported_as(specifiers[count - 1], name) {
        last_imported_is_last(specifiers, count - 1, name);
    }
}

/// What `specifier` imports from `source`.
spec fn entry_of(file: SourceFileView, source: Seq<char>, specifier: Tree) -> ImportEntryView {
    ImportEntryView {
        export_name: exported_name_of(specifier),
        ranges: declarations::span_ranges(
            file.boundaries,
            syntax::span_of(syntax::child(specifier, "local"@)),
        ),
        source,
    }
}

proof fn specifiers_are_put(
    found: DeclarationsView,
    file: SourceFileView,
    source: Seq<char>,
    specifiers: Seq<Tree>,
    count: nat,
    name: Seq<char>,
)
    requires
        count <= specifiers.len(),
    ensures
        names::lookup(
            declarations::with_imports(found, file, source, specifiers, count).imports,
            name,
        ) == (match last_imported(specifiers, count as int, name) {
            Some(at) => Some(entry_of(file, source, specifiers[at])),
            None => names::lookup(found.imports, name),
        }),
    decreases count,
{
    if count > 0 {
        let before = (count - 1) as nat;
        let specifier = specifiers[count - 1];
        specifiers_are_put(found, file, source, specifiers, before, name);
        let earlier = declarations::with_imports(found, file, source, specifiers, before);
        names::lookup_after_put(
            earlier.imports,
            syntax::name_of(syntax::child(specifier, "local"@)),
            entry_of(file, source, specifier),
            name,
        );
    }
}

/// The last specifier in the first `count` of `statements` that imports something under `name`.
spec fn last_import(statements: Seq<Tree>, count: int, name: Seq<char>) -> Option<(int, int)>
    decreases count,
{
    if count <= 0 || count > statements.len() {
        None
    } else {
        let specifiers = syntax::items(statements[count - 1], "specifiers"@);
        match last_imported(specifiers, specifiers.len() as int, name) {
            Some(at) => if syntax::is_a(statements[count - 1], "ImportDeclaration"@) {
                Some((count - 1, at))
            } else {
                last_import(statements, count - 1, name)
            },
            None => last_import(statements, count - 1, name),
        }
    }
}

proof fn last_import_is_last(statements: Seq<Tree>, count: int, name: Seq<char>)
    requires
        0 <= count <= statements.len(),
    ensures
        match last_import(statements, count, name) {
            Some(found) => found.0 < count && imports_at(statements, found.0, found.1, name)
                && forall|index: int, at: int| #[trigger]
                imports_at(statements, index, at, name) && index < count ==> index < found.0
                    || index == found.0 && at <= found.1,
            None => forall|index: int, at: int| #[trigger]
                imports_at(statements, index, at, name) ==> index >= count,
        },
    decreases count,
{
    if count > 0 {
        let specifiers = syntax::items(statements[count - 1], "specifiers"@);
        last_imported_is_last(specifiers, specifiers.len() as int, name);
        last_import_is_last(statements, count - 1, name);
    }
}

proof fn variables_leave_the_rest(
    found: DeclarationsView,
    file: SourceFileView,
    declarators: Seq<Tree>,
    count: nat,
)
    ensures
        ({
            let later = declarations::with_variables(found, file, declarators, count);
            &&& later.imports == found.imports
            &&& later.export_references == found.export_references
            &&& later.type_identifiers == found.type_identifiers
        }),
    decreases count,
{
    if 0 < count <= declarators.len() {
        variables_leave_the_rest(found, file, declarators, (count - 1) as nat);
    }
}

proof fn last_import_counts(
    file: SourceFileView,
    statements: Seq<Tree>,
    count: nat,
    name: Seq<char>,
)
    requires
        count <= statements.len(),
    ensures
        names::lookup(declarations::declared_by(file, statements, count).imports, name) == (
        match last_import(statements, count as int, name) {
            Some(found) => Some(
                entry_of(
                    file,
                    syntax::literal_of(syntax::child(statements[found.0], "source"@)),
                    syntax::items(statements[found.0], "specifiers"@)[found.1],
                ),
            ),
            None => None,
        }),
    decreases count,
{
    if count > 0 {
        let before = (count - 1) as nat;
        let earlier = declarations::declared_by(file, statements, before);
        let statement = statements[count - 1];
        let specifiers = syntax::items(statement, "specifiers"@);
        let declaration = declaration_in(statement);
        let declarators = syntax::items(declaration, "declarations"@);
        statement_types_differ();
        last_import_counts(file, statements, before, name);
        specifiers_are_put(
            earlier,
            file,
            syntax::literal_of(syntax::child(statement, "source"@)),
            specifiers,
            specifiers.len(),
            name,
        );
        variables_leave_the_rest(earlier, file, declarators, declarators.len());
        references_add_no_components(
            declarations::with_exported_declaration(earlier, file, declaration),
            file,
            specifiers,
            specifiers.len(),
        );
    }
}

/// What a module imports under a name that begins in upper case is what the last specifier that
/// gives it this name says.
pub proof fn imports_are_what_their_specifiers_say(
    file: SourceFileView,
    program: Tree,
    name: Seq<char>,
    index: int,
    at: int,
)
    requires
        imports_at(statements_of(program), index, at, name),
        forall|i: int, j: int| #[trigger]
            imports_at(statements_of(program), i, j, name) ==> i < index || i == index && j <= at,
    ensures
        names::lookup(declarations::declarations_of(file, program).imports, name) matches Some(
            entry,
        ) && is_import_at(file, statements_of(program), index, at, entry),
{
    let statements = statements_of(program);
    last_import_counts(file, statements, statements.len(), name);
    last_import_is_last(statements, statements.len() as int, name);
    assert(imports_at(statements, index, at, name));
}

/// A module imports nothing else under such names.
pub proof fn imports_are_written(file: SourceFileView, program: Tree, name: Seq<char>)
    ensures
        names::has(declarations::declarations_of(file, program).imports, name) <==> exists|
            index: int,
            at: int,
        | #[trigger]
            imports_at(statements_of(program), index, at, name),
{
    let statements = statements_of(program);
    last_import_counts(file, statements, statements.len(), name);
    last_import_is_last(statements, statements.len() as int, name);
    if let Some(found) = last_import(statements, statements.len() as int, name) {
        assert(imports_at(statements, found.0, found.1, name));
    }
}

/// Whether `statement` refers to `name` in `span` by an export: by the name that one of its
/// specifiers exports something under, or by an identifier behind `export default`.
pub open spec fn refers_by_export(statement: Tree, name: Seq<char>, span: Span) -> bool {
    let specifiers = syntax::items(statement, "specifiers"@);
    let declaration = syntax::child(statement, "declaration"@);
    &&& is_upper(name)
    &&& {
        ||| syntax::is_a(statement, "ExportNamedDeclaration"@) && exists|i: int|
            0 <= i < specifiers.len() && exports_under(#[trigger] specifiers[i], name, span)
        ||| syntax::is_a(statement, "ExportDefaultDeclaration"@) && shapes::is_named(
            declaration,
            name,
        ) && span == syntax::span_of(declaration)
    }
}

/// Whether `specifier` exports something under `name`, which stands in `span`.
pub open spec fn exports_under(specifier: Tree, name: Seq<char>, span: Span) -> bool {
    let exported = syntax::child(specifier, "exported"@);
    &&& span == syntax::span_of(exported)
    &&& name == (if syntax::is_a(exported, "Identifier"@) {
        syntax::name_of(exported)
    } else {
        syntax::literal_of(exported)
    })
}

/// Whether `reference` is the name `name` in `span`.
pub open spec fn is_reference(
    file: SourceFileView,
    name: Seq<char>,
    span: Span,
    reference: NamedRangeView,
) -> bool {
    reference.name == name && walk::marks_span(file, span, reference.ranges)
}

proof fn pushed_is_contained<T>(list: Seq<T>, added: T, item: T)
    ensures
        list.push(added).contains(item) <==> list.contains(item) || item == added,
{
    let longer = list.push(added);
    if list.contains(item) {
        let i = choose|i: int| 0 <= i < list.len() && list[i] == item;
        assert(longer[i] == item);
    }
    if item == added {
        assert(longer[list.len() as int] == item);
    }
    if longer.contains(item) {
        let i = choose|i: int| 0 <= i < longer.len() && longer[i] == item;
        if i < list.len() {
            assert(list[i] == item);
        }
    }
}

/// Whether one of the first `count` of `specifiers` exports something under a name in upper case
/// that `reference` is.
spec fn one_refers(
    file: SourceFileView,
    specifiers: Seq<Tree>,
    count: int,
    reference: NamedRangeView,
) -> bool {
    exists|i: int, span: Span|
        0 <= i < count && #[trigger] exports_under(specifiers[i], reference.name, span) && is_upper(
            reference.name,
        ) && is_reference(file, reference.name, span, reference)
}

proof fn specifiers_refer(
    found: DeclarationsView,
    file: SourceFileView,
    specifiers: Seq<Tree>,
    count: nat,
    reference: NamedRangeView,
)
    requires
        count <= specifiers.len(),
    ensures
        declarations::with_export_specifiers(found, file, specifiers, count).export_references
            .contains(reference) <==> found.export_references.contains(reference) || one_refers(
            file,
            specifiers,
            count as int,
            reference,
        ),
    decreases count,
{
    if count > 0 {
        let before = (count - 1) as nat;
        let specifier = specifiers[count - 1];
        let exported = syntax::child(specifier, "exported"@);
        let span = syntax::span_of(exported);
        let name = syntax::module_export_name(exported);
        let added = NamedRangeView {
            name,
            ranges: declarations::span_ranges(file.boundaries, span),
        };
        specifiers_refer(found, file, specifiers, before, reference);
        pushed_is_contained(
            declarations::with_export_specifiers(found, file, specifiers, before).export_references,
            added,
            reference,
        );
        if is_upper(name) && reference == added {
            assert(exports_under(specifiers[count - 1], reference.name, span));
        }
        if one_refers(file, specifiers, before as int, reference) {
            let (i, other) = choose|i: int, other: Span|
                0 <= i < before && #[trigger] exports_under(specifiers[i], reference.name, other)
                    && is_upper(reference.name) && is_reference(
                    file,
                    reference.name,
                    other,
                    reference,
                );
            assert(exports_under(specifiers[i], reference.name, other));
        }
        if one_refers(file, specifiers, count as int, reference) {
            let (i, other) = choose|i: int, other: Span|
                0 <= i < count && #[trigger] exports_under(specifiers[i], reference.name, other)
                    && is_upper(reference.name) && is_reference(
                    file,
                    reference.name,
                    other,
                    reference,
                );
            if i < before {
                assert(exports_under(specifiers[i], reference.name, other));
                assert(one_refers(file, specifiers, before as int, reference));
            } else {
                assert(reference.ranges =~= added.ranges);
            }
        }
    }
}

proof fn statement_refers(
    found: DeclarationsView,
    file: SourceFileView,
    statement: Tree,
    reference: NamedRangeView,
)
    ensures
        declarations::with_statement(found, file, statement).export_references.contains(reference)
            <==> found.export_references.contains(reference) || exists|span: Span| #[trigger]
            refers_by_export(statement, reference.name, span) && is_reference(
                file,
                reference.name,
                span,
                reference,
            ),
{
    let specifiers = syntax::items(statement, "specifiers"@);
    let declaration = declaration_in(statement);
    let declarators = syntax::items(declaration, "declarations"@);
    let inner = declarations::with_exported_declaration(found, file, declaration);
    statement_types_differ();
    variables_leave_the_rest(found, file, declarators, declarators.len());
    imports_add_no_components(
        found,
        file,
        syntax::literal_of(syntax::child(statement, "source"@)),
        specifiers,
        specifiers.len(),
    );
    specifiers_refer(inner, file, specifiers, specifiers.len(), reference);
    assert(inner.export_references == found.export_references);
    if syntax::is_a(statement, "ExportNamedDeclaration"@) {
        if one_refers(file, specifiers, specifiers.len() as int, reference) {
            let (i, span) = choose|i: int, span: Span|
                0 <= i < specifiers.len() && #[trigger] exports_under(
                    specifiers[i],
                    reference.name,
                    span,
                ) && is_upper(reference.name) && is_reference(
                    file,
                    reference.name,
                    span,
                    reference,
                );
            assert(refers_by_export(statement, reference.name, span));
        }
        if exists|span: Span| #[trigger]
            refers_by_export(statement, reference.name, span) && is_reference(
                file,
                reference.name,
                span,
                reference,
            ) {
            let span = choose|span: Span| #[trigger]
                refers_by_export(statement, reference.name, span) && is_reference(
                    file,
                    reference.name,
                    span,
                    reference,
                );
            let i = choose|i: int|
                0 <= i < specifiers.len() && exports_under(
                    #[trigger] specifiers[i],
                    reference.name,
                    span,
                );
            assert(exports_under(specifiers[i], reference.name, span));
        }
    } else if syntax::is_a(statement, "ExportDefaultDeclaration"@) {
        let span = syntax::span_of(declaration);
        let added = NamedRangeView {
            name: syntax::name_of(declaration),
            ranges: declarations::span_ranges(file.boundaries, span),
        };
        pushed_is_contained(found.export_references, added, reference);
        if reference == added && shapes::is_named(declaration, reference.name) && is_upper(
            reference.name,
        ) {
            assert(refers_by_export(statement, reference.name, span));
        }
        if exists|other: Span| #[trigger]
            refers_by_export(statement, reference.name, other) && is_reference(
                file,
                reference.name,
                other,
                reference,
            ) {
            assert(reference.ranges =~= added.ranges);
        }
    }
}

proof fn statements_refer(
    file: SourceFileView,
    statements: Seq<Tree>,
    count: nat,
    reference: NamedRangeView,
)
    requires
        count <= statements.len(),
    ensures
        declarations::declared_by(file, statements, count).export_references.contains(reference)
            <==> exists|i: int, span: Span|
            0 <= i < count && #[trigger] refers_by_export(statements[i], reference.name, span)
                && is_reference(file, reference.name, span, reference),
    decreases count,
{
    if count > 0 {
        let before = (count - 1) as nat;
        let earlier = declarations::declared_by(file, statements, before);
        statements_refer(file, statements, before, reference);
        statement_refers(earlier, file, statements[count - 1], reference);
        if earlier.export_references.contains(reference) {
            let (i, span) = choose|i: int, span: Span|
                0 <= i < before && #[trigger] refers_by_export(statements[i], reference.name, span)
                    && is_reference(file, reference.name, span, reference);
            assert(refers_by_export(statements[i], reference.name, span));
        }
        if exists|span: Span| #[trigger]
            refers_by_export(statements[count - 1], reference.name, span) && is_reference(
                file,
                reference.name,
                span,
                reference,
            ) {
            let span = choose|span: Span| #[trigger]
                refers_by_export(statements[count - 1], reference.name, span) && is_reference(
                    file,
                    reference.name,
                    span,
                    reference,
                );
            assert(refers_by_export(statements[count - 1], reference.name, span));
        }
    }
}

/// The references of exports are the names in upper case under which a module exports something in
/// a list, its own or of another module, and the identifiers behind `export default`.
pub proof fn export_references_are_written(
    file: SourceFileView,
    program: Tree,
    reference: NamedRangeView,
)
    ensures
        declarations::declarations_of(file, program).export_references.contains(reference)
            <==> exists|i: int, span: Span|
            0 <= i < statements_of(program).len() && #[trigger] refers_by_export(
                statements_of(program)[i],
                reference.name,
                span,
            ) && is_reference(file, reference.name, span, reference),
{
    let statements = statements_of(program);
    statements_refer(file, statements, statements.len(), reference);
}

/// Whether `statement` declares the type `found`: an alias or an interface, by itself or behind
/// `export`.
pub open spec fn declares_type(
    file: SourceFileView,
    statement: Tree,
    found: TypeIdentifierView,
) -> bool {
    let declaration = declaration_in(statement);
    &&& !syntax::is_a(statement, "ExportDefaultDeclaration"@)
    &&& syntax::is_a(declaration, "TSTypeAliasDeclaration"@) || syntax::is_a(
        declaration,
        "TSInterfaceDeclaration"@,
    )
    &&& is_upper(found.name)
    &&& found.name == own_name(declaration)
    &&& found.enclosing_component is None
    &&& walk::marks_span(file, syntax::span_of(syntax::child(declaration, "id"@)), found.ranges)
}

proof fn statement_declares_types(
    earlier: DeclarationsView,
    file: SourceFileView,
    statement: Tree,
    found: TypeIdentifierView,
)
    ensures
        declarations::with_statement(earlier, file, statement).type_identifiers.contains(found)
            <==> earlier.type_identifiers.contains(found) || declares_type(file, statement, found),
{
    let specifiers = syntax::items(statement, "specifiers"@);
    let declaration = declaration_in(statement);
    let declarators = syntax::items(declaration, "declarations"@);
    let id = syntax::child(declaration, "id"@);
    let inner = declarations::with_exported_declaration(earlier, file, declaration);
    let added = TypeIdentifierView {
        enclosing_component: None,
        name: syntax::name_of(id),
        ranges: declarations::span_ranges(file.boundaries, syntax::span_of(id)),
    };
    statement_types_differ();
    variables_leave_the_rest(earlier, file, declarators, declarators.len());
    imports_add_no_components(
        earlier,
        file,
        syntax::literal_of(syntax::child(statement, "source"@)),
        specifiers,
        specifiers.len(),
    );
    references_add_no_components(inner, file, specifiers, specifiers.len());
    pushed_is_contained(earlier.type_identifiers, added, found);
    if declares_type(file, statement, found) {
        assert(found.ranges =~= added.ranges);
        assert(found == added);
    }
}

proof fn statements_declare_types(
    file: SourceFileView,
    statements: Seq<Tree>,
    count: nat,
    found: TypeIdentifierView,
)
    requires
        count <= statements.len(),
    ensures
        declarations::declared_by(file, statements, count).type_identifiers.contains(found)
            <==> exists|i: int|
            0 <= i < count && declares_type(file, #[trigger] statements[i], found),
    decreases count,
{
    if count > 0 {
        let before = (count - 1) as nat;
        statements_declare_types(file, statements, before, found);
        statement_declares_types(
            declarations::declared_by(file, statements, before),
            file,
            statements[count - 1],
            found,
        );
        if declares_type(file, statements[count - 1], found) {
            assert(declares_type(file, statements[count - 1], found));
        }
    }
}

/// The types that a module declares are its aliases and interfaces with names in upper case.
pub proof fn types_are_those_that_are_declared(
    file: SourceFileView,
    program: Tree,
    found: TypeIdentifierView,
)
    ensures
        declarations::declarations_of(file, program).type_identifiers.contains(found)
            <==> exists|i: int|
            0 <= i < statements_of(program).len() && declares_type(
                file,
                #[trigger] statements_of(program)[i],
                found,
            ),
{
    let statements = statements_of(program);
    statements_declare_types(file, statements, statements.len(), found);
}

/// Whether `name` is written in `source` from the byte `start` on without escapes.
pub open spec fn is_plain_at(source: Seq<char>, start: int, name: Seq<char>) -> bool {
    let bytes = vstd::utf8::encode_utf8(source);
    &&& 0 <= start
    &&& start + utf16::utf8_width(name) <= bytes.len()
    &&& bytes.len() <= u32::MAX
    &&& forall|i: int|
        start <= i < start + utf16::utf8_width(name) ==> #[trigger] bytes[i] != '\\' as u8
}

/// Whether `ranges` mark the name of the identifier `id`: from its start to its end or, where a
/// type is annotated to it, to the end of its name.
pub open spec fn marks_name(file: SourceFileView, id: Tree, ranges: Seq<Range>) -> bool {
    let span = syntax::span_of(id);
    let name = syntax::name_of(id);
    &&& ranges.len() == 1
    &&& ranges[0].start == file.boundaries.utf16(span.start)
    &&& syntax::child(id, "typeAnnotation"@) == Tree::Null ==> ranges[0].end
        == file.boundaries.utf16(span.end)
    &&& syntax::child(id, "typeAnnotation"@) != Tree::Null && is_plain_at(
        file.text,
        span.start as int,
        name,
    ) ==> ranges[0].end == file.boundaries.utf16((span.start + utf16::utf8_width(name)) as u32)
}

proof fn width_of_rest(name: Seq<char>)
    requires
        name.len() > 0,
    ensures
        utf16::utf8_width(name) == utf16::utf8_len(name[0]) + utf16::utf8_width(name.drop_first()),
    decreases name.len(),
{
    if name.len() > 1 {
        width_of_rest(name.drop_last());
        assert(name.drop_last().drop_first() =~= name.drop_first().drop_last());
        assert(name.drop_first().last() == name.last());
    } else {
        reveal_with_fuel(utf16::utf8_width, 2);
        assert(name.drop_first() =~= Seq::<char>::empty());
        assert(name.drop_last() =~= Seq::<char>::empty());
    }
}

proof fn plain_names_end(bytes: Seq<u8>, at: int, name: Seq<char>)
    requires
        0 <= at,
        at + utf16::utf8_width(name) <= bytes.len(),
        forall|i: int| at <= i < at + utf16::utf8_width(name) ==> #[trigger] bytes[i] != 92,
    ensures
        declarations::name_end(bytes, at, name) == at + utf16::utf8_width(name),
    decreases name.len(),
{
    if name.len() > 0 {
        width_of_rest(name);
        assert(bytes[at] != 92);
        plain_names_end(bytes, at + utf16::utf8_len(name[0]), name.drop_first());
    }
}

proof fn bindings_are_marked(file: SourceFileView, id: Tree)
    ensures
        marks_name(
            file,
            id,
            declarations::span_ranges(
                file.boundaries,
                declarations::binding_span(file.text, id),
            ),
        ),
{
    let start = syntax::span_of(id).start as int;
    let bytes = vstd::utf8::encode_utf8(file.text);
    if is_plain_at(file.text, start, syntax::name_of(id)) {
        plain_names_end(bytes, start, syntax::name_of(id));
    }
}

/// Whether the declaration `at` of the statement `index` declares the component `name` by `part`:
/// the variable `at`, or the one function or class.
pub open spec fn declares_at(
    statements: Seq<Tree>,
    index: int,
    at: int,
    part: Tree,
    name: Seq<char>,
) -> bool {
    let declaration = declaration_in(statements[index]);
    let declarators = syntax::items(declaration, "declarations"@);
    &&& 0 <= index < statements.len()
    &&& is_component_in(statements[index], part)
    &&& own_name(part) == name
    &&& if syntax::is_a(declaration, "VariableDeclaration"@) {
        0 <= at < declarators.len() && part == declarators[at]
    } else {
        at == 0
    }
}

/// Whether `found` is the component that `part` declares: of the kind of its module, and marked at
/// its name.
spec fn is_placed(file: SourceFileView, variable: bool, part: Tree, found: LocalComponentView) -> bool {
    let id = syntax::child(part, "id"@);
    &&& found.kind == file.kind
    &&& if variable {
        marks_name(file, id, found.ranges)
    } else {
        walk::marks_span(file, syntax::span_of(id), found.ranges)
    }
}

/// The last of the first `count` of `declarators` that holds the component `name`.
spec fn last_variable(declarators: Seq<Tree>, count: int, name: Seq<char>) -> Option<int>
    decreases count,
{
    if count <= 0 || count > declarators.len() {
        None
    } else if holds_component(declarators[count - 1], name) {
        Some(count - 1)
    } else {
        last_variable(declarators, count - 1, name)
    }
}

/// Whether the variable `part` holds the component `name`.
spec fn holds_component(part: Tree, name: Seq<char>) -> bool {
    is_upper(name) && own_name(part) == name && is_component_variable(part)
}

proof fn last_variable_is_last(declarators: Seq<Tree>, count: int, name: Seq<char>)
    requires
        0 <= count <= declarators.len(),
    ensures
        match last_variable(declarators, count, name) {
            Some(at) => 0 <= at < count && holds_component(declarators[at], name) && forall|j: int|
                at < j < count ==> !holds_component(#[trigger] declarators[j], name),
            None => forall|j: int|
                0 <= j < count ==> !holds_component(#[trigger] declarators[j], name),
        },
    decreases count,
{
    if count > 0 && !holds_component(declarators[count - 1], name) {
        last_variable_is_last(declarators, count - 1, name);
    }
}

proof fn variables_are_placed(
    earlier: DeclarationsView,
    file: SourceFileView,
    declarators: Seq<Tree>,
    count: nat,
    name: Seq<char>,
)
    requires
        count <= declarators.len(),
    ensures
        ({
            let later = names::lookup(
                declarations::with_variables(earlier, file, declarators, count).local_components,
                name,
            );
            match last_variable(declarators, count as int, name) {
                Some(at) => later matches Some(found) && is_placed(
                    file,
                    true,
                    declarators[at],
                    found,
                ),
                None => later == names::lookup(earlier.local_components, name),
            }
        }),
    decreases count,
{
    if count > 0 {
        let before = (count - 1) as nat;
        let part = declarators[count - 1];
        let id = syntax::child(part, "id"@);
        statement_types_differ();
        variables_are_placed(earlier, file, declarators, before, name);
        shapes::component_functions_are_found(syntax::child(part, "init"@));
        bindings_are_marked(file, id);
        names::lookup_after_put(
            declarations::with_variables(earlier, file, declarators, before).local_components,
            own_name(part),
            LocalComponentView {
                kind: file.kind,
                ranges: declarations::span_ranges(
                    file.boundaries,
                    declarations::binding_span(file.text, id),
                ),
            },
            name,
        );
    }
}

/// The last declaration of the component `name` in the first `count` of `statements`.
spec fn last_declaration(statements: Seq<Tree>, count: int, name: Seq<char>) -> Option<(int, int)>
    decreases count,
{
    if count <= 0 || count > statements.len() {
        None
    } else {
        let statement = statements[count - 1];
        let declaration = declaration_in(statement);
        let declarators = syntax::items(declaration, "declarations"@);
        let last = last_variable(declarators, declarators.len() as int, name);
        if syntax::is_a(declaration, "VariableDeclaration"@) {
            if last is Some && !syntax::is_a(statement, "ExportDefaultDeclaration"@) {
                Some((count - 1, last->0))
            } else {
                last_declaration(statements, count - 1, name)
            }
        } else if is_component_in(statement, declaration) && own_name(declaration) == name {
            Some((count - 1, 0))
        } else {
            last_declaration(statements, count - 1, name)
        }
    }
}

/// What the declaration `at` of the statement `index` is.
spec fn part_at(statements: Seq<Tree>, index: int, at: int) -> Tree {
    let declaration = declaration_in(statements[index]);
    if syntax::is_a(declaration, "VariableDeclaration"@) {
        syntax::items(declaration, "declarations"@)[at]
    } else {
        declaration
    }
}

proof fn last_declaration_is_last(statements: Seq<Tree>, count: int, name: Seq<char>)
    requires
        0 <= count <= statements.len(),
    ensures
        match last_declaration(statements, count, name) {
            Some(found) => found.0 < count && declares_at(
                statements,
                found.0,
                found.1,
                part_at(statements, found.0, found.1),
                name,
            ) && forall|index: int, at: int, part: Tree| #[trigger]
                declares_at(statements, index, at, part, name) && index < count ==> index < found.0
                    || index == found.0 && at <= found.1,
            None => forall|index: int, at: int, part: Tree| #[trigger]
                declares_at(statements, index, at, part, name) ==> index >= count,
        },
    decreases count,
{
    if count > 0 {
        let statement = statements[count - 1];
        let declaration = declaration_in(statement);
        let declarators = syntax::items(declaration, "declarations"@);
        statement_types_differ();
        last_variable_is_last(declarators, declarators.len() as int, name);
        last_declaration_is_last(statements, count - 1, name);
        let last = last_variable(declarators, declarators.len() as int, name);
        if syntax::is_a(declaration, "VariableDeclaration"@) {
            if last is Some {
                assert(declarators.contains(declarators[last->0]));
            }
            assert forall|at: int, part: Tree| #[trigger]
                declares_at(statements, count - 1, at, part, name) implies holds_component(
                declarators[at],
                name,
            ) by {}
        }
    }
}

proof fn last_declaration_counts(
    file: SourceFileView,
    statements: Seq<Tree>,
    count: nat,
    name: Seq<char>,
)
    requires
        count <= statements.len(),
    ensures
        ({
            let later = names::lookup(
                declarations::declared_by(file, statements, count).local_components,
                name,
            );
            match last_declaration(statements, count as int, name) {
                Some(at) => later matches Some(found) && is_placed(
                    file,
                    syntax::is_a(declaration_in(statements[at.0]), "VariableDeclaration"@),
                    part_at(statements, at.0, at.1),
                    found,
                ),
                None => later is None,
            }
        }),
    decreases count,
{
    if count > 0 {
        let before = (count - 1) as nat;
        let earlier = declarations::declared_by(file, statements, before);
        let statement = statements[count - 1];
        let specifiers = syntax::items(statement, "specifiers"@);
        let declaration = declaration_in(statement);
        let declarators = syntax::items(declaration, "declarations"@);
        let id = syntax::child(declaration, "id"@);
        statement_types_differ();
        last_declaration_counts(file, statements, before, name);
        variables_are_placed(earlier, file, declarators, declarators.len(), name);
        imports_add_no_components(
            earlier,
            file,
            syntax::literal_of(syntax::child(statement, "source"@)),
            specifiers,
            specifiers.len(),
        );
        references_add_no_components(
            declarations::with_exported_declaration(earlier, file, declaration),
            file,
            specifiers,
            specifiers.len(),
        );
        names::lookup_after_put(
            earlier.local_components,
            own_name(declaration),
            LocalComponentView {
                kind: file.kind,
                ranges: declarations::span_ranges(file.boundaries, syntax::span_of(id)),
            },
            name,
        );
    }
}

/// A component is marked at its name where it is declared; of several declarations, the last one
/// counts. A type that is annotated to a variable is not part of its name.
pub proof fn components_are_marked_at_their_names(
    file: SourceFileView,
    program: Tree,
    name: Seq<char>,
    index: int,
    at: int,
    part: Tree,
)
    requires
        declares_at(statements_of(program), index, at, part, name),
        forall|i: int, j: int, other: Tree| #[trigger]
            declares_at(statements_of(program), i, j, other, name) ==> i < index || i == index && j
                <= at,
    ensures
        ({
            let id = syntax::child(part, "id"@);
            &&& names::lookup(
                declarations::declarations_of(file, program).local_components,
                name,
            ) matches Some(found)
            &&& found.kind == file.kind
            &&& if syntax::is_a(
                declaration_in(statements_of(program)[index]),
                "VariableDeclaration"@,
            ) {
                marks_name(file, id, found.ranges)
            } else {
                walk::marks_span(file, syntax::span_of(id), found.ranges)
            }
        }),
{
    let statements = statements_of(program);
    statement_types_differ();
    last_declaration_counts(file, statements, statements.len(), name);
    last_declaration_is_last(statements, statements.len() as int, name);
    assert(declares_at(statements, index, at, part, name));
}

} // verus!
