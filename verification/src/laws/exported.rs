//! What a module exports, said of its statements.
use vstd::prelude::*;

use crate::exports;
use crate::exports::{ModuleExportsView, ReExportTargetView};
use crate::laws::declared;
use crate::laws::shapes;
use crate::names;
use crate::syntax;
use crate::tree::Tree;

verus! {

/// The name that an import or an export is written under: that of an identifier, or the value of
/// a string.
pub open spec fn written_name(node: Tree) -> Seq<char> {
    if syntax::is_a(node, "Identifier"@) {
        syntax::name_of(node)
    } else {
        syntax::literal_of(node)
    }
}

/// Whether `statement` declares, by `part`, a component that the module can export by its name: a
/// function or a class, or a variable that holds a function, by itself or in one of the four
/// wrappers.
pub open spec fn is_exportable_in(statement: Tree, part: Tree) -> bool {
    let declaration = declared::declaration_in(statement);
    &&& declared::is_upper(declared::own_name(part))
    &&& {
        ||| part == declaration && declared::is_function_or_class(declaration)
        ||| !syntax::is_a(statement, "ExportDefaultDeclaration"@) && syntax::is_a(
            declaration,
            "VariableDeclaration"@,
        ) && syntax::items(declaration, "declarations"@).contains(part) && syntax::is_a(
            syntax::child(part, "id"@),
            "Identifier"@,
        ) && shapes::makes_function_component(syntax::child(part, "init"@))
    }
}

/// Whether one of the first `count` of `statements` declares a component `name` that the module
/// can export by its name.
pub open spec fn is_exportable(statements: Seq<Tree>, count: int, name: Seq<char>) -> bool {
    exists|i: int, part: Tree|
        0 <= i < count && #[trigger] is_exportable_in(statements[i], part) && declared::own_name(
            part,
        ) == name
}

/// The components that a module with the statements `statements` can export by their names.
pub open spec fn exportable_names(statements: Seq<Tree>) -> Set<Seq<char>> {
    Set::new(|name: Seq<char>| is_exportable(statements, statements.len() as int, name))
}

proof fn export_types_differ()
    ensures
        "ExportNamedDeclaration"@ != "ExportDefaultDeclaration"@,
        "ExportNamedDeclaration"@ != "ExportAllDeclaration"@,
        "ExportDefaultDeclaration"@ != "ExportAllDeclaration"@,
        "FunctionDeclaration"@ != "VariableDeclaration"@,
        "TSDeclareFunction"@ != "VariableDeclaration"@,
        "ClassDeclaration"@ != "VariableDeclaration"@,
        "FunctionDeclaration"@ != "Identifier"@,
        "TSDeclareFunction"@ != "Identifier"@,
        "ClassDeclaration"@ != "Identifier"@,
        "Identifier"@ != "ArrowFunctionExpression"@,
        "Identifier"@ != "FunctionExpression"@,
        "Identifier"@ != "ClassExpression"@,
        "Identifier"@ != "CallExpression"@,
        "FunctionDeclaration"@ != "ArrowFunctionExpression"@,
        "FunctionDeclaration"@ != "FunctionExpression"@,
        "FunctionDeclaration"@ != "ClassExpression"@,
        "FunctionDeclaration"@ != "CallExpression"@,
        "TSDeclareFunction"@ != "ArrowFunctionExpression"@,
        "TSDeclareFunction"@ != "FunctionExpression"@,
        "TSDeclareFunction"@ != "ClassExpression"@,
        "TSDeclareFunction"@ != "CallExpression"@,
        "ClassDeclaration"@ != "ArrowFunctionExpression"@,
        "ClassDeclaration"@ != "FunctionExpression"@,
        "ClassDeclaration"@ != "ClassExpression"@,
        "ClassDeclaration"@ != "CallExpression"@,
{
    reveal_strlit("ExportNamedDeclaration");
    reveal_strlit("ExportDefaultDeclaration");
    reveal_strlit("ExportAllDeclaration");
    reveal_strlit("FunctionDeclaration");
    reveal_strlit("TSDeclareFunction");
    reveal_strlit("ClassDeclaration");
    reveal_strlit("VariableDeclaration");
    reveal_strlit("Identifier");
    reveal_strlit("ArrowFunctionExpression");
    reveal_strlit("FunctionExpression");
    reveal_strlit("ClassExpression");
    reveal_strlit("CallExpression");
    assert("ExportNamedDeclaration"@.len() == 22);
    assert("ExportDefaultDeclaration"@.len() == 24);
    assert("ExportAllDeclaration"@.len() == 20);
    assert("FunctionDeclaration"@.len() == 19 && "FunctionDeclaration"@[0] == 'F');
    assert("TSDeclareFunction"@.len() == 17);
    assert("ClassDeclaration"@.len() == 16);
    assert("VariableDeclaration"@.len() == 19 && "VariableDeclaration"@[0] == 'V');
    assert("Identifier"@.len() == 10);
    assert("ArrowFunctionExpression"@.len() == 23);
    assert("FunctionExpression"@.len() == 18);
    assert("ClassExpression"@.len() == 15);
    assert("CallExpression"@.len() == 14);
}

/// Whether `part` is, among the first `count` of `declarators`, a variable with a component's name
/// that holds a function.
spec fn is_function_among(declarators: Seq<Tree>, count: int, name: Seq<char>) -> bool {
    exists|i: int|
        0 <= i < count && declared::own_name(#[trigger] declarators[i]) == name
            && declared::is_upper(name) && syntax::is_a(
            syntax::child(declarators[i], "id"@),
            "Identifier"@,
        ) && shapes::makes_function_component(syntax::child(declarators[i], "init"@))
}

proof fn local_variables_are_functions(
    found: Set<Seq<char>>,
    declarators: Seq<Tree>,
    count: nat,
    name: Seq<char>,
)
    requires
        count <= declarators.len(),
    ensures
        exports::with_local_variables(found, declarators, count).contains(name)
            <==> found.contains(name) || is_function_among(declarators, count as int, name),
    decreases count,
{
    if count > 0 {
        let before = (count - 1) as nat;
        local_variables_are_functions(found, declarators, before, name);
        shapes::component_functions_are_found(syntax::child(declarators[count - 1], "init"@));
        if is_function_among(declarators, before as int, name) {
            let i = choose|i: int|
                0 <= i < before && declared::own_name(#[trigger] declarators[i]) == name
                    && declared::is_upper(name) && syntax::is_a(
                    syntax::child(declarators[i], "id"@),
                    "Identifier"@,
                ) && shapes::makes_function_component(syntax::child(declarators[i], "init"@));
            assert(declared::own_name(declarators[i]) == name);
        }
        if exports::declares_component(declarators[count - 1]) {
            assert(declared::own_name(declarators[count - 1]) == syntax::name_of(
                syntax::child(declarators[count - 1], "id"@),
            ));
        }
    }
}

proof fn local_statement_adds(found: Set<Seq<char>>, statement: Tree, name: Seq<char>)
    ensures
        exports::with_local_statement(found, statement).contains(name) <==> found.contains(name)
            || exists|part: Tree| #[trigger]
            is_exportable_in(statement, part) && declared::own_name(part) == name,
{
    export_types_differ();
    let declaration = declared::declaration_in(statement);
    let declarators = syntax::items(declaration, "declarations"@);
    local_variables_are_functions(found, declarators, declarators.len(), name);
    let later = exports::with_local_statement(found, statement);
    if declared::is_function_or_class(declaration) {
        if declared::is_upper(declared::own_name(declaration)) && declared::own_name(declaration)
            == name {
            assert(is_exportable_in(statement, declaration));
        }
        if exists|part: Tree| #[trigger]
            is_exportable_in(statement, part) && declared::own_name(part) == name {
            let part = choose|part: Tree| #[trigger]
                is_exportable_in(statement, part) && declared::own_name(part) == name;
            assert(part == declaration);
        }
    } else if syntax::is_a(declaration, "VariableDeclaration"@) && !syntax::is_a(
        statement,
        "ExportDefaultDeclaration"@,
    ) {
        if is_function_among(declarators, declarators.len() as int, name) {
            let i = choose|i: int|
                0 <= i < declarators.len() && declared::own_name(#[trigger] declarators[i]) == name
                    && declared::is_upper(name) && syntax::is_a(
                    syntax::child(declarators[i], "id"@),
                    "Identifier"@,
                ) && shapes::makes_function_component(syntax::child(declarators[i], "init"@));
            assert(declarators.contains(declarators[i]));
            assert(is_exportable_in(statement, declarators[i]));
        }
        if exists|part: Tree| #[trigger]
            is_exportable_in(statement, part) && declared::own_name(part) == name {
            let part = choose|part: Tree| #[trigger]
                is_exportable_in(statement, part) && declared::own_name(part) == name;
            let i = choose|i: int| 0 <= i < declarators.len() && declarators[i] == part;
            assert(declared::own_name(declarators[i]) == name);
        }
    }
}

proof fn local_names_are_exportable(statements: Seq<Tree>, count: nat, name: Seq<char>)
    requires
        count <= statements.len(),
    ensures
        exports::local_names(statements, count).contains(name) <==> is_exportable(
            statements,
            count as int,
            name,
        ),
    decreases count,
{
    if count > 0 {
        let before = (count - 1) as nat;
        local_names_are_exportable(statements, before, name);
        local_statement_adds(
            exports::local_names(statements, before),
            statements[count - 1],
            name,
        );
        if is_exportable(statements, before as int, name) {
            let (i, part) = choose|i: int, part: Tree|
                0 <= i < before && #[trigger] is_exportable_in(statements[i], part)
                    && declared::own_name(part) == name;
            assert(is_exportable_in(statements[i], part));
        }
        if is_exportable(statements, count as int, name) {
            let (i, part) = choose|i: int, part: Tree|
                0 <= i < count && #[trigger] is_exportable_in(statements[i], part)
                    && declared::own_name(part) == name;
            if i < before {
                assert(is_exportable(statements, before as int, name));
            }
        }
    }
}

/// Whether the expression `value` behind `export default` is a component in itself: a function, a
/// class, or a call of one of the four wrappers.
pub open spec fn is_component_value(value: Tree) -> bool {
    ||| shapes::is_function(value)
    ||| syntax::is_a(value, "ClassExpression"@)
    ||| syntax::is_a(value, "CallExpression"@) && shapes::is_wrapper(syntax::child(value, "callee"@))
}

/// Whether `specifier` exports, under `name`, something that the module calls `local`.
pub open spec fn exports_as(specifier: Tree, name: Seq<char>, local: Seq<char>) -> bool {
    &&& declared::is_upper(name)
    &&& written_name(syntax::child(specifier, "exported"@)) == name
    &&& written_name(syntax::child(specifier, "local"@)) == local
}

/// Whether `statement` is a list of exports, without a declaration, of what the module itself
/// declares.
pub open spec fn is_own_list(statement: Tree) -> bool {
    &&& syntax::is_a(statement, "ExportNamedDeclaration"@)
    &&& syntax::child(statement, "declaration"@) == Tree::Null
    &&& syntax::child(statement, "source"@) == Tree::Null
}

/// Whether `statement` exports a component of the module under `name`, where `own` holds the
/// components that it can export by their names: by the name that it is declared under behind
/// `export`; by the name that a list gives it; or as `default`.
pub open spec fn exports_component(
    statement: Tree,
    own: Set<Seq<char>>,
    name: Seq<char>,
) -> bool {
    let declaration = syntax::child(statement, "declaration"@);
    let specifiers = syntax::items(statement, "specifiers"@);
    let variables = syntax::items(declaration, "declarations"@);
    ||| declared::is_export(statement) && declared::is_function_or_class(declaration)
        && declared::own_name(declaration) == name && own.contains(name)
    ||| syntax::is_a(statement, "ExportNamedDeclaration"@) && syntax::is_a(
        declaration,
        "VariableDeclaration"@,
    ) && own.contains(name) && exists|i: int|
        0 <= i < variables.len() && shapes::is_named(
            syntax::child(#[trigger] variables[i], "id"@),
            name,
        )
    ||| is_own_list(statement) && exists|i: int, local: Seq<char>|
        0 <= i < specifiers.len() && #[trigger] exports_as(specifiers[i], name, local) && own.contains(
            local,
        )
    ||| syntax::is_a(statement, "ExportDefaultDeclaration"@) && name == "default"@ && {
        ||| declared::is_function_or_class(declaration) && (syntax::child(declaration, "id"@)
            == Tree::Null || own.contains(declared::own_name(declaration)))
        ||| syntax::is_a(declaration, "Identifier"@) && own.contains(syntax::name_of(declaration))
        ||| is_component_value(declaration)
    }
}

proof fn exported_variables_are_own(
    exported: Set<Seq<char>>,
    local: Set<Seq<char>>,
    declarators: Seq<Tree>,
    count: nat,
    name: Seq<char>,
)
    requires
        count <= declarators.len(),
    ensures
        exports::with_exported_variables(exported, local, declarators, count).contains(name)
            <==> exported.contains(name) || local.contains(name) && exists|i: int|
            0 <= i < count && shapes::is_named(
                syntax::child(#[trigger] declarators[i], "id"@),
                name,
            ),
    decreases count,
{
    if count > 0 {
        let before = (count - 1) as nat;
        exported_variables_are_own(exported, local, declarators, before, name);
        if shapes::is_named(syntax::child(declarators[count - 1], "id"@), name) {
            assert(shapes::is_named(syntax::child(declarators[count - 1], "id"@), name));
        }
        if exists|i: int|
            0 <= i < before && shapes::is_named(
                syntax::child(#[trigger] declarators[i], "id"@),
                name,
            ) {
            let i = choose|i: int|
                0 <= i < before && shapes::is_named(
                    syntax::child(#[trigger] declarators[i], "id"@),
                    name,
                );
            assert(shapes::is_named(syntax::child(declarators[i], "id"@), name));
        }
    }
}

/// Whether one of the first `count` of `specifiers` exports something of `local` under `name`.
spec fn one_exports(
    specifiers: Seq<Tree>,
    count: int,
    local: Set<Seq<char>>,
    name: Seq<char>,
) -> bool {
    exists|i: int, from: Seq<char>|
        0 <= i < count && #[trigger] exports_as(specifiers[i], name, from) && local.contains(from)
}

proof fn own_specifiers_export(
    exported: ModuleExportsView,
    local: Set<Seq<char>>,
    specifiers: Seq<Tree>,
    count: nat,
    name: Seq<char>,
)
    requires
        count <= specifiers.len(),
    ensures
        ({
            let later = exports::with_specifiers(exported, local, None, specifiers, count);
            &&& later.re_exports == exported.re_exports
            &&& later.star_exports == exported.star_exports
            &&& later.component_names.contains(name) <==> exported.component_names.contains(name)
                || one_exports(specifiers, count as int, local, name)
        }),
    decreases count,
{
    if count > 0 {
        let before = (count - 1) as nat;
        let specifier = specifiers[count - 1];
        let from = written_name(syntax::child(specifier, "local"@));
        own_specifiers_export(exported, local, specifiers, before, name);
        if exports_as(specifier, name, from) && local.contains(from) {
            assert(exports_as(specifiers[count - 1], name, from));
        }
        if one_exports(specifiers, before as int, local, name) {
            let (i, other) = choose|i: int, other: Seq<char>|
                0 <= i < before && #[trigger] exports_as(specifiers[i], name, other)
                    && local.contains(other);
            assert(exports_as(specifiers[i], name, other));
        }
        if one_exports(specifiers, count as int, local, name) {
            let (i, other) = choose|i: int, other: Seq<char>|
                0 <= i < count && #[trigger] exports_as(specifiers[i], name, other)
                    && local.contains(other);
            if i < before {
                assert(exports_as(specifiers[i], name, other));
                assert(one_exports(specifiers, before as int, local, name));
            }
        }
    }
}

/// Whether `specifier` passes on, under `name`, what another module exports.
pub open spec fn is_passed_as(specifier: Tree, name: Seq<char>) -> bool {
    declared::is_upper(name) && written_name(syntax::child(specifier, "exported"@)) == name
}

/// The last of the first `count` of `specifiers` that is exported under `name`.
spec fn last_specifier(specifiers: Seq<Tree>, count: int, name: Seq<char>) -> Option<int>
    decreases count,
{
    if count <= 0 || count > specifiers.len() {
        None
    } else if is_passed_as(specifiers[count - 1], name) {
        Some(count - 1)
    } else {
        last_specifier(specifiers, count - 1, name)
    }
}

proof fn last_specifier_is_last(specifiers: Seq<Tree>, count: int, name: Seq<char>)
    requires
        0 <= count <= specifiers.len(),
    ensures
        match last_specifier(specifiers, count, name) {
            Some(at) => 0 <= at < count && is_passed_as(specifiers[at], name) && forall|j: int|
                at < j < count ==> !is_passed_as(#[trigger] specifiers[j], name),
            None => forall|j: int|
                0 <= j < count ==> !is_passed_as(#[trigger] specifiers[j], name),
        },
    decreases count,
{
    if count > 0 && !is_passed_as(specifiers[count - 1], name) {
        last_specifier_is_last(specifiers, count - 1, name);
    }
}

proof fn passing_specifiers_are_put(
    exported: ModuleExportsView,
    local: Set<Seq<char>>,
    source: Seq<char>,
    specifiers: Seq<Tree>,
    count: nat,
    name: Seq<char>,
)
    requires
        count <= specifiers.len(),
    ensures
        ({
            let later = exports::with_specifiers(exported, local, Some(source), specifiers, count);
            &&& later.component_names == exported.component_names
            &&& later.star_exports == exported.star_exports
            &&& names::lookup(later.re_exports, name) == (match last_specifier(
                specifiers,
                count as int,
                name,
            ) {
                Some(at) => Some(
                    ReExportTargetView {
                        source,
                        source_name: written_name(syntax::child(specifiers[at], "local"@)),
                    },
                ),
                None => names::lookup(exported.re_exports, name),
            })
        }),
    decreases count,
{
    if count > 0 {
        let before = (count - 1) as nat;
        let specifier = specifiers[count - 1];
        passing_specifiers_are_put(exported, local, source, specifiers, before, name);
        let earlier = exports::with_specifiers(exported, local, Some(source), specifiers, before);
        names::lookup_after_put(
            earlier.re_exports,
            written_name(syntax::child(specifier, "exported"@)),
            ReExportTargetView {
                source,
                source_name: written_name(syntax::child(specifier, "local"@)),
            },
            name,
        );
    }
}

/// Whether `statement` is a list of what the module passes on from another one.
pub open spec fn is_passing_list(statement: Tree) -> bool {
    &&& syntax::is_a(statement, "ExportNamedDeclaration"@)
    &&& syntax::child(statement, "declaration"@) == Tree::Null
    &&& syntax::child(statement, "source"@) != Tree::Null
}

/// Whether `statement` passes the module `source` on whole.
pub open spec fn is_star(statement: Tree, source: Seq<char>) -> bool {
    &&& syntax::is_a(statement, "ExportAllDeclaration"@)
    &&& syntax::child(statement, "exported"@) == Tree::Null
    &&& source == syntax::literal_of(syntax::child(statement, "source"@))
}

proof fn statement_exports(
    exported: ModuleExportsView,
    local: Set<Seq<char>>,
    statement: Tree,
    name: Seq<char>,
)
    requires
        !local.contains(Seq::empty()),
    ensures
        ({
            let later = exports::with_exporting_statement(exported, local, statement);
            let specifiers = syntax::items(statement, "specifiers"@);
            let source = syntax::literal_of(syntax::child(statement, "source"@));
            &&& later.component_names.contains(name) <==> exported.component_names.contains(name)
                || exports_component(statement, local, name)
            &&& names::lookup(later.re_exports, name) == (if is_passing_list(statement) {
                match last_specifier(specifiers, specifiers.len() as int, name) {
                    Some(at) => Some(
                        ReExportTargetView {
                            source,
                            source_name: written_name(syntax::child(specifiers[at], "local"@)),
                        },
                    ),
                    None => names::lookup(exported.re_exports, name),
                }
            } else {
                names::lookup(exported.re_exports, name)
            })
            &&& later.star_exports == (if is_star(statement, source) {
                exported.star_exports.push(source)
            } else {
                exported.star_exports
            })
        }),
{
    export_types_differ();
    let later = exports::with_exporting_statement(exported, local, statement);
    let declaration = syntax::child(statement, "declaration"@);
    let specifiers = syntax::items(statement, "specifiers"@);
    let variables = syntax::items(declaration, "declarations"@);
    let source = syntax::literal_of(syntax::child(statement, "source"@));
    shapes::components_have_four_wrappers(syntax::child(declaration, "callee"@));
    assert(syntax::child(declaration, "id"@) is Null ==> declared::own_name(declaration)
        =~= Seq::empty());
    own_specifiers_export(exported, local, specifiers, specifiers.len(), name);
    passing_specifiers_are_put(exported, local, source, specifiers, specifiers.len(), name);
    exported_variables_are_own(
        exported.component_names,
        local,
        variables,
        variables.len(),
        name,
    );
    if is_own_list(statement) {
        if one_exports(specifiers, specifiers.len() as int, local, name) {
            let (i, from) = choose|i: int, from: Seq<char>|
                0 <= i < specifiers.len() && #[trigger] exports_as(specifiers[i], name, from)
                    && local.contains(from);
            assert(exports_as(specifiers[i], name, from) && local.contains(from));
        }
        if exports_component(statement, local, name) {
            let (i, from) = choose|i: int, from: Seq<char>|
                0 <= i < specifiers.len() && #[trigger] exports_as(specifiers[i], name, from)
                    && local.contains(from);
            assert(exports_as(specifiers[i], name, from) && local.contains(from));
            assert(one_exports(specifiers, specifiers.len() as int, local, name));
        }
    }
}

proof fn locals_are_upper(statements: Seq<Tree>, count: nat)
    requires
        count <= statements.len(),
    ensures
        !exports::local_names(statements, count).contains(Seq::empty()),
{
    local_names_are_exportable(statements, count, Seq::empty());
}

proof fn statements_export(
    local: Set<Seq<char>>,
    statements: Seq<Tree>,
    count: nat,
    name: Seq<char>,
)
    requires
        !local.contains(Seq::empty()),
        count <= statements.len(),
    ensures
        exports::exported_by(local, statements, count).component_names.contains(name)
            <==> exists|i: int|
            0 <= i < count && #[trigger] exports_component(statements[i], local, name),
    decreases count,
{
    if count > 0 {
        let before = (count - 1) as nat;
        statements_export(local, statements, before, name);
        statement_exports(
            exports::exported_by(local, statements, before),
            local,
            statements[count - 1],
            name,
        );
        if exports_component(statements[count - 1], local, name) {
            assert(exports_component(statements[count - 1], local, name));
        }
        if exists|i: int| 0 <= i < before && #[trigger] exports_component(statements[i], local, name) {
            let i = choose|i: int|
                0 <= i < before && #[trigger] exports_component(statements[i], local, name);
            assert(exports_component(statements[i], local, name));
        }
    }
}

/// The names under which a module exports components of its own: those of the functions, classes
/// and variables that it declares behind `export`; those that a list without a source gives to its
/// components; and `default`, for a component behind `export default`.
pub proof fn own_exports_are_found(program: Tree, name: Seq<char>)
    ensures
        ({
            let statements = declared::statements_of(program);
            let own = exportable_names(statements);
            exports::exports_of(program).component_names.contains(name) <==> exists|i: int|
                0 <= i < statements.len() && #[trigger] exports_component(
                    statements[i],
                    own,
                    name,
                )
        }),
{
    let statements = declared::statements_of(program);
    let count = statements.len();
    let local = exports::local_names(statements, count);
    let own = exportable_names(statements);
    locals_are_upper(statements, count);
    statements_export(local, statements, count, name);
    assert forall|other: Seq<char>| #[trigger] own.contains(other) == local.contains(other) by {
        local_names_are_exportable(statements, count, other);
    }
    assert(own =~= local);
}

/// The last of the first `count` of `statements` that passes `name` on.
spec fn last_passing(statements: Seq<Tree>, count: int, name: Seq<char>) -> Option<(int, int)>
    decreases count,
{
    if count <= 0 || count > statements.len() {
        None
    } else {
        let specifiers = syntax::items(statements[count - 1], "specifiers"@);
        match last_specifier(specifiers, specifiers.len() as int, name) {
            Some(at) => if is_passing_list(statements[count - 1]) {
                Some((count - 1, at))
            } else {
                last_passing(statements, count - 1, name)
            },
            None => last_passing(statements, count - 1, name),
        }
    }
}

/// Whether the specifier `at` of the statement `index` passes `name` on from another module.
pub open spec fn passes_at(statements: Seq<Tree>, index: int, at: int, name: Seq<char>) -> bool {
    let specifiers = syntax::items(statements[index], "specifiers"@);
    &&& 0 <= index < statements.len()
    &&& 0 <= at < specifiers.len()
    &&& is_passing_list(statements[index])
    &&& is_passed_as(specifiers[at], name)
}

/// What the specifier `at` of the statement `index` passes on: from which module, and under which
/// name it is exported there.
pub open spec fn passed_at(statements: Seq<Tree>, index: int, at: int) -> ReExportTargetView {
    ReExportTargetView {
        source: syntax::literal_of(syntax::child(statements[index], "source"@)),
        source_name: written_name(
            syntax::child(syntax::items(statements[index], "specifiers"@)[at], "local"@),
        ),
    }
}

proof fn last_passing_is_last(statements: Seq<Tree>, count: int, name: Seq<char>)
    requires
        0 <= count <= statements.len(),
    ensures
        match last_passing(statements, count, name) {
            Some(found) => found.0 < count && passes_at(statements, found.0, found.1, name)
                && forall|index: int, at: int| #[trigger]
                passes_at(statements, index, at, name) && index < count ==> index < found.0
                    || index == found.0 && at <= found.1,
            None => forall|index: int, at: int| #[trigger]
                passes_at(statements, index, at, name) ==> index >= count,
        },
    decreases count,
{
    if count > 0 {
        let specifiers = syntax::items(statements[count - 1], "specifiers"@);
        last_specifier_is_last(specifiers, specifiers.len() as int, name);
        last_passing_is_last(statements, count - 1, name);
    }
}

proof fn last_passing_counts(
    local: Set<Seq<char>>,
    statements: Seq<Tree>,
    count: nat,
    name: Seq<char>,
)
    requires
        !local.contains(Seq::empty()),
        count <= statements.len(),
    ensures
        names::lookup(exports::exported_by(local, statements, count).re_exports, name) == (
        match last_passing(statements, count as int, name) {
            Some(found) => Some(passed_at(statements, found.0, found.1)),
            None => None,
        }),
    decreases count,
{
    if count > 0 {
        let before = (count - 1) as nat;
        last_passing_counts(local, statements, before, name);
        statement_exports(
            exports::exported_by(local, statements, before),
            local,
            statements[count - 1],
            name,
        );
    }
}

/// What a module passes on under a name from another module is what the last specifier that gives
/// it this name says: the module that stands behind `from`, and the name that stands before `as`,
/// not the one behind it.
pub proof fn passed_on_names_lead_to_their_sources(
    program: Tree,
    name: Seq<char>,
    index: int,
    at: int,
)
    requires
        passes_at(declared::statements_of(program), index, at, name),
        forall|i: int, j: int| #[trigger]
            passes_at(declared::statements_of(program), i, j, name) ==> i < index || i == index && j
                <= at,
    ensures
        names::lookup(exports::exports_of(program).re_exports, name) == Some(
            passed_at(declared::statements_of(program), index, at),
        ),
{
    let statements = declared::statements_of(program);
    let local = exports::local_names(statements, statements.len());
    locals_are_upper(statements, statements.len());
    last_passing_counts(local, statements, statements.len(), name);
    last_passing_is_last(statements, statements.len() as int, name);
    assert(passes_at(statements, index, at, name));
}

/// A module passes on nothing else.
pub proof fn passed_on_names_are_written(program: Tree, name: Seq<char>)
    ensures
        names::has(exports::exports_of(program).re_exports, name) <==> exists|index: int, at: int|
            #[trigger] passes_at(declared::statements_of(program), index, at, name),
{
    let statements = declared::statements_of(program);
    let local = exports::local_names(statements, statements.len());
    locals_are_upper(statements, statements.len());
    last_passing_counts(local, statements, statements.len(), name);
    last_passing_is_last(statements, statements.len() as int, name);
    if let Some(found) = last_passing(statements, statements.len() as int, name) {
        assert(passes_at(statements, found.0, found.1, name));
    }
}

/// Whether `sources` are, in order, the modules that the first `count` of `statements` pass on
/// whole; `at` says which statement each of them comes from.
pub open spec fn are_stars(
    statements: Seq<Tree>,
    count: int,
    sources: Seq<Seq<char>>,
    at: Seq<int>,
) -> bool {
    &&& at.len() == sources.len()
    &&& forall|k: int|
        0 <= k < at.len() ==> 0 <= #[trigger] at[k] < count && is_star(statements[at[k]], sources[k])
    &&& forall|j: int, k: int| 0 <= j < k < at.len() ==> #[trigger] at[j] < #[trigger] at[k]
    &&& forall|i: int, source: Seq<char>|
        0 <= i < count && #[trigger] is_star(statements[i], source) ==> at.contains(i)
}

proof fn stars_come_in_order(local: Set<Seq<char>>, statements: Seq<Tree>, count: nat) -> (at: Seq<
    int,
>)
    requires
        !local.contains(Seq::empty()),
        count <= statements.len(),
    ensures
        are_stars(
            statements,
            count as int,
            exports::exported_by(local, statements, count).star_exports,
            at,
        ),
    decreases count,
{
    if count == 0 {
        Seq::empty()
    } else {
        let before = (count - 1) as nat;
        let statement = statements[count - 1];
        let source = syntax::literal_of(syntax::child(statement, "source"@));
        let earlier = stars_come_in_order(local, statements, before);
        statement_exports(
            exports::exported_by(local, statements, before),
            local,
            statement,
            Seq::empty(),
        );
        if is_star(statement, source) {
            let at = earlier.push(count - 1);
            assert forall|i: int, other: Seq<char>|
                0 <= i < count && #[trigger] is_star(statements[i], other) implies at.contains(
                i,
            ) by {
                if i < before {
                    let k = choose|k: int| 0 <= k < earlier.len() && earlier[k] == i;
                    assert(at[k] == i);
                } else {
                    assert(at[earlier.len() as int] == i);
                }
            }
            at
        } else {
            earlier
        }
    }
}

/// The modules that a module passes on whole are those behind `export * from`, in the order in
/// which they are written. One that is given a name of its own is not among them.
pub proof fn modules_are_passed_on_in_order(program: Tree) -> (at: Seq<int>)
    ensures
        are_stars(
            declared::statements_of(program),
            declared::statements_of(program).len() as int,
            exports::exports_of(program).star_exports,
            at,
        ),
{
    let statements = declared::statements_of(program);
    locals_are_upper(statements, statements.len());
    stars_come_in_order(
        exports::local_names(statements, statements.len()),
        statements,
        statements.len(),
    )
}

} // verus!
