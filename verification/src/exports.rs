//! What a module exports: its own components, and what it passes on from other modules.
use vstd::prelude::*;

use crate::declarations;
use crate::names;
use crate::names::{NameMap, NameSet};
use crate::syntax;
use crate::text;
use crate::tree;
use crate::tree::Tree;
use crate::Kind;

verus! {

/// Where an export that is passed on comes from.
#[derive(Debug)]
pub struct ReExportTarget {
    pub source: String,
    pub source_name: String,
}

/// Where an export that is passed on comes from.
#[verifier::ext_equal]
pub struct ReExportTargetView {
    pub source: Seq<char>,
    pub source_name: Seq<char>,
}

impl View for ReExportTarget {
    type V = ReExportTargetView;

    open spec fn view(&self) -> ReExportTargetView {
        ReExportTargetView { source: self.source@, source_name: self.source_name@ }
    }
}

/// The component exports of a module: the names under which it exports components of its own,
/// what it passes on by name, and the modules that it passes on whole.
#[derive(Debug)]
pub struct ModuleExports {
    pub component_names: NameSet,
    pub re_exports: NameMap<ReExportTarget>,
    pub star_exports: Vec<String>,
}

/// The component exports of a module.
#[verifier::ext_equal]
pub struct ModuleExportsView {
    pub component_names: Set<Seq<char>>,
    pub re_exports: Seq<(Seq<char>, ReExportTargetView)>,
    pub star_exports: Seq<Seq<char>>,
}

impl View for ModuleExports {
    type V = ModuleExportsView;

    open spec fn view(&self) -> ModuleExportsView {
        ModuleExportsView {
            component_names: self.component_names@,
            re_exports: self.re_exports@,
            star_exports: names::views(self.star_exports@),
        }
    }
}

/// What other modules can know of a module: its kind and its component exports.
#[derive(Debug)]
pub struct FileComponentInfo {
    pub kind: Kind,
    pub exports: ModuleExports,
}

/// What other modules can know of a module: its kind and its component exports.
#[verifier::ext_equal]
pub struct FileComponentInfoView {
    pub kind: Kind,
    pub exports: ModuleExportsView,
}

impl View for FileComponentInfo {
    type V = FileComponentInfoView;

    open spec fn view(&self) -> FileComponentInfoView {
        FileComponentInfoView { kind: self.kind, exports: self.exports@ }
    }
}

/// `found` with the name of a function or a class, if it can be a component's.
pub open spec fn with_local_name(found: Set<Seq<char>>, node: Tree) -> Set<Seq<char>> {
    let id = syntax::child(node, "id"@);
    if !(id is Null) && syntax::names_component(syntax::name_of(id)) {
        found.insert(syntax::name_of(id))
    } else {
        found
    }
}

/// Notes the name of a function or a class, if it can be a component's.
fn add_local_name(node: &Tree, found: &mut NameSet)
    ensures
        final(found)@ == with_local_name(old(found)@, *node),
{
    let id = syntax::get_child(node, "id");
    match id {
        Tree::Null => {},
        _ => {
            let name = syntax::get_name(id);
            if syntax::is_component_identifier(name) {
                found.insert(name);
            }
        },
    }
}

/// Whether `declarator` declares a component: a function, or one in a wrapper of components.
pub open spec fn declares_component(declarator: Tree) -> bool {
    let id = syntax::child(declarator, "id"@);
    &&& syntax::is_a(id, "Identifier"@)
    &&& syntax::names_component(syntax::name_of(id))
    &&& syntax::component_function(syntax::child(declarator, "init"@)) is Some
}

/// `found` with the names of the components among the first `count` of `declarators`.
pub open spec fn with_local_variables(
    found: Set<Seq<char>>,
    declarators: Seq<Tree>,
    count: nat,
) -> Set<Seq<char>>
    decreases count,
{
    if count == 0 || count > declarators.len() {
        found
    } else {
        let earlier = with_local_variables(found, declarators, (count - 1) as nat);
        if declares_component(declarators[count - 1]) {
            earlier.insert(syntax::name_of(syntax::child(declarators[count - 1], "id"@)))
        } else {
            earlier
        }
    }
}

/// Notes the names of the components that a variable declaration declares.
fn add_local_variable_names(declaration: &Tree, found: &mut NameSet)
    ensures
        final(found)@ == with_local_variables(
            old(found)@,
            syntax::items(*declaration, "declarations"@),
            syntax::items(*declaration, "declarations"@).len(),
        ),
{
    let declarators = syntax::get_items(declaration, "declarations");
    let mut i: usize = 0;
    while i < declarators.len()
        invariant
            i <= declarators@.len(),
            found@ == with_local_variables(old(found)@, declarators@, i as nat),
        decreases declarators@.len() - i,
    {
        let id = syntax::get_child(&declarators[i], "id");
        let init = syntax::get_child(&declarators[i], "init");
        let name = syntax::get_name(id);
        if syntax::is_kind(id, "Identifier") && syntax::is_component_identifier(name)
            && syntax::get_component_function(init).is_some() {
            found.insert(name);
        }
        i = i + 1;
    }
}

/// `found` with the names of the components that a declaration declares.
pub open spec fn with_local_declaration(found: Set<Seq<char>>, declaration: Tree) -> Set<
    Seq<char>,
> {
    if syntax::function_declaration(declaration) || syntax::is_a(
        declaration,
        "ClassDeclaration"@,
    ) {
        with_local_name(found, declaration)
    } else if syntax::is_a(declaration, "VariableDeclaration"@) {
        let declarators = syntax::items(declaration, "declarations"@);
        with_local_variables(found, declarators, declarators.len())
    } else {
        found
    }
}

/// Notes the names of the components that a declaration declares.
pub fn collect_local_component_declaration_names(declaration: &Tree, found: &mut NameSet)
    ensures
        final(found)@ == with_local_declaration(old(found)@, *declaration),
{
    if syntax::is_function_declaration(declaration) || syntax::is_kind(
        declaration,
        "ClassDeclaration",
    ) {
        add_local_name(declaration, found);
    } else if syntax::is_kind(declaration, "VariableDeclaration") {
        add_local_variable_names(declaration, found);
    }
}

/// `found` with the names of the components that a statement of the top level declares.
pub open spec fn with_local_statement(found: Set<Seq<char>>, statement: Tree) -> Set<Seq<char>> {
    let declaration = syntax::child(statement, "declaration"@);
    if syntax::is_a(statement, "ExportNamedDeclaration"@) {
        with_local_declaration(found, declaration)
    } else if syntax::is_a(statement, "ExportDefaultDeclaration"@) {
        if syntax::function_declaration(declaration) || syntax::is_a(
            declaration,
            "ClassDeclaration"@,
        ) {
            with_local_name(found, declaration)
        } else {
            found
        }
    } else {
        with_local_declaration(found, statement)
    }
}

/// Notes the names of the components that a statement of the top level declares.
pub fn collect_local_component_export_names(statement: &Tree, found: &mut NameSet)
    ensures
        final(found)@ == with_local_statement(old(found)@, *statement),
{
    let declaration = syntax::get_child(statement, "declaration");
    if syntax::is_kind(statement, "ExportNamedDeclaration") {
        collect_local_component_declaration_names(declaration, found);
    } else if syntax::is_kind(statement, "ExportDefaultDeclaration") {
        if syntax::is_function_declaration(declaration) || syntax::is_kind(
            declaration,
            "ClassDeclaration",
        ) {
            add_local_name(declaration, found);
        }
    } else {
        collect_local_component_declaration_names(statement, found);
    }
}

/// The names of the components that the first `count` of `statements` declare.
pub open spec fn local_names(statements: Seq<Tree>, count: nat) -> Set<Seq<char>>
    decreases count,
{
    if count == 0 || count > statements.len() {
        Set::empty()
    } else {
        with_local_statement(local_names(statements, (count - 1) as nat), statements[count - 1])
    }
}

/// `exported` with the name of a function or a class behind `export`, and `default` where it
/// stands behind `export default`. A name counts if it is one of the module's components; a
/// default export without a name always does.
pub open spec fn with_exported_name(
    exported: Set<Seq<char>>,
    local: Set<Seq<char>>,
    node: Tree,
    has_default: bool,
) -> Set<Seq<char>> {
    let id = syntax::child(node, "id"@);
    let name = syntax::name_of(id);
    if id is Null {
        if has_default {
            exported.insert("default"@)
        } else {
            exported
        }
    } else if local.contains(name) {
        if has_default {
            exported.insert(name).insert("default"@)
        } else {
            exported.insert(name)
        }
    } else {
        exported
    }
}

/// Notes the name of a function or a class behind `export`.
fn add_exported_name(node: &Tree, has_default: bool, local: &NameSet, exported: &mut NameSet)
    ensures
        final(exported)@ == with_exported_name(old(exported)@, local@, *node, has_default),
{
    let id = syntax::get_child(node, "id");
    match id {
        Tree::Null => {
            if has_default {
                exported.insert("default");
            }
        },
        _ => {
            let name = syntax::get_name(id);
            if local.contains(name) {
                exported.insert(name);
                if has_default {
                    exported.insert("default");
                }
            }
        },
    }
}

/// `exported` with the module's components among the first `count` of `declarators`.
pub open spec fn with_exported_variables(
    exported: Set<Seq<char>>,
    local: Set<Seq<char>>,
    declarators: Seq<Tree>,
    count: nat,
) -> Set<Seq<char>>
    decreases count,
{
    if count == 0 || count > declarators.len() {
        exported
    } else {
        let earlier = with_exported_variables(exported, local, declarators, (count - 1) as nat);
        let id = syntax::child(declarators[count - 1], "id"@);
        if syntax::is_a(id, "Identifier"@) && local.contains(syntax::name_of(id)) {
            earlier.insert(syntax::name_of(id))
        } else {
            earlier
        }
    }
}

/// `exported` with the names that a declaration behind `export` exports.
pub open spec fn with_exported_names(
    exported: Set<Seq<char>>,
    local: Set<Seq<char>>,
    declaration: Tree,
    has_default: bool,
) -> Set<Seq<char>> {
    if syntax::function_declaration(declaration) || syntax::is_a(
        declaration,
        "ClassDeclaration"@,
    ) {
        with_exported_name(exported, local, declaration, has_default)
    } else if syntax::is_a(declaration, "VariableDeclaration"@) {
        let declarators = syntax::items(declaration, "declarations"@);
        with_exported_variables(exported, local, declarators, declarators.len())
    } else {
        exported
    }
}

/// Notes the names that a declaration behind `export` exports.
pub fn add_exported_declaration_names(
    declaration: &Tree,
    has_default: bool,
    local: &NameSet,
    exported: &mut NameSet,
)
    ensures
        final(exported)@ == with_exported_names(
            old(exported)@,
            local@,
            *declaration,
            has_default,
        ),
{
    if syntax::is_function_declaration(declaration) || syntax::is_kind(
        declaration,
        "ClassDeclaration",
    ) {
        add_exported_name(declaration, has_default, local, exported);
    } else if syntax::is_kind(declaration, "VariableDeclaration") {
        let declarators = syntax::get_items(declaration, "declarations");
        let mut i: usize = 0;
        while i < declarators.len()
            invariant
                i <= declarators@.len(),
                exported@ == with_exported_variables(
                    old(exported)@,
                    local@,
                    declarators@,
                    i as nat,
                ),
            decreases declarators@.len() - i,
        {
            let id = syntax::get_child(&declarators[i], "id");
            let name = syntax::get_name(id);
            if syntax::is_kind(id, "Identifier") && local.contains(name) {
                exported.insert(name);
            }
            i = i + 1;
        }
    }
}

/// Whether the expression behind `export default` is a component in itself: a function, a class,
/// or a call of a wrapper of components.
pub open spec fn default_component(declaration: Tree) -> bool {
    ||| syntax::function_like(declaration)
    ||| syntax::is_a(declaration, "ClassExpression"@)
    ||| syntax::is_a(declaration, "CallExpression"@) && syntax::wraps_component(
        syntax::child(declaration, "callee"@),
    )
}

/// `exported` with the names that `export default` exports.
pub open spec fn with_default_name(
    exported: Set<Seq<char>>,
    local: Set<Seq<char>>,
    declaration: Tree,
) -> Set<Seq<char>> {
    if syntax::function_declaration(declaration) || syntax::is_a(
        declaration,
        "ClassDeclaration"@,
    ) {
        with_exported_name(exported, local, declaration, true)
    } else if syntax::is_a(declaration, "Identifier"@) {
        if local.contains(syntax::name_of(declaration)) {
            exported.insert("default"@)
        } else {
            exported
        }
    } else if default_component(declaration) {
        exported.insert("default"@)
    } else {
        exported
    }
}

/// Notes the names that `export default` exports.
pub fn add_default_export_name(declaration: &Tree, local: &NameSet, exported: &mut NameSet)
    ensures
        final(exported)@ == with_default_name(old(exported)@, local@, *declaration),
{
    if syntax::is_function_declaration(declaration) || syntax::is_kind(
        declaration,
        "ClassDeclaration",
    ) {
        add_exported_name(declaration, true, local, exported);
    } else if syntax::is_kind(declaration, "Identifier") {
        if local.contains(syntax::get_name(declaration)) {
            exported.insert("default");
        }
    } else if syntax::is_function_like(declaration) || syntax::is_kind(
        declaration,
        "ClassExpression",
    ) || (syntax::is_kind(declaration, "CallExpression") && syntax::is_component_wrapper(
        syntax::get_child(declaration, "callee"),
    )) {
        exported.insert("default");
    }
}

/// The module that an export passes something on from.
pub open spec fn export_source(statement: Tree) -> Option<Seq<char>> {
    let source = syntax::child(statement, "source"@);
    if source is Null {
        None
    } else {
        Some(syntax::literal_of(source))
    }
}

/// `exports` with what one specifier exports: something passed on from `source`, or one of the
/// module's components.
pub open spec fn with_specifier(
    exports: ModuleExportsView,
    local: Set<Seq<char>>,
    source: Option<Seq<char>>,
    specifier: Tree,
) -> ModuleExportsView {
    let exported_name = syntax::module_export_name(syntax::child(specifier, "exported"@));
    let local_name = syntax::module_export_name(syntax::child(specifier, "local"@));
    if !syntax::names_component(exported_name) {
        exports
    } else {
        match source {
            Some(source) => ModuleExportsView {
                re_exports: names::put(
                    exports.re_exports,
                    exported_name,
                    ReExportTargetView { source, source_name: local_name },
                ),
                ..exports
            },
            None => if local.contains(local_name) {
                ModuleExportsView {
                    component_names: exports.component_names.insert(exported_name),
                    ..exports
                }
            } else {
                exports
            },
        }
    }
}

/// `exports` with what the first `count` of `specifiers` export.
pub open spec fn with_specifiers(
    exports: ModuleExportsView,
    local: Set<Seq<char>>,
    source: Option<Seq<char>>,
    specifiers: Seq<Tree>,
    count: nat,
) -> ModuleExportsView
    decreases count,
{
    if count == 0 || count > specifiers.len() {
        exports
    } else {
        with_specifier(
            with_specifiers(exports, local, source, specifiers, (count - 1) as nat),
            local,
            source,
            specifiers[count - 1],
        )
    }
}

/// `exports` with what a statement of the top level exports.
pub open spec fn with_exporting_statement(
    exports: ModuleExportsView,
    local: Set<Seq<char>>,
    statement: Tree,
) -> ModuleExportsView {
    let declaration = syntax::child(statement, "declaration"@);
    let specifiers = syntax::items(statement, "specifiers"@);
    if syntax::is_a(statement, "ExportNamedDeclaration"@) {
        if declaration is Null {
            with_specifiers(
                exports,
                local,
                export_source(statement),
                specifiers,
                specifiers.len(),
            )
        } else {
            ModuleExportsView {
                component_names: with_exported_names(
                    exports.component_names,
                    local,
                    declaration,
                    false,
                ),
                ..exports
            }
        }
    } else if syntax::is_a(statement, "ExportDefaultDeclaration"@) {
        ModuleExportsView {
            component_names: with_default_name(exports.component_names, local, declaration),
            ..exports
        }
    } else if syntax::is_a(statement, "ExportAllDeclaration"@) && syntax::child(
        statement,
        "exported"@,
    ) is Null {
        ModuleExportsView {
            star_exports: exports.star_exports.push(
                syntax::literal_of(syntax::child(statement, "source"@)),
            ),
            ..exports
        }
    } else {
        exports
    }
}

/// What the first `count` of `statements` export, where the module's components are `local`.
pub open spec fn exported_by(
    local: Set<Seq<char>>,
    statements: Seq<Tree>,
    count: nat,
) -> ModuleExportsView
    decreases count,
{
    if count == 0 || count > statements.len() {
        ModuleExportsView {
            component_names: Set::empty(),
            re_exports: Seq::empty(),
            star_exports: Seq::empty(),
        }
    } else {
        with_exporting_statement(
            exported_by(local, statements, (count - 1) as nat),
            local,
            statements[count - 1],
        )
    }
}

/// The component exports of the module with the syntax tree `program`.
pub open spec fn exports_of(program: Tree) -> ModuleExportsView {
    let statements = syntax::items(program, "body"@);
    exported_by(local_names(statements, statements.len()), statements, statements.len())
}

/// Notes what one specifier exports.
fn add_specifier(
    specifier: &Tree,
    source: Option<&str>,
    local: &NameSet,
    exports: &mut ModuleExports,
)
    ensures
        final(exports)@ == with_specifier(
            old(exports)@,
            local@,
            text::maybe_str(source),
            *specifier,
        ),
{
    let exported_name = syntax::module_export_name_text(syntax::get_child(specifier, "exported"));
    let local_name = syntax::module_export_name_text(syntax::get_child(specifier, "local"));
    if syntax::is_component_identifier(exported_name) {
        match source {
            Some(source) => {
                exports.re_exports.insert(
                    exported_name,
                    ReExportTarget {
                        source: source.to_owned(),
                        source_name: local_name.to_owned(),
                    },
                );
            },
            None => {
                if local.contains(local_name) {
                    exports.component_names.insert(exported_name);
                }
            },
        }
    }
}

/// Notes what a statement of the top level exports.
fn add_exporting_statement(statement: &Tree, local: &NameSet, exports: &mut ModuleExports)
    ensures
        final(exports)@ == with_exporting_statement(old(exports)@, local@, *statement),
{
    broadcast use names::views_of_push;

    let declaration = syntax::get_child(statement, "declaration");
    if syntax::is_kind(statement, "ExportNamedDeclaration") {
        match declaration {
            Tree::Null => {
                let source = match syntax::get_child(statement, "source") {
                    Tree::Null => None,
                    source => Some(syntax::get_literal(source)),
                };
                let specifiers = syntax::get_items(statement, "specifiers");
                let mut i: usize = 0;
                while i < specifiers.len()
                    invariant
                        i <= specifiers@.len(),
                        exports@ == with_specifiers(
                            old(exports)@,
                            local@,
                            text::maybe_str(source),
                            specifiers@,
                            i as nat,
                        ),
                    decreases specifiers@.len() - i,
                {
                    add_specifier(&specifiers[i], source, local, exports);
                    i = i + 1;
                }
            },
            _ => {
                add_exported_declaration_names(
                    declaration,
                    false,
                    local,
                    &mut exports.component_names,
                );
            },
        }
    } else if syntax::is_kind(statement, "ExportDefaultDeclaration") {
        add_default_export_name(declaration, local, &mut exports.component_names);
    } else if syntax::is_kind(statement, "ExportAllDeclaration") {
        match syntax::get_child(statement, "exported") {
            Tree::Null => {
                let source = syntax::get_literal(syntax::get_child(statement, "source"));
                exports.star_exports.push(source.to_owned());
            },
            _ => {},
        }
    }
}

/// The component exports of the module with the syntax tree `program`.
pub fn extract_program_exports(program: &Tree) -> (exports: ModuleExports)
    ensures
        exports@ == exports_of(*program),
{
    broadcast use names::views_of_none;

    let statements = syntax::get_items(program, "body");
    let mut local = NameSet::new();
    let mut i: usize = 0;
    while i < statements.len()
        invariant
            i <= statements@.len(),
            local@ == local_names(statements@, i as nat),
        decreases statements@.len() - i,
    {
        collect_local_component_export_names(&statements[i], &mut local);
        i = i + 1;
    }
    let mut exports = ModuleExports {
        component_names: NameSet::new(),
        re_exports: NameMap::new(),
        star_exports: Vec::new(),
    };
    let mut i: usize = 0;
    while i < statements.len()
        invariant
            i <= statements@.len(),
            local@ == local_names(statements@, statements@.len()),
            exports@ == exported_by(local@, statements@, i as nat),
        decreases statements@.len() - i,
    {
        add_exporting_statement(&statements[i], &local, &mut exports);
        i = i + 1;
    }
    exports
}

/// The component exports of the file `file_path` with the text `source`.
pub fn extract_file_component_exports(file_path: &str, source: &str, windows: bool) -> (exports:
    ModuleExports)
    ensures
        exports@ == exports_of(tree::program_tree(file_path@, source@, windows)),
{
    let program = tree::parse_program(file_path, source, windows);
    extract_program_exports(&program)
}

/// What other modules can know of the file `file_path` with the text `source`.
pub open spec fn component_info(
    file_path: Seq<char>,
    source: Seq<char>,
    windows: bool,
) -> FileComponentInfoView {
    FileComponentInfoView {
        kind: declarations::own_kind(source),
        exports: exports_of(tree::program_tree(file_path, source, windows)),
    }
}

/// What other modules can know of the file `file_path` with the text `source`.
pub fn get_file_component_info(file_path: &str, source: &str, windows: bool) -> (info:
    FileComponentInfo)
    ensures
        info@ == component_info(file_path@, source@, windows),
{
    FileComponentInfo {
        kind: declarations::own_component_kind(source),
        exports: extract_file_component_exports(file_path, source, windows),
    }
}

} // verus!
