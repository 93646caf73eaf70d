//! What the analysis of a document promises, said of the text of the document and of the modules
//! around it.
use vstd::prelude::*;

use crate::analyzer;
use crate::analyzer::FileAnalysis;
use crate::declarations;
use crate::declarations::{Declarations, SourceFile, SourceFileView};
use crate::directive;
use crate::document;
use crate::document::{Declared, Imports, Outcome, OutcomeView, ScopeConfig, SourceHost};
use crate::exports;
use crate::exports::{FileComponentInfo, ModuleExports};
use crate::laws::analysis;
use crate::laws::declared;
use crate::laws::kinds;
use crate::laws::usages;
use crate::laws::walk;
use crate::modules;
use crate::modules::{Modules, ModulesView, Request, Search, SearchView};
use crate::names;
use crate::names::NameMap;
use crate::paths;
use crate::syntax;
use crate::tree;
use crate::tree::{Dialect, Tree};
use crate::utf16;
use crate::{Kind, Span, Usage, UsageView};

verus! {

/// What is known of a file is what its text, parsed in the dialect of its name, shows.
pub proof fn files_are_analyzed_as_parsed(
    path: &str,
    source: &str,
    windows: bool,
    found: FileAnalysis,
    program: Tree,
    dialect: Dialect,
)
    requires
        call_ensures(analyzer::parse_file_analysis, (path, source, windows), found),
        call_ensures(tree::parse_program, (path, source, windows), program),
        call_ensures(tree::choose_dialect, (path, windows), dialect),
    ensures
        found@ == analyzer::analysis_of(declarations::source_file(source@), program),
        ({
            let written = tree::estree_text(dialect.extension@, dialect.declaration, source@);
            match tree::json_tree(tree::readable(written, 0, false)) {
                Some(read) => program == read,
                None => program == Tree::Null,
            }
        }),
{
}

/// What other modules know of a file is the kind that its directive gives it, and what it exports.
pub proof fn files_are_known_by_directive_and_exports(
    path: &str,
    source: &str,
    windows: bool,
    found: FileComponentInfo,
    program: Tree,
)
    requires
        call_ensures(exports::get_file_component_info, (path, source, windows), found),
        call_ensures(tree::parse_program, (path, source, windows), program),
    ensures
        found@.kind == Kind::Client <==> directive::is_client_module(
            vstd::utf8::encode_utf8(source@),
        ),
        found@.exports == exports::exports_of(program),
{
}

/// Searches, and analyses that go on, give what the answers that are known lead to.
pub proof fn known_answers_are_used(
    known: &Modules,
    from: &str,
    specifier: &str,
    name: &str,
    search: Search,
    analysis: &FileAnalysis,
    scope: ScopeConfig,
    outcome: Outcome,
)
    requires
        call_ensures(
            modules::resolve_export_declaration,
            (known, from, specifier, name),
            search,
        ),
        call_ensures(document::continue_analysis, (known, from, analysis, scope), outcome),
    ensures
        search@ == modules::search_export(known@, from@, specifier@, name@),
        outcome@ == document::outcome_of(known@, from@, analysis@, scope),
{
}

/// A document is analyzed for what its scope names, and for everything where no scope is given;
/// the host reads the modules that it imports.
pub proof fn documents_are_analyzed_for_their_scope<H: SourceHost>(
    path: &str,
    source: &str,
    scope: ScopeConfig,
    host: &H,
    found: Vec<Usage>,
    all: Vec<Usage>,
)
    requires
        call_ensures(
            document::analyze_source_with_host_and_scope::<H>,
            (path, source, scope, host),
            found,
        ),
        call_ensures(document::analyze_source_with_host::<H>, (path, source, host), all),
    ensures
        document::usages_found(host, path@, source@, scope, names::views(found@)),
        document::usages_found(
            host,
            path@,
            source@,
            (ScopeConfig {
                declaration: true,
                element: true,
                export: true,
                import: true,
                types: true,
            }),
            names::views(all@),
        ),
{
}

/// Whether `usages` holds a usage of the component `lookup` of the document at the tag `node`.
pub open spec fn has_own_tag(
    file: SourceFileView,
    program: Tree,
    path: Seq<char>,
    usages: Seq<UsageView>,
    node: Tree,
    lookup: Seq<char>,
) -> bool {
    exists|k: int|
        0 <= k < usages.len() && is_own_tag(file, program, path, #[trigger] usages[k], node, lookup)
}

/// Whether `usage` is the tag `node`, which names the component `lookup` of the document: marked
/// where it stands, of the component's kind, and declared by the document itself.
pub open spec fn is_own_tag(
    file: SourceFileView,
    program: Tree,
    path: Seq<char>,
    usage: UsageView,
    node: Tree,
    lookup: Seq<char>,
) -> bool {
    &&& usage.source_file_path == path
    &&& kinds::has_kind(file, program, lookup, usage.kind)
    &&& walk::is_tag(
        file,
        node,
        crate::elements::JsxTagReferenceView {
            lookup_name: lookup,
            ranges: usage.ranges,
            tag_name: usage.tag_name,
        },
    )
}

/// Whether the top level of `program` declares the component `name`.
pub open spec fn is_component_of(program: Tree, name: Seq<char>) -> bool {
    declared::is_declared(
        declared::statements_of(program),
        declared::statements_of(program).len() as int,
        name,
    )
}

proof fn tag_is_noted(file: SourceFileView, program: Tree, index: int, lookup: Seq<char>) -> (at:
    int)
    requires
        0 <= index < analysis::nodes_in(program).len(),
        walk::is_component_tag(file, analysis::nodes_in(program)[index], lookup),
    ensures
        0 <= at < analyzer::analysis_of(file, program).jsx_tags.len(),
        walk::is_tag(
            file,
            analysis::nodes_in(program)[index],
            analyzer::analysis_of(file, program).jsx_tags[at],
        ),
        analyzer::analysis_of(file, program).jsx_tags[at].lookup_name == lookup,
{
    let places = analysis::tags_come_in_the_order_of_the_source(file, program);
    let tags = analyzer::analysis_of(file, program).jsx_tags;
    let node = analysis::nodes_in(program)[index];
    assert(places.contains(index));
    let at = choose|at: int| 0 <= at < places.len() && places[at] == index;
    assert(walk::is_tag(file, node, tags[at]));
    walk::tags_have_one_name(file, node, tags[at], lookup);
    at
}

/// Every tag of a document that names one of its components is a usage: marked from its `<` to the
/// end of its name and at its `>` or `/>`, or all over where it is a closing tag; of the kind of
/// the component; and declared by the document itself.
pub proof fn own_tags_are_marked<H: SourceHost>(
    host: &H,
    path: Seq<char>,
    source: Seq<char>,
    scope: ScopeConfig,
    found: Seq<UsageView>,
) -> (program: Tree)
    requires
        document::usages_found(host, path, source, scope, found),
        scope.element,
    ensures
        exists|windows: bool|
            paths::on_this_system(windows) && program == #[trigger] tree::program_tree(
                path,
                source,
                windows,
            ),
        forall|index: int, lookup: Seq<char>|
            0 <= index < analysis::nodes_in(program).len() && #[trigger] walk::is_component_tag(
                declarations::source_file(source),
                analysis::nodes_in(program)[index],
                lookup,
            ) && is_component_of(program, lookup) ==> has_own_tag(
                declarations::source_file(source),
                program,
                path,
                found,
                analysis::nodes_in(program)[index],
                lookup,
            ),
{
    let (known, windows) = choose|known: ModulesView, windows: bool|
        paths::on_this_system(windows) && document::truthful(host, known, windows)
            && #[trigger] document::outcome_of(
            known,
            path,
            analyzer::file_analysis(path, source, windows),
            scope,
        ) == OutcomeView::Done(found);
    let program = tree::program_tree(path, source, windows);
    let file = declarations::source_file(source);
    let all = analyzer::analysis_of(file, program);
    document::scopes_are_done_together(known, path, all, scope);
    let part = document::outcome_of(
        known,
        path,
        all,
        ScopeConfig { element: true, ..document::no_usage() },
    )->Done_0;
    let imports = document::declared_imports(known, path, all, all.imports.len())->Known_0;
    let places = usages::tags_are_usages(all, imports, path);
    assert forall|index: int, lookup: Seq<char>|
        0 <= index < analysis::nodes_in(program).len() && #[trigger] walk::is_component_tag(
            file,
            analysis::nodes_in(program)[index],
            lookup,
        ) && is_component_of(program, lookup) implies has_own_tag(
        file,
        program,
        path,
        found,
        analysis::nodes_in(program)[index],
        lookup,
    ) by {
        let at = tag_is_noted(file, program, index, lookup);
        kinds::declared_components_have_kinds(file, program, lookup);
        assert(usages::is_known_tag(all, imports, all.jsx_tags[at]));
        let k = choose|k: int| 0 <= k < places.len() && places[k] == at;
        assert(usages::is_tag_usage(all, imports, path, all.jsx_tags[places[k]], part[k]));
        assert(found[k] == part[k]);
        let tag = crate::elements::JsxTagReferenceView {
            lookup_name: lookup,
            ranges: part[k].ranges,
            tag_name: part[k].tag_name,
        };
        assert(tag == all.jsx_tags[at]);
        assert(is_own_tag(
            file,
            program,
            path,
            found[k],
            analysis::nodes_in(program)[index],
            lookup,
        ));
    }
    program
}

/// Whether `usage` is the component `name` where the document declares it: under its name, of its
/// kind, and marked at its last declaration.
pub open spec fn is_own_declaration(
    file: SourceFileView,
    program: Tree,
    path: Seq<char>,
    usage: UsageView,
    name: Seq<char>,
) -> bool {
    &&& usage.tag_name == name
    &&& usage.source_file_path == path
    &&& kinds::has_kind(file, program, name, usage.kind)
    &&& forall|index: int, at: int, part: Tree| #[trigger]
        declared::declares_at(declared::statements_of(program), index, at, part, name) && (forall|
            i: int,
            j: int,
            other: Tree,
        | #[trigger]
            declared::declares_at(declared::statements_of(program), i, j, other, name) ==> i < index
                || i == index && j <= at) ==> (if syntax::is_a(
            declared::declaration_in(declared::statements_of(program)[index]),
            "VariableDeclaration"@,
        ) {
            declared::marks_name(file, syntax::child(part, "id"@), usage.ranges)
        } else {
            walk::marks_span(file, syntax::span_of(syntax::child(part, "id"@)), usage.ranges)
        })
}

/// Every component that a document declares is a usage where it is declared, and nothing else is
/// one where only declarations are wanted.
pub proof fn own_declarations_are_marked<H: SourceHost>(
    host: &H,
    path: Seq<char>,
    source: Seq<char>,
    scope: ScopeConfig,
    found: Seq<UsageView>,
) -> (program: Tree)
    requires
        document::usages_found(host, path, source, scope, found),
        scope.declaration,
    ensures
        exists|windows: bool|
            paths::on_this_system(windows) && program == #[trigger] tree::program_tree(
                path,
                source,
                windows,
            ),
        forall|name: Seq<char>| #[trigger]
            is_component_of(program, name) ==> exists|k: int|
                0 <= k < found.len() && is_own_declaration(
                    declarations::source_file(source),
                    program,
                    path,
                    #[trigger] found[k],
                    name,
                ),
{
    let (known, windows) = choose|known: ModulesView, windows: bool|
        paths::on_this_system(windows) && document::truthful(host, known, windows)
            && #[trigger] document::outcome_of(
            known,
            path,
            analyzer::file_analysis(path, source, windows),
            scope,
        ) == OutcomeView::Done(found);
    let program = tree::program_tree(path, source, windows);
    let file = declarations::source_file(source);
    let all = analyzer::analysis_of(file, program);
    let none = document::no_usage();
    document::scopes_are_done_together(known, path, all, scope);
    let elements = document::outcome_of(
        known,
        path,
        all,
        ScopeConfig { element: scope.element, ..none },
    )->Done_0;
    let imported = document::outcome_of(
        known,
        path,
        all,
        ScopeConfig { import: scope.import, ..none },
    )->Done_0;
    let part = document::outcome_of(
        known,
        path,
        all,
        ScopeConfig { declaration: true, ..none },
    )->Done_0;
    usages::declarations_are_usages(all, Seq::empty(), path);
    assert forall|name: Seq<char>| #[trigger] is_component_of(program, name) implies exists|k: int|
        0 <= k < found.len() && is_own_declaration(
            file,
            program,
            path,
            #[trigger] found[k],
            name,
        ) by {
        let at = own_component(file, program, name);
        let k = elements.len() + imported.len() + at;
        assert(found[k] == part[at]);
        assert(is_own_declaration(file, program, path, found[k], name));
    }
    program
}

proof fn own_component(file: SourceFileView, program: Tree, name: Seq<char>) -> (at: int)
    requires
        is_component_of(program, name),
    ensures
        ({
            let components = analyzer::analysis_of(file, program).local_components;
            &&& 0 <= at < components.len()
            &&& components[at].0 == name
            &&& kinds::has_kind(file, program, name, components[at].1.kind)
            &&& is_own_declaration(
                file,
                program,
                Seq::empty(),
                UsageView {
                    kind: components[at].1.kind,
                    tag_name: name,
                    source_file_path: Seq::empty(),
                    ranges: components[at].1.ranges,
                },
                name,
            )
        }),
{
    let components = analyzer::analysis_of(file, program).local_components;
    kinds::declared_components_have_kinds(file, program, name);
    let at = names::lookup_finds_an_entry(components, name);
    analysis::the_rest_is_what_is_declared(file, program, name);
    let statements = declared::statements_of(program);
    assert forall|index: int, place: int, part: Tree| #[trigger]
        declared::declares_at(statements, index, place, part, name) && (forall|
            i: int,
            j: int,
            other: Tree,
        | #[trigger]
            declared::declares_at(statements, i, j, other, name) ==> i < index || i == index && j
                <= place) implies (if syntax::is_a(
        declared::declaration_in(statements[index]),
        "VariableDeclaration"@,
    ) {
        declared::marks_name(file, syntax::child(part, "id"@), components[at].1.ranges)
    } else {
        walk::marks_span(
            file,
            syntax::span_of(syntax::child(part, "id"@)),
            components[at].1.ranges,
        )
    }) by {
        declared::components_are_marked_at_their_names(file, program, name, index, place, part);
    }
    at
}

/// Whether the last specifier of `program` that imports something under `name` is the specifier
/// `at` of the statement `index`.
pub open spec fn is_last_import(program: Tree, index: int, at: int, name: Seq<char>) -> bool {
    &&& declared::imports_at(declared::statements_of(program), index, at, name)
    &&& forall|i: int, j: int| #[trigger]
        declared::imports_at(declared::statements_of(program), i, j, name) ==> i < index || i
            == index && j <= at
}

/// Whether what the specifier `at` of the statement `index` imports is declared by the module
/// `target`, of the kind `kind`: the search for it, from the module that stands behind `from` and
/// under the name that it has there, finds it.
pub open spec fn is_found_in(
    known: ModulesView,
    path: Seq<char>,
    program: Tree,
    index: int,
    at: int,
    kind: Kind,
    target: Seq<char>,
) -> bool {
    let statement = declared::statements_of(program)[index];
    let specifier = syntax::items(statement, "specifiers"@)[at];
    modules::search_export(
        known,
        path,
        syntax::literal_of(syntax::child(statement, "source"@)),
        declared::exported_name_of(specifier),
    ) == (SearchView::Found { kind, path: target })
}

/// Whether `usage` is the import of `name` by the specifier `at` of the statement `index`: marked
/// at its local name, and of the kind and the path of the module that declares it.
pub open spec fn is_marked_import(
    file: SourceFileView,
    program: Tree,
    usage: UsageView,
    index: int,
    at: int,
    name: Seq<char>,
    kind: Kind,
    target: Seq<char>,
) -> bool {
    let specifier = syntax::items(
        declared::statements_of(program)[index],
        "specifiers"@,
    )[at];
    &&& usage.tag_name == name
    &&& usage.kind == kind
    &&& usage.source_file_path == target
    &&& walk::marks_span(
        file,
        syntax::span_of(syntax::child(specifier, "local"@)),
        usage.ranges,
    )
}

/// Whether the answers in `known` are those of the host and the resolver, and the document is
/// `program`.
pub open spec fn is_answered<H: SourceHost>(
    host: &H,
    known: ModulesView,
    path: Seq<char>,
    source: Seq<char>,
    program: Tree,
) -> bool {
    exists|windows: bool|
        paths::on_this_system(windows) && document::truthful(host, known, windows) && program
            == #[trigger] tree::program_tree(path, source, windows)
}

proof fn import_is_listed(
    file: SourceFileView,
    program: Tree,
    index: int,
    at: int,
    name: Seq<char>,
) -> (place: int)
    requires
        is_last_import(program, index, at, name),
    ensures
        ({
            let all = analyzer::analysis_of(file, program);
            &&& 0 <= place < all.imports.len()
            &&& all.imports[place].0 == name
            &&& declared::is_import_at(
                file,
                declared::statements_of(program),
                index,
                at,
                all.imports[place].1,
            )
            &&& names::sorted(all.imports)
        }),
{
    let all = analyzer::analysis_of(file, program);
    declared::imports_are_what_their_specifiers_say(file, program, name, index, at);
    analysis::the_rest_is_what_is_declared(file, program, name);
    analyzer::analysis_is_in_order(file, program);
    names::lookup_finds_an_entry(all.imports, name)
}

/// Every import under a component's name that leads to the module that declares it is a usage with
/// the kind and the path of that module, unless a component of the document hides it.
pub proof fn imports_are_marked<H: SourceHost>(
    host: &H,
    path: Seq<char>,
    source: Seq<char>,
    scope: ScopeConfig,
    found: Seq<UsageView>,
) -> (seen: (ModulesView, Tree))
    requires
        document::usages_found(host, path, source, scope, found),
        scope.import,
    ensures
        is_answered(host, seen.0, path, source, seen.1),
        forall|index: int, at: int, name: Seq<char>, kind: Kind, target: Seq<char>|
            #![trigger is_last_import(seen.1, index, at, name), is_found_in(
                seen.0,
                path,
                seen.1,
                index,
                at,
                kind,
                target,
            )]
            is_last_import(seen.1, index, at, name) && is_found_in(
                seen.0,
                path,
                seen.1,
                index,
                at,
                kind,
                target,
            ) && !is_component_of(seen.1, name) ==> exists|k: int|
                0 <= k < found.len() && is_marked_import(
                    declarations::source_file(source),
                    seen.1,
                    #[trigger] found[k],
                    index,
                    at,
                    name,
                    kind,
                    target,
                ),
{
    let (known, windows) = choose|known: ModulesView, windows: bool|
        paths::on_this_system(windows) && document::truthful(host, known, windows)
            && #[trigger] document::outcome_of(
            known,
            path,
            analyzer::file_analysis(path, source, windows),
            scope,
        ) == OutcomeView::Done(found);
    let program = tree::program_tree(path, source, windows);
    let file = declarations::source_file(source);
    let all = analyzer::analysis_of(file, program);
    let none = document::no_usage();
    document::scopes_are_done_together(known, path, all, scope);
    let elements = document::outcome_of(
        known,
        path,
        all,
        ScopeConfig { element: scope.element, ..none },
    )->Done_0;
    let part = document::outcome_of(
        known,
        path,
        all,
        ScopeConfig { import: true, ..none },
    )->Done_0;
    analyzer::analysis_is_in_order(file, program);
    let places = usages::imports_are_usages(known, path, all, part);
    assert forall|index: int, at: int, name: Seq<char>, kind: Kind, target: Seq<char>|
        #![trigger is_last_import(program, index, at, name), is_found_in(
            known,
            path,
            program,
            index,
            at,
            kind,
            target,
        )]
        is_last_import(program, index, at, name) && is_found_in(
            known,
            path,
            program,
            index,
            at,
            kind,
            target,
        ) && !is_component_of(program, name) implies exists|k: int|
        0 <= k < found.len() && is_marked_import(
            file,
            program,
            #[trigger] found[k],
            index,
            at,
            name,
            kind,
            target,
        ) by {
        let place = import_is_listed(file, program, index, at, name);
        if names::has(all.local_components, name) {
            kinds::known_components_are_declared(file, program, name);
        }
        assert(usages::leads_to(known, path, all, place, kind, target));
        let k = choose|k: int| 0 <= k < places.len() && places[k] == place;
        assert(usages::is_import_usage(known, path, all, places[k], part[k]));
        assert(found[elements.len() + k] == part[k]);
        assert(is_marked_import(
            file,
            program,
            found[elements.len() + k],
            index,
            at,
            name,
            kind,
            target,
        ));
    }
    assert(is_answered(host, known, path, source, program));
    (known, program)
}

/// Whether `usage` is the tag `node`, which is looked up under `lookup`, with the kind `kind` and
/// the path `target`.
pub open spec fn is_imported_tag(
    file: SourceFileView,
    usage: UsageView,
    node: Tree,
    lookup: Seq<char>,
    kind: Kind,
    target: Seq<char>,
) -> bool {
    &&& usage.kind == kind
    &&& usage.source_file_path == target
    &&& walk::is_tag(
        file,
        node,
        crate::elements::JsxTagReferenceView {
            lookup_name: lookup,
            ranges: usage.ranges,
            tag_name: usage.tag_name,
        },
    )
}

/// Every tag of a document that names an import which leads to the module that declares it is a
/// usage with the kind and the path of that module, unless a component of the document hides it.
pub proof fn imported_tags_are_marked<H: SourceHost>(
    host: &H,
    path: Seq<char>,
    source: Seq<char>,
    scope: ScopeConfig,
    found: Seq<UsageView>,
) -> (seen: (ModulesView, Tree))
    requires
        document::usages_found(host, path, source, scope, found),
        scope.element,
    ensures
        is_answered(host, seen.0, path, source, seen.1),
        forall|
            node: int,
            lookup: Seq<char>,
            index: int,
            at: int,
            kind: Kind,
            target: Seq<char>,
        |
            #![trigger walk::is_component_tag(
                declarations::source_file(source),
                analysis::nodes_in(seen.1)[node],
                lookup,
            ), is_found_in(seen.0, path, seen.1, index, at, kind, target)]
            0 <= node < analysis::nodes_in(seen.1).len() && walk::is_component_tag(
                declarations::source_file(source),
                analysis::nodes_in(seen.1)[node],
                lookup,
            ) && is_last_import(seen.1, index, at, lookup) && is_found_in(
                seen.0,
                path,
                seen.1,
                index,
                at,
                kind,
                target,
            ) && !is_component_of(seen.1, lookup) ==> exists|k: int|
                0 <= k < found.len() && is_imported_tag(
                    declarations::source_file(source),
                    #[trigger] found[k],
                    analysis::nodes_in(seen.1)[node],
                    lookup,
                    kind,
                    target,
                ),
{
    let (known, windows) = choose|known: ModulesView, windows: bool|
        paths::on_this_system(windows) && document::truthful(host, known, windows)
            && #[trigger] document::outcome_of(
            known,
            path,
            analyzer::file_analysis(path, source, windows),
            scope,
        ) == OutcomeView::Done(found);
    let program = tree::program_tree(path, source, windows);
    let file = declarations::source_file(source);
    let all = analyzer::analysis_of(file, program);
    document::scopes_are_done_together(known, path, all, scope);
    let part = document::outcome_of(
        known,
        path,
        all,
        ScopeConfig { element: true, ..document::no_usage() },
    )->Done_0;
    let imports = document::declared_imports(known, path, all, all.imports.len())->Known_0;
    let places = usages::tags_are_usages(all, imports, path);
    assert forall|
        node: int,
        lookup: Seq<char>,
        index: int,
        at: int,
        kind: Kind,
        target: Seq<char>,
    |
        #![trigger walk::is_component_tag(file, analysis::nodes_in(program)[node], lookup), is_found_in(
            known,
            path,
            program,
            index,
            at,
            kind,
            target,
        )]
        0 <= node < analysis::nodes_in(program).len() && walk::is_component_tag(
            file,
            analysis::nodes_in(program)[node],
            lookup,
        ) && is_last_import(program, index, at, lookup) && is_found_in(
            known,
            path,
            program,
            index,
            at,
            kind,
            target,
        ) && !is_component_of(program, lookup) implies exists|k: int|
        0 <= k < found.len() && is_imported_tag(
            file,
            #[trigger] found[k],
            analysis::nodes_in(program)[node],
            lookup,
            kind,
            target,
        ) by {
        let tag = tag_is_noted(file, program, node, lookup);
        let place = import_is_listed(file, program, index, at, lookup);
        if names::has(all.local_components, lookup) {
            kinds::known_components_are_declared(file, program, lookup);
        }
        usages::imports_lead_to_what_is_found(known, path, all, imports, lookup);
        assert(usages::leads_to(known, path, all, place, kind, target));
        assert(usages::is_known_tag(all, imports, all.jsx_tags[tag]));
        let k = choose|k: int| 0 <= k < places.len() && places[k] == tag;
        assert(usages::is_tag_usage(all, imports, path, all.jsx_tags[places[k]], part[k]));
        assert(found[k] == part[k]);
        assert(all.jsx_tags[tag] == (crate::elements::JsxTagReferenceView {
            lookup_name: lookup,
            ranges: part[k].ranges,
            tag_name: part[k].tag_name,
        }));
        assert(is_imported_tag(
            file,
            found[k],
            analysis::nodes_in(program)[node],
            lookup,
            kind,
            target,
        ));
    }
    assert(is_answered(host, known, path, source, program));
    (known, program)
}

/// The position of a component is that of the name that declares it: nothing is found where the
/// document declares no such component.
pub proof fn components_are_found_where_they_are_declared<H: SourceHost>(
    path: &str,
    source: &str,
    name: &str,
    host: &H,
    position: Option<(u32, u32)>,
) -> (program: Tree)
    requires
        call_ensures(
            document::find_component_declaration::<H>,
            (path, source, name, host),
            position,
        ),
    ensures
        exists|windows: bool|
            paths::on_this_system(windows) && program == #[trigger] tree::program_tree(
                path@,
                source@,
                windows,
            ),
        position is Some <==> is_component_of(program, name@),
        forall|index: int, at: int, part: Tree| #[trigger]
            declared::declares_at(
                declared::statements_of(program),
                index,
                at,
                part,
                name@,
            ) && (forall|i: int, j: int, other: Tree| #[trigger]
                declared::declares_at(
                    declared::statements_of(program),
                    i,
                    j,
                    other,
                    name@,
                ) ==> i < index || i == index && j <= at) ==> {
                let boundaries = utf16::boundaries_of(source@);
                let start = syntax::span_of(syntax::child(part, "id"@)).start;
                position matches Some(place) && (place.0 as int, place.1 as int)
                    == boundaries.line_and_character(boundaries.utf16(start))
            },
{
    let windows = choose|windows: bool|
        paths::on_this_system(windows) && document::component_position(
            #[trigger] analyzer::file_analysis(path@, source@, windows),
            source@,
            name@,
        ) == (match position {
            Some(position) => Some((position.0 as int, position.1 as int)),
            None => None,
        });
    let program = tree::program_tree(path@, source@, windows);
    let file = declarations::source_file(source@);
    let all = analyzer::analysis_of(file, program);
    if is_component_of(program, name@) {
        let at = own_component(file, program, name@);
        kinds::declared_components_have_kinds(file, program, name@);
        component_has_ranges(file, program, name@);
    }
    if position is Some {
        kinds::known_components_are_declared(file, program, name@);
    }
    assert forall|index: int, at: int, part: Tree| #[trigger]
        declared::declares_at(declared::statements_of(program), index, at, part, name@) && (forall|
            i: int,
            j: int,
            other: Tree,
        | #[trigger]
            declared::declares_at(declared::statements_of(program), i, j, other, name@) ==> i
                < index || i == index && j <= at) implies ({
        let boundaries = utf16::boundaries_of(source@);
        let start = syntax::span_of(syntax::child(part, "id"@)).start;
        position matches Some(place) && (place.0 as int, place.1 as int)
            == boundaries.line_and_character(boundaries.utf16(start))
    }) by {
        declared::components_are_marked_at_their_names(file, program, name@, index, at, part);
        analysis::the_rest_is_what_is_declared(file, program, name@);
    }
    program
}

proof fn component_has_ranges(file: SourceFileView, program: Tree, name: Seq<char>)
    requires
        is_component_of(program, name),
    ensures
        names::lookup(analyzer::analysis_of(file, program).local_components, name) matches Some(
            found,
        ) && found.ranges.len() > 0,
{
    let all = declarations::declarations_of(file, program);
    declared::components_are_those_that_are_declared(
        file,
        program,
        name,
        Span { start: 0, end: 0 },
    );
    analysis::the_rest_is_what_is_declared(file, program, name);
    declarations::declarations_are_in_order(file, program);
    let at = names::lookup_finds_an_entry(all.local_components, name);
    assert(declarations::sound_component(file.kind)(all.local_components[at]));
}

/// An answer is added behind those that are known: to what a specifier means, what the resolver
/// says of it; to what a file holds, the kind and the exports that the text which the host reads
/// gives it, or nothing where the host cannot read it.
pub proof fn answers_come_from_the_resolver_and_the_host<H: SourceHost>(
    request: Request,
    host: &H,
    known: &mut Modules,
    windows: bool,
)
    requires
        call_ensures(document::answer::<H>, (request, host, known, windows), ()),
    ensures
        request matches Request::Resolve { from, specifier } ==> {
            let added = final(known)@.resolutions.last();
            &&& final(known)@.files == old(known)@.files
            &&& final(known)@.resolutions == old(known)@.resolutions.push(added)
            &&& added.from == from@ && added.specifier == specifier@
            &&& exists|file: &str, asked: &str, target: Option<String>|
                #[trigger] call_ensures(crate::resolver::resolve_import, (file, asked), target)
                    && file@ == from@ && asked@ == specifier@ && added.target
                    == crate::text::maybe_string(target)
        },
        request matches Request::Read { path } ==> {
            let added = final(known)@.files.last();
            &&& final(known)@.resolutions == old(known)@.resolutions
            &&& final(known)@.files == old(known)@.files.push(added)
            &&& added.path == path@
            &&& exists|file: &str, read: Option<String>|
                #[trigger] call_ensures(H::read_to_string, (host, file), read) && file@ == path@
                    && (read is None ==> added.info is None) && (read matches Some(source)
                    ==> added.info matches Some(info) && (info.kind == Kind::Client
                    <==> directive::is_client_module(vstd::utf8::encode_utf8(source@)))
                    && info.exports == exports::exports_of(
                    tree::program_tree(path@, source@, windows),
                ))
        },
{
    match request {
        Request::Resolve { from, specifier } => {
            let added = final(known)@.resolutions.last();
            let (file, asked, target) = choose|file: &str, asked: &str, target: Option<String>|
                #[trigger] call_ensures(crate::resolver::resolve_import, (file, asked), target)
                    && file@ == added.from && asked@ == added.specifier
                    && crate::text::maybe_string(target) == added.target;
            assert(call_ensures(crate::resolver::resolve_import, (file, asked), target));
        },
        Request::Read { path } => {
            let added = final(known)@.files.last();
            let (file, read) = choose|file: &str, read: Option<String>|
                #[trigger] call_ensures(H::read_to_string, (host, file), read) && file@
                    == added.path && added.info == (match read {
                    Some(read) => Some(exports::component_info(added.path, read@, windows)),
                    None => None,
                });
            assert(call_ensures(H::read_to_string, (host, file), read));
        },
    }
}

/// Answers are the host's and the resolver's own: a file holds what the text that the host reads
/// from it shows, and a specifier means what the resolver says.
pub proof fn answers_are_not_made_up<H: SourceHost>(
    host: &H,
    known: ModulesView,
    windows: bool,
    file: int,
    resolution: int,
)
    requires
        document::truthful(host, known, windows),
        0 <= file < known.files.len(),
        0 <= resolution < known.resolutions.len(),
    ensures
        exists|path: &str, read: Option<String>|
            #[trigger] call_ensures(H::read_to_string, (host, path), read) && path@
                == known.files[file].path && (read is None ==> known.files[file].info is None) && (
            read matches Some(source) ==> known.files[file].info matches Some(info) && (info.kind
                == Kind::Client <==> directive::is_client_module(
                vstd::utf8::encode_utf8(source@),
            )) && info.exports == exports::exports_of(
                tree::program_tree(path@, source@, windows),
            )),
        exists|from: &str, specifier: &str, target: Option<String>|
            #[trigger] call_ensures(crate::resolver::resolve_import, (from, specifier), target)
                && from@ == known.resolutions[resolution].from && specifier@
                == known.resolutions[resolution].specifier && crate::text::maybe_string(target)
                == known.resolutions[resolution].target,
{
    let answer = known.files[file];
    assert(document::told_by_host(host, answer, windows));
    let (path, read) = choose|path: &str, read: Option<String>|
        #[trigger] call_ensures(H::read_to_string, (host, path), read) && path@ == answer.path
            && answer.info == (match read {
            Some(read) => Some(exports::component_info(answer.path, read@, windows)),
            None => None,
        });
    assert(call_ensures(H::read_to_string, (host, path), read));
    assert(document::told_by_resolver(known.resolutions[resolution]));
}

/// The usages that are found are those that answers of the host and the resolver lead to.
pub proof fn usages_rest_on_answers<H: SourceHost>(
    host: &H,
    path: Seq<char>,
    source: Seq<char>,
    scope: ScopeConfig,
    found: Seq<UsageView>,
) -> (seen: (ModulesView, bool))
    requires
        document::usages_found(host, path, source, scope, found),
    ensures
        paths::on_this_system(seen.1),
        document::truthful(host, seen.0, seen.1),
        document::outcome_of(
            seen.0,
            path,
            analyzer::analysis_of(
                declarations::source_file(source),
                tree::program_tree(path, source, seen.1),
            ),
            scope,
        ) == OutcomeView::Done(found),
{
    choose|known: ModulesView, windows: bool|
        paths::on_this_system(windows) && document::truthful(host, known, windows)
            && #[trigger] document::outcome_of(
            known,
            path,
            analyzer::file_analysis(path, source, windows),
            scope,
        ) == OutcomeView::Done(found)
}

/// What is collected from a tree is what the tree shows, and the usages that are collected are
/// those of what is known of the document and of the modules that declare what it imports.
pub proof fn parts_of_the_analysis_fit_together(
    program: &Tree,
    file: &SourceFile<'_>,
    found: FileAnalysis,
    collected: Declarations,
    exported: ModuleExports,
    known: &Modules,
    path: &str,
    scope: ScopeConfig,
    imports: Imports,
    declared: &NameMap<Declared>,
    usages: Vec<Usage>,
)
    requires
        call_ensures(analyzer::analyze_program, (program, file), found),
        call_ensures(declarations::collect_declarations, (program, file), collected),
        call_ensures(exports::extract_program_exports, (program,), exported),
        call_ensures(document::resolve_imports, (known, path, &found), imports),
        call_ensures(document::collect_usages, (&found, declared, path, scope), usages),
    ensures
        found@ == analyzer::analysis_of(file@, *program),
        collected@ == declarations::declarations_of(file@, *program),
        exported@ == exports::exports_of(*program),
        imports@ == document::declared_imports(known@, path@, found@, found@.imports.len()),
        names::views(usages@) == document::usages_of(found@, declared@, path@, scope),
{
}

} // verus!
