//! What the top level of a module declares: imports, components, types, exports.
use vstd::prelude::*;
use vstd::string::StringSliceAdditionalSpecFns;

use crate::directive;
use crate::names;
use crate::names::{NameMap, NameSet};
use crate::syntax;
use crate::text;
use crate::tree::Tree;
use crate::utf16;
use crate::utf16::{Boundaries, Utf16Mapper};
use crate::{Kind, Range, Span};

verus! {

/// A name and where it stands.
#[derive(Debug)]
pub struct NamedRange {
    pub name: String,
    pub ranges: Vec<Range>,
}

/// A name and where it stands.
#[verifier::ext_equal]
pub struct NamedRangeView {
    pub name: Seq<char>,
    pub ranges: Seq<Range>,
}

impl View for NamedRange {
    type V = NamedRangeView;

    open spec fn view(&self) -> NamedRangeView {
        NamedRangeView { name: self.name@, ranges: self.ranges@ }
    }
}

/// A component that the module declares.
#[derive(Debug)]
pub struct LocalComponent {
    pub kind: Kind,
    pub ranges: Vec<Range>,
}

/// A component that the module declares.
#[verifier::ext_equal]
pub struct LocalComponentView {
    pub kind: Kind,
    pub ranges: Seq<Range>,
}

impl View for LocalComponent {
    type V = LocalComponentView;

    open spec fn view(&self) -> LocalComponentView {
        LocalComponentView { kind: self.kind, ranges: self.ranges@ }
    }
}

/// Something that the module imports: from where, and under which name it is exported there.
#[derive(Debug)]
pub struct ImportEntry {
    pub export_name: String,
    pub ranges: Vec<Range>,
    pub source: String,
}

/// Something that the module imports: from where, and under which name it is exported there.
#[verifier::ext_equal]
pub struct ImportEntryView {
    pub export_name: Seq<char>,
    pub ranges: Seq<Range>,
    pub source: Seq<char>,
}

impl View for ImportEntry {
    type V = ImportEntryView;

    open spec fn view(&self) -> ImportEntryView {
        ImportEntryView {
            export_name: self.export_name@,
            ranges: self.ranges@,
            source: self.source@,
        }
    }
}

/// A type that is declared or referred to, with the component it is referred to in.
#[derive(Debug)]
pub struct TypeIdentifier {
    pub enclosing_component: Option<String>,
    pub name: String,
    pub ranges: Vec<Range>,
}

/// A type that is declared or referred to, with the component it is referred to in.
#[verifier::ext_equal]
pub struct TypeIdentifierView {
    pub enclosing_component: Option<Seq<char>>,
    pub name: Seq<char>,
    pub ranges: Seq<Range>,
}

impl View for TypeIdentifier {
    type V = TypeIdentifierView;

    open spec fn view(&self) -> TypeIdentifierView {
        TypeIdentifierView {
            enclosing_component: text::maybe_string(self.enclosing_component),
            name: self.name@,
            ranges: self.ranges@,
        }
    }
}

/// The part of the source that belongs to a component.
#[derive(Debug)]
pub struct ComponentRange {
    pub span: Span,
    pub name: String,
}

/// The part of the source that belongs to a component.
#[verifier::ext_equal]
pub struct ComponentRangeView {
    pub span: Span,
    pub name: Seq<char>,
}

impl View for ComponentRange {
    type V = ComponentRangeView;

    open spec fn view(&self) -> ComponentRangeView {
        ComponentRangeView { span: self.span, name: self.name@ }
    }
}

/// What the top level of a module declares.
#[derive(Debug)]
pub struct Declarations {
    pub async_components: NameSet,
    pub component_ranges: Vec<ComponentRange>,
    pub export_references: Vec<NamedRange>,
    pub imports: NameMap<ImportEntry>,
    pub local_components: NameMap<LocalComponent>,
    pub type_identifiers: Vec<TypeIdentifier>,
}

/// What the top level of a module declares.
#[verifier::ext_equal]
pub struct DeclarationsView {
    pub async_components: Set<Seq<char>>,
    pub component_ranges: Seq<ComponentRangeView>,
    pub export_references: Seq<NamedRangeView>,
    pub imports: Seq<(Seq<char>, ImportEntryView)>,
    pub local_components: Seq<(Seq<char>, LocalComponentView)>,
    pub type_identifiers: Seq<TypeIdentifierView>,
}

impl View for Declarations {
    type V = DeclarationsView;

    open spec fn view(&self) -> DeclarationsView {
        DeclarationsView {
            async_components: self.async_components@,
            component_ranges: names::views(self.component_ranges@),
            export_references: names::views(self.export_references@),
            imports: self.imports@,
            local_components: self.local_components@,
            type_identifiers: names::views(self.type_identifiers@),
        }
    }
}

/// No declarations.
pub open spec fn nothing_declared() -> DeclarationsView {
    DeclarationsView {
        async_components: Set::empty(),
        component_ranges: Seq::empty(),
        export_references: Seq::empty(),
        imports: Seq::empty(),
        local_components: Seq::empty(),
        type_identifiers: Seq::empty(),
    }
}

/// A module: its text, its offsets, and the kind that its own directive gives it.
#[derive(Debug)]
pub struct SourceFile<'a> {
    pub text: &'a str,
    pub mapper: Utf16Mapper,
    pub kind: Kind,
}

/// A module: its text, its offsets, and the kind that its own directive gives it.
#[verifier::ext_equal]
pub struct SourceFileView {
    pub text: Seq<char>,
    pub boundaries: Boundaries,
    pub kind: Kind,
}

impl<'a> View for SourceFile<'a> {
    type V = SourceFileView;

    open spec fn view(&self) -> SourceFileView {
        SourceFileView { text: self.text@, boundaries: self.mapper@, kind: self.kind }
    }
}

/// The kind that a module's own directive gives it.
pub open spec fn own_kind(source: Seq<char>) -> Kind {
    if directive::is_client_module(vstd::utf8::encode_utf8(source)) {
        Kind::Client
    } else {
        Kind::Server
    }
}

/// The kind that a module's own directive gives it.
pub fn own_component_kind(source: &str) -> (kind: Kind)
    ensures
        kind == own_kind(source@),
{
    if directive::has_use_client_directive(source.as_bytes()) {
        Kind::Client
    } else {
        Kind::Server
    }
}

/// The module with the text `source`.
pub open spec fn source_file(source: Seq<char>) -> SourceFileView {
    SourceFileView {
        text: source,
        boundaries: utf16::boundaries_of(source),
        kind: own_kind(source),
    }
}

impl<'a> SourceFile<'a> {
    /// Whether offsets can be mapped.
    pub open spec fn well_formed(&self) -> bool {
        &&& self.mapper@.well_formed()
        &&& self.text.spec_bytes().len() <= u32::MAX
    }

    /// The module with the text `source`.
    pub fn new(source: &'a str) -> (file: Self)
        requires
            source.spec_bytes().len() <= u32::MAX,
        ensures
            file@ == source_file(source@),
            file.well_formed(),
    {
        SourceFile {
            text: source,
            mapper: Utf16Mapper::new(source),
            kind: own_component_kind(source),
        }
    }
}

/// The UTF-16 range of the bytes from `start` to `end`.
pub open spec fn range_of(boundaries: Boundaries, start: u32, end: u32) -> Range {
    Range { start: boundaries.utf16(start), end: boundaries.utf16(end) }
}

/// The UTF-16 range of the bytes from `start` to `end`.
pub fn range_for_bounds(start: u32, end: u32, mapper: &Utf16Mapper) -> (range: Range)
    requires
        mapper@.well_formed(),
    ensures
        range == range_of(mapper@, start, end),
{
    Range { start: mapper.to_utf16(start), end: mapper.to_utf16(end) }
}

/// The UTF-16 range of `span`.
pub fn range_for_span(span: Span, mapper: &Utf16Mapper) -> (range: Range)
    requires
        mapper@.well_formed(),
    ensures
        range == range_of(mapper@, span.start, span.end),
{
    range_for_bounds(span.start, span.end, mapper)
}

/// The UTF-16 range of `span`, as the only one of a list.
pub open spec fn span_ranges(boundaries: Boundaries, span: Span) -> Seq<Range> {
    seq![range_of(boundaries, span.start, span.end)]
}

/// The UTF-16 range of `span`, as the only one of a list.
pub fn ranges_for_span(span: Span, mapper: &Utf16Mapper) -> (ranges: Vec<Range>)
    requires
        mapper@.well_formed(),
    ensures
        ranges@ == span_ranges(mapper@, span),
{
    let mut ranges: Vec<Range> = Vec::new();
    ranges.push(range_for_span(span, mapper));
    ranges
}

/// Where `name`, written at `at` in `bytes`, ends. A character of it may be written as an
/// escape: a backslash, `u`, and four digits or digits in braces.
pub open spec fn name_end(bytes: Seq<u8>, at: int, name: Seq<char>) -> int
    decreases name.len(),
{
    if name.len() == 0 || at < 0 || at >= bytes.len() {
        at
    } else if bytes[at] != 92 {
        name_end(bytes, at + utf16::utf8_len(name[0]), name.drop_first())
    } else if at + 2 < bytes.len() && bytes[at + 2] == 123 {
        name_end(bytes, directive::next_byte(bytes, at + 3, 125) + 1, name.drop_first())
    } else {
        name_end(bytes, at + 6, name.drop_first())
    }
}

/// Where the identifier `id` stands without the type that may be annotated to it.
pub open spec fn binding_span(source: Seq<char>, id: Tree) -> Span {
    if syntax::child(id, "typeAnnotation"@) is Null {
        syntax::span_of(id)
    } else {
        let start = syntax::span_of(id).start;
        let end = name_end(vstd::utf8::encode_utf8(source), start as int, syntax::name_of(id));
        Span {
            start,
            end: if end <= u32::MAX {
                end as u32
            } else {
                u32::MAX
            },
        }
    }
}

/// Where the identifier `id` stands without the type that may be annotated to it.
pub fn get_binding_span(source: &str, id: &Tree) -> (span: Span)
    requires
        source.spec_bytes().len() <= u32::MAX,
    ensures
        span == binding_span(source@, *id),
{
    match syntax::get_child(id, "typeAnnotation") {
        Tree::Null => syntax::get_span(id),
        _ => {
            let start = syntax::get_span(id).start;
            let bytes = source.as_bytes();
            let name = text::chars_of(syntax::get_name(id));
            let mut at: u64 = start as u64;
            let mut i: usize = 0;
            proof {
                assert(name@.skip(0) =~= name@);
            }
            while i < name.len() && at < bytes.len() as u64
                invariant
                    i <= name.len(),
                    bytes@.len() <= u32::MAX,
                    at <= u32::MAX + 6,
                    name_end(bytes@, start as int, name@) == name_end(
                        bytes@,
                        at as int,
                        name@.skip(i as int),
                    ),
                decreases name.len() - i,
            {
                proof {
                    assert(name@.skip(i as int)[0] == name@[i as int]);
                    assert(name@.skip(i as int).drop_first() =~= name@.skip(i + 1));
                }
                if bytes[at as usize] != 92 {
                    at = at + utf16::len_utf8(name[i]) as u64;
                } else if at + 2 < bytes.len() as u64 && bytes[(at + 2) as usize] == 123 {
                    at = directive::find_byte(bytes, (at + 3) as usize, 125) as u64 + 1;
                } else {
                    at = at + 6;
                }
                i = i + 1;
            }
            let end: u32 = if at <= 0xffff_ffff {
                at as u32
            } else {
                0xffff_ffff
            };
            Span { start, end }
        },
    }
}

/// `declared` with one more component, if its name can be a component's.
pub open spec fn with_component(
    declared: DeclarationsView,
    file: SourceFileView,
    name: Seq<char>,
    name_span: Span,
    scope: Span,
) -> DeclarationsView {
    if syntax::names_component(name) {
        DeclarationsView {
            local_components: names::put(
                declared.local_components,
                name,
                LocalComponentView {
                    kind: file.kind,
                    ranges: span_ranges(file.boundaries, name_span),
                },
            ),
            component_ranges: declared.component_ranges.push(
                ComponentRangeView { span: scope, name },
            ),
            ..declared
        }
    } else {
        declared
    }
}

/// Declares the component `name`, which the part `scope` of the source belongs to.
pub fn register_component(
    name: &str,
    name_span: Span,
    scope: Span,
    file: &SourceFile<'_>,
    declarations: &mut Declarations,
)
    requires
        file.well_formed(),
    ensures
        final(declarations)@ == with_component(old(declarations)@, file@, name@, name_span, scope),
{
    broadcast use names::views_of_push;

    if !syntax::is_component_identifier(name) {
        return ;
    }
    declarations.local_components.insert(
        name,
        LocalComponent { kind: file.kind, ranges: ranges_for_span(name_span, &file.mapper) },
    );
    declarations.component_ranges.push(ComponentRange { span: scope, name: name.to_owned() });
}

/// `declared` with `name` among the asynchronous components, if `is_async`.
pub open spec fn with_async(
    declared: DeclarationsView,
    name: Seq<char>,
    is_async: bool,
) -> DeclarationsView {
    if is_async {
        DeclarationsView { async_components: declared.async_components.insert(name), ..declared }
    } else {
        declared
    }
}

/// `declared` with the component that a function declaration may be.
pub open spec fn with_function(
    declared: DeclarationsView,
    file: SourceFileView,
    function: Tree,
) -> DeclarationsView {
    let id = syntax::child(function, "id"@);
    let name = syntax::name_of(id);
    if id is Null || !syntax::names_component(name) {
        declared
    } else {
        with_async(
            with_component(
                declared,
                file,
                name,
                syntax::span_of(id),
                syntax::span_of(function),
            ),
            name,
            syntax::flag(function, "async"@),
        )
    }
}

/// Declares the component that a function declaration may be.
pub fn register_function_declaration(
    function: &Tree,
    file: &SourceFile<'_>,
    declarations: &mut Declarations,
)
    requires
        file.well_formed(),
    ensures
        final(declarations)@ == with_function(old(declarations)@, file@, *function),
{
    let id = syntax::get_child(function, "id");
    if let Tree::Null = id {
        return ;
    }
    let name = syntax::get_name(id);
    if !syntax::is_component_identifier(name) {
        return ;
    }
    register_component(
        name,
        syntax::get_span(id),
        syntax::get_span(function),
        file,
        declarations,
    );
    if syntax::has_flag(function, "async") {
        declarations.async_components.insert(name);
    }
}

/// `declared` with the component that a class may be.
pub open spec fn with_class(
    declared: DeclarationsView,
    file: SourceFileView,
    class: Tree,
) -> DeclarationsView {
    let id = syntax::child(class, "id"@);
    if id is Null {
        declared
    } else {
        with_component(
            declared,
            file,
            syntax::name_of(id),
            syntax::span_of(id),
            syntax::span_of(class),
        )
    }
}

/// Declares the component that a class may be.
pub fn register_class_declaration(
    class: &Tree,
    file: &SourceFile<'_>,
    declarations: &mut Declarations,
)
    requires
        file.well_formed(),
    ensures
        final(declarations)@ == with_class(old(declarations)@, file@, *class),
{
    let id = syntax::get_child(class, "id");
    if let Tree::Null = id {
        return ;
    }
    register_component(
        syntax::get_name(id),
        syntax::get_span(id),
        syntax::get_span(class),
        file,
        declarations,
    );
}

/// `declared` with the component that one variable may be: a class, a function, or a function in
/// a wrapper of components.
pub open spec fn with_variable(
    declared: DeclarationsView,
    file: SourceFileView,
    declarator: Tree,
) -> DeclarationsView {
    let id = syntax::child(declarator, "id"@);
    let init = syntax::child(declarator, "init"@);
    let name = syntax::name_of(id);
    let added = with_component(
        declared,
        file,
        name,
        binding_span(file.text, id),
        syntax::span_of(declarator),
    );
    if !syntax::is_a(id, "Identifier"@) || !syntax::names_component(name) {
        declared
    } else if syntax::is_a(init, "ClassExpression"@) {
        added
    } else {
        match syntax::component_function(init) {
            Some(function) => with_async(added, name, syntax::flag(function, "async"@)),
            None => declared,
        }
    }
}

/// `declared` with the components among the first `count` of `declarators`.
pub open spec fn with_variables(
    declared: DeclarationsView,
    file: SourceFileView,
    declarators: Seq<Tree>,
    count: nat,
) -> DeclarationsView
    decreases count,
{
    if count == 0 || count > declarators.len() {
        declared
    } else {
        with_variable(
            with_variables(declared, file, declarators, (count - 1) as nat),
            file,
            declarators[count - 1],
        )
    }
}

/// `declared` with the components that a variable declaration declares.
pub open spec fn with_variable_declaration(
    declared: DeclarationsView,
    file: SourceFileView,
    declaration: Tree,
) -> DeclarationsView {
    let declarators = syntax::items(declaration, "declarations"@);
    with_variables(declared, file, declarators, declarators.len())
}

/// Declares the component that one variable may be.
fn register_variable_component(
    declarator: &Tree,
    file: &SourceFile<'_>,
    declarations: &mut Declarations,
)
    requires
        file.well_formed(),
    ensures
        final(declarations)@ == with_variable(old(declarations)@, file@, *declarator),
{
    let id = syntax::get_child(declarator, "id");
    let name = syntax::get_name(id);
    if !syntax::is_kind(id, "Identifier") || !syntax::is_component_identifier(name) {
        return ;
    }
    let init = syntax::get_child(declarator, "init");
    let span = get_binding_span(file.text, id);
    let scope = syntax::get_span(declarator);
    if syntax::is_kind(init, "ClassExpression") {
        register_component(name, span, scope, file, declarations);
        return ;
    }
    match syntax::get_component_function(init) {
        Some(function) => {
            register_component(name, span, scope, file, declarations);
            if syntax::has_flag(function, "async") {
                declarations.async_components.insert(name);
            }
        },
        None => {},
    }
}

/// Declares the components that a variable declaration declares.
pub fn register_variable_components(
    declaration: &Tree,
    file: &SourceFile<'_>,
    declarations: &mut Declarations,
)
    requires
        file.well_formed(),
    ensures
        final(declarations)@ == with_variable_declaration(
            old(declarations)@,
            file@,
            *declaration,
        ),
{
    let declarators = syntax::get_items(declaration, "declarations");
    let mut i: usize = 0;
    while i < declarators.len()
        invariant
            i <= declarators@.len(),
            file.well_formed(),
            declarations@ == with_variables(old(declarations)@, file@, declarators@, i as nat),
        decreases declarators@.len() - i,
    {
        register_variable_component(&declarators[i], file, declarations);
        i = i + 1;
    }
}

/// `declared` with the type that `id` names, if its name can be a component's.
pub open spec fn with_type(
    declared: DeclarationsView,
    file: SourceFileView,
    id: Tree,
) -> DeclarationsView {
    if syntax::names_component(syntax::name_of(id)) {
        DeclarationsView {
            type_identifiers: declared.type_identifiers.push(
                TypeIdentifierView {
                    enclosing_component: None,
                    name: syntax::name_of(id),
                    ranges: span_ranges(file.boundaries, syntax::span_of(id)),
                },
            ),
            ..declared
        }
    } else {
        declared
    }
}

/// Declares the type that `id` names, if its name can be a component's.
pub fn add_type_declaration(id: &Tree, file: &SourceFile<'_>, declarations: &mut Declarations)
    requires
        file.well_formed(),
    ensures
        final(declarations)@ == with_type(old(declarations)@, file@, *id),
{
    broadcast use names::views_of_push;

    let name = syntax::get_name(id);
    if syntax::is_component_identifier(name) {
        declarations.type_identifiers.push(
            TypeIdentifier {
                enclosing_component: None,
                name: name.to_owned(),
                ranges: ranges_for_span(syntax::get_span(id), &file.mapper),
            },
        );
    }
}

/// The name under which the module that `specifier` imports from exports it: that of the import
/// itself, `default`, or `*` for the whole module.
pub open spec fn imported_name(specifier: Tree) -> Seq<char> {
    if syntax::is_a(specifier, "ImportDefaultSpecifier"@) {
        "default"@
    } else if syntax::is_a(specifier, "ImportNamespaceSpecifier"@) {
        "*"@
    } else {
        syntax::module_export_name(syntax::child(specifier, "imported"@))
    }
}

/// `declared` with what one specifier imports, if its local name can be a component's.
pub open spec fn with_import(
    declared: DeclarationsView,
    file: SourceFileView,
    source: Seq<char>,
    specifier: Tree,
) -> DeclarationsView {
    let local = syntax::child(specifier, "local"@);
    let name = syntax::name_of(local);
    if syntax::names_component(name) {
        DeclarationsView {
            imports: names::put(
                declared.imports,
                name,
                ImportEntryView {
                    export_name: imported_name(specifier),
                    ranges: span_ranges(file.boundaries, syntax::span_of(local)),
                    source,
                },
            ),
            ..declared
        }
    } else {
        declared
    }
}

/// `declared` with what the first `count` of `specifiers` import.
pub open spec fn with_imports(
    declared: DeclarationsView,
    file: SourceFileView,
    source: Seq<char>,
    specifiers: Seq<Tree>,
    count: nat,
) -> DeclarationsView
    decreases count,
{
    if count == 0 || count > specifiers.len() {
        declared
    } else {
        with_import(
            with_imports(declared, file, source, specifiers, (count - 1) as nat),
            file,
            source,
            specifiers[count - 1],
        )
    }
}

/// `declared` with what an import declaration imports.
pub open spec fn with_import_declaration(
    declared: DeclarationsView,
    file: SourceFileView,
    declaration: Tree,
) -> DeclarationsView {
    let specifiers = syntax::items(declaration, "specifiers"@);
    with_imports(
        declared,
        file,
        syntax::literal_of(syntax::child(declaration, "source"@)),
        specifiers,
        specifiers.len(),
    )
}

/// Declares what one specifier imports, if its local name can be a component's.
fn add_import(
    specifier: &Tree,
    source: &str,
    file: &SourceFile<'_>,
    declarations: &mut Declarations,
)
    requires
        file.well_formed(),
    ensures
        final(declarations)@ == with_import(old(declarations)@, file@, source@, *specifier),
{
    let local = syntax::get_child(specifier, "local");
    let name = syntax::get_name(local);
    if syntax::is_component_identifier(name) {
        let export_name = if syntax::is_kind(specifier, "ImportDefaultSpecifier") {
            "default"
        } else if syntax::is_kind(specifier, "ImportNamespaceSpecifier") {
            "*"
        } else {
            syntax::module_export_name_text(syntax::get_child(specifier, "imported"))
        };
        declarations.imports.insert(
            name,
            ImportEntry {
                export_name: export_name.to_owned(),
                ranges: ranges_for_span(syntax::get_span(local), &file.mapper),
                source: source.to_owned(),
            },
        );
    }
}

/// Declares what an import declaration imports.
pub fn add_imports(declaration: &Tree, file: &SourceFile<'_>, declarations: &mut Declarations)
    requires
        file.well_formed(),
    ensures
        final(declarations)@ == with_import_declaration(old(declarations)@, file@, *declaration),
{
    let source = syntax::get_literal(syntax::get_child(declaration, "source"));
    let specifiers = syntax::get_items(declaration, "specifiers");
    let mut i: usize = 0;
    while i < specifiers.len()
        invariant
            i <= specifiers@.len(),
            file.well_formed(),
            declarations@ == with_imports(
                old(declarations)@,
                file@,
                source@,
                specifiers@,
                i as nat,
            ),
        decreases specifiers@.len() - i,
    {
        add_import(&specifiers[i], source, file, declarations);
        i = i + 1;
    }
}

/// `declared` with a reference of an export to `name`, if it can be a component's.
pub open spec fn with_export_reference(
    declared: DeclarationsView,
    file: SourceFileView,
    name: Seq<char>,
    span: Span,
) -> DeclarationsView {
    if syntax::names_component(name) {
        DeclarationsView {
            export_references: declared.export_references.push(
                NamedRangeView { name, ranges: span_ranges(file.boundaries, span) },
            ),
            ..declared
        }
    } else {
        declared
    }
}

/// Notes a reference of an export to `name`, if it can be a component's.
fn add_export_reference(
    name: &str,
    span: Span,
    file: &SourceFile<'_>,
    declarations: &mut Declarations,
)
    requires
        file.well_formed(),
    ensures
        final(declarations)@ == with_export_reference(old(declarations)@, file@, name@, span),
{
    broadcast use names::views_of_push;

    if syntax::is_component_identifier(name) {
        declarations.export_references.push(
            NamedRange { name: name.to_owned(), ranges: ranges_for_span(span, &file.mapper) },
        );
    }
}

/// `declared` with the references of the first `count` of an export's `specifiers`.
pub open spec fn with_export_specifiers(
    declared: DeclarationsView,
    file: SourceFileView,
    specifiers: Seq<Tree>,
    count: nat,
) -> DeclarationsView
    decreases count,
{
    if count == 0 || count > specifiers.len() {
        declared
    } else {
        let exported = syntax::child(specifiers[count - 1], "exported"@);
        with_export_reference(
            with_export_specifiers(declared, file, specifiers, (count - 1) as nat),
            file,
            syntax::module_export_name(exported),
            syntax::span_of(exported),
        )
    }
}

/// `declared` with what a declaration behind `export` declares.
pub open spec fn with_exported_declaration(
    declared: DeclarationsView,
    file: SourceFileView,
    declaration: Tree,
) -> DeclarationsView {
    if syntax::function_declaration(declaration) {
        with_function(declared, file, declaration)
    } else if syntax::is_a(declaration, "ClassDeclaration"@) {
        with_class(declared, file, declaration)
    } else if syntax::is_a(declaration, "VariableDeclaration"@) {
        with_variable_declaration(declared, file, declaration)
    } else if syntax::is_a(declaration, "TSTypeAliasDeclaration"@) || syntax::is_a(
        declaration,
        "TSInterfaceDeclaration"@,
    ) {
        with_type(declared, file, syntax::child(declaration, "id"@))
    } else {
        declared
    }
}

/// Declares what a declaration, by itself or behind `export`, declares.
pub fn process_exported_declaration(
    declaration: &Tree,
    file: &SourceFile<'_>,
    declarations: &mut Declarations,
)
    requires
        file.well_formed(),
    ensures
        final(declarations)@ == with_exported_declaration(
            old(declarations)@,
            file@,
            *declaration,
        ),
{
    if syntax::is_function_declaration(declaration) {
        register_function_declaration(declaration, file, declarations);
    } else if syntax::is_kind(declaration, "ClassDeclaration") {
        register_class_declaration(declaration, file, declarations);
    } else if syntax::is_kind(declaration, "VariableDeclaration") {
        register_variable_components(declaration, file, declarations);
    } else if syntax::is_kind(declaration, "TSTypeAliasDeclaration") || syntax::is_kind(
        declaration,
        "TSInterfaceDeclaration",
    ) {
        add_type_declaration(syntax::get_child(declaration, "id"), file, declarations);
    }
}

/// `declared` with what stands behind `export default`.
pub open spec fn with_export_default(
    declared: DeclarationsView,
    file: SourceFileView,
    declaration: Tree,
) -> DeclarationsView {
    if syntax::function_declaration(declaration) {
        with_function(declared, file, declaration)
    } else if syntax::is_a(declaration, "ClassDeclaration"@) || syntax::is_a(
        declaration,
        "ClassExpression"@,
    ) {
        with_class(declared, file, declaration)
    } else if syntax::is_a(declaration, "Identifier"@) {
        with_export_reference(
            declared,
            file,
            syntax::name_of(declaration),
            syntax::span_of(declaration),
        )
    } else {
        declared
    }
}

/// Declares what stands behind `export default`.
pub fn process_export_default_declaration(
    declaration: &Tree,
    file: &SourceFile<'_>,
    declarations: &mut Declarations,
)
    requires
        file.well_formed(),
    ensures
        final(declarations)@ == with_export_default(old(declarations)@, file@, *declaration),
{
    if syntax::is_function_declaration(declaration) {
        register_function_declaration(declaration, file, declarations);
    } else if syntax::is_kind(declaration, "ClassDeclaration") || syntax::is_kind(
        declaration,
        "ClassExpression",
    ) {
        register_class_declaration(declaration, file, declarations);
    } else if syntax::is_kind(declaration, "Identifier") {
        add_export_reference(
            syntax::get_name(declaration),
            syntax::get_span(declaration),
            file,
            declarations,
        );
    }
}

/// `declared` with what one statement of the top level declares.
pub open spec fn with_statement(
    declared: DeclarationsView,
    file: SourceFileView,
    statement: Tree,
) -> DeclarationsView {
    if syntax::is_a(statement, "ImportDeclaration"@) {
        with_import_declaration(declared, file, statement)
    } else if syntax::is_a(statement, "ExportNamedDeclaration"@) {
        let specifiers = syntax::items(statement, "specifiers"@);
        with_export_specifiers(
            with_exported_declaration(declared, file, syntax::child(statement, "declaration"@)),
            file,
            specifiers,
            specifiers.len(),
        )
    } else if syntax::is_a(statement, "ExportDefaultDeclaration"@) {
        with_export_default(declared, file, syntax::child(statement, "declaration"@))
    } else {
        with_exported_declaration(declared, file, statement)
    }
}

/// Declares what one statement of the top level declares.
pub fn process_top_level_statement(
    statement: &Tree,
    file: &SourceFile<'_>,
    declarations: &mut Declarations,
)
    requires
        file.well_formed(),
    ensures
        final(declarations)@ == with_statement(old(declarations)@, file@, *statement),
{
    if syntax::is_kind(statement, "ImportDeclaration") {
        add_imports(statement, file, declarations);
    } else if syntax::is_kind(statement, "ExportNamedDeclaration") {
        process_exported_declaration(
            syntax::get_child(statement, "declaration"),
            file,
            declarations,
        );
        let ghost declared = declarations@;
        let specifiers = syntax::get_items(statement, "specifiers");
        let mut i: usize = 0;
        while i < specifiers.len()
            invariant
                i <= specifiers@.len(),
                file.well_formed(),
                declarations@ == with_export_specifiers(declared, file@, specifiers@, i as nat),
            decreases specifiers@.len() - i,
        {
            let exported = syntax::get_child(&specifiers[i], "exported");
            add_export_reference(
                syntax::module_export_name_text(exported),
                syntax::get_span(exported),
                file,
                declarations,
            );
            i = i + 1;
        }
    } else if syntax::is_kind(statement, "ExportDefaultDeclaration") {
        process_export_default_declaration(
            syntax::get_child(statement, "declaration"),
            file,
            declarations,
        );
    } else {
        process_exported_declaration(statement, file, declarations);
    }
}

/// What the first `count` of `statements` declare.
pub open spec fn declared_by(
    file: SourceFileView,
    statements: Seq<Tree>,
    count: nat,
) -> DeclarationsView
    decreases count,
{
    if count == 0 || count > statements.len() {
        nothing_declared()
    } else {
        with_statement(
            declared_by(file, statements, (count - 1) as nat),
            file,
            statements[count - 1],
        )
    }
}

/// What the top level of `program` declares.
pub open spec fn declarations_of(file: SourceFileView, program: Tree) -> DeclarationsView {
    let statements = syntax::items(program, "body"@);
    declared_by(file, statements, statements.len())
}

/// What the top level of `program` declares.
pub fn collect_declarations(program: &Tree, file: &SourceFile<'_>) -> (declarations: Declarations)
    requires
        file.well_formed(),
    ensures
        declarations@ == declarations_of(file@, *program),
{
    broadcast use names::views_of_none;

    let mut declarations = Declarations {
        async_components: NameSet::new(),
        component_ranges: Vec::new(),
        export_references: Vec::new(),
        imports: NameMap::new(),
        local_components: NameMap::new(),
        type_identifiers: Vec::new(),
    };
    let statements = syntax::get_items(program, "body");
    let mut i: usize = 0;
    while i < statements.len()
        invariant
            i <= statements@.len(),
            file.well_formed(),
            declarations@ == declared_by(file@, statements@, i as nat),
        decreases statements@.len() - i,
    {
        process_top_level_statement(&statements[i], file, &mut declarations);
        i = i + 1;
    }
    declarations
}

/// Whether a component is named like one, has the kind `kind`, and stands in one place.
pub open spec fn sound_component(kind: Kind) -> spec_fn((Seq<char>, LocalComponentView)) -> bool {
    |entry: (Seq<char>, LocalComponentView)|
        syntax::names_component(entry.0) && entry.1.kind == kind && entry.1.ranges.len() == 1
}

/// Whether an import is named like a component and stands in one place.
pub open spec fn sound_import() -> spec_fn((Seq<char>, ImportEntryView)) -> bool {
    |entry: (Seq<char>, ImportEntryView)|
        syntax::names_component(entry.0) && entry.1.ranges.len() == 1
}

/// Whether declarations are in order: components and imports come in the order of their names,
/// each name once, all are named like components, and all components have the kind `kind`.
pub open spec fn in_order(declared: DeclarationsView, kind: Kind) -> bool {
    &&& names::sorted(declared.imports)
    &&& names::sorted(declared.local_components)
    &&& forall|i: int|
        0 <= i < declared.local_components.len() ==> sound_component(kind)(
            #[trigger] declared.local_components[i],
        )
    &&& forall|i: int|
        0 <= i < declared.imports.len() ==> sound_import()(#[trigger] declared.imports[i])
}

proof fn component_keeps_order(
    declared: DeclarationsView,
    file: SourceFileView,
    name: Seq<char>,
    name_span: Span,
    scope: Span,
)
    requires
        in_order(declared, file.kind),
    ensures
        in_order(with_component(declared, file, name, name_span, scope), file.kind),
{
    if syntax::names_component(name) {
        let value = LocalComponentView {
            kind: file.kind,
            ranges: span_ranges(file.boundaries, name_span),
        };
        names::put_keeps_order(declared.local_components, name, value);
        names::put_keeps_all(
            declared.local_components,
            name,
            value,
            sound_component(file.kind),
        );
    }
}

proof fn variables_keep_order(
    declared: DeclarationsView,
    file: SourceFileView,
    declarators: Seq<Tree>,
    count: nat,
)
    requires
        in_order(declared, file.kind),
    ensures
        in_order(with_variables(declared, file, declarators, count), file.kind),
    decreases count,
{
    if 0 < count <= declarators.len() {
        variables_keep_order(declared, file, declarators, (count - 1) as nat);
        let earlier = with_variables(declared, file, declarators, (count - 1) as nat);
        let declarator = declarators[count - 1];
        let id = syntax::child(declarator, "id"@);
        component_keeps_order(
            earlier,
            file,
            syntax::name_of(id),
            binding_span(file.text, id),
            syntax::span_of(declarator),
        );
    }
}

proof fn imports_keep_order(
    declared: DeclarationsView,
    file: SourceFileView,
    source: Seq<char>,
    specifiers: Seq<Tree>,
    count: nat,
)
    requires
        in_order(declared, file.kind),
    ensures
        in_order(with_imports(declared, file, source, specifiers, count), file.kind),
    decreases count,
{
    if 0 < count <= specifiers.len() {
        imports_keep_order(declared, file, source, specifiers, (count - 1) as nat);
        let earlier = with_imports(declared, file, source, specifiers, (count - 1) as nat);
        let specifier = specifiers[count - 1];
        let local = syntax::child(specifier, "local"@);
        let name = syntax::name_of(local);
        if syntax::names_component(name) {
            let value = ImportEntryView {
                export_name: imported_name(specifier),
                ranges: span_ranges(file.boundaries, syntax::span_of(local)),
                source,
            };
            names::put_keeps_order(earlier.imports, name, value);
            names::put_keeps_all(earlier.imports, name, value, sound_import());
        }
    }
}

proof fn specifiers_keep_order(
    declared: DeclarationsView,
    file: SourceFileView,
    specifiers: Seq<Tree>,
    count: nat,
)
    requires
        in_order(declared, file.kind),
    ensures
        in_order(with_export_specifiers(declared, file, specifiers, count), file.kind),
    decreases count,
{
    if 0 < count <= specifiers.len() {
        specifiers_keep_order(declared, file, specifiers, (count - 1) as nat);
    }
}

proof fn declaration_keeps_order(
    declared: DeclarationsView,
    file: SourceFileView,
    declaration: Tree,
)
    requires
        in_order(declared, file.kind),
    ensures
        in_order(with_exported_declaration(declared, file, declaration), file.kind),
        in_order(with_function(declared, file, declaration), file.kind),
        in_order(with_class(declared, file, declaration), file.kind),
{
    let id = syntax::child(declaration, "id"@);
    let declarators = syntax::items(declaration, "declarations"@);
    component_keeps_order(
        declared,
        file,
        syntax::name_of(id),
        syntax::span_of(id),
        syntax::span_of(declaration),
    );
    variables_keep_order(declared, file, declarators, declarators.len());
}

proof fn statements_keep_order(file: SourceFileView, statements: Seq<Tree>, count: nat)
    ensures
        in_order(declared_by(file, statements, count), file.kind),
    decreases count,
{
    if 0 < count <= statements.len() {
        statements_keep_order(file, statements, (count - 1) as nat);
        let earlier = declared_by(file, statements, (count - 1) as nat);
        let statement = statements[count - 1];
        let declaration = syntax::child(statement, "declaration"@);
        let specifiers = syntax::items(statement, "specifiers"@);
        declaration_keeps_order(earlier, file, statement);
        declaration_keeps_order(earlier, file, declaration);
        imports_keep_order(
            earlier,
            file,
            syntax::literal_of(syntax::child(statement, "source"@)),
            specifiers,
            specifiers.len(),
        );
        specifiers_keep_order(
            with_exported_declaration(earlier, file, declaration),
            file,
            specifiers,
            specifiers.len(),
        );
    }
}

/// Components and imports come in the order of their names, each name once; all of them are named
/// like components; and every component starts out with the kind of its module.
pub proof fn declarations_are_in_order(file: SourceFileView, program: Tree)
    ensures
        in_order(declarations_of(file, program), file.kind),
{
    let statements = syntax::items(program, "body"@);
    statements_keep_order(file, statements, statements.len());
}

/// A name does not end before it starts.
proof fn name_end_is_ahead(bytes: Seq<u8>, at: int, name: Seq<char>)
    ensures
        at <= name_end(bytes, at, name),
    decreases name.len(),
{
    if name.len() > 0 && 0 <= at < bytes.len() {
        if bytes[at] != 92 {
            name_end_is_ahead(bytes, at + utf16::utf8_len(name[0]), name.drop_first());
        } else if at + 2 < bytes.len() && bytes[at + 2] == 123 {
            directive::next_byte_is_ahead(bytes, at + 3, 125);
            name_end_is_ahead(
                bytes,
                directive::next_byte(bytes, at + 3, 125) + 1,
                name.drop_first(),
            );
        } else {
            name_end_is_ahead(bytes, at + 6, name.drop_first());
        }
    }
}

/// How far ranges may reach, and whether none of them may end before it starts.
pub struct Extent {
    pub length: nat,
    pub ordered: bool,
}

/// Whether there are ranges, and all of them lie in `extent`.
pub open spec fn within(ranges: Seq<Range>, extent: Extent) -> bool {
    &&& ranges.len() > 0
    &&& forall|i: int|
        0 <= i < ranges.len() ==> (#[trigger] ranges[i]).start <= extent.length && ranges[i].end
            <= extent.length && (extent.ordered ==> ranges[i].start <= ranges[i].end)
}

/// Whether `boundaries` map no offset behind `length`, and no offset behind what a later one maps
/// to.
pub open spec fn maps_within(boundaries: Boundaries, length: nat) -> bool {
    &&& forall|bytes: u32| #[trigger] boundaries.utf16(bytes) <= length
    &&& forall|earlier: u32, later: u32|
        earlier <= later ==> #[trigger] boundaries.utf16(earlier) <= #[trigger] boundaries.utf16(
            later,
        )
}

/// Whether a component is named like one and stands in `extent`.
pub open spec fn component_within(extent: Extent) -> spec_fn(
    (Seq<char>, LocalComponentView),
) -> bool {
    |entry: (Seq<char>, LocalComponentView)|
        syntax::names_component(entry.0) && within(entry.1.ranges, extent)
}

/// Whether an import is named like a component and stands in `extent`.
pub open spec fn import_within(extent: Extent) -> spec_fn((Seq<char>, ImportEntryView)) -> bool {
    |entry: (Seq<char>, ImportEntryView)|
        syntax::names_component(entry.0) && within(entry.1.ranges, extent)
}

/// Whether everything that is declared is named like a component and stands in `extent`.
pub open spec fn declared_within(declared: DeclarationsView, extent: Extent) -> bool {
    &&& forall|i: int|
        0 <= i < declared.local_components.len() ==> component_within(extent)(
            #[trigger] declared.local_components[i],
        )
    &&& forall|i: int|
        0 <= i < declared.imports.len() ==> import_within(extent)(#[trigger] declared.imports[i])
    &&& forall|i: int|
        0 <= i < declared.export_references.len() ==> syntax::names_component(
            (#[trigger] declared.export_references[i]).name,
        ) && within(declared.export_references[i].ranges, extent)
    &&& forall|i: int|
        0 <= i < declared.type_identifiers.len() ==> syntax::names_component(
            (#[trigger] declared.type_identifiers[i]).name,
        ) && within(declared.type_identifiers[i].ranges, extent)
}

proof fn component_stays_within(
    declared: DeclarationsView,
    file: SourceFileView,
    name: Seq<char>,
    name_span: Span,
    scope: Span,
    extent: Extent,
)
    requires
        maps_within(file.boundaries, extent.length),
        declared_within(declared, extent),
        extent.ordered ==> name_span.start <= name_span.end,
    ensures
        declared_within(with_component(declared, file, name, name_span, scope), extent),
{
    if syntax::names_component(name) {
        names::put_keeps_all(
            declared.local_components,
            name,
            LocalComponentView {
                kind: file.kind,
                ranges: span_ranges(file.boundaries, name_span),
            },
            component_within(extent),
        );
    }
}

proof fn variables_stay_within(
    declared: DeclarationsView,
    file: SourceFileView,
    declarators: Seq<Tree>,
    count: nat,
    extent: Extent,
)
    requires
        maps_within(file.boundaries, extent.length),
        declared_within(declared, extent),
        extent.ordered ==> syntax::listed_spans_ordered(declarators, declarators.len()),
    ensures
        declared_within(with_variables(declared, file, declarators, count), extent),
    decreases count,
{
    if 0 < count <= declarators.len() {
        variables_stay_within(declared, file, declarators, (count - 1) as nat, extent);
        let earlier = with_variables(declared, file, declarators, (count - 1) as nat);
        let declarator = declarators[count - 1];
        let id = syntax::child(declarator, "id"@);
        if extent.ordered {
            syntax::listed_spans_are_ordered(declarators, declarators.len(), count - 1);
            syntax::children_are_ordered(declarator, "id"@);
            name_end_is_ahead(
                vstd::utf8::encode_utf8(file.text),
                syntax::span_of(id).start as int,
                syntax::name_of(id),
            );
        }
        component_stays_within(
            earlier,
            file,
            syntax::name_of(id),
            binding_span(file.text, id),
            syntax::span_of(declarator),
            extent,
        );
    }
}

proof fn imports_stay_within(
    declared: DeclarationsView,
    file: SourceFileView,
    source: Seq<char>,
    specifiers: Seq<Tree>,
    count: nat,
    extent: Extent,
)
    requires
        maps_within(file.boundaries, extent.length),
        declared_within(declared, extent),
        extent.ordered ==> syntax::listed_spans_ordered(specifiers, specifiers.len()),
    ensures
        declared_within(with_imports(declared, file, source, specifiers, count), extent),
    decreases count,
{
    if 0 < count <= specifiers.len() {
        imports_stay_within(declared, file, source, specifiers, (count - 1) as nat, extent);
        let earlier = with_imports(declared, file, source, specifiers, (count - 1) as nat);
        let specifier = specifiers[count - 1];
        let local = syntax::child(specifier, "local"@);
        if extent.ordered {
            syntax::listed_spans_are_ordered(specifiers, specifiers.len(), count - 1);
            syntax::children_are_ordered(specifier, "local"@);
        }
        if syntax::names_component(syntax::name_of(local)) {
            names::put_keeps_all(
                earlier.imports,
                syntax::name_of(local),
                ImportEntryView {
                    export_name: imported_name(specifier),
                    ranges: span_ranges(file.boundaries, syntax::span_of(local)),
                    source,
                },
                import_within(extent),
            );
        }
    }
}

proof fn reference_stays_within(
    declared: DeclarationsView,
    file: SourceFileView,
    name: Seq<char>,
    span: Span,
    extent: Extent,
)
    requires
        maps_within(file.boundaries, extent.length),
        declared_within(declared, extent),
        extent.ordered ==> span.start <= span.end,
    ensures
        declared_within(with_export_reference(declared, file, name, span), extent),
{
}

proof fn specifiers_stay_within(
    declared: DeclarationsView,
    file: SourceFileView,
    specifiers: Seq<Tree>,
    count: nat,
    extent: Extent,
)
    requires
        maps_within(file.boundaries, extent.length),
        declared_within(declared, extent),
        extent.ordered ==> syntax::listed_spans_ordered(specifiers, specifiers.len()),
    ensures
        declared_within(with_export_specifiers(declared, file, specifiers, count), extent),
    decreases count,
{
    if 0 < count <= specifiers.len() {
        specifiers_stay_within(declared, file, specifiers, (count - 1) as nat, extent);
        let exported = syntax::child(specifiers[count - 1], "exported"@);
        if extent.ordered {
            syntax::listed_spans_are_ordered(specifiers, specifiers.len(), count - 1);
            syntax::children_are_ordered(specifiers[count - 1], "exported"@);
        }
        reference_stays_within(
            with_export_specifiers(declared, file, specifiers, (count - 1) as nat),
            file,
            syntax::module_export_name(exported),
            syntax::span_of(exported),
            extent,
        );
    }
}

proof fn declaration_stays_within(
    declared: DeclarationsView,
    file: SourceFileView,
    declaration: Tree,
    extent: Extent,
)
    requires
        maps_within(file.boundaries, extent.length),
        declared_within(declared, extent),
        extent.ordered ==> syntax::spans_ordered(declaration),
    ensures
        declared_within(with_exported_declaration(declared, file, declaration), extent),
        declared_within(with_export_default(declared, file, declaration), extent),
{
    let id = syntax::child(declaration, "id"@);
    let declarators = syntax::items(declaration, "declarations"@);
    if extent.ordered {
        syntax::children_are_ordered(declaration, "id"@);
        syntax::children_are_ordered(declaration, "declarations"@);
    }
    component_stays_within(
        declared,
        file,
        syntax::name_of(id),
        syntax::span_of(id),
        syntax::span_of(declaration),
        extent,
    );
    variables_stay_within(declared, file, declarators, declarators.len(), extent);
    reference_stays_within(
        declared,
        file,
        syntax::name_of(declaration),
        syntax::span_of(declaration),
        extent,
    );
}

proof fn statements_stay_within(
    file: SourceFileView,
    statements: Seq<Tree>,
    count: nat,
    extent: Extent,
)
    requires
        maps_within(file.boundaries, extent.length),
        extent.ordered ==> syntax::listed_spans_ordered(statements, statements.len()),
    ensures
        declared_within(declared_by(file, statements, count), extent),
    decreases count,
{
    if 0 < count <= statements.len() {
        statements_stay_within(file, statements, (count - 1) as nat, extent);
        let earlier = declared_by(file, statements, (count - 1) as nat);
        let statement = statements[count - 1];
        let declaration = syntax::child(statement, "declaration"@);
        let specifiers = syntax::items(statement, "specifiers"@);
        if extent.ordered {
            syntax::listed_spans_are_ordered(statements, statements.len(), count - 1);
            syntax::children_are_ordered(statement, "declaration"@);
            syntax::children_are_ordered(statement, "specifiers"@);
        }
        declaration_stays_within(earlier, file, statement, extent);
        declaration_stays_within(earlier, file, declaration, extent);
        imports_stay_within(
            earlier,
            file,
            syntax::literal_of(syntax::child(statement, "source"@)),
            specifiers,
            specifiers.len(),
            extent,
        );
        specifiers_stay_within(
            with_exported_declaration(earlier, file, declaration),
            file,
            specifiers,
            specifiers.len(),
            extent,
        );
    }
}

/// The mapper of a source maps no offset behind its end, and keeps the order of offsets.
pub proof fn sources_map_within(source: Seq<char>)
    requires
        utf16::utf8_width(source) <= u32::MAX,
    ensures
        maps_within(source_file(source).boundaries, utf16::utf16_width(source)),
{
    let boundaries = source_file(source).boundaries;
    assert forall|bytes: u32| #[trigger] boundaries.utf16(bytes)
        <= utf16::utf16_width(source) by {
        utf16::offsets_stay_inside(source, bytes);
    }
    assert forall|earlier: u32, later: u32| earlier <= later implies #[trigger] boundaries.utf16(
        earlier,
    ) <= #[trigger] boundaries.utf16(later) by {
        utf16::mapping_is_monotonic(source, earlier, later);
    }
}

/// What the ranges of a module with the text `source` keep to: they lie in the text and, where the
/// spans of `program` are ordered, do not end before they start.
pub open spec fn extent_of(source: Seq<char>, program: Tree) -> Extent {
    Extent { length: utf16::utf16_width(source), ordered: syntax::spans_ordered(program) }
}

/// Everything that a module declares is named like a component and stands in its source.
pub proof fn declarations_stand_in_the_source(source: Seq<char>, program: Tree)
    requires
        utf16::utf8_width(source) <= u32::MAX,
    ensures
        declared_within(
            declarations_of(source_file(source), program),
            extent_of(source, program),
        ),
{
    let statements = syntax::items(program, "body"@);
    sources_map_within(source);
    if syntax::spans_ordered(program) {
        syntax::children_are_ordered(program, "body"@);
    }
    statements_stay_within(
        source_file(source),
        statements,
        statements.len(),
        extent_of(source, program),
    );
}

} // verus!
