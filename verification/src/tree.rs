//! Syntax trees of modules: what the parser hands over, as plain values.
//!
//! The parser gives a program as JSON text in the ESTree form. A program is read back into a
//! [`Tree`], whose nodes are lists of named fields in the order of the source.
use vstd::prelude::*;

use crate::paths;
use crate::text;

verus! {

/// A value of a syntax tree.
#[derive(Debug)]
pub enum Tree {
    Null,
    Bool(bool),
    /// A number, where it is a whole one that fits.
    Number(Option<u64>),
    Text(String),
    List(Vec<Tree>),
    /// A node: its fields, in order.
    Node(Vec<(String, Tree)>),
}

/// The value that `serde_json` reads JSON text into.
#[verifier::external_type_specification]
#[verifier::external_body]
pub struct ExJsonValue(serde_json::Value);

/// The program that the `oxc_parser` crate parses from `source`, in the dialect of files with the
/// extension `extension`, as declarations where `declaration` says so, as ESTree JSON text.
pub uninterp spec fn estree_text(
    extension: Seq<char>,
    declaration: bool,
    source: Seq<char>,
) -> Seq<char>;

/// What `serde_json` reads from JSON text that may nest to any depth: nothing where the text is
/// no JSON.
pub uninterp spec fn json_tree(json: Seq<char>) -> Option<Tree>;

/// Whether `extension` is that of a dialect.
pub open spec fn known_extension(extension: Seq<char>) -> bool {
    ||| extension == "js"@
    ||| extension == "mjs"@
    ||| extension == "cjs"@
    ||| extension == "jsx"@
    ||| extension == "ts"@
    ||| extension == "mts"@
    ||| extension == "cts"@
    ||| extension == "tsx"@
}

/// `oxc_parser::Parser::parse`, with the dialect that `oxc_span::SourceType::from_extension` gives
/// for the extension, turned into that of declarations by `with_typescript_definition` where
/// `declaration` says so, printed by `oxc_ast::ast::Program::to_estree_json`. The text depends on
/// the extension, the flag and the source alone.
#[verifier::external_body]
fn parse_to_estree(extension: &str, declaration: bool, source: &str) -> (json: String)
    requires
        known_extension(extension@),
    ensures
        json@ == estree_text(extension@, declaration, source@),
{
    let allocator = oxc_allocator::Allocator::default();
    let dialect = oxc_span::SourceType::from_extension(extension).unwrap();
    let source_type = dialect.with_typescript_definition(declaration);
    let parsed = oxc_parser::Parser::new(&allocator, source, source_type).parse();
    parsed.program.to_estree_json(true, false)
}

/// Takes a `serde_json::Value` apart, one variant of [`Tree`] for each variant of it; a number is
/// what `serde_json::Number::as_u64` gives. Nothing is claimed of the result here: `read_json`
/// names it.
#[verifier::external_body]
fn tree_of_value(value: serde_json::Value) -> (tree: Tree) {
    match value {
        serde_json::Value::Null => Tree::Null,
        serde_json::Value::Bool(flag) => Tree::Bool(flag),
        serde_json::Value::Number(number) => Tree::Number(number.as_u64()),
        serde_json::Value::String(string) => Tree::Text(string),
        serde_json::Value::Array(items) => Tree::List(items.into_iter().map(tree_of_value).collect()),
        serde_json::Value::Object(fields) => Tree::Node(
            fields.into_iter().map(|field| (field.0, tree_of_value(field.1))).collect(),
        ),
    }
}

/// `serde::Deserialize::deserialize` for `serde_json::Value` on a `serde_json::Deserializer`
/// whose recursion limit is off. What is read depends on the text alone.
#[verifier::external_body]
fn read_json(json: &str) -> (tree: Option<Tree>)
    ensures
        tree == json_tree(json@),
{
    let mut reader = serde_json::Deserializer::from_str(json);
    reader.disable_recursion_limit();
    match <serde_json::Value as serde::Deserialize>::deserialize(&mut reader) {
        Ok(value) => Some(tree_of_value(value)),
        Err(_) => None,
    }
}

/// Whether the number `1e+400` stands at `at`: the parser's way to write a literal that is too
/// large for a finite number.
pub open spec fn infinite_at(json: Seq<char>, at: int) -> bool {
    &&& at + 6 <= json.len()
    &&& json[at] == '1'
    &&& json[at + 1] == 'e'
    &&& json[at + 2] == '+'
    &&& json[at + 3] == '4'
    &&& json[at + 4] == '0'
    &&& json[at + 5] == '0'
}

/// Whether the backslash at `at` opens the escape of half a surrogate pair.
pub open spec fn surrogate_at(json: Seq<char>, at: int) -> bool {
    &&& at + 4 <= json.len()
    &&& json[at + 1] == 'u'
    &&& json[at + 2] == 'd'
    &&& ('8' <= json[at + 3] <= '9' || 'a' <= json[at + 3] <= 'f')
}

/// The text of `json` from `at` on in a form that every JSON reader takes: outside strings an
/// infinite number becomes zero; inside strings half a surrogate pair becomes the replacement
/// character, followed by its four digits.
pub open spec fn readable(json: Seq<char>, at: int, in_string: bool) -> Seq<char>
    decreases json.len() - at,
{
    if at < 0 || at >= json.len() {
        Seq::empty()
    } else if in_string {
        if json[at] == '\\' && surrogate_at(json, at) {
            seq!['\\', 'u', 'f', 'f', 'f', 'd'] + readable(json, at + 2, true)
        } else if json[at] == '\\' && at + 1 < json.len() {
            seq![json[at], json[at + 1]] + readable(json, at + 2, true)
        } else {
            seq![json[at]] + readable(json, at + 1, json[at] != '"')
        }
    } else if infinite_at(json, at) {
        seq!['0'] + readable(json, at + 6, false)
    } else {
        seq![json[at]] + readable(json, at + 1, json[at] == '"')
    }
}

/// Brings `json` into a form that every JSON reader takes.
fn readable_json(json: &str) -> (out: String)
    ensures
        out@ == readable(json@, 0, false),
{
    let chars = text::chars_of(json);
    let mut out = String::new();
    let mut at: usize = 0;
    let mut in_string = false;
    while at < chars.len()
        invariant
            at <= chars.len(),
            chars@ == json@,
            out@ + readable(json@, at as int, in_string) == readable(json@, 0, false),
        decreases chars.len() - at,
    {
        let ghost before = out@;
        let ghost rest = readable(json@, at as int, in_string);
        let c = chars[at];
        let left: usize = chars.len() - at;
        if in_string {
            if c == '\\' && left >= 4 && chars[at + 1] == 'u' && chars[at + 2] == 'd' && (('8'
                <= chars[at + 3] && chars[at + 3] <= '9') || ('a' <= chars[at + 3] && chars[at + 3]
                <= 'f')) {
                out.push('\\');
                out.push('u');
                out.push('f');
                out.push('f');
                out.push('f');
                out.push('d');
                at = at + 2;
            } else if c == '\\' && left >= 2 {
                out.push(c);
                out.push(chars[at + 1]);
                at = at + 2;
            } else {
                out.push(c);
                at = at + 1;
                in_string = c != '"';
            }
        } else if left >= 6 && c == '1' && chars[at + 1] == 'e' && chars[at + 2] == '+'
            && chars[at + 3] == '4' && chars[at + 4] == '0' && chars[at + 5] == '0' {
            out.push('0');
            at = at + 6;
        } else {
            out.push(c);
            at = at + 1;
            in_string = c == '"';
        }
        proof {
            assert(out@ + readable(json@, at as int, in_string) =~= before + rest);
        }
    }
    proof {
        assert(out@ + readable(json@, at as int, in_string) =~= out@);
    }
    out
}

/// The dialect that a module is written in: the extension that stands for it, and whether it holds
/// declarations only.
#[derive(Debug)]
pub struct Dialect {
    pub extension: String,
    pub declaration: bool,
}

/// The dialect that a module is written in.
#[verifier::ext_equal]
pub struct DialectView {
    pub extension: Seq<char>,
    pub declaration: bool,
}

impl View for Dialect {
    type V = DialectView;

    open spec fn view(&self) -> DialectView {
        DialectView { extension: self.extension@, declaration: self.declaration }
    }
}

/// Whether `.d.` stands at `at`.
pub open spec fn declaration_mark_at(name: Seq<char>, at: int) -> bool {
    at + 3 <= name.len() && name[at] == '.' && name[at + 1] == 'd' && name[at + 2] == '.'
}

/// Whether the file name `name` with the extension `extension` is that of a module that holds
/// declarations only: `.d.` stands behind its beginning, right before the extension where that is
/// `mts` or `cts`.
pub open spec fn names_declarations(name: Seq<char>, extension: Seq<char>) -> bool {
    if extension == "ts"@ {
        exists|at: int| 0 < at && #[trigger] declaration_mark_at(name, at)
    } else if extension == "mts"@ || extension == "cts"@ {
        name.len() > 6 && declaration_mark_at(name, name.len() - 6)
    } else {
        false
    }
}

/// The dialect of a file with the name `name`: that of its extension, if it has one that is known.
pub open spec fn named_dialect(name: Seq<char>) -> Option<DialectView> {
    match paths::extension_of(name) {
        Some(extension) => if known_extension(extension) {
            Some(DialectView { extension, declaration: names_declarations(name, extension) })
        } else {
            None
        },
        None => None,
    }
}

/// Whether `c` is a character at which paths are taken apart on some system.
pub open spec fn parts_paths(c: char) -> bool {
    c == '/' || c == '\\' || c == ':'
}

/// `name` with an underscore in place of each character at which paths are taken apart on some
/// system.
pub open spec fn plain(name: Seq<char>) -> Seq<char> {
    name.map_values(
        |c: char|
            if parts_paths(c) {
                '_'
            } else {
                c
            },
    )
}

/// `oxc_span::SourceType::from_path` on a path that is one file name on every system, as the
/// extension and the flag for declarations of the `SourceType` that it gives. Nothing comes back
/// where it is an error, which is where the name has no extension that is known.
#[verifier::external_body]
fn dialect_of_name(name: &str) -> (dialect: Option<Dialect>)
    requires
        forall|i: int| 0 <= i < name@.len() ==> !parts_paths(#[trigger] name@[i]),
    ensures
        match dialect {
            Some(dialect) => named_dialect(name@) == Some(dialect@),
            None => named_dialect(name@) is None,
        },
{
    let found = oxc_span::SourceType::from_path(name).ok()?;
    let extension = match found.extension()? {
        oxc_span::FileExtension::Js => "js",
        oxc_span::FileExtension::Mjs => "mjs",
        oxc_span::FileExtension::Cjs => "cjs",
        oxc_span::FileExtension::Jsx => "jsx",
        oxc_span::FileExtension::Ts => "ts",
        oxc_span::FileExtension::Mts => "mts",
        oxc_span::FileExtension::Cts => "cts",
        oxc_span::FileExtension::Tsx => "tsx",
    };
    Some(Dialect { extension: extension.to_owned(), declaration: found.is_typescript_definition() })
}

/// The dialect of the file `file_path`: that of its name, TypeScript where it has none.
pub open spec fn dialect_of(file_path: Seq<char>, windows: bool) -> DialectView {
    match named_dialect(paths::file_name(file_path, windows)) {
        Some(dialect) => dialect,
        None => DialectView { extension: "ts"@, declaration: false },
    }
}

proof fn last_dot_stays(name: Seq<char>)
    ensures
        paths::last_dot(plain(name)) == paths::last_dot(name),
        paths::last_dot(name) matches Some(at) ==> 0 <= at < name.len(),
    decreases name.len(),
{
    if name.len() > 0 {
        last_dot_stays(name.drop_last());
        assert(plain(name).drop_last() =~= plain(name.drop_last()));
    }
}

/// A word without underscores and without characters at which paths are taken apart stands for
/// itself alone.
proof fn words_are_plain(extension: Seq<char>, word: Seq<char>)
    requires
        forall|i: int|
            0 <= i < word.len() ==> #[trigger] word[i] != '_' && !parts_paths(word[i]),
    ensures
        (plain(extension) == word) == (extension == word),
{
    if extension == word {
        assert(plain(extension) =~= word);
    }
    if plain(extension) == word {
        assert forall|i: int| 0 <= i < extension.len() implies extension[i] == word[i] by {
            assert(plain(extension)[i] == word[i]);
        }
        assert(extension =~= word);
    }
}

proof fn known_extensions_are_plain(extension: Seq<char>)
    ensures
        known_extension(plain(extension)) == known_extension(extension),
        known_extension(extension) ==> plain(extension) == extension,
{
    reveal_strlit("js");
    reveal_strlit("mjs");
    reveal_strlit("cjs");
    reveal_strlit("jsx");
    reveal_strlit("ts");
    reveal_strlit("mts");
    reveal_strlit("cts");
    reveal_strlit("tsx");
    words_are_plain(extension, "js"@);
    words_are_plain(extension, "mjs"@);
    words_are_plain(extension, "cjs"@);
    words_are_plain(extension, "jsx"@);
    words_are_plain(extension, "ts"@);
    words_are_plain(extension, "mts"@);
    words_are_plain(extension, "cts"@);
    words_are_plain(extension, "tsx"@);
}

/// The dialect of a file does not depend on characters of its name at which paths are taken apart.
pub proof fn plain_names_have_the_same_dialect(name: Seq<char>)
    ensures
        named_dialect(plain(name)) == named_dialect(name),
{
    let other = plain(name);
    reveal_strlit("..");
    assert((other == ".."@) == (name == ".."@)) by {
        if other == ".."@ {
            assert(other[0] == '.' && other[1] == '.');
            assert(name =~= ".."@);
        }
        if name == ".."@ {
            assert(other =~= ".."@);
        }
    }
    last_dot_stays(name);
    if let Some(extension) = paths::extension_of(name) {
        let at = paths::last_dot(name)->0;
        assert(other.skip(at + 1) =~= plain(extension));
        known_extensions_are_plain(extension);
        assert forall|i: int| 0 <= i implies declaration_mark_at(other, i)
            == #[trigger] declaration_mark_at(name, i) by {}
        if names_declarations(name, extension) && extension == "ts"@ {
            let i = choose|i: int| 0 < i && #[trigger] declaration_mark_at(name, i);
            assert(declaration_mark_at(other, i));
        }
        if names_declarations(other, extension) && extension == "ts"@ {
            let i = choose|i: int| 0 < i && #[trigger] declaration_mark_at(other, i);
            assert(declaration_mark_at(name, i));
        }
    }
}

/// `name` with an underscore in place of each character at which paths are taken apart on some
/// system.
fn make_plain(name: &str) -> (out: String)
    ensures
        out@ == plain(name@),
{
    let chars = text::chars_of(name);
    let mut out = String::new();
    let mut i: usize = 0;
    while i < chars.len()
        invariant
            i <= chars.len(),
            chars@ == name@,
            out@ == plain(name@).take(i as int),
        decreases chars.len() - i,
    {
        let c = chars[i];
        if c == '/' || c == '\\' || c == ':' {
            out.push('_');
        } else {
            out.push(c);
        }
        i = i + 1;
        assert(out@ =~= plain(name@).take(i as int));
    }
    assert(plain(name@).take(i as int) =~= plain(name@));
    out
}

/// The dialect of the file `file_path`: that of its name, TypeScript where it has none.
pub fn choose_dialect(file_path: &str, windows: bool) -> (dialect: Dialect)
    ensures
        dialect@ == dialect_of(file_path@, windows),
        known_extension(dialect@.extension),
{
    let name = make_plain(paths::last_segment(file_path, windows).as_str());
    proof {
        plain_names_have_the_same_dialect(paths::file_name(file_path@, windows));
    }
    match dialect_of_name(name.as_str()) {
        Some(dialect) => dialect,
        None => Dialect { extension: "ts".to_owned(), declaration: false },
    }
}

/// The syntax tree of `source` in the dialect `dialect`. The parser recovers from errors by
/// itself; text that it gives up on has no statements.
pub open spec fn tree_in_dialect(dialect: DialectView, source: Seq<char>) -> Tree {
    match json_tree(
        readable(estree_text(dialect.extension, dialect.declaration, source), 0, false),
    ) {
        Some(tree) => tree,
        None => Tree::Null,
    }
}

/// The syntax tree of `source`, taken as the file `file_path`.
pub open spec fn program_tree(file_path: Seq<char>, source: Seq<char>, windows: bool) -> Tree {
    tree_in_dialect(dialect_of(file_path, windows), source)
}

/// Parses `source`, taken as the file `file_path`.
pub fn parse_program(file_path: &str, source: &str, windows: bool) -> (program: Tree)
    ensures
        program == program_tree(file_path@, source@, windows),
{
    let dialect = choose_dialect(file_path, windows);
    let json = parse_to_estree(dialect.extension.as_str(), dialect.declaration, source);
    let json = readable_json(json.as_str());
    match read_json(json.as_str()) {
        Some(tree) => tree,
        None => Tree::Null,
    }
}

/// A file with a portable path is parsed in the same dialect on every system.
pub proof fn portable_files_have_one_dialect(file_path: Seq<char>)
    requires
        paths::is_portable(file_path),
    ensures
        dialect_of(file_path, true) == dialect_of(file_path, false),
{
    paths::portable_paths_are_the_same_everywhere(file_path);
}

} // verus!
