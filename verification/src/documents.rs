//! The documents that an editor holds open.
use vstd::prelude::*;

use crate::paths;
use crate::text;

verus! {

/// An open document: the path of its file, and its text.
#[derive(Debug)]
pub struct OpenDocument {
    pub path: String,
    pub text: String,
}

/// An open document: the path of its file, and its text.
#[verifier::ext_equal]
pub struct OpenDocumentView {
    pub path: Seq<char>,
    pub text: Seq<char>,
}

impl View for OpenDocument {
    type V = OpenDocumentView;

    open spec fn view(&self) -> OpenDocumentView {
        OpenDocumentView { path: self.path@, text: self.text@ }
    }
}

/// An upper-case ASCII letter in lower case; any other character as it is.
pub open spec fn folded(c: char) -> char {
    if 'A' <= c <= 'Z' {
        paths::lower(c)
    } else {
        c
    }
}

/// The form of a path by which open documents are found: forward slashes and, where file names
/// do not tell cases apart, ASCII letters in lower case.
pub open spec fn path_key(path: Seq<char>, fold_case: bool) -> Seq<char> {
    if fold_case {
        paths::with_slashes(path).map_values(|c: char| folded(c))
    } else {
        paths::with_slashes(path)
    }
}

/// The form of a path by which open documents are found.
pub fn normalize_path_key(path: &str, fold_case: bool) -> (key: String)
    ensures
        key@ == path_key(path@, fold_case),
{
    let chars = text::chars_of(path);
    let mut key = String::new();
    let mut i: usize = 0;
    while i < chars.len()
        invariant
            i <= chars.len(),
            chars@ == path@,
            key@ == path_key(path@, fold_case).take(i as int),
        decreases chars.len() - i,
    {
        let c = chars[i];
        if c == '\\' {
            key.push('/');
        } else if fold_case && 'A' <= c && c <= 'Z' {
            key.push(paths::to_lower(c));
        } else {
            key.push(c);
        }
        i = i + 1;
        assert(key@ =~= path_key(path@, fold_case).take(i as int));
    }
    assert(path_key(path@, fold_case).take(i as int) =~= path_key(path@, fold_case));
    key
}

/// The text of the first of `documents` whose path has the key of `path`.
pub open spec fn open_text(
    documents: Seq<OpenDocument>,
    path: Seq<char>,
    fold_case: bool,
) -> Option<Seq<char>>
    decreases documents.len(),
{
    if documents.len() == 0 {
        None
    } else if path_key(documents[0].path@, fold_case) == path_key(path, fold_case) {
        Some(documents[0].text@)
    } else {
        open_text(documents.drop_first(), path, fold_case)
    }
}

/// The text of the first of `documents` whose path has the key of `path`.
pub fn find_open_text<'a>(
    documents: &'a Vec<OpenDocument>,
    path: &str,
    fold_case: bool,
) -> (found: Option<&'a str>)
    ensures
        text::maybe_str(found) == open_text(documents@, path@, fold_case),
{
    let requested = normalize_path_key(path, fold_case);
    let mut i: usize = 0;
    assert(documents@.skip(0) =~= documents@);
    while i < documents.len()
        invariant
            i <= documents.len(),
            requested@ == path_key(path@, fold_case),
            open_text(documents@, path@, fold_case) == open_text(
                documents@.skip(i as int),
                path@,
                fold_case,
            ),
        decreases documents.len() - i,
    {
        proof {
            assert(documents@.skip(i as int)[0] == documents@[i as int]);
            assert(documents@.skip(i as int).drop_first() =~= documents@.skip(i + 1));
        }
        let key = normalize_path_key(documents[i].path.as_str(), fold_case);
        if text::same_text(key.as_str(), requested.as_str()) {
            return Some(documents[i].text.as_str());
        }
        i = i + 1;
    }
    None
}

/// The text of a document after the changes `changes`, each of which replaces the whole text:
/// that of the last one.
pub fn latest_change_text(changes: Vec<String>) -> (text: Option<String>)
    ensures
        match text {
            Some(text) => changes@.len() > 0 && text == changes@.last(),
            None => changes@.len() == 0,
        },
{
    let mut changes = changes;
    changes.pop()
}

/// Whether the last segment of `path` has an extension: a dot that is not its first character.
pub open spec fn has_extension(path: Seq<char>, windows: bool) -> bool {
    paths::extension_of(paths::file_name(path, windows)) is Some
}

/// Whether the last segment of `path` has an extension.
pub fn path_has_extension(path: &str, windows: bool) -> (result: bool)
    ensures
        result == has_extension(path@, windows),
{
    paths::get_extension(paths::last_segment(path, windows).as_str()).is_some()
}

/// The path that stands for a document: that of its file; else the path of its address, if that
/// has an extension; else that of a component source.
pub open spec fn path_of_document(
    file_path: Option<Seq<char>>,
    address_path: Seq<char>,
    windows: bool,
) -> Seq<char> {
    match file_path {
        Some(path) => path,
        None => if address_path.len() == 0 || !has_extension(address_path, windows) {
            "document.tsx"@
        } else {
            address_path
        },
    }
}

/// The path that stands for a document: that of its file; else the path of its address, if that
/// has an extension; else that of a component source.
pub fn document_path(file_path: Option<String>, address_path: &str, windows: bool) -> (path: String)
    ensures
        path@ == path_of_document(text::maybe_string(file_path), address_path@, windows),
{
    match file_path {
        Some(path) => path,
        None => if address_path.is_empty() || !path_has_extension(address_path, windows) {
            "document.tsx".to_owned()
        } else {
            address_path.to_owned()
        },
    }
}

/// The path component of the address `uri`, as the `url` crate reads it; empty where `uri` is no
/// address.
pub uninterp spec fn address_path(uri: Seq<char>) -> Seq<char>;

/// `url::Url::path` of the address `uri`. It depends on the address alone.
#[verifier::external_body]
fn path_of_address(uri: &str) -> (path: String)
    ensures
        path@ == address_path(uri@),
{
    match tower_lsp::lsp_types::Url::parse(uri) {
        Ok(url) => url.path().to_owned(),
        Err(_) => String::new(),
    }
}

/// Whether the path of an address starts at the root.
pub open spec fn starts_at_root(path: Seq<char>) -> bool {
    path.len() > 0 && path[0] == '/'
}

/// `url::Url::to_file_path` of the address `uri`: none where the path of the address does not
/// start at the root. Nothing more is claimed: which other addresses are those of files, and how
/// their paths are written, is up to the system.
#[verifier::external_body]
fn file_of_address(uri: &str) -> (path: Option<String>)
    ensures
        !starts_at_root(address_path(uri@)) ==> path is None,
{
    match tower_lsp::lsp_types::Url::parse(uri) {
        Ok(url) => match url.to_file_path() {
            Ok(path) => Some(path.to_string_lossy().into_owned()),
            Err(()) => None,
        },
        Err(_) => None,
    }
}

/// Whether the system gives the file `file` for the address `uri`.
pub closed spec fn file_given(uri: Seq<char>, file: Option<Seq<char>>) -> bool {
    exists|address: &str, given: Option<String>|
        #[trigger] call_ensures(file_of_address, (address,), given) && address@ == uri
            && text::maybe_string(given) == file
}

/// The path that stands for the document at the address `uri`: the one that [`document_path`]
/// gives for the file that the system says it is. An address whose path does not start at the
/// root is that of no file.
pub fn path_from_uri(uri: &str) -> (path: String)
    ensures
        exists|file: Option<Seq<char>>, windows: bool|
            paths::on_this_system(windows) && file_given(uri@, file) && (!starts_at_root(
                address_path(uri@),
            ) ==> file is None) && path@ == #[trigger] path_of_document(
                file,
                address_path(uri@),
                windows,
            ),
{
    let windows = paths::has_windows_paths();
    let file = file_of_address(uri);
    assert(file_given(uri@, text::maybe_string(file)));
    let address = path_of_address(uri);
    document_path(file, address.as_str(), windows)
}

/// The file of an address is what the system gives when it is asked for this address.
proof fn systems_are_asked_for_the_address(uri: Seq<char>, file: Option<Seq<char>>)
    requires
        file_given(uri, file),
    ensures
        exists|address: &str, given: Option<String>|
            #[trigger] call_ensures(file_of_address, (address,), given) && address@ == uri
                && text::maybe_string(given) == file,
{
}

} // verus!
