//! Reports on files: the canonical JSON of their usages, with paths relative to a directory.
use vstd::prelude::*;

use crate::canonical;
use crate::names;
use crate::paths;
use crate::resolver;
use crate::text;
use crate::{Usage, UsageView};

verus! {

/// The files in `directory` that a case may start from, in the order in which they count.
pub open spec fn entry_candidates(directory: Seq<char>, windows: bool) -> Seq<Seq<char>> {
    seq![
        paths::inside(directory, "entry.tsx"@, windows),
        paths::inside(directory, "entry.jsx"@, windows),
        paths::inside(directory, "entry.ts"@, windows),
        paths::inside(directory, "entry.js"@, windows),
    ]
}

/// The files in `directory` that a case may start from, in the order in which they count.
pub fn list_entry_candidates(directory: &str, windows: bool) -> (candidates: Vec<String>)
    ensures
        names::views(candidates@) == entry_candidates(directory@, windows),
{
    broadcast use {names::views_of_push, names::views_of_none};

    let mut candidates: Vec<String> = Vec::new();
    candidates.push(paths::join(directory, "entry.tsx", windows));
    candidates.push(paths::join(directory, "entry.jsx", windows));
    candidates.push(paths::join(directory, "entry.ts", windows));
    candidates.push(paths::join(directory, "entry.js", windows));
    assert(names::views(candidates@) =~= entry_candidates(directory@, windows));
    candidates
}

/// The file in `directory` that a case starts from, where `present` says of each candidate in
/// turn whether it is there.
pub fn find_entry_file(directory: &str, present: &Vec<bool>, windows: bool) -> (entry: Option<
    String,
>)
    ensures
        text::maybe_string(entry) == resolver::first_present(
            entry_candidates(directory@, windows),
            present@,
        ),
{
    let candidates = list_entry_candidates(directory, windows);
    resolver::pick_present(&candidates, present)
}

/// The directory that the paths in a report on the file `path` are relative to: the one that it
/// lies in.
pub fn report_directory(path: &str, windows: bool) -> (directory: String)
    ensures
        directory@ == (match paths::parent(path@, windows) {
            Some(directory) => directory,
            None => path@,
        }),
{
    match paths::parent_path(path, windows) {
        Some(directory) => directory,
        None => path.to_owned(),
    }
}

/// `usage` with its path relative to `directory`.
pub open spec fn relative_usage(
    directory: Seq<char>,
    usage: UsageView,
    windows: bool,
) -> UsageView {
    UsageView {
        source_file_path: paths::relative(directory, usage.source_file_path, windows),
        ..usage
    }
}

/// `usages` with their paths relative to `directory`.
pub open spec fn relative_usages(
    directory: Seq<char>,
    usages: Seq<UsageView>,
    windows: bool,
) -> Seq<UsageView> {
    usages.map_values(|usage: UsageView| relative_usage(directory, usage, windows))
}

/// The canonical JSON of `usages`, with their paths relative to `directory`.
pub fn report_usages(directory: &str, usages: Vec<Usage>, windows: bool) -> (json: String)
    ensures
        json@ == canonical::canonical_json(
            relative_usages(directory@, names::views(usages@), windows),
        ),
{
    let ghost given = names::views(usages@);
    let ghost wanted = relative_usages(directory@, given, windows);
    let mut usages = usages;
    let mut i: usize = 0;
    while i < usages.len()
        invariant
            i <= usages.len(),
            usages@.len() == given.len(),
            wanted == relative_usages(directory@, given, windows),
            forall|j: int| 0 <= j < i ==> (#[trigger] usages@[j])@ == wanted[j],
            forall|j: int| i <= j < usages@.len() ==> (#[trigger] usages@[j])@ == given[j],
        decreases usages.len() - i,
    {
        let path = paths::to_posix_relative(
            directory,
            usages[i].source_file_path.as_str(),
            windows,
        );
        usages[i].source_file_path = path;
        i = i + 1;
    }
    assert(names::views(usages@) =~= wanted);
    canonical::serialize_canonical(&mut usages)
}

} // verus!
