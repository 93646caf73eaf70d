//! The modules around a module: what is known of them, and the search for the module that
//! declares what another one exports.
//!
//! Which file a specifier means and what a file holds is asked for one question at a time. The
//! search runs on the answers that are known; where one is missing it says which.
use vstd::prelude::*;

use crate::exports::{FileComponentInfo, FileComponentInfoView, ReExportTargetView};
use crate::names;
use crate::text;
use crate::Kind;

verus! {

/// The file that a specifier means in a file; none where it means no file.
#[derive(Debug)]
pub struct Resolution {
    pub from: String,
    pub specifier: String,
    pub target: Option<String>,
}

/// The file that a specifier means in a file; none where it means no file.
#[verifier::ext_equal]
pub struct ResolutionView {
    pub from: Seq<char>,
    pub specifier: Seq<char>,
    pub target: Option<Seq<char>>,
}

impl View for Resolution {
    type V = ResolutionView;

    open spec fn view(&self) -> ResolutionView {
        ResolutionView {
            from: self.from@,
            specifier: self.specifier@,
            target: text::maybe_string(self.target),
        }
    }
}

/// What is known of a file; nothing where it could not be read.
#[derive(Debug)]
pub struct ModuleFile {
    pub path: String,
    pub info: Option<FileComponentInfo>,
}

/// What is known of a file; nothing where it could not be read.
#[verifier::ext_equal]
pub struct ModuleFileView {
    pub path: Seq<char>,
    pub info: Option<FileComponentInfoView>,
}

impl View for ModuleFile {
    type V = ModuleFileView;

    open spec fn view(&self) -> ModuleFileView {
        ModuleFileView {
            path: self.path@,
            info: match self.info {
                Some(info) => Some(info@),
                None => None,
            },
        }
    }
}

/// The answers that are known.
#[derive(Debug)]
pub struct Modules {
    pub resolutions: Vec<Resolution>,
    pub files: Vec<ModuleFile>,
}

/// The answers that are known.
#[verifier::ext_equal]
pub struct ModulesView {
    pub resolutions: Seq<ResolutionView>,
    pub files: Seq<ModuleFileView>,
}

impl View for Modules {
    type V = ModulesView;

    open spec fn view(&self) -> ModulesView {
        ModulesView {
            resolutions: names::views(self.resolutions@),
            files: names::views(self.files@),
        }
    }
}

/// A question.
#[derive(Debug)]
pub enum Request {
    /// Which file does a specifier mean in a file?
    Resolve { from: String, specifier: String },
    /// What does a file hold?
    Read { path: String },
}

/// A question.
#[verifier::ext_equal]
pub enum RequestView {
    Resolve { from: Seq<char>, specifier: Seq<char> },
    Read { path: Seq<char> },
}

impl View for Request {
    type V = RequestView;

    open spec fn view(&self) -> RequestView {
        match *self {
            Request::Resolve { from, specifier } => RequestView::Resolve {
                from: from@,
                specifier: specifier@,
            },
            Request::Read { path } => RequestView::Read { path: path@ },
        }
    }
}

/// The first answer among `resolutions` to which file `specifier` means in `from`.
pub open spec fn resolved_among(
    resolutions: Seq<ResolutionView>,
    from: Seq<char>,
    specifier: Seq<char>,
) -> Option<Option<Seq<char>>>
    decreases resolutions.len(),
{
    if resolutions.len() == 0 {
        None
    } else if resolutions[0].from == from && resolutions[0].specifier == specifier {
        Some(resolutions[0].target)
    } else {
        resolved_among(resolutions.drop_first(), from, specifier)
    }
}

/// The first answer among `files` to what the file `path` holds.
pub open spec fn info_among(
    files: Seq<ModuleFileView>,
    path: Seq<char>,
) -> Option<Option<FileComponentInfoView>>
    decreases files.len(),
{
    if files.len() == 0 {
        None
    } else if files[0].path == path {
        Some(files[0].info)
    } else {
        info_among(files.drop_first(), path)
    }
}

/// A resolution that is added is known from then on, and those that were known stay as they are.
pub proof fn resolutions_stay_known(
    resolutions: Seq<ResolutionView>,
    added: ResolutionView,
    from: Seq<char>,
    specifier: Seq<char>,
)
    ensures
        resolved_among(resolutions.push(added), added.from, added.specifier) is Some,
        resolved_among(resolutions, from, specifier) is Some ==> resolved_among(
            resolutions.push(added),
            from,
            specifier,
        ) == resolved_among(resolutions, from, specifier),
    decreases resolutions.len(),
{
    let longer = resolutions.push(added);
    if resolutions.len() > 0 {
        let rest = resolutions.drop_first();
        assert(longer.drop_first() =~= rest.push(added));
        resolutions_stay_known(rest, added, from, specifier);
    }
}

/// A file that is added is known from then on, and those that were known stay as they are.
pub proof fn files_stay_known(files: Seq<ModuleFileView>, added: ModuleFileView, path: Seq<char>)
    ensures
        info_among(files.push(added), added.path) is Some,
        info_among(files, path) is Some ==> info_among(files.push(added), path) == info_among(
            files,
            path,
        ),
    decreases files.len(),
{
    let longer = files.push(added);
    if files.len() > 0 {
        let rest = files.drop_first();
        assert(longer.drop_first() =~= rest.push(added));
        files_stay_known(rest, added, path);
    }
}

impl ModulesView {
    /// Which file `specifier` means in `from`, if that is known.
    pub open spec fn target(self, from: Seq<char>, specifier: Seq<char>) -> Option<
        Option<Seq<char>>,
    > {
        resolved_among(self.resolutions, from, specifier)
    }

    /// What the file `path` holds, if that is known.
    pub open spec fn info(self, path: Seq<char>) -> Option<Option<FileComponentInfoView>> {
        info_among(self.files, path)
    }

    /// Whether the answer to `request` is known.
    pub open spec fn answers(self, request: RequestView) -> bool {
        match request {
            RequestView::Resolve { from, specifier } => self.target(from, specifier) is Some,
            RequestView::Read { path } => self.info(path) is Some,
        }
    }
}

impl Modules {
    /// No answers.
    pub fn new() -> (modules: Self)
        ensures
            modules@ == (ModulesView { resolutions: Seq::empty(), files: Seq::empty() }),
    {
        broadcast use names::views_of_none;

        Modules { resolutions: Vec::new(), files: Vec::new() }
    }

    /// Which file `specifier` means in `from`, if that is known.
    pub fn find_target(&self, from: &str, specifier: &str) -> (found: Option<&Option<String>>)
        ensures
            match found {
                Some(target) => self@.target(from@, specifier@) == Some(
                    text::maybe_string(*target),
                ),
                None => self@.target(from@, specifier@) is None,
            },
    {
        let ghost all = self@.resolutions;
        let mut i: usize = 0;
        proof {
            assert(all.skip(0) =~= all);
        }
        while i < self.resolutions.len()
            invariant
                i <= self.resolutions.len(),
                all == self@.resolutions,
                resolved_among(all, from@, specifier@) == resolved_among(
                    all.skip(i as int),
                    from@,
                    specifier@,
                ),
            decreases self.resolutions.len() - i,
        {
            proof {
                assert(all.skip(i as int)[0] == self.resolutions@[i as int]@);
                assert(all.skip(i as int).drop_first() =~= all.skip(i + 1));
            }
            let resolution = &self.resolutions[i];
            if text::same_text(resolution.from.as_str(), from) && text::same_text(
                resolution.specifier.as_str(),
                specifier,
            ) {
                return Some(&resolution.target);
            }
            i = i + 1;
        }
        None
    }

    /// What the file `path` holds, if that is known.
    pub fn find_info(&self, path: &str) -> (found: Option<&Option<FileComponentInfo>>)
        ensures
            match found {
                Some(info) => self@.info(path@) == Some(
                    (match *info {
                        Some(info) => Some(info@),
                        None => None,
                    }),
                ),
                None => self@.info(path@) is None,
            },
    {
        let ghost all = self@.files;
        let mut i: usize = 0;
        proof {
            assert(all.skip(0) =~= all);
        }
        while i < self.files.len()
            invariant
                i <= self.files.len(),
                all == self@.files,
                info_among(all, path@) == info_among(all.skip(i as int), path@),
            decreases self.files.len() - i,
        {
            proof {
                assert(all.skip(i as int)[0] == self.files@[i as int]@);
                assert(all.skip(i as int).drop_first() =~= all.skip(i + 1));
            }
            if text::same_text(self.files[i].path.as_str(), path) {
                return Some(&self.files[i].info);
            }
            i = i + 1;
        }
        None
    }
}

/// A step of the search: look for `name` in the module that `specifier` means in `from`.
#[derive(Debug)]
pub struct Edge {
    pub from: String,
    pub specifier: String,
    pub name: String,
}

/// A step of the search: look for `name` in the module that `specifier` means in `from`.
#[verifier::ext_equal]
pub struct EdgeView {
    pub from: Seq<char>,
    pub specifier: Seq<char>,
    pub name: Seq<char>,
}

impl View for Edge {
    type V = EdgeView;

    open spec fn view(&self) -> EdgeView {
        EdgeView { from: self.from@, specifier: self.specifier@, name: self.name@ }
    }
}

/// An export: a file and a name that is looked for in it.
#[derive(Debug)]
pub struct ExportKey {
    pub path: String,
    pub name: String,
}

impl View for ExportKey {
    type V = (Seq<char>, Seq<char>);

    open spec fn view(&self) -> (Seq<char>, Seq<char>) {
        (self.path@, self.name@)
    }
}

/// Whether a module itself has what is looked for under `name`: the whole module, or a component
/// that it exports under that name.
pub open spec fn declares(info: FileComponentInfoView, name: Seq<char>) -> bool {
    name == "*"@ || info.exports.component_names.contains(name)
}

/// The steps into the modules that the module `path` passes on whole.
pub open spec fn star_edges(sources: Seq<Seq<char>>, path: Seq<char>, name: Seq<char>) -> Seq<
    EdgeView,
> {
    sources.map_values(|source: Seq<char>| EdgeView { from: path, specifier: source, name })
}

/// The steps that lead on from `name` in the module `path`: first what it passes on by that
/// name, then the modules that it passes on whole.
pub open spec fn next_edges(
    info: FileComponentInfoView,
    path: Seq<char>,
    name: Seq<char>,
) -> Seq<EdgeView> {
    let stars = star_edges(info.exports.star_exports, path, name);
    match names::lookup(info.exports.re_exports, name) {
        Some(target) => seq![
            EdgeView { from: path, specifier: target.source, name: target.source_name },
        ] + stars,
        None => stars,
    }
}

/// How a search ends.
#[derive(Debug)]
pub enum Search {
    /// The module `path`, of the kind `kind`, declares what was looked for.
    Found { kind: Kind, path: String },
    /// No module declares it.
    Missing,
    /// The answer to a question is needed first.
    Need(Request),
}

/// How a search ends.
#[verifier::ext_equal]
pub enum SearchView {
    Found { kind: Kind, path: Seq<char> },
    Missing,
    Need(RequestView),
}

impl View for Search {
    type V = SearchView;

    open spec fn view(&self) -> SearchView {
        match *self {
            Search::Found { kind, path } => SearchView::Found { kind, path: path@ },
            Search::Missing => SearchView::Missing,
            Search::Need(request) => SearchView::Need(request@),
        }
    }
}

/// The search along the steps `pending`, first to last, each of them followed to its end before
/// the next. Only the exports in `open` are looked at, each of them once.
pub open spec fn search(
    modules: ModulesView,
    pending: Seq<EdgeView>,
    open: Set<(Seq<char>, Seq<char>)>,
) -> SearchView
    decreases open.len(), pending.len(),
    when open.finite()
{
    if pending.len() == 0 {
        SearchView::Missing
    } else {
        let edge = pending[0];
        let rest = pending.drop_first();
        match modules.target(edge.from, edge.specifier) {
            None => SearchView::Need(
                RequestView::Resolve { from: edge.from, specifier: edge.specifier },
            ),
            Some(None) => search(modules, rest, open),
            Some(Some(path)) => {
                let key = (path, edge.name);
                match modules.info(path) {
                    None => SearchView::Need(RequestView::Read { path }),
                    Some(info) => if !open.contains(key) {
                        search(modules, rest, open)
                    } else {
                        match info {
                            None => search(modules, rest, open.remove(key)),
                            Some(info) => if declares(info, edge.name) {
                                SearchView::Found { kind: info.kind, path }
                            } else {
                                search(
                                    modules,
                                    next_edges(info, path, edge.name) + rest,
                                    open.remove(key),
                                )
                            },
                        }
                    },
                }
            },
        }
    }
}

/// The names that `entries` pass on.
pub open spec fn source_names(entries: Seq<(Seq<char>, ReExportTargetView)>) -> Set<Seq<char>>
    decreases entries.len(),
{
    if entries.len() == 0 {
        Set::empty()
    } else {
        source_names(entries.drop_first()).insert(entries[0].1.source_name)
    }
}

/// The names that a search for `name` can come to look for in `files`.
pub open spec fn searched_names(files: Seq<ModuleFileView>, name: Seq<char>) -> Set<Seq<char>>
    decreases files.len(),
{
    if files.len() == 0 {
        set![name]
    } else {
        let others = searched_names(files.drop_first(), name);
        match files[0].info {
            Some(info) => others.union(source_names(info.exports.re_exports)),
            None => others,
        }
    }
}

/// Each file of `files` with each of `searched`.
pub open spec fn keys_of(files: Seq<ModuleFileView>, searched: Set<Seq<char>>) -> Set<
    (Seq<char>, Seq<char>),
>
    decreases files.len(),
{
    if files.len() == 0 {
        Set::empty()
    } else {
        keys_of(files.drop_first(), searched).union(
            searched.map(|name: Seq<char>| (files[0].path, name)),
        )
    }
}

/// All exports that a search for `name` can come to look at.
pub open spec fn all_keys(modules: ModulesView, name: Seq<char>) -> Set<(Seq<char>, Seq<char>)> {
    keys_of(modules.files, searched_names(modules.files, name))
}

/// The search for `name` in the module that `specifier` means in `from`.
pub open spec fn search_export(
    modules: ModulesView,
    from: Seq<char>,
    specifier: Seq<char>,
    name: Seq<char>,
) -> SearchView {
    search(modules, seq![EdgeView { from, specifier, name }], all_keys(modules, name))
}

proof fn source_names_are_finite(entries: Seq<(Seq<char>, ReExportTargetView)>)
    ensures
        source_names(entries).finite(),
    decreases entries.len(),
{
    if entries.len() > 0 {
        source_names_are_finite(entries.drop_first());
    }
}

proof fn searched_names_are_finite(files: Seq<ModuleFileView>, name: Seq<char>)
    ensures
        searched_names(files, name).finite(),
        searched_names(files, name).contains(name),
    decreases files.len(),
{
    if files.len() > 0 {
        searched_names_are_finite(files.drop_first(), name);
        if let Some(info) = files[0].info {
            source_names_are_finite(info.exports.re_exports);
        }
    }
}

proof fn keys_are_finite(files: Seq<ModuleFileView>, searched: Set<Seq<char>>)
    requires
        searched.finite(),
    ensures
        keys_of(files, searched).finite(),
    decreases files.len(),
{
    if files.len() > 0 {
        keys_are_finite(files.drop_first(), searched);
        searched.lemma_map_finite(|name: Seq<char>| (files[0].path, name));
    }
}

/// Only finitely many exports can come to be looked at.
pub proof fn all_keys_are_finite(modules: ModulesView, name: Seq<char>)
    ensures
        all_keys(modules, name).finite(),
{
    searched_names_are_finite(modules.files, name);
    keys_are_finite(modules.files, searched_names(modules.files, name));
}

proof fn known_file_has_keys(
    files: Seq<ModuleFileView>,
    searched: Set<Seq<char>>,
    path: Seq<char>,
    name: Seq<char>,
)
    requires
        info_among(files, path) is Some,
        searched.contains(name),
    ensures
        keys_of(files, searched).contains((path, name)),
    decreases files.len(),
{
    if files[0].path == path {
        let pair = |other: Seq<char>| (files[0].path, other);
        assert(searched.map(pair).contains(pair(name)));
    } else {
        known_file_has_keys(files.drop_first(), searched, path, name);
    }
}

proof fn passed_on_name_is_searched(
    files: Seq<ModuleFileView>,
    name: Seq<char>,
    path: Seq<char>,
    wanted: Seq<char>,
)
    requires
        info_among(files, path) matches Some(Some(info)) && names::lookup(
            info.exports.re_exports,
            wanted,
        ) is Some,
    ensures
        ({
            let info = info_among(files, path)->0->0;
            let target = names::lookup(info.exports.re_exports, wanted)->0;
            searched_names(files, name).contains(target.source_name)
        }),
    decreases files.len(),
{
    if files[0].path == path {
        found_name_is_listed(files[0].info->0.exports.re_exports, wanted);
    } else {
        passed_on_name_is_searched(files.drop_first(), name, path, wanted);
    }
}

proof fn found_name_is_listed(entries: Seq<(Seq<char>, ReExportTargetView)>, wanted: Seq<char>)
    requires
        names::lookup(entries, wanted) is Some,
    ensures
        source_names(entries).contains(names::lookup(entries, wanted)->0.source_name),
    decreases entries.len(),
{
    if entries[0].0 != wanted {
        found_name_is_listed(entries.drop_first(), wanted);
    }
}

/// Whether the names of `edges` are among `searched`.
spec fn edges_within(edges: Seq<EdgeView>, searched: Set<Seq<char>>) -> bool {
    forall|i: int| 0 <= i < edges.len() ==> searched.contains((#[trigger] edges[i]).name)
}

proof fn next_edges_stay_within(
    modules: ModulesView,
    start: Seq<char>,
    path: Seq<char>,
    name: Seq<char>,
)
    requires
        modules.info(path) matches Some(Some(_)),
        searched_names(modules.files, start).contains(name),
    ensures
        edges_within(
            next_edges(modules.info(path)->0->0, path, name),
            searched_names(modules.files, start),
        ),
{
    let info = modules.info(path)->0->0;
    if names::lookup(info.exports.re_exports, name) is Some {
        passed_on_name_is_searched(modules.files, start, path, name);
    }
}

/// Whether `keys` holds the export (`path`, `name`).
fn contains_key(keys: &Vec<ExportKey>, path: &str, name: &str) -> (result: bool)
    ensures
        result == names::views(keys@).contains((path@, name@)),
{
    let ghost all = names::views(keys@);
    let mut i: usize = 0;
    while i < keys.len()
        invariant
            i <= keys.len(),
            all == names::views(keys@),
            forall|j: int| 0 <= j < i ==> all[j] != (path@, name@),
        decreases keys.len() - i,
    {
        assert(all[i as int] == keys@[i as int]@);
        if text::same_text(keys[i].path.as_str(), path) && text::same_text(
            keys[i].name.as_str(),
            name,
        ) {
            assert(all[i as int] == (path@, name@));
            return true;
        }
        i = i + 1;
    }
    false
}

/// Puts the steps that lead on from `name` in the module `path` on top of `pending`, the first
/// one uppermost.
fn push_next_edges(info: &FileComponentInfo, path: &str, name: &str, pending: &mut Vec<Edge>)
    ensures
        names::views(final(pending)@).reverse() == next_edges(info@, path@, name@) + names::views(
            old(pending)@,
        ).reverse(),
{
    broadcast use names::views_of_push;

    let ghost below = names::views(pending@).reverse();
    let ghost sources = info@.exports.star_exports;
    let ghost stars = star_edges(sources, path@, name@);
    let mut i: usize = info.exports.star_exports.len();
    proof {
        assert(names::views(pending@).reverse() =~= stars.skip(i as int) + below);
    }
    while i > 0
        invariant
            i <= info.exports.star_exports.len(),
            sources == info@.exports.star_exports,
            stars == star_edges(sources, path@, name@),
            names::views(pending@).reverse() == stars.skip(i as int) + below,
        decreases i,
    {
        i = i - 1;
        let ghost earlier = names::views(pending@);
        pending.push(
            Edge {
                from: path.to_owned(),
                specifier: info.exports.star_exports[i].clone(),
                name: name.to_owned(),
            },
        );
        proof {
            let edge = EdgeView { from: path@, specifier: sources[i as int], name: name@ };
            assert(stars[i as int] == edge);
            assert(names::views(pending@) == earlier.push(edge));
            assert(earlier.push(edge).reverse() =~= seq![edge] + earlier.reverse());
            assert(stars.skip(i as int) =~= seq![edge] + stars.skip(i + 1));
            assert(names::views(pending@).reverse() =~= stars.skip(i as int) + below);
        }
    }
    proof {
        assert(stars.skip(0) =~= stars);
    }
    match info.exports.re_exports.get(name) {
        Some(target) => {
            let ghost earlier = names::views(pending@);
            pending.push(
                Edge {
                    from: path.to_owned(),
                    specifier: target.source.clone(),
                    name: target.source_name.clone(),
                },
            );
            proof {
                let edge = EdgeView {
                    from: path@,
                    specifier: target@.source,
                    name: target@.source_name,
                };
                assert(earlier.push(edge).reverse() =~= seq![edge] + earlier.reverse());
                assert(seq![edge] + (stars + below) =~= (seq![edge] + stars) + below);
            }
        },
        None => {},
    }
}

/// Looks for the module that declares what the module that `specifier` means in `from` exports
/// under `name`: that module itself, or one that it passes the name on from.
pub fn resolve_export_declaration(
    modules: &Modules,
    from: &str,
    specifier: &str,
    name: &str,
) -> (outcome: Search)
    ensures
        outcome@ == search_export(modules@, from@, specifier@, name@),
{
    broadcast use {names::views_of_push, names::views_of_none};

    let mut pending: Vec<Edge> = Vec::new();
    let mut visited: Vec<ExportKey> = Vec::new();
    let ghost searched = searched_names(modules@.files, name@);
    let ghost keys = all_keys(modules@, name@);
    let ghost mut open = keys;
    pending.push(
        Edge { from: from.to_owned(), specifier: specifier.to_owned(), name: name.to_owned() },
    );
    proof {
        let edge = EdgeView { from: from@, specifier: specifier@, name: name@ };
        all_keys_are_finite(modules@, name@);
        searched_names_are_finite(modules@.files, name@);
        assert(names::views(pending@).reverse() =~= seq![edge]);
    }
    loop
        invariant
            searched == searched_names(modules@.files, name@),
            keys == all_keys(modules@, name@),
            keys == keys_of(modules@.files, searched),
            open.finite(),
            forall|key: (Seq<char>, Seq<char>)| #[trigger]
                open.contains(key) <==> keys.contains(key) && !names::views(visited@).contains(
                    key,
                ),
            edges_within(names::views(pending@), searched),
            search(modules@, names::views(pending@).reverse(), open) == search_export(
                modules@,
                from@,
                specifier@,
                name@,
            ),
        decreases open.len(), pending.len(),
    {
        let ghost stack = names::views(pending@);
        let edge = match pending.pop() {
            Some(edge) => edge,
            None => {
                return Search::Missing;
            },
        };
        proof {
            assert(stack.last() == edge@);
            assert(names::views(pending@) =~= stack.drop_last());
            assert(stack.reverse()[0] == edge@);
            assert(stack.reverse().drop_first() =~= names::views(pending@).reverse());
        }
        let path = match modules.find_target(edge.from.as_str(), edge.specifier.as_str()) {
            Some(target) => match target {
                Some(path) => path.as_str(),
                None => {
                    continue ;
                },
            },
            None => {
                return Search::Need(
                    Request::Resolve { from: edge.from, specifier: edge.specifier },
                );
            },
        };
        let known = match modules.find_info(path) {
            Some(known) => known,
            None => {
                return Search::Need(Request::Read { path: path.to_owned() });
            },
        };
        let ghost key = (path@, edge.name@);
        proof {
            known_file_has_keys(modules@.files, searched, path@, edge.name@);
        }
        if contains_key(&visited, path, edge.name.as_str()) {
            continue ;
        }
        let ghost before = names::views(visited@);
        visited.push(ExportKey { path: path.to_owned(), name: edge.name.clone() });
        proof {
            assert(names::views(visited@) == before.push(key));
            assert forall|other: (Seq<char>, Seq<char>)|
                names::views(visited@).contains(other) == (before.contains(other) || other
                    == key) by {
                if before.contains(other) {
                    let j = choose|j: int| 0 <= j < before.len() && before[j] == other;
                    assert(names::views(visited@)[j] == other);
                }
                if other == key {
                    assert(names::views(visited@)[before.len() as int] == other);
                }
            }
        }
        match known {
            Some(info) => {
                if text::same_text(edge.name.as_str(), "*")
                    || info.exports.component_names.contains(edge.name.as_str()) {
                    return Search::Found { kind: info.kind, path: path.to_owned() };
                }
                let ghost below = names::views(pending@);
                push_next_edges(info, path, edge.name.as_str(), &mut pending);
                proof {
                    next_edges_stay_within(modules@, name@, path@, edge.name@);
                    let next = next_edges(info@, path@, edge.name@);
                    let stack = names::views(pending@);
                    assert(stack.reverse() == next + below.reverse());
                    assert(stack.reverse().len() == stack.len());
                    assert(below.reverse().len() == below.len());
                    assert forall|i: int| 0 <= i < stack.len() implies searched.contains(
                        (#[trigger] stack[i]).name,
                    ) by {
                        let k = stack.len() - 1 - i;
                        assert(stack.reverse()[k] == stack[i]);
                        if k < next.len() {
                            assert((next + below.reverse())[k] == next[k]);
                        } else {
                            assert((next + below.reverse())[k] == below.reverse()[k - next.len()]);
                            assert(below.reverse()[k - next.len()] == below[below.len() - 1 - (k
                                - next.len())]);
                        }
                    }
                }
            },
            None => {},
        }
        proof {
            open = open.remove(key);
        }
    }
}

/// A search asks only for answers that are not known.
pub proof fn searches_ask_for_the_unknown(
    modules: ModulesView,
    from: Seq<char>,
    specifier: Seq<char>,
    name: Seq<char>,
)
    ensures
        search_export(modules, from, specifier, name) matches SearchView::Need(request)
            ==> !modules.answers(request),
{
    all_keys_are_finite(modules, name);
    steps_ask_for_the_unknown(
        modules,
        seq![EdgeView { from, specifier, name }],
        all_keys(modules, name),
    );
}

proof fn steps_ask_for_the_unknown(
    modules: ModulesView,
    pending: Seq<EdgeView>,
    open: Set<(Seq<char>, Seq<char>)>,
)
    requires
        open.finite(),
    ensures
        search(modules, pending, open) matches SearchView::Need(request) ==> !modules.answers(
            request,
        ),
    decreases open.len(), pending.len(),
{
    if pending.len() > 0 {
        let edge = pending[0];
        let rest = pending.drop_first();
        match modules.target(edge.from, edge.specifier) {
            Some(Some(path)) => {
                let key = (path, edge.name);
                match modules.info(path) {
                    Some(info) => {
                        if !open.contains(key) {
                            steps_ask_for_the_unknown(modules, rest, open);
                        } else if let Some(info) = info {
                            steps_ask_for_the_unknown(
                                modules,
                                next_edges(info, path, edge.name) + rest,
                                open.remove(key),
                            );
                        } else {
                            steps_ask_for_the_unknown(modules, rest, open.remove(key));
                        }
                    },
                    None => {},
                }
            },
            Some(None) => {
                steps_ask_for_the_unknown(modules, rest, open);
            },
            None => {},
        }
    }
}

/// Whether the step `edge` comes to the export `key`.
pub open spec fn arrives(
    modules: ModulesView,
    edge: EdgeView,
    key: (Seq<char>, Seq<char>),
) -> bool {
    modules.target(edge.from, edge.specifier) == Some(Some(key.0)) && edge.name == key.1
}

/// Whether one of the steps `edges` comes to the export `key`.
pub open spec fn one_arrives(
    modules: ModulesView,
    edges: Seq<EdgeView>,
    key: (Seq<char>, Seq<char>),
) -> bool {
    exists|i: int| 0 <= i < edges.len() && arrives(modules, #[trigger] edges[i], key)
}

/// Whether the module of `key` is known and itself has what is looked for.
pub open spec fn provides(modules: ModulesView, key: (Seq<char>, Seq<char>)) -> bool {
    modules.info(key.0) matches Some(Some(info)) && declares(info, key.1)
}

/// Whether the module of `key` is known and can only pass on what is looked for.
pub open spec fn passes_on(modules: ModulesView, key: (Seq<char>, Seq<char>)) -> bool {
    modules.info(key.0) matches Some(Some(info)) && !declares(info, key.1)
}

/// The steps that lead on from the export `key`.
pub open spec fn edges_from(modules: ModulesView, key: (Seq<char>, Seq<char>)) -> Seq<EdgeView> {
    next_edges(modules.info(key.0)->0->0, key.0, key.1)
}

/// Whether the export `key` is reached from the steps `edges` through at most `depth` modules
/// that pass it on.
pub open spec fn reachable_within(
    modules: ModulesView,
    edges: Seq<EdgeView>,
    key: (Seq<char>, Seq<char>),
    depth: nat,
) -> bool
    decreases depth,
{
    ||| one_arrives(modules, edges, key)
    ||| depth > 0 && exists|via: (Seq<char>, Seq<char>)| #[trigger]
        one_arrives(modules, edges, via) && passes_on(modules, via) && reachable_within(
            modules,
            edges_from(modules, via),
            key,
            (depth - 1) as nat,
        )
}

/// Whether the export `key` is reached from the steps `edges`.
pub open spec fn reachable(
    modules: ModulesView,
    edges: Seq<EdgeView>,
    key: (Seq<char>, Seq<char>),
) -> bool {
    exists|depth: nat| reachable_within(modules, edges, key, depth)
}

proof fn reachable_from_more(
    modules: ModulesView,
    edges: Seq<EdgeView>,
    more: Seq<EdgeView>,
    key: (Seq<char>, Seq<char>),
    depth: nat,
)
    requires
        reachable_within(modules, edges, key, depth),
        forall|i: int| 0 <= i < edges.len() ==> more.contains(#[trigger] edges[i]),
    ensures
        reachable_within(modules, more, key, depth),
{
    assert forall|other: (Seq<char>, Seq<char>)| one_arrives(
        modules,
        edges,
        other,
    ) implies one_arrives(modules, more, other) by {
        let i = choose|i: int|
            0 <= i < edges.len() && arrives(modules, #[trigger] edges[i], other);
        assert(more.contains(edges[i]));
        let j = choose|j: int| 0 <= j < more.len() && more[j] == edges[i];
        assert(arrives(modules, more[j], other));
    }
}

proof fn reachable_from_either(
    modules: ModulesView,
    first: Seq<EdgeView>,
    second: Seq<EdgeView>,
    key: (Seq<char>, Seq<char>),
    depth: nat,
)
    requires
        reachable_within(modules, first + second, key, depth),
    ensures
        reachable_within(modules, first, key, depth) || reachable_within(
            modules,
            second,
            key,
            depth,
        ),
{
    assert forall|other: (Seq<char>, Seq<char>)| one_arrives(
        modules,
        first + second,
        other,
    ) implies one_arrives(modules, first, other) || one_arrives(modules, second, other) by {
        let i = choose|i: int|
            0 <= i < (first + second).len() && arrives(
                modules,
                #[trigger] (first + second)[i],
                other,
            );
        if i < first.len() {
            assert(arrives(modules, first[i], other));
        } else {
            assert(arrives(modules, second[i - first.len()], other));
        }
    }
    if !one_arrives(modules, first + second, key) {
        let via = choose|via: (Seq<char>, Seq<char>)| #[trigger]
            one_arrives(modules, first + second, via) && passes_on(modules, via)
                && reachable_within(
                modules,
                edges_from(modules, via),
                key,
                (depth - 1) as nat,
            );
        assert(one_arrives(modules, first, via) || one_arrives(modules, second, via));
    }
}

/// What a search finds is reached from where it starts, and the module that it names declares
/// what was looked for there and has the kind that the search gives.
pub proof fn found_exports_are_reachable(
    modules: ModulesView,
    from: Seq<char>,
    specifier: Seq<char>,
    name: Seq<char>,
)
    ensures
        search_export(modules, from, specifier, name) matches SearchView::Found { kind, path }
            ==> modules.info(path) matches Some(Some(info)) && info.kind == kind && exists|
            found: Seq<char>,
        | #[trigger]
            reachable(modules, seq![EdgeView { from, specifier, name }], (path, found))
                && provides(modules, (path, found)),
{
    all_keys_are_finite(modules, name);
    let start = seq![EdgeView { from, specifier, name }];
    if let SearchView::Found { kind, path } = search_export(modules, from, specifier, name) {
        let (found, depth) = found_step_is_reachable(modules, start, all_keys(modules, name));
        assert(reachable_within(modules, start, (path, found), depth));
        assert(reachable(modules, start, (path, found)));
    }
}

proof fn found_step_is_reachable(
    modules: ModulesView,
    pending: Seq<EdgeView>,
    open: Set<(Seq<char>, Seq<char>)>,
) -> (found: (Seq<char>, nat))
    requires
        open.finite(),
        search(modules, pending, open) is Found,
    ensures
        ({
            let outcome = search(modules, pending, open);
            let key = (outcome->path, found.0);
            &&& reachable_within(modules, pending, key, found.1)
            &&& provides(modules, key)
            &&& modules.info(key.0)->0->0.kind == outcome->kind
        }),
    decreases open.len(), pending.len(),
{
    let edge = pending[0];
    let rest = pending.drop_first();
    let path = modules.target(edge.from, edge.specifier)->0;
    if path is None {
        let found = found_step_is_reachable(modules, rest, open);
        reachable_from_rest(modules, pending, (search(modules, rest, open)->path, found.0), found.1);
        found
    } else {
        let key = (path->0, edge.name);
        let info = modules.info(key.0)->0;
        assert(arrives(modules, pending[0], key));
        if !open.contains(key) {
            let found = found_step_is_reachable(modules, rest, open);
            reachable_from_rest(
                modules,
                pending,
                (search(modules, rest, open)->path, found.0),
                found.1,
            );
            found
        } else if info is None {
            let found = found_step_is_reachable(modules, rest, open.remove(key));
            reachable_from_rest(
                modules,
                pending,
                (search(modules, rest, open.remove(key))->path, found.0),
                found.1,
            );
            found
        } else if declares(info->0, edge.name) {
            (edge.name, 0)
        } else {
            let next = edges_from(modules, key);
            let outcome = search(modules, next + rest, open.remove(key));
            let found = found_step_is_reachable(modules, next + rest, open.remove(key));
            let target = (outcome->path, found.0);
            reachable_from_either(modules, next, rest, target, found.1);
            if reachable_within(modules, next, target, found.1) {
                assert(one_arrives(modules, pending, key));
                assert(reachable_within(modules, pending, target, found.1 + 1));
                (found.0, found.1 + 1)
            } else {
                reachable_from_rest(modules, pending, target, found.1);
                found
            }
        }
    }
}

proof fn reachable_from_rest(
    modules: ModulesView,
    pending: Seq<EdgeView>,
    key: (Seq<char>, Seq<char>),
    depth: nat,
)
    requires
        pending.len() > 0,
        reachable_within(modules, pending.drop_first(), key, depth),
    ensures
        reachable_within(modules, pending, key, depth),
{
    let rest = pending.drop_first();
    assert forall|i: int| 0 <= i < rest.len() implies pending.contains(#[trigger] rest[i]) by {
        assert(pending[i + 1] == rest[i]);
    }
    reachable_from_more(modules, rest, pending, key, depth);
}

/// Whether every export that the step `edge` comes to is in `done`.
spec fn settled(
    modules: ModulesView,
    done: Set<(Seq<char>, Seq<char>)>,
    edge: EdgeView,
) -> bool {
    forall|key: (Seq<char>, Seq<char>)| #[trigger]
        arrives(modules, edge, key) ==> done.contains(key)
}

/// Whether no export in `done` provides what is looked for, and every step that leads on from one
/// of them is settled or among `pending`.
spec fn closed_up_to(
    modules: ModulesView,
    done: Set<(Seq<char>, Seq<char>)>,
    pending: Seq<EdgeView>,
) -> bool {
    &&& forall|key: (Seq<char>, Seq<char>)| #[trigger]
        done.contains(key) ==> !provides(modules, key)
    &&& forall|key: (Seq<char>, Seq<char>), i: int|
        done.contains(key) && passes_on(modules, key) && 0 <= i < edges_from(modules, key).len()
            ==> settled(modules, done, #[trigger] edges_from(modules, key)[i])
            || pending.contains(edges_from(modules, key)[i])
}

/// A search that finds nothing has looked at a set of exports that no step leads out of.
proof fn missing_is_closed(
    modules: ModulesView,
    start: Seq<char>,
    pending: Seq<EdgeView>,
    open: Set<(Seq<char>, Seq<char>)>,
    done: Set<(Seq<char>, Seq<char>)>,
) -> (closed: Set<(Seq<char>, Seq<char>)>)
    requires
        open.finite(),
        search(modules, pending, open) is Missing,
        edges_within(pending, searched_names(modules.files, start)),
        forall|key: (Seq<char>, Seq<char>)| #[trigger]
            all_keys(modules, start).contains(key) ==> open.contains(key) != done.contains(key),
        closed_up_to(modules, done, pending),
    ensures
        done.subset_of(closed),
        closed_up_to(modules, closed, Seq::empty()),
        forall|i: int|
            0 <= i < pending.len() ==> settled(modules, closed, #[trigger] pending[i]),
    decreases open.len(), pending.len(),
{
    if pending.len() == 0 {
        assert(pending =~= Seq::<EdgeView>::empty());
        done
    } else {
        let searched = searched_names(modules.files, start);
        let edge = pending[0];
        let rest = pending.drop_first();
        assert(forall|e: EdgeView| pending.contains(e) ==> e == edge || rest.contains(e)) by {
            assert forall|e: EdgeView| pending.contains(e) implies e == edge || rest.contains(e) by {
                let j = choose|j: int| 0 <= j < pending.len() && pending[j] == e;
                if j > 0 {
                    assert(rest[j - 1] == e);
                }
            }
        }
        let target = modules.target(edge.from, edge.specifier)->0;
        if target is None {
            assert(settled(modules, done, edge));
            let closed = missing_is_closed(modules, start, rest, open, done);
            settled_after(modules, done, closed, pending);
            closed
        } else {
            let key = (target->0, edge.name);
            let info = modules.info(key.0)->0;
            assert(pending[0].name == key.1);
            known_file_has_keys(modules.files, searched, key.0, key.1);
            assert(all_keys(modules, start).contains(key));
            assert(forall|other: (Seq<char>, Seq<char>)| #[trigger]
                arrives(modules, edge, other) ==> other == key);
            if !open.contains(key) {
                assert(done.contains(key));
                assert(settled(modules, done, edge));
                let closed = missing_is_closed(modules, start, rest, open, done);
                settled_after(modules, done, closed, pending);
                closed
            } else {
                let more = done.insert(key);
                assert(settled(modules, more, edge));
                assert forall|e: EdgeView| settled(modules, done, e) implies settled(
                    modules,
                    more,
                    e,
                ) by {}
                if info is None {
                    let closed = missing_is_closed(modules, start, rest, open.remove(key), more);
                    settled_after(modules, more, closed, pending);
                    closed
                } else {
                    let next = edges_from(modules, key);
                    let later = next + rest;
                    assert forall|e: EdgeView| rest.contains(e) || next.contains(e) implies
                        later.contains(e) by {
                        if next.contains(e) {
                            let j = choose|j: int| 0 <= j < next.len() && next[j] == e;
                            assert(later[j] == e);
                        } else {
                            let j = choose|j: int| 0 <= j < rest.len() && rest[j] == e;
                            assert(later[next.len() + j] == e);
                        }
                    }
                    next_edges_stay_within(modules, start, key.0, key.1);
                    assert forall|i: int| 0 <= i < later.len() implies searched.contains(
                        (#[trigger] later[i]).name,
                    ) by {
                        if i >= next.len() {
                            assert(later[i] == pending[i - next.len() + 1]);
                        }
                    }
                    let closed = missing_is_closed(
                        modules,
                        start,
                        later,
                        open.remove(key),
                        more,
                    );
                    assert forall|i: int| 0 <= i < rest.len() implies settled(
                        modules,
                        closed,
                        #[trigger] rest[i],
                    ) by {
                        assert(later[next.len() + i] == rest[i]);
                    }
                    settled_after(modules, more, closed, pending);
                    closed
                }
            }
        }
    }
}

proof fn settled_after(
    modules: ModulesView,
    done: Set<(Seq<char>, Seq<char>)>,
    closed: Set<(Seq<char>, Seq<char>)>,
    pending: Seq<EdgeView>,
)
    requires
        pending.len() > 0,
        done.subset_of(closed),
        settled(modules, done, pending[0]),
        forall|i: int|
            0 <= i < pending.drop_first().len() ==> settled(
                modules,
                closed,
                #[trigger] pending.drop_first()[i],
            ),
    ensures
        forall|i: int|
            0 <= i < pending.len() ==> settled(modules, closed, #[trigger] pending[i]),
{
    assert forall|i: int| 0 <= i < pending.len() implies settled(
        modules,
        closed,
        #[trigger] pending[i],
    ) by {
        if i > 0 {
            assert(pending.drop_first()[i - 1] == pending[i]);
        }
    }
}

proof fn closed_sets_keep_what_is_reached(
    modules: ModulesView,
    closed: Set<(Seq<char>, Seq<char>)>,
    edges: Seq<EdgeView>,
    key: (Seq<char>, Seq<char>),
    depth: nat,
)
    requires
        closed_up_to(modules, closed, Seq::empty()),
        forall|i: int| 0 <= i < edges.len() ==> settled(modules, closed, #[trigger] edges[i]),
        reachable_within(modules, edges, key, depth),
    ensures
        closed.contains(key),
    decreases depth,
{
    if !one_arrives(modules, edges, key) {
        let via = choose|via: (Seq<char>, Seq<char>)| #[trigger]
            one_arrives(modules, edges, via) && passes_on(modules, via) && reachable_within(
                modules,
                edges_from(modules, via),
                key,
                (depth - 1) as nat,
            );
        let i = choose|i: int| 0 <= i < edges.len() && arrives(modules, #[trigger] edges[i], via);
        assert(settled(modules, closed, edges[i]));
        assert(closed.contains(via));
        let next = edges_from(modules, via);
        assert forall|j: int| 0 <= j < next.len() implies settled(
            modules,
            closed,
            #[trigger] next[j],
        ) by {
            assert(!Seq::<EdgeView>::empty().contains(edges_from(modules, via)[j]));
        }
        closed_sets_keep_what_is_reached(modules, closed, next, key, (depth - 1) as nat);
    } else {
        let i = choose|i: int| 0 <= i < edges.len() && arrives(modules, #[trigger] edges[i], key);
        assert(settled(modules, closed, edges[i]));
    }
}

/// Where a search finds nothing, no module that is reached from where it starts declares what is
/// looked for.
pub proof fn missing_exports_are_nowhere(
    modules: ModulesView,
    from: Seq<char>,
    specifier: Seq<char>,
    name: Seq<char>,
    key: (Seq<char>, Seq<char>),
)
    requires
        search_export(modules, from, specifier, name) is Missing,
        reachable(modules, seq![EdgeView { from, specifier, name }], key),
    ensures
        !provides(modules, key),
{
    let start = seq![EdgeView { from, specifier, name }];
    let done = Set::<(Seq<char>, Seq<char>)>::empty();
    all_keys_are_finite(modules, name);
    searched_names_are_finite(modules.files, name);
    let closed = missing_is_closed(modules, name, start, all_keys(modules, name), done);
    let depth = choose|depth: nat| reachable_within(modules, start, key, depth);
    closed_sets_keep_what_is_reached(modules, closed, start, key, depth);
}

/// Whether `first` and `second` give one answer to every question that both of them know.
pub open spec fn agree(first: ModulesView, second: ModulesView) -> bool {
    &&& forall|from: Seq<char>, specifier: Seq<char>| #[trigger]
        first.target(from, specifier) is Some && second.target(from, specifier) is Some
            ==> first.target(from, specifier) == second.target(from, specifier)
    &&& forall|path: Seq<char>| #[trigger]
        first.info(path) is Some && second.info(path) is Some ==> first.info(path) == second.info(
            path,
        )
}

proof fn searches_along_agree(
    first: ModulesView,
    second: ModulesView,
    start: Seq<char>,
    pending: Seq<EdgeView>,
    visited: Set<(Seq<char>, Seq<char>)>,
)
    requires
        agree(first, second),
        edges_within(pending, searched_names(first.files, start)),
        edges_within(pending, searched_names(second.files, start)),
        !(search(first, pending, all_keys(first, start).difference(visited)) is Need),
        !(search(second, pending, all_keys(second, start).difference(visited)) is Need),
    ensures
        search(first, pending, all_keys(first, start).difference(visited)) == search(
            second,
            pending,
            all_keys(second, start).difference(visited),
        ),
    decreases all_keys(first, start).difference(visited).len(), pending.len(),
{
    all_keys_are_finite(first, start);
    all_keys_are_finite(second, start);
    if pending.len() > 0 {
        let edge = pending[0];
        let rest = pending.drop_first();
        let open = all_keys(first, start).difference(visited);
        let other = all_keys(second, start).difference(visited);
        assert(first.target(edge.from, edge.specifier) is Some);
        match first.target(edge.from, edge.specifier)->0 {
            None => searches_along_agree(first, second, start, rest, visited),
            Some(path) => {
                let key = (path, edge.name);
                assert(first.info(path) is Some);
                assert(pending[0].name == edge.name);
                known_file_has_keys(
                    first.files,
                    searched_names(first.files, start),
                    path,
                    edge.name,
                );
                known_file_has_keys(
                    second.files,
                    searched_names(second.files, start),
                    path,
                    edge.name,
                );
                if visited.contains(key) {
                    searches_along_agree(first, second, start, rest, visited);
                } else {
                    let later = visited.insert(key);
                    assert(open.remove(key) =~= all_keys(first, start).difference(later));
                    assert(other.remove(key) =~= all_keys(second, start).difference(later));
                    match first.info(path)->0 {
                        None => searches_along_agree(first, second, start, rest, later),
                        Some(info) => if !declares(info, edge.name) {
                            let next = next_edges(info, path, edge.name);
                            next_edges_stay_within(first, start, path, edge.name);
                            next_edges_stay_within(second, start, path, edge.name);
                            edges_within_join(next, pending, searched_names(first.files, start));
                            edges_within_join(next, pending, searched_names(second.files, start));
                            searches_along_agree(first, second, start, next + rest, later);
                        },
                    }
                }
            },
        }
    }
}

proof fn edges_within_join(
    next: Seq<EdgeView>,
    pending: Seq<EdgeView>,
    searched: Set<Seq<char>>,
)
    requires
        pending.len() > 0,
        edges_within(next, searched),
        edges_within(pending, searched),
    ensures
        edges_within(next + pending.drop_first(), searched),
{
    let later = next + pending.drop_first();
    assert forall|i: int| 0 <= i < later.len() implies searched.contains(
        (#[trigger] later[i]).name,
    ) by {
        if i >= next.len() {
            assert(later[i] == pending[i - next.len() + 1]);
        }
    }
}

/// Answers that agree lead every search that they bring to its end to the same end.
pub proof fn searches_agree(
    first: ModulesView,
    second: ModulesView,
    from: Seq<char>,
    specifier: Seq<char>,
    name: Seq<char>,
)
    requires
        agree(first, second),
        !(search_export(first, from, specifier, name) is Need),
        !(search_export(second, from, specifier, name) is Need),
    ensures
        search_export(first, from, specifier, name) == search_export(
            second,
            from,
            specifier,
            name,
        ),
{
    let visited = Set::<(Seq<char>, Seq<char>)>::empty();
    let start = seq![EdgeView { from, specifier, name }];
    searched_names_are_finite(first.files, name);
    searched_names_are_finite(second.files, name);
    assert(all_keys(first, name).difference(visited) =~= all_keys(first, name));
    assert(all_keys(second, name).difference(visited) =~= all_keys(second, name));
    searches_along_agree(first, second, name, start, visited);
}

/// What is known of a file is one of the answers.
pub proof fn known_files_are_listed(files: Seq<ModuleFileView>, path: Seq<char>) -> (index: int)
    requires
        info_among(files, path) is Some,
    ensures
        0 <= index < files.len(),
        files[index].path == path,
        info_among(files, path) == Some(files[index].info),
    decreases files.len(),
{
    if files[0].path == path {
        0
    } else {
        known_files_are_listed(files.drop_first(), path) + 1
    }
}

/// What is known of a specifier is one of the answers.
pub proof fn known_resolutions_are_listed(
    resolutions: Seq<ResolutionView>,
    from: Seq<char>,
    specifier: Seq<char>,
) -> (index: int)
    requires
        resolved_among(resolutions, from, specifier) is Some,
    ensures
        0 <= index < resolutions.len(),
        resolutions[index].from == from,
        resolutions[index].specifier == specifier,
        resolved_among(resolutions, from, specifier) == Some(resolutions[index].target),
    decreases resolutions.len(),
{
    if resolutions[0].from == from && resolutions[0].specifier == specifier {
        0
    } else {
        known_resolutions_are_listed(resolutions.drop_first(), from, specifier) + 1
    }
}

} // verus!
