//! Which module declares what another one exports, said of what is known of the modules.
use vstd::prelude::*;

use crate::exports::FileComponentInfoView;
use crate::modules;
use crate::modules::{EdgeView, ModuleFileView, ModulesView, ResolutionView, SearchView};
use crate::names;

verus! {

/// What is known of a file is its first answer.
pub proof fn first_files_count(modules: ModulesView, index: int)
    requires
        0 <= index < modules.files.len(),
        forall|i: int|
            0 <= i < index ==> (#[trigger] modules.files[i]).path != modules.files[index].path,
    ensures
        modules.info(modules.files[index].path) == Some(modules.files[index].info),
{
    first_file(modules.files, index);
}

proof fn first_file(files: Seq<ModuleFileView>, index: int)
    requires
        0 <= index < files.len(),
        forall|i: int| 0 <= i < index ==> (#[trigger] files[i]).path != files[index].path,
    ensures
        modules::info_among(files, files[index].path) == Some(files[index].info),
    decreases files.len(),
{
    if index > 0 {
        assert(files[0].path != files[index].path);
        let rest = files.drop_first();
        assert forall|i: int| 0 <= i < index - 1 implies (#[trigger] rest[i]).path != rest[index
            - 1].path by {
            assert(rest[i] == files[i + 1]);
        }
        first_file(rest, index - 1);
    }
}

/// What a specifier means in a file is its first answer.
pub proof fn first_resolutions_count(modules: ModulesView, index: int)
    requires
        0 <= index < modules.resolutions.len(),
        forall|i: int|
            0 <= i < index ==> (#[trigger] modules.resolutions[i]).from
                != modules.resolutions[index].from || modules.resolutions[i].specifier
                != modules.resolutions[index].specifier,
    ensures
        modules.target(
            modules.resolutions[index].from,
            modules.resolutions[index].specifier,
        ) == Some(modules.resolutions[index].target),
{
    first_resolution(modules.resolutions, index);
}

proof fn first_resolution(resolutions: Seq<ResolutionView>, index: int)
    requires
        0 <= index < resolutions.len(),
        forall|i: int|
            0 <= i < index ==> (#[trigger] resolutions[i]).from != resolutions[index].from
                || resolutions[i].specifier != resolutions[index].specifier,
    ensures
        modules::resolved_among(
            resolutions,
            resolutions[index].from,
            resolutions[index].specifier,
        ) == Some(resolutions[index].target),
    decreases resolutions.len(),
{
    if index > 0 {
        assert(resolutions[0].from != resolutions[index].from || resolutions[0].specifier
            != resolutions[index].specifier);
        let rest = resolutions.drop_first();
        assert forall|i: int| 0 <= i < index - 1 implies (#[trigger] rest[i]).from != rest[index
            - 1].from || rest[i].specifier != rest[index - 1].specifier by {
            assert(rest[i] == resolutions[i + 1]);
        }
        first_resolution(rest, index - 1);
    }
}

/// Whether the module `path` is known and itself has `name`: a component that it exports under
/// that name, or the whole module under `*`.
pub open spec fn has_itself(modules: ModulesView, path: Seq<char>, name: Seq<char>) -> bool {
    modules.info(path) matches Some(Some(info)) && (name == "*"@
        || info.exports.component_names.contains(name))
}

/// Whether the module `path` passes `name` on to the module `next`, where it is called `other`: by
/// name, as what it was called there, or with the whole module, under the same name.
pub open spec fn passes_to(
    modules: ModulesView,
    path: Seq<char>,
    name: Seq<char>,
    next: Seq<char>,
    other: Seq<char>,
) -> bool {
    modules.info(path) matches Some(Some(info)) && {
        ||| names::lookup(info.exports.re_exports, name) matches Some(target) && modules.target(
            path,
            target.source,
        ) == Some(Some(next)) && target.source_name == other
        ||| name == other && exists|i: int|
            0 <= i < info.exports.star_exports.len() && modules.target(
                path,
                #[trigger] info.exports.star_exports[i],
            ) == Some(Some(next))
    }
}

/// Whether `chain` leads from the module that `specifier` means in `from`, and from `name` there,
/// through modules that only pass it on, each to the next.
pub open spec fn is_chain(
    modules: ModulesView,
    from: Seq<char>,
    specifier: Seq<char>,
    name: Seq<char>,
    chain: Seq<(Seq<char>, Seq<char>)>,
) -> bool {
    &&& chain.len() > 0
    &&& modules.target(from, specifier) == Some(Some(chain[0].0))
    &&& chain[0].1 == name
    &&& forall|i: int| 0 <= i < chain.len() - 1 ==> #[trigger] link_holds(modules, chain, i)
}

/// Whether what stands at `at` in `chain` does not have itself what is looked for, and passes it
/// on to what stands next.
pub open spec fn link_holds(
    modules: ModulesView,
    chain: Seq<(Seq<char>, Seq<char>)>,
    at: int,
) -> bool {
    &&& !has_itself(modules, chain[at].0, chain[at].1)
    &&& passes_to(modules, chain[at].0, chain[at].1, chain[at + 1].0, chain[at + 1].1)
}

proof fn steps_are_passes(
    modules: ModulesView,
    key: (Seq<char>, Seq<char>),
    next: (Seq<char>, Seq<char>),
)
    requires
        modules::passes_on(modules, key),
    ensures
        modules::one_arrives(modules, modules::edges_from(modules, key), next) <==> passes_to(
            modules,
            key.0,
            key.1,
            next.0,
            next.1,
        ),
{
    let info = modules.info(key.0)->0->0;
    let edges = modules::edges_from(modules, key);
    let sources = info.exports.star_exports;
    let stars = modules::star_edges(sources, key.0, key.1);
    let named = names::lookup(info.exports.re_exports, key.1);
    let shift: int = if named is Some {
        1
    } else {
        0
    };
    assert forall|i: int| 0 <= i < sources.len() implies edges[shift + i] == (EdgeView {
        from: key.0,
        specifier: #[trigger] sources[i],
        name: key.1,
    }) by {
        assert(stars[i].specifier == sources[i]);
    }
    if modules::one_arrives(modules, edges, next) {
        let i = choose|i: int|
            0 <= i < edges.len() && modules::arrives(modules, #[trigger] edges[i], next);
        if i >= shift {
            assert(edges[shift + (i - shift)].specifier == sources[i - shift]);
        }
    }
    if passes_to(modules, key.0, key.1, next.0, next.1) {
        if named is Some && modules.target(key.0, named->0.source) == Some(Some(next.0))
            && named->0.source_name == next.1 {
            assert(modules::arrives(modules, edges[0], next));
        } else {
            let i = choose|i: int|
                0 <= i < sources.len() && modules.target(key.0, #[trigger] sources[i]) == Some(
                    Some(next.0),
                );
            assert(modules::arrives(modules, edges[shift + i], next));
        }
    }
}

proof fn chain_of_reached(
    modules: ModulesView,
    edges: Seq<EdgeView>,
    key: (Seq<char>, Seq<char>),
    depth: nat,
) -> (chain: Seq<(Seq<char>, Seq<char>)>)
    requires
        modules::reachable_within(modules, edges, key, depth),
    ensures
        chain.len() > 0,
        modules::one_arrives(modules, edges, chain[0]),
        chain.last() == key,
        forall|i: int| 0 <= i < chain.len() - 1 ==> #[trigger] link_holds(modules, chain, i),
    decreases depth,
{
    if modules::one_arrives(modules, edges, key) {
        seq![key]
    } else {
        let via = choose|via: (Seq<char>, Seq<char>)| #[trigger]
            modules::one_arrives(modules, edges, via) && modules::passes_on(modules, via)
                && modules::reachable_within(
                modules,
                modules::edges_from(modules, via),
                key,
                (depth - 1) as nat,
            );
        let rest = chain_of_reached(
            modules,
            modules::edges_from(modules, via),
            key,
            (depth - 1) as nat,
        );
        let chain = seq![via] + rest;
        steps_are_passes(modules, via, rest[0]);
        assert(chain.last() == rest.last());
        assert forall|i: int| 0 <= i < chain.len() - 1 implies #[trigger] link_holds(
            modules,
            chain,
            i,
        ) by {
            if i > 0 {
                assert(link_holds(modules, rest, i - 1));
            }
        }
        chain
    }
}

proof fn reached_by_chain(
    modules: ModulesView,
    edges: Seq<EdgeView>,
    chain: Seq<(Seq<char>, Seq<char>)>,
)
    requires
        chain.len() > 0,
        modules::one_arrives(modules, edges, chain[0]),
        forall|i: int| 0 <= i < chain.len() - 1 ==> #[trigger] link_holds(modules, chain, i),
    ensures
        modules::reachable_within(modules, edges, chain.last(), (chain.len() - 1) as nat),
    decreases chain.len(),
{
    if chain.len() > 1 {
        let rest = chain.drop_first();
        assert(link_holds(modules, chain, 0));
        assert(modules::passes_on(modules, chain[0]));
        steps_are_passes(modules, chain[0], chain[1]);
        assert forall|i: int| 0 <= i < rest.len() - 1 implies #[trigger] link_holds(
            modules,
            rest,
            i,
        ) by {
            assert(link_holds(modules, chain, i + 1));
        }
        reached_by_chain(modules, modules::edges_from(modules, chain[0]), rest);
        assert(rest.last() == chain.last());
        assert(modules::one_arrives(modules, edges, chain[0]));
    }
}

/// The module that a search finds itself has what is looked for, and is reached through modules
/// that pass it on: by name, under the name that it has in the next module, or with the whole
/// module, under the same name. The kind that the search gives is that of the module.
pub proof fn found_modules_are_reached(
    modules: ModulesView,
    from: Seq<char>,
    specifier: Seq<char>,
    name: Seq<char>,
    path: Seq<char>,
) -> (chain: Seq<(Seq<char>, Seq<char>)>)
    requires
        modules::search_export(modules, from, specifier, name) matches SearchView::Found {
            path: found,
            ..
        } && found == path,
    ensures
        is_chain(modules, from, specifier, name, chain),
        chain.last().0 == path,
        has_itself(modules, path, chain.last().1),
        modules.info(path)->0->0.kind == modules::search_export(
            modules,
            from,
            specifier,
            name,
        )->kind,
{
    let start = seq![EdgeView { from, specifier, name }];
    modules::found_exports_are_reachable(modules, from, specifier, name);
    let found = choose|found: Seq<char>| #[trigger]
        modules::reachable(modules, start, (path, found)) && modules::provides(
            modules,
            (path, found),
        );
    let depth = choose|depth: nat|
        modules::reachable_within(modules, start, (path, found), depth);
    let chain = chain_of_reached(modules, start, (path, found), depth);
    let i = choose|i: int|
        0 <= i < start.len() && modules::arrives(modules, #[trigger] start[i], chain[0]);
    assert(start[i] == start[0]);
    chain
}

/// Where modules that pass on what is looked for lead to one that itself has it, a search does not
/// end without finding one.
pub proof fn reached_modules_are_not_missed(
    modules: ModulesView,
    from: Seq<char>,
    specifier: Seq<char>,
    name: Seq<char>,
    chain: Seq<(Seq<char>, Seq<char>)>,
)
    requires
        is_chain(modules, from, specifier, name, chain),
        has_itself(modules, chain.last().0, chain.last().1),
    ensures
        !(modules::search_export(modules, from, specifier, name) is Missing),
{
    let start = seq![EdgeView { from, specifier, name }];
    assert(modules::arrives(modules, start[0], chain[0]));
    reached_by_chain(modules, start, chain);
    if modules::search_export(modules, from, specifier, name) is Missing {
        assert(modules::reachable(modules, start, chain.last()));
        modules::missing_exports_are_nowhere(modules, from, specifier, name, chain.last());
        assert(modules::provides(modules, chain.last()));
    }
}

proof fn keys_of_known(modules: ModulesView, start: Seq<char>, path: Seq<char>, name: Seq<char>)
    requires
        modules.info(path) is Some,
        modules::searched_names(modules.files, start).contains(name),
    ensures
        modules::all_keys(modules, start).contains((path, name)),
{
    known_keys(modules.files, modules::searched_names(modules.files, start), path, name);
}

proof fn known_keys(
    files: Seq<ModuleFileView>,
    searched: Set<Seq<char>>,
    path: Seq<char>,
    name: Seq<char>,
)
    requires
        modules::info_among(files, path) is Some,
        searched.contains(name),
    ensures
        modules::keys_of(files, searched).contains((path, name)),
    decreases files.len(),
{
    if files[0].path == path {
        let pair = |other: Seq<char>| (files[0].path, other);
        assert(searched.map(pair).contains(pair(name)));
    } else {
        known_keys(files.drop_first(), searched, path, name);
    }
}

proof fn start_is_searched(files: Seq<ModuleFileView>, start: Seq<char>)
    ensures
        modules::searched_names(files, start).contains(start),
    decreases files.len(),
{
    if files.len() > 0 {
        start_is_searched(files.drop_first(), start);
    }
}

/// A module that itself has what is looked for is found where it is imported from, with its kind.
pub proof fn modules_are_found_directly(
    modules: ModulesView,
    from: Seq<char>,
    specifier: Seq<char>,
    name: Seq<char>,
    path: Seq<char>,
)
    requires
        modules.target(from, specifier) == Some(Some(path)),
        has_itself(modules, path, name),
    ensures
        modules::search_export(modules, from, specifier, name) == (SearchView::Found {
            kind: modules.info(path)->0->0.kind,
            path,
        }),
{
    let start = seq![EdgeView { from, specifier, name }];
    modules::all_keys_are_finite(modules, name);
    start_is_searched(modules.files, name);
    keys_of_known(modules, name, path, name);
    assert(start[0].from == from);
}

/// What a step leads to comes before what later steps lead to, however far it leads.
pub proof fn earlier_steps_come_first(
    modules: ModulesView,
    first: Seq<EdgeView>,
    rest: Seq<EdgeView>,
    open: Set<(Seq<char>, Seq<char>)>,
)
    requires
        open.finite(),
        !(modules::search(modules, first, open) is Missing),
    ensures
        modules::search(modules, first + rest, open) == modules::search(modules, first, open),
    decreases open.len(), first.len(),
{
    let all = first + rest;
    let edge = first[0];
    assert(all[0] == edge);
    assert(all.drop_first() =~= first.drop_first() + rest);
    match modules.target(edge.from, edge.specifier) {
        None => {},
        Some(None) => earlier_steps_come_first(modules, first.drop_first(), rest, open),
        Some(Some(path)) => {
            let key = (path, edge.name);
            match modules.info(path) {
                None => {},
                Some(info) => if !open.contains(key) {
                    earlier_steps_come_first(modules, first.drop_first(), rest, open);
                } else {
                    match info {
                        None => earlier_steps_come_first(
                            modules,
                            first.drop_first(),
                            rest,
                            open.remove(key),
                        ),
                        Some(info) => if !modules::declares(info, edge.name) {
                            let next = modules::next_edges(info, path, edge.name);
                            assert(next + all.drop_first() =~= (next + first.drop_first()) + rest);
                            earlier_steps_come_first(
                                modules,
                                next + first.drop_first(),
                                rest,
                                open.remove(key),
                            );
                        },
                    }
                },
            }
        },
    }
}

/// From a module that does not itself have what is looked for, what it passes on by name comes
/// first, as what it is called in the module that it comes from; then the modules that it passes
/// on whole, in their order.
pub proof fn names_come_before_whole_modules(
    info: FileComponentInfoView,
    path: Seq<char>,
    name: Seq<char>,
)
    ensures
        ({
            let edges = modules::next_edges(info, path, name);
            let sources = info.exports.star_exports;
            match names::lookup(info.exports.re_exports, name) {
                Some(target) => edges.len() == sources.len() + 1 && edges[0].from == path
                    && edges[0].specifier == target.source && edges[0].name == target.source_name
                    && forall|i: int|
                    0 <= i < sources.len() ==> edges[i + 1] == (EdgeView {
                        from: path,
                        specifier: #[trigger] sources[i],
                        name,
                    }),
                None => edges.len() == sources.len() && forall|i: int|
                    0 <= i < sources.len() ==> edges[i] == (EdgeView {
                        from: path,
                        specifier: #[trigger] sources[i],
                        name,
                    }),
            }
        }),
{
    let sources = info.exports.star_exports;
    let stars = modules::star_edges(sources, path, name);
    assert forall|i: int| 0 <= i < sources.len() implies stars[i] == (EdgeView {
        from: path,
        specifier: #[trigger] sources[i],
        name,
    }) by {}
}

/// What a module passes on by name is found in the module that it comes from, under the name that
/// it has there, where that module itself has it.
pub proof fn passed_on_names_are_found(
    modules: ModulesView,
    from: Seq<char>,
    specifier: Seq<char>,
    name: Seq<char>,
    path: Seq<char>,
    next: Seq<char>,
)
    requires
        modules.target(from, specifier) == Some(Some(path)),
        !has_itself(modules, path, name),
        modules.info(path) matches Some(Some(info)) && (names::lookup(
            info.exports.re_exports,
            name,
        ) matches Some(target) && modules.target(path, target.source) == Some(Some(next))
            && has_itself(modules, next, target.source_name)),
    ensures
        modules::search_export(modules, from, specifier, name) == (SearchView::Found {
            kind: modules.info(next)->0->0.kind,
            path: next,
        }),
{
    let info = modules.info(path)->0->0;
    let target = names::lookup(info.exports.re_exports, name)->0;
    let start = seq![EdgeView { from, specifier, name }];
    let open = modules::all_keys(modules, name);
    let key = (path, name);
    let edges = modules::next_edges(info, path, name);
    modules::all_keys_are_finite(modules, name);
    start_is_searched(modules.files, name);
    keys_of_known(modules, name, path, name);
    passed_on_is_searched(modules.files, name, path, name);
    keys_of_known(modules, name, next, target.source_name);
    assert(start[0].from == from);
    assert(edges + start.drop_first() =~= edges);
    names_come_before_whole_modules(info, path, name);
    assert(edges[0] == (EdgeView {
        from: path,
        specifier: target.source,
        name: target.source_name,
    }));
    assert(open.remove(key).contains((next, target.source_name)));
    assert(modules::search(modules, edges, open.remove(key)) == (SearchView::Found {
        kind: modules.info(next)->0->0.kind,
        path: next,
    }));
}

proof fn passed_on_is_searched(
    files: Seq<ModuleFileView>,
    start: Seq<char>,
    path: Seq<char>,
    name: Seq<char>,
)
    requires
        modules::info_among(files, path) matches Some(Some(info)) && names::has(
            info.exports.re_exports,
            name,
        ),
    ensures
        modules::searched_names(files, start).contains(
            names::lookup(
                modules::info_among(files, path)->0->0.exports.re_exports,
                name,
            )->0.source_name,
        ),
    decreases files.len(),
{
    if files[0].path == path {
        listed_is_source(files[0].info->0.exports.re_exports, name);
    } else {
        passed_on_is_searched(files.drop_first(), start, path, name);
    }
}

proof fn listed_is_source(
    entries: Seq<(Seq<char>, crate::exports::ReExportTargetView)>,
    name: Seq<char>,
)
    requires
        names::has(entries, name),
    ensures
        modules::source_names(entries).contains(names::lookup(entries, name)->0.source_name),
    decreases entries.len(),
{
    if entries[0].0 != name {
        listed_is_source(entries.drop_first(), name);
    }
}

/// What a module passes on with a whole module is found in the first one of these that is there,
/// where that one itself has it.
pub proof fn passed_on_modules_are_found(
    modules: ModulesView,
    from: Seq<char>,
    specifier: Seq<char>,
    name: Seq<char>,
    path: Seq<char>,
    index: int,
    next: Seq<char>,
)
    requires
        modules.target(from, specifier) == Some(Some(path)),
        !has_itself(modules, path, name),
        has_itself(modules, next, name),
        modules.info(path) matches Some(Some(info)) && !names::has(info.exports.re_exports, name)
            && 0 <= index < info.exports.star_exports.len() && modules.target(
            path,
            info.exports.star_exports[index],
        ) == Some(Some(next)) && forall|i: int|
            0 <= i < index ==> modules.target(path, #[trigger] info.exports.star_exports[i])
                == Some(None::<Seq<char>>),
    ensures
        modules::search_export(modules, from, specifier, name) == (SearchView::Found {
            kind: modules.info(next)->0->0.kind,
            path: next,
        }),
{
    let info = modules.info(path)->0->0;
    let start = seq![EdgeView { from, specifier, name }];
    let open = modules::all_keys(modules, name);
    let key = (path, name);
    let edges = modules::next_edges(info, path, name);
    modules::all_keys_are_finite(modules, name);
    start_is_searched(modules.files, name);
    keys_of_known(modules, name, path, name);
    keys_of_known(modules, name, next, name);
    assert(start[0].from == from);
    assert(edges + start.drop_first() =~= edges);
    names_come_before_whole_modules(info, path, name);
    let sources = info.exports.star_exports;
    assert forall|i: int| 0 <= i < index implies modules.target(
        (#[trigger] edges[i]).from,
        edges[i].specifier,
    ) == Some(None::<Seq<char>>) by {
        assert(edges[i].specifier == sources[i]);
    }
    assert(edges[index].specifier == sources[index]);
    absent_steps_are_skipped(modules, edges, open.remove(key), index);
    assert(edges.skip(index)[0] == edges[index]);
    assert(open.remove(key).contains((next, name)));
}

proof fn absent_steps_are_skipped(
    modules: ModulesView,
    pending: Seq<EdgeView>,
    open: Set<(Seq<char>, Seq<char>)>,
    count: int,
)
    requires
        open.finite(),
        0 <= count <= pending.len(),
        forall|i: int|
            0 <= i < count ==> modules.target((#[trigger] pending[i]).from, pending[i].specifier)
                == Some(None::<Seq<char>>),
    ensures
        modules::search(modules, pending, open) == modules::search(
            modules,
            pending.skip(count),
            open,
        ),
    decreases count,
{
    if count == 0 {
        assert(pending.skip(0) =~= pending);
    } else {
        assert(modules.target(pending[0].from, pending[0].specifier) == Some(None::<Seq<char>>));
        let rest = pending.drop_first();
        assert forall|i: int| 0 <= i < count - 1 implies modules.target(
            (#[trigger] rest[i]).from,
            rest[i].specifier,
        ) == Some(None::<Seq<char>>) by {
            assert(rest[i] == pending[i + 1]);
        }
        absent_steps_are_skipped(modules, rest, open, count - 1);
        assert(rest.skip(count - 1) =~= pending.skip(count));
    }
}

} // verus!
