//! Every import between chunks has its export, and every export its import.

use crate::chunk::{ChunkGraph, ImportItemView};
use crate::graph::LinkStageOutput;
use crate::ids::{ChunkId, ModuleId, SymbolRef};
use crate::links::{link_all, link_chunks, link_modules, link_one, ChunkLinks, Linking};
use crate::naming::Naming;
use vstd::prelude::*;

verus! {

/// Whether the tables export `symbol` as `name`.
pub open spec fn exports_as(links: ChunkLinks, symbol: SymbolRef, name: Seq<char>) -> bool {
    exists|p: int|
        0 <= p < links.export_symbols.len() && #[trigger] links.export_symbols[p] == symbol
            && links.export_names[p] == name
}

/// Whether the tables import `symbol` under `name` from the chunk at
/// position `from`.
pub open spec fn imports_as(links: ChunkLinks, from: int, symbol: SymbolRef, name: Seq<char>) -> bool {
    exists|g: int, k: int|
        0 <= g < links.import_chunks.len() && links.import_chunks[g].0 == from && 0 <= k
            < links.import_items[g].len() && #[trigger] links.import_items[g][k] == (
        ImportItemView { alias: Some(name), symbol })
}

/// The import at place `k` of group `g` of the chunk at position `a`.
pub open spec fn import_at(links: Seq<ChunkLinks>, a: int, g: int, k: int) -> ImportItemView {
    links[a].import_items[g][k]
}

/// The symbol at place `p` of the exports of the chunk at position `b`.
pub open spec fn export_at(links: Seq<ChunkLinks>, b: int, p: int) -> SymbolRef {
    links[b].export_symbols[p]
}

/// Every import has its export: what a chunk takes from another under a
/// name, the other exports under that name.
pub open spec fn imports_are_exported(links: Seq<ChunkLinks>) -> bool {
    forall|a: int, g: int, k: int|
        0 <= a < links.len() && 0 <= g < links[a].import_chunks.len() && 0 <= k
            < links[a].import_items[g].len() ==> {
            let item = #[trigger] import_at(links, a, g, k);
            let from = links[a].import_chunks[g];
            &&& from.0 < links.len()
            &&& from.0 != a
            &&& item.alias is Some
            &&& exports_as(links[from.0 as int], item.symbol, item.alias->Some_0)
        }
}

/// Whether some other chunk takes the export at place `p` of the chunk at
/// position `b` from it, under the name of the export.
pub open spec fn export_is_taken(links: Seq<ChunkLinks>, b: int, p: int) -> bool {
    exists|a: int|
        0 <= a < links.len() && a != b && #[trigger] imports_as(
            links[a],
            b,
            links[b].export_symbols[p],
            links[b].export_names[p],
        )
}

/// Every export has its import: what a chunk exports under a name, some
/// other chunk takes from it under that name.
pub open spec fn exports_are_imported(links: Seq<ChunkLinks>) -> bool {
    forall|b: int, p: int|
        0 <= b < links.len() && 0 <= p < links[b].export_symbols.len() ==> #[trigger] export_is_taken(
            links,
            b,
            p,
        )
}

/// Imports and exports mirror each other, and no chunk exports a symbol
/// twice.
pub open spec fn symmetric(links: Seq<ChunkLinks>) -> bool {
    &&& imports_are_exported(links)
    &&& exports_are_imported(links)
    &&& forall|b: int|
        0 <= b < links.len() ==> (#[trigger] links[b]).export_symbols.no_duplicates()
            && links[b].export_symbols.len() == links[b].export_names.len()
}

/// Whether the tables of one chunk are in order.
pub open spec fn tidy(links: ChunkLinks) -> bool {
    &&& links.import_chunks.len() == links.import_items.len()
    &&& links.import_chunks.no_duplicates()
    &&& forall|g: int| 0 <= g < links.import_items.len() ==> (#[trigger] links.import_items[g]).len() > 0
    &&& links.export_symbols.len() == links.export_names.len()
    &&& links.export_symbols.no_duplicates()
}

/// What holds of the tables while the chunks are linked: they are in order
/// and symmetric, and every export bears the name that the exporting chunk
/// has for the symbol.
pub open spec fn linked(links: Seq<ChunkLinks>, namings: Seq<Naming>) -> bool {
    &&& links.len() == namings.len()
    &&& forall|c: int| 0 <= c < links.len() ==> tidy(#[trigger] links[c])
    &&& imports_are_exported(links)
    &&& exports_are_imported(links)
    &&& forall|b: int, p: int|
        0 <= b < links.len() && 0 <= p < links[b].export_symbols.len() ==> links[b].export_names[p]
            == namings[b].name_of(#[trigger] export_at(links, b, p))
}

proof fn lemma_export_kept(
    links: ChunkLinks,
    added: SymbolRef,
    added_name: Seq<char>,
    symbol: SymbolRef,
    name: Seq<char>,
)
    requires
        tidy(links),
        exports_as(links, symbol, name),
    ensures
        exports_as(links.with_export(added, added_name), symbol, name),
{
    let p = choose|p: int|
        0 <= p < links.export_symbols.len() && #[trigger] links.export_symbols[p] == symbol
            && links.export_names[p] == name;
    let after = links.with_export(added, added_name);
    assert(after.export_symbols[p] == symbol && after.export_names[p] == name);
}

proof fn lemma_import_kept(
    links: ChunkLinks,
    added_from: ChunkId,
    added: ImportItemView,
    from: int,
    symbol: SymbolRef,
    name: Seq<char>,
)
    requires
        tidy(links),
        imports_as(links, from, symbol, name),
    ensures
        imports_as(links.with_import(added_from, added), from, symbol, name),
{
    let (g, k) = choose|g: int, k: int|
        0 <= g < links.import_chunks.len() && links.import_chunks[g].0 == from && 0 <= k
            < links.import_items[g].len() && #[trigger] links.import_items[g][k] == (
        ImportItemView { alias: Some(name), symbol });
    let after = links.with_import(added_from, added);
    assert(after.import_chunks[g].0 == from);
    assert(after.import_items[g][k] == (ImportItemView { alias: Some(name), symbol }));
}

proof fn lemma_import_added(links: ChunkLinks, from: ChunkId, symbol: SymbolRef, name: Seq<char>)
    requires
        tidy(links),
    ensures
        imports_as(
            links.with_import(from, ImportItemView { alias: Some(name), symbol }),
            from.0 as int,
            symbol,
            name,
        ),
        tidy(links.with_import(from, ImportItemView { alias: Some(name), symbol })),
{
    let item = ImportItemView { alias: Some(name), symbol };
    let after = links.with_import(from, item);
    if links.import_chunks.contains(from) {
        let g = links.import_chunks.index_of(from);
        let k = links.import_items[g].len() as int;
        assert(after.import_items[g][k] == item);
    } else {
        let g = links.import_chunks.len() as int;
        assert(after.import_chunks[g] == from);
        assert(after.import_items[g][0] == item);
        assert forall|i: int, j: int|
            0 <= i < after.import_chunks.len() && 0 <= j < after.import_chunks.len() && i
                != j implies after.import_chunks[i] != after.import_chunks[j] by {
            if i == g {
                assert(links.import_chunks[j] == after.import_chunks[j]);
            } else if j == g {
                assert(links.import_chunks[i] == after.import_chunks[i]);
            }
        }
    }
}

proof fn lemma_export_added(links: ChunkLinks, symbol: SymbolRef, name: Seq<char>)
    requires
        tidy(links),
        forall|p: int|
            0 <= p < links.export_symbols.len() && #[trigger] links.export_symbols[p] == symbol
                ==> links.export_names[p] == name,
    ensures
        exports_as(links.with_export(symbol, name), symbol, name),
        tidy(links.with_export(symbol, name)),
{
    let after = links.with_export(symbol, name);
    if links.export_symbols.contains(symbol) {
        let p = links.export_symbols.index_of(symbol);
        assert(links.export_symbols[p] == symbol);
    } else {
        let p = links.export_symbols.len() as int;
        assert(after.export_symbols[p] == symbol && after.export_names[p] == name);
        assert forall|i: int, j: int|
            0 <= i < after.export_symbols.len() && 0 <= j < after.export_symbols.len() && i
                != j implies after.export_symbols[i] != after.export_symbols[j] by {
            if i == p {
                assert(links.export_symbols[j] == after.export_symbols[j]);
            } else if j == p {
                assert(links.export_symbols[i] == after.export_symbols[i]);
            }
        }
    }
}

/// Linking one mention keeps the tables in order and symmetric.
pub proof fn lemma_link_one_keeps(
    state: Linking,
    graph: &LinkStageOutput,
    chunk_graph: &ChunkGraph,
    namings: Seq<Naming>,
    at: int,
    symbol: SymbolRef,
)
    requires
        linked(state.chunks, namings),
        0 <= at < state.chunks.len(),
    ensures
        match link_one(state, graph, chunk_graph, namings, at, symbol) {
            Ok(after) => linked(after.chunks, namings),
            Err(_) => true,
        },
{
    let before = state.chunks;
    match link_one(state, graph, chunk_graph, namings, at, symbol) {
        Err(_) => {},
        Ok(after_state) => {
            let after = after_state.chunks;
            if after == before {
            } else if graph.is_external(symbol.owner.0 as int) {
                assert forall|c: int| 0 <= c < after.len() implies tidy(#[trigger] after[c]) by {
                    assert(tidy(before[c]));
                }
                assert forall|a: int, g: int, k: int|
                    0 <= a < after.len() && 0 <= g < after[a].import_chunks.len() && 0 <= k
                        < after[a].import_items[g].len() implies {
                    let item = #[trigger] import_at(after, a, g, k);
                    let from = after[a].import_chunks[g];
                    &&& from.0 < after.len()
                    &&& from.0 != a
                    &&& item.alias is Some
                    &&& exports_as(after[from.0 as int], item.symbol, item.alias->Some_0)
                } by {
                    let item = import_at(before, a, g, k);
                    let from = before[a].import_chunks[g];
                    assert(exports_as(before[from.0 as int], item.symbol, item.alias->Some_0));
                    let p = choose|p: int|
                        0 <= p < before[from.0 as int].export_symbols.len()
                            && #[trigger] before[from.0 as int].export_symbols[p] == item.symbol
                            && before[from.0 as int].export_names[p] == item.alias->Some_0;
                    assert(after[from.0 as int].export_symbols[p] == item.symbol);
                }
                assert forall|b: int, p: int|
                    0 <= b < after.len() && 0 <= p
                        < after[b].export_symbols.len() implies #[trigger] export_is_taken(
                    after,
                    b,
                    p,
                ) by {
                    let s = export_at(before, b, p);
                    assert(export_is_taken(before, b, p));
                    let a = choose|a: int|
                        0 <= a < before.len() && a != b && #[trigger] imports_as(
                            before[a],
                            b,
                            s,
                            before[b].export_names[p],
                        );
                    let (g, k) = choose|g: int, k: int|
                        0 <= g < before[a].import_chunks.len() && before[a].import_chunks[g].0 == b
                            && 0 <= k < before[a].import_items[g].len()
                            && #[trigger] before[a].import_items[g][k] == (ImportItemView {
                            alias: Some(before[b].export_names[p]),
                            symbol: s,
                        });
                    assert(after[a].import_items[g][k] == before[a].import_items[g][k]);
                    assert(imports_as(after[a], b, s, after[b].export_names[p]));
                }
                assert forall|b: int, p: int|
                    0 <= b < after.len() && 0 <= p < after[b].export_symbols.len() implies after[b].export_names[p]
                        == namings[b].name_of(#[trigger] export_at(after, b, p)) by {
                    assert(export_at(before, b, p) == export_at(after, b, p));
                }
                assert(after.len() == namings.len());
                assert(imports_are_exported(after));
                assert(exports_are_imported(after));
                assert(linked(after, namings));
            } else {
                let owner = chunk_graph.chunk_of(symbol.owner)->Some_0;
                let from = owner.0 as int;
                let alias = namings[from].name_of(symbol);
                let item = ImportItemView { alias: Some(alias), symbol };
                let taker = before[at].with_import(owner, item);
                let giver = before[from].with_export(symbol, alias);
                assert(after == before.update(at, taker).update(from, giver));
                assert forall|p: int|
                    0 <= p < before[from].export_symbols.len()
                        && #[trigger] before[from].export_symbols[p] == symbol implies before[from].export_names[p]
                        == alias by {
                    assert(export_at(before, from, p) == symbol);
                }
                lemma_import_added(before[at], owner, symbol, alias);
                lemma_export_added(before[from], symbol, alias);
                assert forall|c: int| 0 <= c < after.len() implies tidy(#[trigger] after[c]) by {
                    assert(tidy(before[c]));
                }
                assert forall|a: int, g: int, k: int|
                    0 <= a < after.len() && 0 <= g < after[a].import_chunks.len() && 0 <= k
                        < after[a].import_items[g].len() implies {
                    let item = #[trigger] import_at(after, a, g, k);
                    let from = after[a].import_chunks[g];
                    &&& from.0 < after.len()
                    &&& from.0 != a
                    &&& item.alias is Some
                    &&& exports_as(after[from.0 as int], item.symbol, item.alias->Some_0)
                } by {
                    let found = import_at(after, a, g, k);
                    let source = after[a].import_chunks[g];
                    let old_here = a != at || (g < before[at].import_chunks.len() && k
                        < before[at].import_items[g].len());
                    if old_here {
                        assert(tidy(before[a]));
                        assert(import_at(before, a, g, k) == found);
                        assert(before[a].import_chunks[g] == source);
                        let giver_before = before[source.0 as int];
                        assert(exports_as(giver_before, found.symbol, found.alias->Some_0));
                        if source.0 == from {
                            lemma_export_kept(
                                before[from],
                                symbol,
                                alias,
                                found.symbol,
                                found.alias->Some_0,
                            );
                        } else {
                            let p = choose|p: int|
                                0 <= p < giver_before.export_symbols.len()
                                    && #[trigger] giver_before.export_symbols[p] == found.symbol
                                    && giver_before.export_names[p] == found.alias->Some_0;
                            assert(after[source.0 as int].export_symbols[p] == found.symbol);
                        }
                    } else {
                        assert(tidy(before[at]));
                        assert(found == item);
                        assert(source == owner);
                    }
                }
                assert forall|b: int, p: int|
                    0 <= b < after.len() && 0 <= p
                        < after[b].export_symbols.len() implies #[trigger] export_is_taken(
                    after,
                    b,
                    p,
                ) by {
                    let s = export_at(after, b, p);
                    let name = after[b].export_names[p];
                    if b == from && p >= before[from].export_symbols.len() {
                        assert(s == symbol && name == alias);
                        assert(imports_as(after[at], b, s, name));
                    } else {
                        assert(export_at(before, b, p) == s);
                        assert(before[b].export_names[p] == name);
                        assert(export_is_taken(before, b, p));
                        let a = choose|a: int|
                            0 <= a < before.len() && a != b && #[trigger] imports_as(
                                before[a],
                                b,
                                s,
                                name,
                            );
                        assert(tidy(before[a]));
                        if a == at {
                            lemma_import_kept(before[at], owner, item, b, s, name);
                        } else {
                            let (g, k) = choose|g: int, k: int|
                                0 <= g < before[a].import_chunks.len()
                                    && before[a].import_chunks[g].0 == b && 0 <= k
                                    < before[a].import_items[g].len()
                                    && #[trigger] before[a].import_items[g][k] == (ImportItemView {
                                    alias: Some(name),
                                    symbol: s,
                                });
                            assert(after[a].import_items[g][k] == before[a].import_items[g][k]);
                        }
                        assert(imports_as(after[a], b, s, name));
                    }
                }
                assert forall|b: int, p: int|
                    0 <= b < after.len() && 0 <= p < after[b].export_symbols.len() implies after[b].export_names[p]
                        == namings[b].name_of(#[trigger] export_at(after, b, p)) by {
                    if b == from && p >= before[from].export_symbols.len() {
                    } else {
                        assert(export_at(before, b, p) == export_at(after, b, p));
                    }
                }
                assert(after.len() == namings.len());
                assert(imports_are_exported(after));
                assert(exports_are_imported(after));
                assert(linked(after, namings));
            }
        },
    }
}

/// Whether every link rests on the names and on the graph: each imported
/// symbol has a name in the importing chunk and is owned by a module of the
/// chunk that it is taken from, each exported symbol has a name in the
/// exporting chunk, no symbol of an external module is imported from a chunk
/// or exported, and each module that bindings are taken from is an external
/// one.
pub open spec fn grounded(
    links: Seq<ChunkLinks>,
    namings: Seq<Naming>,
    graph: &LinkStageOutput,
    chunk_graph: &ChunkGraph,
) -> bool {
    &&& forall|a: int, g: int, k: int|
        0 <= a < links.len() && 0 <= g < links[a].import_chunks.len() && 0 <= k
            < links[a].import_items[g].len() ==> {
            let item = #[trigger] import_at(links, a, g, k);
            &&& namings[a].has(item.symbol)
            &&& chunk_graph.chunk_of(item.symbol.owner) == Some(links[a].import_chunks[g])
            &&& !graph.is_external(item.symbol.owner.0 as int)
        }
    &&& forall|b: int, p: int|
        0 <= b < links.len() && 0 <= p < links[b].export_symbols.len() ==> namings[b].has(
            #[trigger] export_at(links, b, p),
        ) && !graph.is_external(export_at(links, b, p).owner.0 as int)
    &&& forall|a: int, g: int|
        0 <= a < links.len() && 0 <= g < links[a].external_modules.len() ==> graph.is_external(
            (#[trigger] external_at(links, a, g)).0 as int,
        )
}

/// The external module of group `g` of the chunk at position `a`.
pub open spec fn external_at(links: Seq<ChunkLinks>, a: int, g: int) -> ModuleId {
    links[a].external_modules[g]
}

/// Linking one mention keeps every link resting on the names and on the
/// graph.
pub proof fn lemma_link_one_grounded(
    state: Linking,
    graph: &LinkStageOutput,
    chunk_graph: &ChunkGraph,
    namings: Seq<Naming>,
    at: int,
    symbol: SymbolRef,
)
    requires
        linked(state.chunks, namings),
        grounded(state.chunks, namings, graph, chunk_graph),
        0 <= at < state.chunks.len(),
    ensures
        match link_one(state, graph, chunk_graph, namings, at, symbol) {
            Ok(after) => grounded(after.chunks, namings, graph, chunk_graph),
            Err(_) => true,
        },
{
    let before = state.chunks;
    match link_one(state, graph, chunk_graph, namings, at, symbol) {
        Err(_) => {},
        Ok(after_state) => {
            let after = after_state.chunks;
            if after == before {
            } else if graph.is_external(symbol.owner.0 as int) {
                assert forall|a: int, g: int, k: int|
                    0 <= a < after.len() && 0 <= g < after[a].import_chunks.len() && 0 <= k
                        < after[a].import_items[g].len() implies {
                    let item = #[trigger] import_at(after, a, g, k);
                    &&& namings[a].has(item.symbol)
                    &&& chunk_graph.chunk_of(item.symbol.owner) == Some(after[a].import_chunks[g])
                    &&& !graph.is_external(item.symbol.owner.0 as int)
                } by {
                    assert(import_at(before, a, g, k) == import_at(after, a, g, k));
                }
                assert forall|b: int, p: int|
                    0 <= b < after.len() && 0 <= p
                        < after[b].export_symbols.len() implies namings[b].has(
                    #[trigger] export_at(after, b, p),
                ) && !graph.is_external(export_at(after, b, p).owner.0 as int) by {
                    assert(export_at(before, b, p) == export_at(after, b, p));
                }
                assert forall|a: int, g: int|
                    0 <= a < after.len() && 0 <= g
                        < after[a].external_modules.len() implies graph.is_external(
                    (#[trigger] external_at(after, a, g)).0 as int,
                ) by {
                    if a == at && (g >= before[at].external_modules.len()
                        || !before[at].external_modules.contains(symbol.owner)) {
                        if g < before[at].external_modules.len() {
                            assert(external_at(before, a, g) == external_at(after, a, g));
                        }
                    } else {
                        assert(external_at(before, a, g) == external_at(after, a, g));
                    }
                }
            } else {
                let owner = chunk_graph.chunk_of(symbol.owner)->Some_0;
                let from = owner.0 as int;
                let alias = namings[from].name_of(symbol);
                let item = ImportItemView { alias: Some(alias), symbol };
                assert(after == before.update(at, before[at].with_import(owner, item)).update(
                    from,
                    before[from].with_export(symbol, alias),
                ));
                assert(tidy(before[at]));
                assert(tidy(before[from]));
                assert forall|a: int, g: int, k: int|
                    0 <= a < after.len() && 0 <= g < after[a].import_chunks.len() && 0 <= k
                        < after[a].import_items[g].len() implies {
                    let item = #[trigger] import_at(after, a, g, k);
                    &&& namings[a].has(item.symbol)
                    &&& chunk_graph.chunk_of(item.symbol.owner) == Some(after[a].import_chunks[g])
                    &&& !graph.is_external(item.symbol.owner.0 as int)
                } by {
                    let old_here = a != at || (g < before[at].import_chunks.len() && k
                        < before[at].import_items[g].len());
                    if old_here {
                        assert(tidy(before[a]));
                        assert(import_at(before, a, g, k) == import_at(after, a, g, k));
                        assert(before[a].import_chunks[g] == after[a].import_chunks[g]);
                    } else {
                        assert(import_at(after, a, g, k) == item);
                        assert(after[a].import_chunks[g] == owner);
                    }
                }
                assert forall|b: int, p: int|
                    0 <= b < after.len() && 0 <= p
                        < after[b].export_symbols.len() implies namings[b].has(
                    #[trigger] export_at(after, b, p),
                ) && !graph.is_external(export_at(after, b, p).owner.0 as int) by {
                    if b == from && p >= before[from].export_symbols.len() {
                    } else {
                        assert(export_at(before, b, p) == export_at(after, b, p));
                    }
                }
                assert forall|a: int, g: int|
                    0 <= a < after.len() && 0 <= g
                        < after[a].external_modules.len() implies graph.is_external(
                    (#[trigger] external_at(after, a, g)).0 as int,
                ) by {
                    assert(external_at(before, a, g) == external_at(after, a, g));
                }
            }
        },
    }
}

/// Linking the mentions of one module keeps the tables in order, symmetric
/// and grounded.
pub proof fn lemma_link_all_keeps(
    state: Linking,
    graph: &LinkStageOutput,
    chunk_graph: &ChunkGraph,
    namings: Seq<Naming>,
    at: int,
    symbols: Seq<SymbolRef>,
)
    requires
        linked(state.chunks, namings),
        grounded(state.chunks, namings, graph, chunk_graph),
        0 <= at < state.chunks.len(),
    ensures
        match link_all(state, graph, chunk_graph, namings, at, symbols) {
            Ok(after) => linked(after.chunks, namings) && grounded(
                after.chunks,
                namings,
                graph,
                chunk_graph,
            ),
            Err(_) => true,
        },
    decreases symbols.len(),
{
    if symbols.len() > 0 {
        lemma_link_all_keeps(state, graph, chunk_graph, namings, at, symbols.drop_last());
        match link_all(state, graph, chunk_graph, namings, at, symbols.drop_last()) {
            Ok(before) => {
                lemma_link_one_keeps(before, graph, chunk_graph, namings, at, symbols.last());
                lemma_link_one_grounded(before, graph, chunk_graph, namings, at, symbols.last());
            },
            Err(_) => {},
        }
    }
}

/// Linking the modules of one chunk keeps the tables in order, symmetric
/// and grounded.
pub proof fn lemma_link_modules_keeps(
    state: Linking,
    graph: &LinkStageOutput,
    chunk_graph: &ChunkGraph,
    namings: Seq<Naming>,
    at: int,
    modules: Seq<ModuleId>,
    count: nat,
)
    requires
        linked(state.chunks, namings),
        grounded(state.chunks, namings, graph, chunk_graph),
        0 <= at < state.chunks.len(),
    ensures
        match link_modules(state, graph, chunk_graph, namings, at, modules, count) {
            Ok(after) => linked(after.chunks, namings) && grounded(
                after.chunks,
                namings,
                graph,
                chunk_graph,
            ),
            Err(_) => true,
        },
    decreases count,
{
    if count > 0 {
        lemma_link_modules_keeps(
            state,
            graph,
            chunk_graph,
            namings,
            at,
            modules,
            (count - 1) as nat,
        );
        match link_modules(state, graph, chunk_graph, namings, at, modules, (count - 1) as nat) {
            Ok(before) => {
                let module = modules[count - 1];
                if module.0 < graph.modules@.len() && graph.modules@[module.0 as int] is Normal {
                    lemma_link_all_keeps(
                        before,
                        graph,
                        chunk_graph,
                        namings,
                        at,
                        graph.modules@[module.0 as int]->Normal_0.references@,
                    );
                }
            },
            Err(_) => {},
        }
    }
}

/// The tables that linking the chunks of a graph gives are in order,
/// symmetric and grounded.
pub proof fn lemma_link_chunks_keeps(
    graph: &LinkStageOutput,
    chunk_graph: &ChunkGraph,
    namings: Seq<Naming>,
    count: nat,
)
    requires
        namings.len() == chunk_graph.chunks@.len(),
        count <= chunk_graph.chunks@.len(),
    ensures
        match link_chunks(graph, chunk_graph, namings, count) {
            Ok(after) => linked(after.chunks, namings) && grounded(
                after.chunks,
                namings,
                graph,
                chunk_graph,
            ),
            Err(_) => true,
        },
    decreases count,
{
    if count == 0 {
        let start = Seq::new(chunk_graph.chunks@.len(), |c: int| ChunkLinks::empty());
        assert(imports_are_exported(start));
        assert(exports_are_imported(start));
        assert(grounded(start, namings, graph, chunk_graph));
    } else {
        lemma_link_chunks_keeps(graph, chunk_graph, namings, (count - 1) as nat);
        match link_chunks(graph, chunk_graph, namings, (count - 1) as nat) {
            Ok(before) => {
                lemma_link_modules_keeps(
                    Linking { chunks: before.chunks, seen: Seq::empty() },
                    graph,
                    chunk_graph,
                    namings,
                    count - 1,
                    chunk_graph.chunks@[count - 1].modules@,
                    chunk_graph.chunks@[count - 1].modules@.len(),
                );
            },
            Err(_) => {},
        }
    }
}

} // verus!
