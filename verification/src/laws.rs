//! What holds of rendering as a whole.

use crate::chunk::{Chunk, ChunkGraph, RenderedModule};
use crate::collect::{arrival_for, arrives, covers, placed};
use crate::error::{gather, lemma_gather_values, BuildError};
use crate::graph::LinkStageOutput;
use crate::render::ModuleRendering;
use crate::resolve::{
    chunk_namings, lemma_name_modules_unique, names_unique, resolution, Resolution,
};
use crate::symmetry::{
    export_at, external_at, grounded, import_at, lemma_link_chunks_keeps, linked, symmetric, tidy,
};
use vstd::prelude::*;

verus! {

/// What rendering gives: a text with its size report, or diagnostics.
pub type Outcome = Result<(Seq<char>, Map<Seq<char>, RenderedModule>), Seq<BuildError>>;

/// Whether `order` lists the places `0..n`, each once, with `back` as the
/// list that undoes it.
pub open spec fn is_reordering(order: Seq<int>, back: Seq<int>, n: nat) -> bool {
    &&& order.len() == n
    &&& back.len() == n
    &&& forall|k: int| 0 <= k < n ==> 0 <= #[trigger] order[k] < n && back[order[k]] == k
    &&& forall|k: int| 0 <= k < n ==> 0 <= #[trigger] back[k] < n && order[back[k]] == k
}

/// The arrivals in another order: at place `k` the arrival that stood at
/// place `order[k]`.
pub open spec fn reordered(arrivals: Seq<(usize, ModuleRendering)>, order: Seq<int>) -> Seq<
    (usize, ModuleRendering),
> {
    Seq::new(order.len(), |k: int| arrivals[order[k]])
}

/// Rendering is a function of what is rendered: two outcomes of rendering
/// one chunk of one graph from the same module renderings are one outcome,
/// text and size report alike.
pub proof fn law_render_is_deterministic(
    chunk: Chunk,
    graph: LinkStageOutput,
    chunk_graph: ChunkGraph,
    rendered: Seq<ModuleRendering>,
    first: Outcome,
    second: Outcome,
)
    requires
        chunk.rendered_chunk(&graph, &chunk_graph, rendered) == first,
        chunk.rendered_chunk(&graph, &chunk_graph, rendered) == second,
    ensures
        first == second,
{
}

/// Resolving is a function of the graph and its partition: two resolutions
/// of one chunk graph are one resolution.
pub proof fn law_resolve_is_deterministic(
    chunk_graph: ChunkGraph,
    graph: LinkStageOutput,
    first: Result<Resolution, BuildError>,
    second: Result<Resolution, BuildError>,
)
    requires
        resolution(&chunk_graph, &graph) == first,
        resolution(&chunk_graph, &graph) == second,
    ensures
        first == second,
{
}

/// Names are unique: in whatever a chunk graph resolves to, no two symbols
/// of a chunk share a canonical name.
pub proof fn law_name_uniqueness(chunk_graph: ChunkGraph, graph: LinkStageOutput)
    ensures
        match resolution(&chunk_graph, &graph) {
            Ok(resolved) => names_unique(resolved.namings),
            Err(_) => true,
        },
{
    let wanted = chunk_namings(&graph, &chunk_graph);
    lemma_gather_values(wanted);
    match gather(wanted) {
        Ok(namings) => {
            assert forall|c: int| 0 <= c < namings.len() implies crate::naming::unique(
                #[trigger] namings[c],
            ) by {
                let modules = chunk_graph.chunks@[c].modules@;
                lemma_name_modules_unique(&graph, modules, modules.len());
                assert(wanted[c] == Ok::<crate::naming::Naming, BuildError>(namings[c]));
            }
        },
        Err(_) => {},
    }
}

/// Imports and exports mirror each other: in whatever a chunk graph
/// resolves to, the symbol that a chunk takes from another chunk under a
/// name is exported by that chunk under the same name, and every exported
/// symbol is taken by some other chunk under the name of its export.
pub proof fn law_import_export_symmetry(chunk_graph: ChunkGraph, graph: LinkStageOutput)
    ensures
        match resolution(&chunk_graph, &graph) {
            Ok(resolved) => symmetric(resolved.links),
            Err(_) => true,
        },
{
    let wanted = chunk_namings(&graph, &chunk_graph);
    lemma_gather_values(wanted);
    match gather(wanted) {
        Ok(namings) => {
            lemma_link_chunks_keeps(&graph, &chunk_graph, namings, chunk_graph.chunks@.len());
        },
        Err(_) => {},
    }
}

/// What resolving fills in, rendering can write: a chunk of a resolved graph
/// in which every chunk has a file name has its import statements and its
/// export statement, with no symbol dangling and no chunk or module
/// missing.
pub proof fn law_resolved_links_render(
    given: ChunkGraph,
    graph: LinkStageOutput,
    resolved: ChunkGraph,
    at: int,
)
    requires
        resolved.same_partition(&given),
        resolution(&given, &graph) == Ok::<Resolution, BuildError>(resolved.resolved()),
        0 <= at < resolved.chunks@.len(),
        forall|c: int|
            0 <= c < resolved.chunks@.len() ==> (#[trigger] resolved.chunks@[c]).file_name is Some,
        resolved.chunks@[at].canonical_names.wf(),
        resolved.chunks@[at].imports_from_other_chunks.wf(),
        resolved.chunks@[at].imports_from_external_modules.wf(),
        resolved.chunks@[at].exports_to_other_chunks.wf(),
    ensures
        resolved.chunks@[at].imports_text(&graph, &resolved) is Ok,
        resolved.chunks@[at].exports_text() is Ok,
{
    let chunk = resolved.chunks@[at];
    let wanted = chunk_namings(&graph, &given);
    lemma_gather_values(wanted);
    let namings = resolved.resolved().namings;
    let links = resolved.resolved().links;
    lemma_link_chunks_keeps(&graph, &given, namings, given.chunks@.len());
    assert(linked(links, namings));
    assert(grounded(links, namings, &graph, &given));
    assert(links[at] == chunk.links());
    assert(namings[at] == chunk.naming());
    assert(tidy(links[at]));
    let cross = chunk.cross_chunk_imports(&resolved);
    assert forall|g: int| 0 <= g < cross.len() implies (#[trigger] cross[g]) is Ok by {
        let from = chunk.imports_from_other_chunks.keys()[g];
        let items = chunk.imports_from_other_chunks.groups()[g];
        assert(links[at].import_items[g].len() > 0);
        let first = import_at(links, at, g, 0);
        assert(from.0 < links.len());
        let bindings = chunk.cross_chunk_bindings(&resolved, g);
        assert forall|k: int| 0 <= k < bindings.len() implies (#[trigger] bindings[k]) is Ok by {
            let seen = import_at(links, at, g, k);
            assert(seen.symbol == items[k].import_ref);
            assert(namings[at].has(seen.symbol));
            assert(given.chunk_of(seen.symbol.owner) == Some(from));
        }
        lemma_gather_values(bindings);
    }
    let externals = chunk.external_imports(&graph);
    assert forall|g: int| 0 <= g < externals.len() implies (#[trigger] externals[g]) is Ok by {
        assert(graph.is_external(external_at(links, at, g).0 as int));
    }
    lemma_gather_values(cross + externals);
    if chunk.entry_point is None && chunk.exports_to_other_chunks.keys().len() > 0 {
        let bindings = chunk.export_bindings();
        assert forall|p: int| 0 <= p < bindings.len() implies (#[trigger] bindings[p]) is Ok by {
            assert(namings[at].has(export_at(links, at, p)));
        }
        lemma_gather_values(bindings);
    }
}

/// The order in which module renderings arrive does not matter: arrivals
/// that bring one rendering for each position are put into the same module
/// order however they are reordered, and the chunk renders to the same
/// outcome from either.
pub proof fn law_order_invariance(
    chunk: Chunk,
    graph: LinkStageOutput,
    chunk_graph: ChunkGraph,
    arrivals: Seq<(usize, ModuleRendering)>,
    order: Seq<int>,
    back: Seq<int>,
    count: nat,
)
    requires
        is_reordering(order, back, arrivals.len()),
    ensures
        covers(reordered(arrivals, order), count) == covers(arrivals, count),
        covers(arrivals, count) ==> placed(reordered(arrivals, order), count) == placed(
            arrivals,
            count,
        ),
        covers(arrivals, count) ==> chunk.rendered_chunk(
            &graph,
            &chunk_graph,
            placed(reordered(arrivals, order), count),
        ) == chunk.rendered_chunk(&graph, &chunk_graph, placed(arrivals, count)),
{
    let moved = reordered(arrivals, order);
    assert(reordered(moved, back) =~= arrivals);
    if covers(moved, count) {
        lemma_reordering_covers(moved, back, order, count);
    }
    if covers(arrivals, count) {
        lemma_reordering_covers(arrivals, order, back, count);
        assert forall|i: int| 0 <= i < count implies arrival_for(moved, i) == arrival_for(
            arrivals,
            i,
        ) by {
            assert(arrives(arrivals, i));
            assert(arrives(moved, i));
            let k = choose|k: int| 0 <= k < arrivals.len() && (#[trigger] arrivals[k]).0 == i;
            let m = choose|m: int| 0 <= m < moved.len() && (#[trigger] moved[m]).0 == i;
            assert(moved[m] == arrivals[order[m]]);
            let j = order[m];
            if j < k {
                assert(arrivals[j].0 != arrivals[k].0);
            } else if k < j {
                assert(arrivals[k].0 != arrivals[j].0);
            }
        }
        assert(placed(moved, count) =~= placed(arrivals, count));
    }
}

proof fn lemma_reordering_covers(
    arrivals: Seq<(usize, ModuleRendering)>,
    order: Seq<int>,
    back: Seq<int>,
    count: nat,
)
    requires
        is_reordering(order, back, arrivals.len()),
        covers(arrivals, count),
    ensures
        covers(reordered(arrivals, order), count),
{
    let moved = reordered(arrivals, order);
    assert forall|k: int| 0 <= k < moved.len() implies (#[trigger] moved[k]).0 < count by {
        assert(arrivals[order[k]].0 < count);
    }
    assert forall|j: int, k: int| 0 <= j < k < moved.len() implies (#[trigger] moved[j]).0 != (
    #[trigger] moved[k]).0 by {
        let a = order[j];
        let b = order[k];
        assert(back[a] == j && back[b] == k);
        if a < b {
            assert(arrivals[a].0 != arrivals[b].0);
        } else if b < a {
            assert(arrivals[b].0 != arrivals[a].0);
        }
    }
    assert forall|i: int| 0 <= i < count implies #[trigger] arrives(moved, i) by {
        assert(arrives(arrivals, i));
        let k = choose|k: int| 0 <= k < arrivals.len() && (#[trigger] arrivals[k]).0 == i;
        assert(moved[back[k]] == arrivals[k]);
    }
}

/// External modules are linked apart: in whatever a chunk graph resolves
/// to, no symbol of an external module is imported from a chunk or exported
/// to one; such a symbol appears only among the bindings taken from its
/// external module, and only external modules have bindings taken from
/// them.
pub proof fn law_externals_are_linked_apart(chunk_graph: ChunkGraph, graph: LinkStageOutput)
    ensures
        match resolution(&chunk_graph, &graph) {
            Ok(resolved) => {
                &&& forall|a: int, g: int, k: int|
                    0 <= a < resolved.links.len() && 0 <= g < resolved.links[a].import_chunks.len()
                        && 0 <= k < resolved.links[a].import_items[g].len() ==> !graph.is_external(
                        (#[trigger] import_at(resolved.links, a, g, k)).symbol.owner.0 as int,
                    )
                &&& forall|b: int, p: int|
                    0 <= b < resolved.links.len() && 0 <= p
                        < resolved.links[b].export_symbols.len() ==> !graph.is_external(
                        (#[trigger] export_at(resolved.links, b, p)).owner.0 as int,
                    )
                &&& forall|a: int, g: int|
                    0 <= a < resolved.links.len() && 0 <= g
                        < resolved.links[a].external_modules.len() ==> graph.is_external(
                        (#[trigger] external_at(resolved.links, a, g)).0 as int,
                    )
            },
            Err(_) => true,
        },
{
    let wanted = chunk_namings(&graph, &chunk_graph);
    lemma_gather_values(wanted);
    match gather(wanted) {
        Ok(namings) => {
            lemma_link_chunks_keeps(&graph, &chunk_graph, namings, chunk_graph.chunks@.len());
        },
        Err(_) => {},
    }
}

/// Whether the module at `position` of the chunk is an external one.
pub open spec fn is_external_at(chunk: Chunk, graph: LinkStageOutput, position: int) -> bool {
    0 <= position < chunk.modules@.len() && graph.is_external(chunk.modules@[position].0 as int)
}

/// External modules give no text: what is handed in as rendering of an
/// external module changes nothing of the outcome, neither the text nor the
/// size report nor the diagnostics.
pub proof fn law_external_isolation(
    chunk: Chunk,
    graph: LinkStageOutput,
    chunk_graph: ChunkGraph,
    first: Seq<ModuleRendering>,
    second: Seq<ModuleRendering>,
)
    requires
        first.len() == second.len(),
        forall|i: int|
            0 <= i < first.len() ==> is_external_at(chunk, graph, i) || #[trigger] first[i]
                == second[i],
    ensures
        chunk.rendered_chunk(&graph, &chunk_graph, first) == chunk.rendered_chunk(
            &graph,
            &chunk_graph,
            second,
        ),
{
    lemma_same_modules(chunk, graph, first, second, chunk.modules@.len());
}

proof fn lemma_same_modules(
    chunk: Chunk,
    graph: LinkStageOutput,
    first: Seq<ModuleRendering>,
    second: Seq<ModuleRendering>,
    count: nat,
)
    requires
        count <= chunk.modules@.len(),
        first.len() == second.len(),
        forall|i: int|
            0 <= i < first.len() ==> is_external_at(chunk, graph, i) || #[trigger] first[i]
                == second[i],
    ensures
        chunk.failures(&graph, first, count) == chunk.failures(&graph, second, count),
        chunk.bodies(&graph, first, count) == chunk.bodies(&graph, second, count),
        chunk.size_report(&graph, first, count) == chunk.size_report(&graph, second, count),
    decreases count,
{
    if count > 0 {
        lemma_same_modules(chunk, graph, first, second, (count - 1) as nat);
        let position = count - 1;
        if position < first.len() && !is_external_at(chunk, graph, position) {
            assert(first[position] == second[position]);
        }
    }
}

} // verus!
