//! The cross-chunk resolver: names for the symbols of every chunk, and the
//! imports and exports that link the chunks.

use crate::chunk::{Chunk, ChunkGraph};
use crate::error::{gather, lemma_gather_fails, lemma_gather_step, BuildError};
use crate::graph::{LinkStageOutput, Module};
use crate::ids::{ModuleId, SymbolRef};
use crate::links::{
    lemma_link_chunks_fails, link_chunks, links_of, namings_of, ChunkLinks, Linker, Linking,
};
use crate::naming::{
    lemma_name_all_fails, lemma_name_all_step, lemma_name_all_unique, name_all, unique, Namer,
    Naming,
};
use crate::symmetry::{lemma_link_chunks_keeps, symmetric};
use crate::table::OrderedMap;
use crate::text::views;
use vstd::prelude::*;

verus! {

/// The number of symbols of one module that are named as its own; further
/// ones are named only where they are mentioned.
pub const SLOTS: usize = 0xffff_ffff;

/// The first `count` symbols that `module` owns, by slot.
pub open spec fn owned_symbols(module: ModuleId, count: nat) -> Seq<SymbolRef> {
    Seq::new(count, |i: int| SymbolRef { owner: module, symbol: i as u32 })
}

/// The number of symbols of a module with `declared` names that are named
/// as its own.
pub open spec fn addressable(declared: nat) -> nat {
    if declared <= SLOTS {
        declared
    } else {
        SLOTS as nat
    }
}

/// Names what `module` brings into a chunk: nothing for an external module;
/// for a normal one the symbols that it owns, by slot, and then the symbols
/// that it mentions, in the order of their mention. A module that the module
/// table lacks, and a mentioned symbol that dangles, end the naming.
pub open spec fn name_module(naming: Naming, graph: &LinkStageOutput, module: ModuleId) -> Result<
    Naming,
    BuildError,
> {
    if module.0 >= graph.modules@.len() {
        Err(BuildError::UnknownModule { module })
    } else {
        match graph.modules@[module.0 as int] {
            Module::External(_) => Ok(naming),
            Module::Normal(normal) => match name_all(
                naming,
                graph,
                owned_symbols(module, addressable(normal.declared@.len())),
            ) {
                Ok(owned) => name_all(owned, graph, normal.references@),
                Err(error) => Err(error),
            },
        }
    }
}

/// Names what the first `count` of `modules` bring into a chunk, in module
/// order.
pub open spec fn name_modules(graph: &LinkStageOutput, modules: Seq<ModuleId>, count: nat) -> Result<
    Naming,
    BuildError,
>
    decreases count,
{
    if count == 0 {
        Ok(Naming { symbols: Seq::empty(), names: Seq::empty() })
    } else {
        match name_modules(graph, modules, (count - 1) as nat) {
            Ok(before) => name_module(before, graph, modules[count - 1]),
            Err(error) => Err(error),
        }
    }
}

/// The canonical names of a chunk of `modules`.
pub open spec fn chunk_naming(graph: &LinkStageOutput, modules: Seq<ModuleId>) -> Result<
    Naming,
    BuildError,
> {
    name_modules(graph, modules, modules.len())
}

/// The canonical names of a chunk are unique.
pub proof fn lemma_name_modules_unique(graph: &LinkStageOutput, modules: Seq<ModuleId>, count: nat)
    ensures
        match name_modules(graph, modules, count) {
            Ok(naming) => unique(naming),
            Err(_) => true,
        },
    decreases count,
{
    if count > 0 {
        lemma_name_modules_unique(graph, modules, (count - 1) as nat);
        match name_modules(graph, modules, (count - 1) as nat) {
            Ok(before) => {
                let module = modules[count - 1];
                if module.0 < graph.modules@.len() {
                    match graph.modules@[module.0 as int] {
                        Module::External(_) => {},
                        Module::Normal(normal) => {
                            let owned = owned_symbols(
                                module,
                                addressable(normal.declared@.len()),
                            );
                            lemma_name_all_unique(before, graph, owned);
                            match name_all(before, graph, owned) {
                                Ok(named) => {
                                    lemma_name_all_unique(named, graph, normal.references@);
                                },
                                Err(_) => {},
                            }
                        },
                    }
                }
            },
            Err(_) => {},
        }
    }
}

/// Once the naming of a chunk has failed, further modules change nothing.
pub proof fn lemma_name_modules_fails(
    graph: &LinkStageOutput,
    modules: Seq<ModuleId>,
    count: nat,
    more: nat,
)
    requires
        count <= more,
        name_modules(graph, modules, count) is Err,
    ensures
        name_modules(graph, modules, more) == name_modules(graph, modules, count),
    decreases more,
{
    if count < more {
        lemma_name_modules_fails(graph, modules, count, (more - 1) as nat);
    }
}

/// Names every symbol of `symbols` with `namer`.
fn name_symbols(namer: &mut Namer, graph: &LinkStageOutput, symbols: &Vec<SymbolRef>) -> (done:
    Result<(), BuildError>)
    requires
        old(namer).wf(),
    ensures
        final(namer).wf(),
        match done {
            Ok(_) => name_all(old(namer).naming(), graph, symbols@) == Ok::<Naming, BuildError>(
                final(namer).naming(),
            ),
            Err(error) => name_all(old(namer).naming(), graph, symbols@) == Err::<
                Naming,
                BuildError,
            >(error),
        },
{
    let ghost start = namer.naming();
    let mut i: usize = 0;
    proof {
        assert(symbols@.take(0) =~= Seq::empty());
    }
    while i < symbols.len()
        invariant
            i <= symbols.len(),
            namer.wf(),
            start == old(namer).naming(),
            name_all(start, graph, symbols@.take(i as int)) == Ok::<Naming, BuildError>(
                namer.naming(),
            ),
        decreases symbols.len() - i,
    {
        proof {
            lemma_name_all_step(start, graph, symbols@, i as int);
        }
        match namer.name(graph, symbols[i]) {
            Ok(_) => {},
            Err(error) => {
                proof {
                    lemma_name_all_fails(start, graph, symbols@, i as int + 1);
                }
                return Err(error);
            },
        }
        i += 1;
    }
    proof {
        assert(symbols@.take(i as int) =~= symbols@);
    }
    Ok(())
}

/// Names what `module` brings into a chunk.
fn name_in_module(namer: &mut Namer, graph: &LinkStageOutput, module: ModuleId) -> (done: Result<
    (),
    BuildError,
>)
    requires
        old(namer).wf(),
    ensures
        final(namer).wf(),
        match done {
            Ok(_) => name_module(old(namer).naming(), graph, module) == Ok::<Naming, BuildError>(
                final(namer).naming(),
            ),
            Err(error) => name_module(old(namer).naming(), graph, module) == Err::<
                Naming,
                BuildError,
            >(error),
        },
{
    let position = module.0 as usize;
    if position >= graph.modules.len() {
        return Err(BuildError::UnknownModule { module });
    }
    let normal = match &graph.modules[position] {
        Module::External(_) => {
            return Ok(());
        },
        Module::Normal(normal) => normal,
    };
    let ghost start = namer.naming();
    let count = if normal.declared.len() <= SLOTS {
        normal.declared.len()
    } else {
        SLOTS
    };
    let ghost owned = owned_symbols(module, count as nat);
    let mut slot: usize = 0;
    proof {
        assert(owned.take(0) =~= Seq::empty());
    }
    while slot < count
        invariant
            slot <= count <= SLOTS,
            namer.wf(),
            start == old(namer).naming(),
            module.0 < graph.modules@.len(),
            graph.modules@[module.0 as int] == Module::Normal(*normal),
            count == addressable(normal.declared@.len()),
            owned == owned_symbols(module, count as nat),
            name_all(start, graph, owned.take(slot as int)) == Ok::<Naming, BuildError>(
                namer.naming(),
            ),
        decreases count - slot,
    {
        proof {
            lemma_name_all_step(start, graph, owned, slot as int);
        }
        match namer.name(graph, SymbolRef { owner: module, symbol: slot as u32 }) {
            Ok(_) => {},
            Err(error) => {
                proof {
                    lemma_name_all_fails(start, graph, owned, slot as int + 1);
                }
                return Err(error);
            },
        }
        slot += 1;
    }
    proof {
        assert(owned.take(slot as int) =~= owned);
    }
    name_symbols(namer, graph, &normal.references)
}

/// Gives every symbol of a chunk of `modules` its canonical name.
pub fn name_chunk(graph: &LinkStageOutput, modules: &Vec<ModuleId>) -> (names: Result<
    OrderedMap<SymbolRef, String>,
    BuildError,
>)
    ensures
        match names {
            Ok(names) => names.wf() && views(names.values()).no_duplicates() && chunk_naming(
                graph,
                modules@,
            ) == Ok::<Naming, BuildError>(
                Naming { symbols: names.keys(), names: views(names.values()) },
            ),
            Err(error) => chunk_naming(graph, modules@) == Err::<Naming, BuildError>(error),
        },
{
    let mut namer = Namer::new();
    let mut i: usize = 0;
    while i < modules.len()
        invariant
            i <= modules.len(),
            namer.wf(),
            name_modules(graph, modules@, i as nat) == Ok::<Naming, BuildError>(namer.naming()),
        decreases modules.len() - i,
    {
        match name_in_module(&mut namer, graph, modules[i]) {
            Ok(_) => {},
            Err(error) => {
                proof {
                    lemma_name_modules_fails(graph, modules@, (i + 1) as nat, modules@.len());
                }
                return Err(error);
            },
        }
        i += 1;
    }
    Ok(namer.finish())
}

impl Chunk {
    /// The canonical names of the chunk, as text.
    pub open spec fn naming(&self) -> Naming {
        Naming { symbols: self.canonical_names.keys(), names: views(self.canonical_names.values()) }
    }

    /// The link tables of the chunk, as text.
    pub open spec fn links(&self) -> ChunkLinks {
        links_of(
            self.imports_from_other_chunks,
            self.imports_from_external_modules,
            self.exports_to_other_chunks,
        )
    }
}

/// What resolving a chunk graph gives: the canonical names and the link
/// tables of every chunk.
#[verifier::ext_equal]
pub struct Resolution {
    pub namings: Seq<Naming>,
    pub links: Seq<ChunkLinks>,
}

impl ChunkGraph {
    /// The names and links that the chunks of the graph hold.
    pub open spec fn resolved(&self) -> Resolution {
        Resolution {
            namings: Seq::new(self.chunks@.len(), |c: int| self.chunks@[c].naming()),
            links: Seq::new(self.chunks@.len(), |c: int| self.chunks@[c].links()),
        }
    }

    /// Whether this graph has the chunks of `other`, but for their names and
    /// links: the same modules in the same chunks, with the same entry
    /// points, names, file names and bits.
    pub open spec fn same_partition(&self, other: &ChunkGraph) -> bool {
        &&& self.module_to_chunk == other.module_to_chunk
        &&& self.chunks@.len() == other.chunks@.len()
        &&& forall|c: int|
            #![trigger self.chunks@[c]]
            0 <= c < self.chunks@.len() ==> {
                &&& self.chunks@[c].modules == other.chunks@[c].modules
                &&& self.chunks@[c].entry_point == other.chunks@[c].entry_point
                &&& self.chunks@[c].name == other.chunks@[c].name
                &&& self.chunks@[c].file_name == other.chunks@[c].file_name
                &&& self.chunks@[c].bits == other.chunks@[c].bits
            }
    }
}

/// The canonical names of every chunk of the graph.
pub open spec fn chunk_namings(graph: &LinkStageOutput, chunk_graph: &ChunkGraph) -> Seq<
    Result<Naming, BuildError>,
> {
    Seq::new(
        chunk_graph.chunks@.len(),
        |c: int| chunk_naming(graph, chunk_graph.chunks@[c].modules@),
    )
}

/// What resolving `chunk_graph` gives: first every chunk, in order, names
/// the symbols of its modules; then every chunk, in order, links what its
/// modules mention. The first module that the module table lacks and the
/// first symbol that dangles end the resolving.
pub open spec fn resolution(chunk_graph: &ChunkGraph, graph: &LinkStageOutput) -> Result<
    Resolution,
    BuildError,
> {
    match gather(chunk_namings(graph, chunk_graph)) {
        Err(error) => Err(error),
        Ok(namings) => match link_chunks(graph, chunk_graph, namings, chunk_graph.chunks@.len()) {
            Ok(state) => Ok(Resolution { namings, links: state.chunks }),
            Err(error) => Err(error),
        },
    }
}

/// In every chunk, no two symbols share a canonical name and no symbol has
/// two.
pub open spec fn names_unique(namings: Seq<Naming>) -> bool {
    forall|c: int| 0 <= c < namings.len() ==> unique(#[trigger] namings[c])
}

/// Resolves the chunk graph: gives every symbol that a chunk owns or
/// mentions a name that is unique within the chunk, and fills the import
/// and export tables of every chunk. The tables that the chunks held before
/// are not read.
pub fn resolve(chunk_graph: ChunkGraph, graph: &LinkStageOutput) -> (resolved: Result<
    ChunkGraph,
    BuildError,
>)
    ensures
        match resolved {
            Ok(resolved) => {
                &&& resolved.same_partition(&chunk_graph)
                &&& resolution(&chunk_graph, graph) == Ok::<Resolution, BuildError>(
                    resolved.resolved(),
                )
                &&& names_unique(resolved.resolved().namings)
                &&& symmetric(resolved.resolved().links)
            },
            Err(error) => resolution(&chunk_graph, graph) == Err::<Resolution, BuildError>(error),
        },
{
    let count = chunk_graph.chunks.len();
    let ghost wanted = chunk_namings(graph, &chunk_graph);
    let mut names: Vec<OrderedMap<SymbolRef, String>> = Vec::new();
    let mut c: usize = 0;
    proof {
        assert(wanted.take(0) =~= Seq::empty());
        assert(namings_of(names@) =~= Seq::empty());
    }
    while c < count
        invariant
            c <= count,
            count == chunk_graph.chunks@.len(),
            wanted == chunk_namings(graph, &chunk_graph),
            names@.len() == c,
            gather(wanted.take(c as int)) == Ok::<Seq<Naming>, BuildError>(namings_of(names@)),
            names_unique(namings_of(names@)),
        decreases count - c,
    {
        let ghost before = namings_of(names@);
        proof {
            lemma_gather_step(wanted, c as int);
        }
        match name_chunk(graph, &chunk_graph.chunks[c].modules) {
            Ok(table) => {
                names.push(table);
                proof {
                    assert(namings_of(names@) =~= before.push(
                        Naming { symbols: table.keys(), names: views(table.values()) },
                    ));
                }
            },
            Err(error) => {
                proof {
                    lemma_gather_fails(wanted, c as int + 1);
                }
                return Err(error);
            },
        }
        c += 1;
    }
    proof {
        assert(wanted.take(count as int) =~= wanted);
    }
    let ghost namings = namings_of(names@);
    let mut linker = Linker::new(count);
    let mut at: usize = 0;
    while at < count
        invariant
            at <= count,
            count == chunk_graph.chunks@.len(),
            names@.len() == count,
            namings == namings_of(names@),
            gather(chunk_namings(graph, &chunk_graph)) == Ok::<Seq<Naming>, BuildError>(namings),
            linker.wf(),
            linker.count() == count,
            link_chunks(graph, &chunk_graph, namings, at as nat) == Ok::<Linking, BuildError>(
                linker.state(),
            ),
        decreases count - at,
    {
        match linker.link_chunk_modules(graph, &chunk_graph, &names, at) {
            Ok(_) => {},
            Err(error) => {
                proof {
                    lemma_link_chunks_fails(
                        graph,
                        &chunk_graph,
                        namings,
                        (at + 1) as nat,
                        count as nat,
                    );
                }
                return Err(error);
            },
        }
        at += 1;
    }
    let ghost links = linker.state().chunks;
    let ghost tables = names@;
    proof {
        lemma_link_chunks_keeps(graph, &chunk_graph, namings, count as nat);
        assert(names@.take(count as int) =~= names@);
        assert(links.take(count as int) =~= links);
    }
    let ghost given = chunk_graph;
    let ChunkGraph { chunks, module_to_chunk } = chunk_graph;
    let mut chunks = chunks;
    let mut left: usize = count;
    while left > 0
        invariant
            left <= count,
            count == given.chunks@.len(),
            chunks@.len() == count,
            tables.len() == count,
            links.len() == count,
            namings == namings_of(tables),
            names@ == tables.take(left as int),
            linker.wf(),
            linker.count() == left,
            linker.state().chunks == links.take(left as int),
            forall|k: int|
                #![trigger chunks@[k]]
                left <= k < count ==> chunks@[k].naming() == namings[k] && chunks@[k].links()
                    == links[k],
            forall|k: int|
                #![trigger chunks@[k]]
                0 <= k < count ==> {
                    &&& chunks@[k].modules == given.chunks@[k].modules
                    &&& chunks@[k].entry_point == given.chunks@[k].entry_point
                    &&& chunks@[k].name == given.chunks@[k].name
                    &&& chunks@[k].file_name == given.chunks@[k].file_name
                    &&& chunks@[k].bits == given.chunks@[k].bits
                },
        decreases left,
    {
        left -= 1;
        let table = names.pop().unwrap();
        let (imports, externals, exports) = linker.pop();
        proof {
            assert(table == tables[left as int]);
            assert(links_of(imports, externals, exports) == links[left as int]);
            assert(names@ =~= tables.take(left as int));
            assert(links.take(left as int + 1).drop_last() =~= links.take(left as int));
        }
        let chunk = &mut chunks[left];
        chunk.canonical_names = table;
        chunk.imports_from_other_chunks = imports;
        chunk.imports_from_external_modules = externals;
        chunk.exports_to_other_chunks = exports;
    }
    let resolved = ChunkGraph { chunks, module_to_chunk };
    proof {
        assert(resolved.resolved() =~~= (Resolution { namings, links }));
        assert(resolved.resolved().namings =~= namings);
        assert(resolved.resolved().links =~= links);
    }
    Ok(resolved)
}

} // verus!
