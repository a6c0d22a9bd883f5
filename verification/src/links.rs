//! The imports and exports that link the chunks of a build.

use crate::chunk::{ChunkGraph, CrossChunkImportItem, ImportItemView, NamedImport, NamedImportView};
use crate::error::BuildError;
use crate::graph::{LinkStageOutput, Module};
use crate::ids::{ChunkId, ModuleId, SymbolRef};
use crate::naming::Naming;
use crate::table::{with_member, OrderedMap};
use crate::text::views;
use vstd::prelude::*;

verus! {

/// The link tables of one chunk, as text.
#[verifier::ext_equal]
pub struct ChunkLinks {
    /// The chunks that this one takes symbols from, in the order of first
    /// use.
    pub import_chunks: Seq<ChunkId>,
    /// For each of those chunks, the symbols taken.
    pub import_items: Seq<Seq<ImportItemView>>,
    /// The external modules that this chunk takes bindings from, in the
    /// order of first use.
    pub external_modules: Seq<ModuleId>,
    /// For each of those modules, the bindings taken.
    pub external_items: Seq<Seq<NamedImportView>>,
    /// The symbols that other chunks take from this one, in the order of
    /// first use.
    pub export_symbols: Seq<SymbolRef>,
    /// For each of those symbols, the name under which it is exported.
    pub export_names: Seq<Seq<char>>,
}

impl ChunkLinks {
    /// Link tables without entries.
    pub open spec fn empty() -> ChunkLinks {
        ChunkLinks {
            import_chunks: Seq::empty(),
            import_items: Seq::empty(),
            external_modules: Seq::empty(),
            external_items: Seq::empty(),
            export_symbols: Seq::empty(),
            export_names: Seq::empty(),
        }
    }

    /// These tables with `item` taken from the chunk `from`.
    pub open spec fn with_import(self, from: ChunkId, item: ImportItemView) -> ChunkLinks {
        let (chunks, items) = with_member(self.import_chunks, self.import_items, from, item);
        ChunkLinks { import_chunks: chunks, import_items: items, ..self }
    }

    /// These tables with `item` taken from the external module `from`.
    pub open spec fn with_external(self, from: ModuleId, item: NamedImportView) -> ChunkLinks {
        let (modules, items) = with_member(self.external_modules, self.external_items, from, item);
        ChunkLinks { external_modules: modules, external_items: items, ..self }
    }

    /// These tables with `symbol` exported as `name`, unless it is exported
    /// already.
    pub open spec fn with_export(self, symbol: SymbolRef, name: Seq<char>) -> ChunkLinks {
        if self.export_symbols.contains(symbol) {
            self
        } else {
            ChunkLinks {
                export_symbols: self.export_symbols.push(symbol),
                export_names: self.export_names.push(name),
                ..self
            }
        }
    }
}

/// The state of linking: the tables of every chunk, and the symbols of the
/// chunk at work that have been linked.
#[verifier::ext_equal]
pub struct Linking {
    pub chunks: Seq<ChunkLinks>,
    pub seen: Seq<SymbolRef>,
}

/// Links one mention of `symbol` in the chunk at position `at`.
///
/// A symbol that the chunk has linked before changes nothing. A symbol of an
/// external module becomes a named import from that module: under the name
/// that the module declares, with the chunk's own name for it as alias where
/// the two differ. A symbol of the chunk itself needs no link. A symbol of
/// another chunk becomes an import from that chunk under the name that the
/// owning chunk has for it, and an export of the owning chunk under the same
/// name. The symbol dangles where the chunk has no name for it, where the
/// module table lacks its slot, where its owner is in no chunk, and where
/// the owning chunk has no name for it.
pub open spec fn link_one(
    state: Linking,
    graph: &LinkStageOutput,
    chunk_graph: &ChunkGraph,
    namings: Seq<Naming>,
    at: int,
    symbol: SymbolRef,
) -> Result<Linking, BuildError> {
    if state.seen.contains(symbol) {
        Ok(state)
    } else if !namings[at].has(symbol) || !graph.declares(symbol) {
        Err(BuildError::DanglingReference { symbol })
    } else {
        let seen = state.seen.push(symbol);
        let local = namings[at].name_of(symbol);
        if graph.is_external(symbol.owner.0 as int) {
            let imported = graph.declared_as(symbol);
            let item = NamedImportView {
                imported,
                alias: if imported == local {
                    None
                } else {
                    Some(local)
                },
            };
            Ok(
                Linking {
                    chunks: state.chunks.update(
                        at,
                        state.chunks[at].with_external(symbol.owner, item),
                    ),
                    seen,
                },
            )
        } else {
            match chunk_graph.chunk_of(symbol.owner) {
                None => Err(BuildError::DanglingReference { symbol }),
                Some(owner) => if owner.0 == at {
                    Ok(Linking { chunks: state.chunks, seen })
                } else if owner.0 >= namings.len() || !namings[owner.0 as int].has(symbol) {
                    Err(BuildError::DanglingReference { symbol })
                } else {
                    let alias = namings[owner.0 as int].name_of(symbol);
                    let item = ImportItemView { alias: Some(alias), symbol };
                    Ok(
                        Linking {
                            chunks: state.chunks.update(
                                at,
                                state.chunks[at].with_import(owner, item),
                            ).update(
                                owner.0 as int,
                                state.chunks[owner.0 as int].with_export(symbol, alias),
                            ),
                            seen,
                        },
                    )
                },
            }
        }
    }
}

/// Links the mentions `symbols` of the chunk at position `at`, one after the
/// other; the first that dangles ends the linking.
pub open spec fn link_all(
    state: Linking,
    graph: &LinkStageOutput,
    chunk_graph: &ChunkGraph,
    namings: Seq<Naming>,
    at: int,
    symbols: Seq<SymbolRef>,
) -> Result<Linking, BuildError>
    decreases symbols.len(),
{
    if symbols.len() == 0 {
        Ok(state)
    } else {
        match link_all(state, graph, chunk_graph, namings, at, symbols.drop_last()) {
            Ok(before) => link_one(before, graph, chunk_graph, namings, at, symbols.last()),
            Err(error) => Err(error),
        }
    }
}

/// Linking one mention more.
pub proof fn lemma_link_all_step(
    state: Linking,
    graph: &LinkStageOutput,
    chunk_graph: &ChunkGraph,
    namings: Seq<Naming>,
    at: int,
    symbols: Seq<SymbolRef>,
    n: int,
)
    requires
        0 <= n < symbols.len(),
    ensures
        link_all(state, graph, chunk_graph, namings, at, symbols.take(n + 1)) == match link_all(
            state,
            graph,
            chunk_graph,
            namings,
            at,
            symbols.take(n),
        ) {
            Ok(before) => link_one(before, graph, chunk_graph, namings, at, symbols[n]),
            Err(error) => Err(error),
        },
{
    assert(symbols.take(n + 1).drop_last() =~= symbols.take(n));
}

/// A mention that dangles among the first `n` ends the linking of all.
pub proof fn lemma_link_all_fails(
    state: Linking,
    graph: &LinkStageOutput,
    chunk_graph: &ChunkGraph,
    namings: Seq<Naming>,
    at: int,
    symbols: Seq<SymbolRef>,
    n: int,
)
    requires
        0 <= n <= symbols.len(),
        link_all(state, graph, chunk_graph, namings, at, symbols.take(n)) is Err,
    ensures
        link_all(state, graph, chunk_graph, namings, at, symbols) == link_all(
            state,
            graph,
            chunk_graph,
            namings,
            at,
            symbols.take(n),
        ),
    decreases symbols.len() - n,
{
    if n == symbols.len() {
        assert(symbols.take(n) =~= symbols);
    } else {
        lemma_link_all_step(state, graph, chunk_graph, namings, at, symbols, n);
        lemma_link_all_fails(state, graph, chunk_graph, namings, at, symbols, n + 1);
    }
}

/// Links what `module` mentions in the chunk at position `at`: the symbols
/// that a normal module mentions, in the order of their mention; nothing
/// for any other module.
pub open spec fn link_module(
    state: Linking,
    graph: &LinkStageOutput,
    chunk_graph: &ChunkGraph,
    namings: Seq<Naming>,
    at: int,
    module: ModuleId,
) -> Result<Linking, BuildError> {
    if module.0 < graph.modules@.len() && graph.modules@[module.0 as int] is Normal {
        link_all(
            state,
            graph,
            chunk_graph,
            namings,
            at,
            graph.modules@[module.0 as int]->Normal_0.references@,
        )
    } else {
        Ok(state)
    }
}

/// Links what the first `count` of `modules` mention in the chunk at
/// position `at`, in module order.
pub open spec fn link_modules(
    state: Linking,
    graph: &LinkStageOutput,
    chunk_graph: &ChunkGraph,
    namings: Seq<Naming>,
    at: int,
    modules: Seq<ModuleId>,
    count: nat,
) -> Result<Linking, BuildError>
    decreases count,
{
    if count == 0 {
        Ok(state)
    } else {
        match link_modules(
            state,
            graph,
            chunk_graph,
            namings,
            at,
            modules,
            (count - 1) as nat,
        ) {
            Ok(before) => link_module(before, graph, chunk_graph, namings, at, modules[count - 1]),
            Err(error) => Err(error),
        }
    }
}

/// Once the linking of a chunk has failed, further modules change nothing.
pub proof fn lemma_link_modules_fails(
    state: Linking,
    graph: &LinkStageOutput,
    chunk_graph: &ChunkGraph,
    namings: Seq<Naming>,
    at: int,
    modules: Seq<ModuleId>,
    count: nat,
    more: nat,
)
    requires
        count <= more,
        link_modules(state, graph, chunk_graph, namings, at, modules, count) is Err,
    ensures
        link_modules(state, graph, chunk_graph, namings, at, modules, more) == link_modules(
            state,
            graph,
            chunk_graph,
            namings,
            at,
            modules,
            count,
        ),
    decreases more,
{
    if count < more {
        lemma_link_modules_fails(
            state,
            graph,
            chunk_graph,
            namings,
            at,
            modules,
            count,
            (more - 1) as nat,
        );
    }
}

/// Links the chunk at position `at`: every mention of its modules, with no
/// symbol counting as linked at the start.
pub open spec fn link_chunk(
    state: Linking,
    graph: &LinkStageOutput,
    chunk_graph: &ChunkGraph,
    namings: Seq<Naming>,
    at: int,
) -> Result<Linking, BuildError> {
    link_modules(
        Linking { chunks: state.chunks, seen: Seq::empty() },
        graph,
        chunk_graph,
        namings,
        at,
        chunk_graph.chunks@[at].modules@,
        chunk_graph.chunks@[at].modules@.len(),
    )
}

/// Links the first `count` chunks of the graph, in order, starting from
/// empty tables.
pub open spec fn link_chunks(
    graph: &LinkStageOutput,
    chunk_graph: &ChunkGraph,
    namings: Seq<Naming>,
    count: nat,
) -> Result<Linking, BuildError>
    decreases count,
{
    if count == 0 {
        Ok(
            Linking {
                chunks: Seq::new(chunk_graph.chunks@.len(), |c: int| ChunkLinks::empty()),
                seen: Seq::empty(),
            },
        )
    } else {
        match link_chunks(graph, chunk_graph, namings, (count - 1) as nat) {
            Ok(before) => link_chunk(before, graph, chunk_graph, namings, count - 1),
            Err(error) => Err(error),
        }
    }
}

/// Once the linking of the graph has failed, further chunks change nothing.
pub proof fn lemma_link_chunks_fails(
    graph: &LinkStageOutput,
    chunk_graph: &ChunkGraph,
    namings: Seq<Naming>,
    count: nat,
    more: nat,
)
    requires
        count <= more,
        link_chunks(graph, chunk_graph, namings, count) is Err,
    ensures
        link_chunks(graph, chunk_graph, namings, more) == link_chunks(
            graph,
            chunk_graph,
            namings,
            count,
        ),
    decreases more,
{
    if count < more {
        lemma_link_chunks_fails(graph, chunk_graph, namings, count, (more - 1) as nat);
    }
}

/// The names of every chunk, as text.
pub open spec fn namings_of(names: Seq<OrderedMap<SymbolRef, String>>) -> Seq<Naming> {
    Seq::new(
        names.len(),
        |c: int| Naming { symbols: names[c].keys(), names: views(names[c].values()) },
    )
}

/// What three link tables say, as text.
pub open spec fn links_of(
    imports: OrderedMap<ChunkId, Vec<CrossChunkImportItem>>,
    externals: OrderedMap<ModuleId, Vec<NamedImport>>,
    exports: OrderedMap<SymbolRef, String>,
) -> ChunkLinks {
    ChunkLinks {
        import_chunks: imports.keys(),
        import_items: imports.group_views(),
        external_modules: externals.keys(),
        external_items: externals.group_views(),
        export_symbols: exports.keys(),
        export_names: views(exports.values()),
    }
}

/// The link tables of every chunk while they are filled.
pub(crate) struct Linker {
    imports: Vec<OrderedMap<ChunkId, Vec<CrossChunkImportItem>>>,
    externals: Vec<OrderedMap<ModuleId, Vec<NamedImport>>>,
    exports: Vec<OrderedMap<SymbolRef, String>>,
    seen: OrderedMap<SymbolRef, bool>,
}

impl Linker {
    /// The number of chunks.
    pub closed spec fn count(&self) -> nat {
        self.imports@.len()
    }

    /// The tables of the chunk at `position`.
    pub closed spec fn links_at(&self, position: int) -> ChunkLinks {
        links_of(self.imports@[position], self.externals@[position], self.exports@[position])
    }

    /// The state of linking.
    pub closed spec fn state(&self) -> Linking {
        Linking {
            chunks: Seq::new(self.count(), |c: int| self.links_at(c)),
            seen: self.seen.keys(),
        }
    }

    /// Every chunk has its three tables, and every table is in order.
    pub closed spec fn wf(&self) -> bool {
        &&& self.externals@.len() == self.imports@.len()
        &&& self.exports@.len() == self.imports@.len()
        &&& self.seen.wf()
        &&& forall|c: int|
            0 <= c < self.imports@.len() ==> (#[trigger] self.imports@[c]).wf()
        &&& forall|c: int|
            0 <= c < self.imports@.len() ==> (#[trigger] self.externals@[c]).wf()
        &&& forall|c: int|
            0 <= c < self.imports@.len() ==> (#[trigger] self.exports@[c]).wf()
    }

    /// Empty tables for `count` chunks.
    pub(crate) fn new(count: usize) -> (linker: Self)
        ensures
            linker.wf(),
            linker.count() == count,
            linker.state() =~~= (Linking {
                chunks: Seq::new(count as nat, |c: int| ChunkLinks::empty()),
                seen: Seq::empty(),
            }),
    {
        let mut imports: Vec<OrderedMap<ChunkId, Vec<CrossChunkImportItem>>> = Vec::new();
        let mut externals: Vec<OrderedMap<ModuleId, Vec<NamedImport>>> = Vec::new();
        let mut exports: Vec<OrderedMap<SymbolRef, String>> = Vec::new();
        let mut c: usize = 0;
        while c < count
            invariant
                c <= count,
                imports@.len() == c,
                externals@.len() == c,
                exports@.len() == c,
                forall|k: int|
                    0 <= k < c ==> (#[trigger] imports@[k]).wf() && imports@[k].keys().len() == 0
                        && imports@[k].values().len() == 0,
                forall|k: int|
                    0 <= k < c ==> (#[trigger] externals@[k]).wf() && externals@[k].keys().len()
                        == 0 && externals@[k].values().len() == 0,
                forall|k: int|
                    0 <= k < c ==> (#[trigger] exports@[k]).wf() && exports@[k].keys().len() == 0
                        && exports@[k].values().len() == 0,
            decreases count - c,
        {
            imports.push(OrderedMap::new());
            externals.push(OrderedMap::new());
            exports.push(OrderedMap::new());
            c += 1;
        }
        let linker = Linker { imports, externals, exports, seen: OrderedMap::new() };
        proof {
            assert forall|k: int| 0 <= k < count implies #[trigger] linker.state().chunks[k]
                =~~= ChunkLinks::empty() by {
                assert(linker.imports@[k].keys().len() == 0);
                assert(linker.externals@[k].keys().len() == 0);
                assert(linker.exports@[k].keys().len() == 0);
            }
        }
        linker
    }

    /// Starts the linking of another chunk: no symbol counts as linked.
    pub(crate) fn begin_chunk(&mut self)
        requires
            old(self).wf(),
        ensures
            final(self).wf(),
            final(self).count() == old(self).count(),
            final(self).state() =~~= (Linking {
                chunks: old(self).state().chunks,
                seen: Seq::empty(),
            }),
    {
        self.seen = OrderedMap::new();
        proof {
            assert forall|c: int| 0 <= c < self.count() implies self.links_at(c) == old(
                self,
            ).links_at(c) by {}
        }
    }

    /// Links one mention of `symbol` in the chunk at position `at`.
    pub(crate) fn link(
        &mut self,
        graph: &LinkStageOutput,
        chunk_graph: &ChunkGraph,
        names: &Vec<OrderedMap<SymbolRef, String>>,
        at: usize,
        symbol: SymbolRef,
    ) -> (done: Result<(), BuildError>)
        requires
            old(self).wf(),
            old(self).count() == names@.len(),
            at < names@.len(),
        ensures
            final(self).wf(),
            final(self).count() == old(self).count(),
            match done {
                Ok(_) => link_one(
                    old(self).state(),
                    graph,
                    chunk_graph,
                    namings_of(names@),
                    at as int,
                    symbol,
                ) == Ok::<Linking, BuildError>(final(self).state()),
                Err(error) => link_one(
                    old(self).state(),
                    graph,
                    chunk_graph,
                    namings_of(names@),
                    at as int,
                    symbol,
                ) == Err::<Linking, BuildError>(error) && final(self).state() == old(self).state(),
            },
    {
        let ghost before = self.state();
        let ghost namings = namings_of(names@);
        if self.seen.position(symbol).is_some() {
            return Ok(());
        }
        let local = match names[at].get(symbol) {
            Some(local) => local,
            None => {
                return Err(BuildError::DanglingReference { symbol });
            },
        };
        let imported = match graph.declared_name(symbol) {
            Some(imported) => imported,
            None => {
                return Err(BuildError::DanglingReference { symbol });
            },
        };
        assert(local@ == namings[at as int].name_of(symbol));
        match &graph.modules[symbol.owner.0 as usize] {
            Module::External(_) => {
                let alias = if *imported == *local {
                    None
                } else {
                    Some(local.clone())
                };
                let item = NamedImport { imported: imported.clone(), alias };
                self.externals[at].push_to(symbol.owner, item);
                self.seen.insert(symbol, true);
                proof {
                    let expected = link_one(
                        before,
                        graph,
                        chunk_graph,
                        namings,
                        at as int,
                        symbol,
                    )->Ok_0;
                    assert(self.state().chunks.len() == expected.chunks.len());
                    assert forall|c: int| 0 <= c < self.count() implies #[trigger] self.state().chunks[c]
                        =~~= expected.chunks[c] by {
                        if c == at {
                            assert(self.externals@[c].group_views() =~~= expected.chunks[c].external_items);
                        }
                    }
                    assert(self.state() =~~= expected);
                }
                Ok(())
            },
            Module::Normal(_) => {
                let owner = match chunk_graph.owner_chunk(symbol.owner) {
                    Some(owner) => owner,
                    None => {
                        return Err(BuildError::DanglingReference { symbol });
                    },
                };
                let from = owner.0 as usize;
                if from == at {
                    self.seen.insert(symbol, true);
                    proof {
                        assert forall|c: int| 0 <= c < self.count() implies self.links_at(c)
                            == before.chunks[c] by {}
                        assert(self.state() =~~= (Linking {
                            chunks: before.chunks,
                            seen: before.seen.push(symbol),
                        }));
                    }
                    return Ok(());
                }
                if from >= names.len() {
                    return Err(BuildError::DanglingReference { symbol });
                }
                let alias = match names[from].get(symbol) {
                    Some(alias) => alias,
                    None => {
                        return Err(BuildError::DanglingReference { symbol });
                    },
                };
                assert(alias@ == namings[from as int].name_of(symbol));
                let item = CrossChunkImportItem {
                    export_alias: Some(alias.clone()),
                    import_ref: symbol,
                };
                self.imports[at].push_to(owner, item);
                if self.exports[from].position(symbol).is_none() {
                    self.exports[from].insert(symbol, alias.clone());
                }
                self.seen.insert(symbol, true);
                proof {
                    let expected = link_one(
                        before,
                        graph,
                        chunk_graph,
                        namings,
                        at as int,
                        symbol,
                    )->Ok_0;
                    assert(self.state().chunks.len() == expected.chunks.len());
                    assert forall|c: int| 0 <= c < self.count() implies #[trigger] self.state().chunks[c]
                        =~~= expected.chunks[c] by {
                        if c == at {
                            assert(self.imports@[c].group_views() =~~= expected.chunks[c].import_items);
                        }
                        if c == from {
                            assert(views(self.exports@[c].values()) =~~= expected.chunks[c].export_names);
                        }
                    }
                    assert(self.state() =~~= expected);
                }
                Ok(())
            },
        }
    }

    /// Links every mention of `symbols` in the chunk at position `at`.
    pub(crate) fn link_symbols(
        &mut self,
        graph: &LinkStageOutput,
        chunk_graph: &ChunkGraph,
        names: &Vec<OrderedMap<SymbolRef, String>>,
        at: usize,
        symbols: &Vec<SymbolRef>,
    ) -> (done: Result<(), BuildError>)
        requires
            old(self).wf(),
            old(self).count() == names@.len(),
            at < names@.len(),
        ensures
            final(self).wf(),
            final(self).count() == old(self).count(),
            match done {
                Ok(_) => link_all(
                    old(self).state(),
                    graph,
                    chunk_graph,
                    namings_of(names@),
                    at as int,
                    symbols@,
                ) == Ok::<Linking, BuildError>(final(self).state()),
                Err(error) => link_all(
                    old(self).state(),
                    graph,
                    chunk_graph,
                    namings_of(names@),
                    at as int,
                    symbols@,
                ) == Err::<Linking, BuildError>(error),
            },
    {
        let ghost start = self.state();
        let ghost namings = namings_of(names@);
        let mut i: usize = 0;
        proof {
            assert(symbols@.take(0) =~= Seq::empty());
        }
        while i < symbols.len()
            invariant
                i <= symbols.len(),
                self.wf(),
                self.count() == names@.len(),
                self.count() == old(self).count(),
                at < names@.len(),
                start == old(self).state(),
                namings == namings_of(names@),
                link_all(start, graph, chunk_graph, namings, at as int, symbols@.take(i as int))
                    == Ok::<Linking, BuildError>(self.state()),
            decreases symbols.len() - i,
        {
            proof {
                lemma_link_all_step(start, graph, chunk_graph, namings, at as int, symbols@, i as int);
            }
            match self.link(graph, chunk_graph, names, at, symbols[i]) {
                Ok(_) => {},
                Err(error) => {
                    proof {
                        lemma_link_all_fails(
                            start,
                            graph,
                            chunk_graph,
                            namings,
                            at as int,
                            symbols@,
                            i as int + 1,
                        );
                    }
                    return Err(error);
                },
            }
            i += 1;
        }
        proof {
            assert(symbols@.take(i as int) =~= symbols@);
        }
        Ok(())
    }

    /// Links every mention of the modules of the chunk at position `at`.
    pub(crate) fn link_chunk_modules(
        &mut self,
        graph: &LinkStageOutput,
        chunk_graph: &ChunkGraph,
        names: &Vec<OrderedMap<SymbolRef, String>>,
        at: usize,
    ) -> (done: Result<(), BuildError>)
        requires
            old(self).wf(),
            old(self).count() == names@.len(),
            at < names@.len(),
            at < chunk_graph.chunks@.len(),
        ensures
            final(self).wf(),
            final(self).count() == old(self).count(),
            match done {
                Ok(_) => link_chunk(
                    old(self).state(),
                    graph,
                    chunk_graph,
                    namings_of(names@),
                    at as int,
                ) == Ok::<Linking, BuildError>(final(self).state()),
                Err(error) => link_chunk(
                    old(self).state(),
                    graph,
                    chunk_graph,
                    namings_of(names@),
                    at as int,
                ) == Err::<Linking, BuildError>(error),
            },
    {
        self.begin_chunk();
        let ghost start = self.state();
        let ghost namings = namings_of(names@);
        let modules = &chunk_graph.chunks[at].modules;
        let mut i: usize = 0;
        while i < modules.len()
            invariant
                i <= modules.len(),
                self.wf(),
                self.count() == names@.len(),
                self.count() == old(self).count(),
                at < names@.len(),
                at < chunk_graph.chunks@.len(),
                *modules == chunk_graph.chunks@[at as int].modules,
                start == (Linking { chunks: old(self).state().chunks, seen: Seq::empty() }),
                namings == namings_of(names@),
                link_modules(start, graph, chunk_graph, namings, at as int, modules@, i as nat)
                    == Ok::<Linking, BuildError>(self.state()),
            decreases modules.len() - i,
        {
            let module = modules[i];
            let position = module.0 as usize;
            if position < graph.modules.len() {
                match &graph.modules[position] {
                    Module::Normal(normal) => {
                        match self.link_symbols(graph, chunk_graph, names, at, &normal.references) {
                            Ok(_) => {},
                            Err(error) => {
                                proof {
                                    lemma_link_modules_fails(
                                        start,
                                        graph,
                                        chunk_graph,
                                        namings,
                                        at as int,
                                        modules@,
                                        (i + 1) as nat,
                                        modules@.len(),
                                    );
                                }
                                return Err(error);
                            },
                        }
                    },
                    Module::External(_) => {},
                }
            }
            i += 1;
        }
        Ok(())
    }

    /// Takes the tables of the last chunk out.
    pub(crate) fn pop(&mut self) -> (tables: (
        OrderedMap<ChunkId, Vec<CrossChunkImportItem>>,
        OrderedMap<ModuleId, Vec<NamedImport>>,
        OrderedMap<SymbolRef, String>,
    ))
        requires
            old(self).wf(),
            old(self).count() > 0,
        ensures
            final(self).wf(),
            final(self).count() == old(self).count() - 1,
            final(self).state().chunks =~~= old(self).state().chunks.drop_last(),
            links_of(tables.0, tables.1, tables.2) == old(self).state().chunks.last(),
            tables.0.wf(),
            tables.1.wf(),
            tables.2.wf(),
    {
        let ghost last = self.count() - 1;
        assert(self.imports@[last].wf());
        assert(self.externals@[last].wf());
        assert(self.exports@[last].wf());
        let imports = self.imports.pop().unwrap();
        let externals = self.externals.pop().unwrap();
        let exports = self.exports.pop().unwrap();
        proof {
            assert forall|c: int| 0 <= c < self.count() implies self.links_at(c) == old(
                self,
            ).links_at(c) by {}
            assert forall|c: int| 0 <= c < self.imports@.len() implies (
            #[trigger] self.imports@[c]).wf() by {
                assert(old(self).imports@[c].wf());
            }
            assert forall|c: int| 0 <= c < self.imports@.len() implies (
            #[trigger] self.externals@[c]).wf() by {
                assert(old(self).externals@[c].wf());
            }
            assert forall|c: int| 0 <= c < self.imports@.len() implies (
            #[trigger] self.exports@[c]).wf() by {
                assert(old(self).exports@[c].wf());
            }
        }
        (imports, externals, exports)
    }
}

} // verus!
