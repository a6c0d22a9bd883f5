//! The import and export statements that a chunk generates.

use crate::chunk::{Chunk, ChunkGraph, CrossChunkImportItem, NamedImport};
use crate::error::{gather, lemma_gather_fails, lemma_gather_step, BuildError};
use crate::graph::{LinkStageOutput, Module};
use crate::ids::{ChunkId, SymbolRef};
use crate::text::{
    binding, binding_text, export_statement, export_statement_text, import_statement,
    import_statement_text, join_with, joined, views,
};
use vstd::prelude::*;

verus! {

impl Chunk {
    /// The chunk's name for `symbol`, where it has one.
    pub open spec fn name_of(&self, symbol: SymbolRef) -> Seq<char> {
        self.canonical_names.value_of(symbol)@
    }

    /// The binding that takes `item` from the chunk `from`: the name under
    /// which that chunk exports the symbol, and this chunk's own name for it.
    /// The symbol dangles where this chunk has no name for it or its owner
    /// is not a module of `from`.
    pub open spec fn cross_chunk_binding(
        &self,
        chunk_graph: &ChunkGraph,
        from: ChunkId,
        item: CrossChunkImportItem,
    ) -> Result<Seq<char>, BuildError> {
        if self.canonical_names.contains_key(item.import_ref) && chunk_graph.chunk_of(
            item.import_ref.owner,
        ) == Some(from) {
            let local = self.name_of(item.import_ref);
            Ok(
                binding(
                    match item.export_alias {
                        Some(alias) => alias@,
                        None => local,
                    },
                    local,
                ),
            )
        } else {
            Err(BuildError::DanglingReference { symbol: item.import_ref })
        }
    }

    /// The bindings of the group at `position` among the imports from other
    /// chunks.
    pub open spec fn cross_chunk_bindings(&self, chunk_graph: &ChunkGraph, position: int) -> Seq<
        Result<Seq<char>, BuildError>,
    > {
        let from = self.imports_from_other_chunks.keys()[position];
        let items = self.imports_from_other_chunks.groups()[position];
        Seq::new(items.len(), |k: int| self.cross_chunk_binding(chunk_graph, from, items[k]))
    }

    /// The statement that imports the group at `position` among the imports
    /// from other chunks, from the file of the chunk that the group names.
    pub open spec fn cross_chunk_import(&self, chunk_graph: &ChunkGraph, position: int) -> Result<
        Seq<char>,
        BuildError,
    > {
        let from = self.imports_from_other_chunks.keys()[position];
        if from.0 < chunk_graph.chunks@.len() && chunk_graph.chunks@[from.0 as int].file_name
            is Some {
            match gather(self.cross_chunk_bindings(chunk_graph, position)) {
                Ok(bindings) => Ok(
                    import_statement(
                        bindings,
                        "./"@ + chunk_graph.chunks@[from.0 as int].file_name->Some_0@,
                    ),
                ),
                Err(error) => Err(error),
            }
        } else {
            Err(BuildError::UnresolvedChunk { chunk: from })
        }
    }

    /// The statements that import from other chunks, one for each group.
    pub open spec fn cross_chunk_imports(&self, chunk_graph: &ChunkGraph) -> Seq<
        Result<Seq<char>, BuildError>,
    > {
        Seq::new(
            self.imports_from_other_chunks.keys().len(),
            |i: int| self.cross_chunk_import(chunk_graph, i),
        )
    }

    /// Writes the statement that imports the group at `position` among the
    /// imports from other chunks.
    fn render_cross_chunk_import(&self, chunk_graph: &ChunkGraph, position: usize) -> (statement:
        Result<String, BuildError>)
        requires
            position < self.imports_from_other_chunks.keys().len(),
        ensures
            match statement {
                Ok(text) => self.cross_chunk_import(chunk_graph, position as int) == Ok::<
                    Seq<char>,
                    BuildError,
                >(text@),
                Err(error) => self.cross_chunk_import(chunk_graph, position as int) == Err::<
                    Seq<char>,
                    BuildError,
                >(error),
            },
    {
        let from = self.imports_from_other_chunks.key_at(position);
        let items = self.imports_from_other_chunks.value_at(position);
        let index = from.0 as usize;
        if index >= chunk_graph.chunks.len() {
            return Err(BuildError::UnresolvedChunk { chunk: from });
        }
        let file_name = match &chunk_graph.chunks[index].file_name {
            Some(file_name) => file_name,
            None => {
                return Err(BuildError::UnresolvedChunk { chunk: from });
            },
        };
        let ghost results = self.cross_chunk_bindings(chunk_graph, position as int);
        let mut bindings: Vec<String> = Vec::new();
        let mut k: usize = 0;
        proof {
            assert(results.take(0) =~= Seq::empty());
            assert(views(bindings@) =~= Seq::empty());
        }
        while k < items.len()
            invariant
                k <= items.len(),
                position < self.imports_from_other_chunks.keys().len(),
                self.imports_from_other_chunks.wf(),
                from == self.imports_from_other_chunks.keys()[position as int],
                *items == self.imports_from_other_chunks.values()[position as int],
                from.0 < chunk_graph.chunks@.len(),
                chunk_graph.chunks@[from.0 as int].file_name is Some,
                results == self.cross_chunk_bindings(chunk_graph, position as int),
                gather(results.take(k as int)) == Ok::<Seq<Seq<char>>, BuildError>(
                    views(bindings@),
                ),
            decreases items.len() - k,
        {
            let item = &items[k];
            let ghost before = views(bindings@);
            proof {
                lemma_gather_step(results, k as int);
            }
            let local = match self.canonical_names.get(item.import_ref) {
                Some(local) => local,
                None => {
                    proof {
                        lemma_gather_fails(results, k as int + 1);
                    }
                    return Err(BuildError::DanglingReference { symbol: item.import_ref });
                },
            };
            match chunk_graph.owner_chunk(item.import_ref.owner) {
                Some(owner) if owner == from => {},
                _ => {
                    proof {
                        lemma_gather_fails(results, k as int + 1);
                    }
                    return Err(BuildError::DanglingReference { symbol: item.import_ref });
                },
            }
            let text = match &item.export_alias {
                Some(alias) => binding_text(alias, local),
                None => binding_text(local, local),
            };
            bindings.push(text);
            proof {
                assert(views(bindings@) =~= before.push(text@));
            }
            k += 1;
        }
        proof {
            assert(results.take(k as int) =~= results);
        }
        let mut source = "./".to_string();
        source.append(file_name.as_str());
        Ok(import_statement_text(&bindings, source.as_str()))
    }

    /// The binding that takes `import` from its external module.
    pub open spec fn external_binding(import: NamedImport) -> Seq<char> {
        binding(
            import.imported@,
            match import.alias {
                Some(alias) => alias@,
                None => import.imported@,
            },
        )
    }

    /// The statement that imports the group at `position` among the imports
    /// from external modules, from the specifier of the module that the
    /// group names.
    pub open spec fn external_import(&self, graph: &LinkStageOutput, position: int) -> Result<
        Seq<char>,
        BuildError,
    > {
        let module = self.imports_from_external_modules.keys()[position];
        let imports = self.imports_from_external_modules.groups()[position];
        if graph.is_external(module.0 as int) {
            Ok(
                import_statement(
                    Seq::new(imports.len(), |k: int| Self::external_binding(imports[k])),
                    graph.modules@[module.0 as int]->External_0.resource_id@,
                ),
            )
        } else {
            Err(BuildError::UnknownModule { module })
        }
    }

    /// The statements that import from external modules, one for each group.
    pub open spec fn external_imports(&self, graph: &LinkStageOutput) -> Seq<
        Result<Seq<char>, BuildError>,
    > {
        Seq::new(
            self.imports_from_external_modules.keys().len(),
            |i: int| self.external_import(graph, i),
        )
    }

    /// The import statements of the chunk, one on each line: first those
    /// from other chunks, then those from external modules, each kind in the
    /// order of first use. The first group that cannot be resolved gives its
    /// error instead.
    pub open spec fn imports_text(
        &self,
        graph: &LinkStageOutput,
        chunk_graph: &ChunkGraph,
    ) -> Result<Seq<char>, BuildError> {
        match gather(self.cross_chunk_imports(chunk_graph) + self.external_imports(graph)) {
            Ok(statements) => Ok(joined(statements, "\n"@)),
            Err(error) => Err(error),
        }
    }

    /// Writes the statement that imports the group at `position` among the
    /// imports from external modules.
    fn render_external_import(&self, graph: &LinkStageOutput, position: usize) -> (statement:
        Result<String, BuildError>)
        requires
            position < self.imports_from_external_modules.keys().len(),
        ensures
            match statement {
                Ok(text) => self.external_import(graph, position as int) == Ok::<
                    Seq<char>,
                    BuildError,
                >(text@),
                Err(error) => self.external_import(graph, position as int) == Err::<
                    Seq<char>,
                    BuildError,
                >(error),
            },
    {
        let module = self.imports_from_external_modules.key_at(position);
        let imports = self.imports_from_external_modules.value_at(position);
        let index = module.0 as usize;
        if index >= graph.modules.len() {
            return Err(BuildError::UnknownModule { module });
        }
        let external = match &graph.modules[index] {
            Module::External(external) => external,
            Module::Normal(_) => {
                return Err(BuildError::UnknownModule { module });
            },
        };
        let ghost wanted = Seq::new(
            imports@.len(),
            |k: int| Self::external_binding(imports@[k]),
        );
        let mut bindings: Vec<String> = Vec::new();
        let mut k: usize = 0;
        while k < imports.len()
            invariant
                k <= imports.len(),
                wanted == Seq::new(imports@.len(), |k: int| Self::external_binding(imports@[k])),
                views(bindings@) =~= wanted.take(k as int),
            decreases imports.len() - k,
        {
            let import = &imports[k];
            let text = match &import.alias {
                Some(alias) => binding_text(&import.imported, alias),
                None => binding_text(&import.imported, &import.imported),
            };
            let ghost before = views(bindings@);
            bindings.push(text);
            proof {
                assert(text@ == Self::external_binding(imports@[k as int]));
                assert(views(bindings@) =~= before.push(text@));
                assert(wanted.take(k as int + 1) =~= wanted.take(k as int).push(wanted[k as int]));
            }
            k += 1;
        }
        proof {
            assert(wanted.take(k as int) =~= wanted);
            assert(views(bindings@) == wanted);
        }
        Ok(import_statement_text(&bindings, external.resource_id.as_str()))
    }

    /// Writes the import statements of the chunk.
    pub fn render_imports_for_esm(&self, graph: &LinkStageOutput, chunk_graph: &ChunkGraph) -> (text:
        Result<String, BuildError>)
        ensures
            match text {
                Ok(text) => self.imports_text(graph, chunk_graph) == Ok::<Seq<char>, BuildError>(
                    text@,
                ),
                Err(error) => self.imports_text(graph, chunk_graph) == Err::<
                    Seq<char>,
                    BuildError,
                >(error),
            },
    {
        let from_chunks = self.imports_from_other_chunks.len();
        let from_externals = self.imports_from_external_modules.len();
        let ghost results = self.cross_chunk_imports(chunk_graph) + self.external_imports(graph);
        let mut statements: Vec<String> = Vec::new();
        proof {
            assert(results.take(0) =~= Seq::empty());
            assert(views(statements@) =~= Seq::empty());
        }
        let mut i: usize = 0;
        while i < from_chunks
            invariant
                i <= from_chunks,
                from_chunks == self.imports_from_other_chunks.keys().len(),
                results == self.cross_chunk_imports(chunk_graph) + self.external_imports(graph),
                gather(results.take(i as int)) == Ok::<Seq<Seq<char>>, BuildError>(
                    views(statements@),
                ),
            decreases from_chunks - i,
        {
            let ghost before = views(statements@);
            proof {
                lemma_gather_step(results, i as int);
            }
            match self.render_cross_chunk_import(chunk_graph, i) {
                Ok(statement) => {
                    statements.push(statement);
                    proof {
                        assert(views(statements@) =~= before.push(statement@));
                    }
                },
                Err(error) => {
                    proof {
                        lemma_gather_fails(results, i as int + 1);
                    }
                    return Err(error);
                },
            }
            i += 1;
        }
        let mut j: usize = 0;
        while j < from_externals
            invariant
                j <= from_externals,
                from_chunks == self.imports_from_other_chunks.keys().len(),
                from_externals == self.imports_from_external_modules.keys().len(),
                results == self.cross_chunk_imports(chunk_graph) + self.external_imports(graph),
                gather(results.take(from_chunks + j)) == Ok::<Seq<Seq<char>>, BuildError>(
                    views(statements@),
                ),
            decreases from_externals - j,
        {
            let ghost before = views(statements@);
            proof {
                lemma_gather_step(results, from_chunks + j);
            }
            match self.render_external_import(graph, j) {
                Ok(statement) => {
                    statements.push(statement);
                    proof {
                        assert(views(statements@) =~= before.push(statement@));
                    }
                },
                Err(error) => {
                    proof {
                        lemma_gather_fails(results, from_chunks + j + 1);
                    }
                    return Err(error);
                },
            }
            j += 1;
        }
        proof {
            assert(results.take(from_chunks + from_externals) =~= results);
        }
        Ok(join_with(&statements, "\n"))
    }

    /// The binding that exports the symbol at `position` among the exports:
    /// this chunk's name for it and the name under which it is exported. The
    /// symbol dangles where this chunk has no name for it.
    pub open spec fn export_binding(&self, position: int) -> Result<Seq<char>, BuildError> {
        let symbol = self.exports_to_other_chunks.keys()[position];
        if self.canonical_names.contains_key(symbol) {
            Ok(binding(self.name_of(symbol), self.exports_to_other_chunks.values()[position]@))
        } else {
            Err(BuildError::DanglingReference { symbol })
        }
    }

    /// The bindings of the exports, in the order in which the symbols were
    /// first exported.
    pub open spec fn export_bindings(&self) -> Seq<Result<Seq<char>, BuildError>> {
        Seq::new(self.exports_to_other_chunks.keys().len(), |i: int| self.export_binding(i))
    }

    /// The export statement of the chunk: none for an entry chunk and for a
    /// chunk that exports nothing, else one statement that lists every
    /// exported symbol. The first symbol that dangles gives its error
    /// instead.
    pub open spec fn exports_text(&self) -> Result<Option<Seq<char>>, BuildError> {
        if self.entry_point is Some || self.exports_to_other_chunks.keys().len() == 0 {
            Ok(None)
        } else {
            match gather(self.export_bindings()) {
                Ok(bindings) => Ok(Some(export_statement(bindings))),
                Err(error) => Err(error),
            }
        }
    }

    /// Writes the export statement of the chunk.
    pub fn render_exports(&self) -> (text: Result<Option<String>, BuildError>)
        ensures
            match text {
                Ok(Some(text)) => self.exports_text() == Ok::<Option<Seq<char>>, BuildError>(
                    Some(text@),
                ),
                Ok(None) => self.exports_text() == Ok::<Option<Seq<char>>, BuildError>(None),
                Err(error) => self.exports_text() == Err::<Option<Seq<char>>, BuildError>(error),
            },
    {
        let n = self.exports_to_other_chunks.len();
        if self.entry_point.is_some() || n == 0 {
            return Ok(None);
        }
        let ghost results = self.export_bindings();
        let mut bindings: Vec<String> = Vec::new();
        let mut i: usize = 0;
        proof {
            assert(results.take(0) =~= Seq::empty());
            assert(views(bindings@) =~= Seq::empty());
        }
        while i < n
            invariant
                i <= n,
                n == self.exports_to_other_chunks.keys().len(),
                n > 0,
                self.entry_point is None,
                self.exports_to_other_chunks.wf(),
                results == self.export_bindings(),
                gather(results.take(i as int)) == Ok::<Seq<Seq<char>>, BuildError>(
                    views(bindings@),
                ),
            decreases n - i,
        {
            let symbol = self.exports_to_other_chunks.key_at(i);
            let alias = self.exports_to_other_chunks.value_at(i);
            let ghost before = views(bindings@);
            proof {
                lemma_gather_step(results, i as int);
            }
            match self.canonical_names.get(symbol) {
                Some(name) => {
                    let text = binding_text(name, alias);
                    bindings.push(text);
                    proof {
                        assert(views(bindings@) =~= before.push(text@));
                    }
                },
                None => {
                    proof {
                        lemma_gather_fails(results, i as int + 1);
                    }
                    return Err(BuildError::DanglingReference { symbol });
                },
            }
            i += 1;
        }
        proof {
            assert(results.take(n as int) =~= results);
        }
        Ok(Some(export_statement_text(&bindings)))
    }
}

} // verus!
