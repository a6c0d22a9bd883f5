//! The render engine: import statements, module bodies and export statement
//! of one chunk, joined into its text.

use crate::chunk::{Chunk, ChunkGraph, RenderedModule};
use crate::error::{gather, lemma_gather_fails, lemma_gather_step, BatchedResult, BuildError};
use crate::graph::{LinkStageOutput, Module};
use crate::ids::ModuleId;
use crate::report::{report_entries, report_insert, report_new, SizeReport};
use crate::text::{byte_len, byte_length, join_lines, joined, nonempty, texts, MAX_SEGMENT_BYTES};
use vstd::prelude::*;

verus! {

/// What the module renderer made of one module of a chunk.
#[derive(Clone, Debug, PartialEq, Eq)]
pub enum ModuleRendering {
    /// The text of the module's body.
    Text(String),
    /// The module is valid and has no text to give.
    Nothing,
    /// The module could not be rendered; the message says why.
    Failed(String),
}

/// A batch that holds `error` alone.
fn alone(error: BuildError) -> (errors: Vec<BuildError>)
    ensures
        errors@ == seq![error],
{
    let mut errors = Vec::new();
    errors.push(error);
    proof {
        assert(errors@ =~= seq![error]);
    }
    errors
}

impl Chunk {
    /// The module at `position` of the chunk, where the module table holds
    /// it.
    pub open spec fn module_check(&self, graph: &LinkStageOutput, position: int) -> Result<
        ModuleId,
        BuildError,
    > {
        let module = self.modules@[position];
        if module.0 < graph.modules@.len() {
            Ok(module)
        } else {
            Err(BuildError::UnknownModule { module })
        }
    }

    /// The modules of the chunk, each looked up in the module table.
    pub open spec fn module_checks(&self, graph: &LinkStageOutput) -> Seq<
        Result<ModuleId, BuildError>,
    > {
        Seq::new(self.modules@.len(), |i: int| self.module_check(graph, i))
    }

    /// Why the module at `position` of the chunk gives no text, if it fails:
    /// an external module never fails; a normal one fails where no rendering
    /// was handed in for it, where its rendering failed, and where its
    /// source or its text is too long.
    pub open spec fn module_failure(
        &self,
        graph: &LinkStageOutput,
        rendered: Seq<ModuleRendering>,
        position: int,
    ) -> Option<BuildError> {
        let module = self.modules@[position];
        match graph.modules@[module.0 as int] {
            Module::External(_) => None,
            Module::Normal(normal) => if position >= rendered.len() {
                Some(BuildError::NotRendered { module })
            } else {
                match rendered[position] {
                    ModuleRendering::Failed(message) => Some(
                        BuildError::RenderFailed { module, message },
                    ),
                    ModuleRendering::Nothing => if byte_len(normal.source@) > MAX_SEGMENT_BYTES {
                        Some(BuildError::ModuleTooLarge { module })
                    } else {
                        None
                    },
                    ModuleRendering::Text(text) => if byte_len(normal.source@) > MAX_SEGMENT_BYTES
                        || byte_len(text@) > MAX_SEGMENT_BYTES {
                        Some(BuildError::ModuleTooLarge { module })
                    } else {
                        None
                    },
                }
            },
        }
    }

    /// The text that the module at `position` of the chunk gives: that of
    /// its rendering, where the module is a normal one that does not fail.
    pub open spec fn module_body(
        &self,
        graph: &LinkStageOutput,
        rendered: Seq<ModuleRendering>,
        position: int,
    ) -> Option<Seq<char>> {
        if graph.modules@[self.modules@[position].0 as int] is Normal && self.module_failure(
            graph,
            rendered,
            position,
        ) is None {
            match rendered[position] {
                ModuleRendering::Text(text) => Some(text@),
                _ => None,
            }
        } else {
            None
        }
    }

    /// The entry of the size report for the module at `position` of the
    /// chunk: the module's path, the bytes of its source and the bytes of
    /// its text, where the module is a normal one that does not fail.
    pub open spec fn module_sizes(
        &self,
        graph: &LinkStageOutput,
        rendered: Seq<ModuleRendering>,
        position: int,
    ) -> Option<(Seq<char>, RenderedModule)> {
        match graph.modules@[self.modules@[position].0 as int] {
            Module::Normal(normal) => if self.module_failure(graph, rendered, position) is None {
                Some(
                    (
                        normal.resource_id@,
                        RenderedModule {
                            original_length: byte_len(normal.source@) as u32,
                            rendered_length: match rendered[position] {
                                ModuleRendering::Text(text) => byte_len(text@) as u32,
                                _ => 0,
                            },
                        },
                    ),
                )
            } else {
                None
            },
            Module::External(_) => None,
        }
    }

    /// The failures of the first `count` modules of the chunk, in module
    /// order.
    pub open spec fn failures(
        &self,
        graph: &LinkStageOutput,
        rendered: Seq<ModuleRendering>,
        count: nat,
    ) -> Seq<BuildError>
        decreases count,
    {
        if count == 0 {
            Seq::empty()
        } else {
            let before = self.failures(graph, rendered, (count - 1) as nat);
            match self.module_failure(graph, rendered, count - 1) {
                Some(error) => before.push(error),
                None => before,
            }
        }
    }

    /// The texts of the first `count` modules of the chunk, in module order.
    pub open spec fn bodies(
        &self,
        graph: &LinkStageOutput,
        rendered: Seq<ModuleRendering>,
        count: nat,
    ) -> Seq<Seq<char>>
        decreases count,
    {
        if count == 0 {
            Seq::empty()
        } else {
            let before = self.bodies(graph, rendered, (count - 1) as nat);
            match self.module_body(graph, rendered, count - 1) {
                Some(text) => before.push(text),
                None => before,
            }
        }
    }

    /// The size report of the first `count` modules of the chunk: where two
    /// modules share a path, the later one's sizes stand.
    pub open spec fn size_report(
        &self,
        graph: &LinkStageOutput,
        rendered: Seq<ModuleRendering>,
        count: nat,
    ) -> Map<Seq<char>, RenderedModule>
        decreases count,
    {
        if count == 0 {
            Map::empty()
        } else {
            let before = self.size_report(graph, rendered, (count - 1) as nat);
            match self.module_sizes(graph, rendered, count - 1) {
                Some((path, sizes)) => before.insert(path, sizes),
                None => before,
            }
        }
    }

    /// The segments of the chunk's text: the import statements, the module
    /// bodies in module order, and the export statement if there is one.
    pub open spec fn segments(
        &self,
        graph: &LinkStageOutput,
        rendered: Seq<ModuleRendering>,
        preamble: Seq<char>,
        epilogue: Option<Seq<char>>,
    ) -> Seq<Seq<char>> {
        seq![preamble] + self.bodies(graph, rendered, self.modules@.len()) + match epilogue {
            Some(text) => seq![text],
            None => Seq::empty(),
        }
    }

    /// What rendering the chunk gives.
    ///
    /// An inconsistency of the tables ends the rendering and is reported
    /// alone; they are looked for in this order: an import group that names
    /// no chunk with a file or no external module, or an imported symbol
    /// that dangles; import statements that are too long; a module of the
    /// chunk that the module table lacks; an exported symbol that dangles;
    /// an export statement that is too long. Without one, the failures of
    /// all modules are reported together, in module order. Without any
    /// failure, the text is made of the segments that are not empty, in
    /// order, with one line break between each two neighbours, and comes
    /// with the size report.
    pub open spec fn rendered_chunk(
        &self,
        graph: &LinkStageOutput,
        chunk_graph: &ChunkGraph,
        rendered: Seq<ModuleRendering>,
    ) -> Result<(Seq<char>, Map<Seq<char>, RenderedModule>), Seq<BuildError>> {
        let count = self.modules@.len();
        match self.imports_text(graph, chunk_graph) {
            Err(error) => Err(seq![error]),
            Ok(preamble) => if byte_len(preamble) > MAX_SEGMENT_BYTES {
                Err(seq![BuildError::OutputTooLarge])
            } else {
                match gather(self.module_checks(graph)) {
                    Err(error) => Err(seq![error]),
                    Ok(_) => match self.exports_text() {
                        Err(error) => Err(seq![error]),
                        Ok(epilogue) => if epilogue is Some && byte_len(epilogue->Some_0)
                            > MAX_SEGMENT_BYTES {
                            Err(seq![BuildError::OutputTooLarge])
                        } else if self.failures(graph, rendered, count).len() > 0 {
                            Err(self.failures(graph, rendered, count))
                        } else {
                            Ok(
                                (
                                    joined(
                                        nonempty(self.segments(graph, rendered, preamble, epilogue)),
                                        "\n"@,
                                    ),
                                    self.size_report(graph, rendered, count),
                                ),
                            )
                        },
                    },
                }
            },
        }
    }

    /// Renders the chunk: its import statements, the text of each of its
    /// modules as `rendered` gives it, position by position, and its export
    /// statement, joined line by line; with the text comes the size report.
    /// What stands in `rendered` at the position of an external module is
    /// not read.
    pub fn render(
        &self,
        graph: &LinkStageOutput,
        chunk_graph: &ChunkGraph,
        rendered: &Vec<ModuleRendering>,
    ) -> (result: BatchedResult<(String, SizeReport)>)
        ensures
            match result {
                Ok((text, report)) => self.rendered_chunk(graph, chunk_graph, rendered@) == Ok::<
                    (Seq<char>, Map<Seq<char>, RenderedModule>),
                    Seq<BuildError>,
                >((text@, report_entries(report))),
                Err(errors) => self.rendered_chunk(graph, chunk_graph, rendered@) == Err::<
                    (Seq<char>, Map<Seq<char>, RenderedModule>),
                    Seq<BuildError>,
                >(errors@),
            },
    {
        let preamble = match self.render_imports_for_esm(graph, chunk_graph) {
            Ok(preamble) => preamble,
            Err(error) => {
                return Err(alone(error));
            },
        };
        if byte_length(preamble.as_str()) > MAX_SEGMENT_BYTES {
            return Err(alone(BuildError::OutputTooLarge));
        }
        let count = self.modules.len();
        let ghost checks = self.module_checks(graph);
        let mut parts: Vec<&str> = Vec::new();
        parts.push(preamble.as_str());
        let mut failures: Vec<BuildError> = Vec::new();
        let mut report = report_new();
        let mut i: usize = 0;
        proof {
            assert(checks.take(0) =~= Seq::empty());
            assert(texts(parts@) =~= seq![preamble@] + self.bodies(graph, rendered@, 0));
            assert(report_entries(report) =~= self.size_report(graph, rendered@, 0));
        }
        while i < count
            invariant
                i <= count,
                count == self.modules@.len(),
                checks == self.module_checks(graph),
                self.imports_text(graph, chunk_graph) == Ok::<Seq<char>, BuildError>(preamble@),
                byte_len(preamble@) <= MAX_SEGMENT_BYTES,
                gather(checks.take(i as int)) is Ok,
                failures@ == self.failures(graph, rendered@, i as nat),
                texts(parts@) == seq![preamble@] + self.bodies(graph, rendered@, i as nat),
                forall|k: int|
                    0 <= k < parts.len() ==> byte_len(#[trigger] parts[k]@) <= MAX_SEGMENT_BYTES,
                report_entries(report) == self.size_report(graph, rendered@, i as nat),
            decreases count - i,
        {
            let module = self.modules[i];
            let index = module.0 as usize;
            proof {
                lemma_gather_step(checks, i as int);
            }
            if index >= graph.modules.len() {
                proof {
                    lemma_gather_fails(checks, i as int + 1);
                }
                return Err(alone(BuildError::UnknownModule { module }));
            }
            let ghost parts_before = texts(parts@);
            match &graph.modules[index] {
                Module::External(_) => {},
                Module::Normal(normal) => {
                    let source_bytes = byte_length(normal.source.as_str());
                    if i >= rendered.len() {
                        failures.push(BuildError::NotRendered { module });
                    } else {
                        match &rendered[i] {
                            ModuleRendering::Failed(message) => {
                                failures.push(
                                    BuildError::RenderFailed { module, message: message.clone() },
                                );
                            },
                            ModuleRendering::Nothing => {
                                if source_bytes > MAX_SEGMENT_BYTES {
                                    failures.push(BuildError::ModuleTooLarge { module });
                                } else {
                                    report_insert(
                                        &mut report,
                                        normal.resource_id.clone(),
                                        RenderedModule {
                                            original_length: source_bytes as u32,
                                            rendered_length: 0,
                                        },
                                    );
                                }
                            },
                            ModuleRendering::Text(text) => {
                                let text_bytes = byte_length(text.as_str());
                                if source_bytes > MAX_SEGMENT_BYTES || text_bytes
                                    > MAX_SEGMENT_BYTES {
                                    failures.push(BuildError::ModuleTooLarge { module });
                                } else {
                                    report_insert(
                                        &mut report,
                                        normal.resource_id.clone(),
                                        RenderedModule {
                                            original_length: source_bytes as u32,
                                            rendered_length: text_bytes as u32,
                                        },
                                    );
                                    parts.push(text.as_str());
                                    proof {
                                        assert(texts(parts@) =~= parts_before.push(text@));
                                    }
                                }
                            },
                        }
                    }
                },
            }
            proof {
                assert(texts(parts@) =~= seq![preamble@] + self.bodies(
                    graph,
                    rendered@,
                    (i + 1) as nat,
                ));
            }
            i += 1;
        }
        proof {
            assert(checks.take(count as int) =~= checks);
        }
        let epilogue = match self.render_exports() {
            Ok(epilogue) => epilogue,
            Err(error) => {
                return Err(alone(error));
            },
        };
        let ghost parts_before = texts(parts@);
        let ghost epilogue_text = if epilogue is Some {
            Some(epilogue->Some_0@)
        } else {
            None
        };
        match &epilogue {
            Some(text) => {
                if byte_length(text.as_str()) > MAX_SEGMENT_BYTES {
                    return Err(alone(BuildError::OutputTooLarge));
                }
                parts.push(text.as_str());
                proof {
                    assert(texts(parts@) =~= parts_before.push(text@));
                }
            },
            None => {},
        }
        if failures.len() > 0 {
            return Err(failures);
        }
        proof {
            assert(texts(parts@) =~= self.segments(graph, rendered@, preamble@, epilogue_text));
        }
        match join_lines(&parts) {
            Some(text) => Ok((text, report)),
            None => Err(alone(BuildError::OutputTooLarge)),
        }
    }
}

} // verus!
