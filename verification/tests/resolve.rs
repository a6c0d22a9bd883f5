use chunk_render::bitset::BitSet;
use chunk_render::chunk::{Chunk, ChunkGraph, EntryPoint, EntryPointKind};
use chunk_render::error::BuildError;
use chunk_render::graph::{ExternalModule, LinkStageOutput, Module, NormalModule};
use chunk_render::ids::{ChunkId, ModuleId, SymbolRef};
use chunk_render::render::ModuleRendering;
use chunk_render::resolve::{name_chunk, resolve};

fn module(path: &str, declared: &[&str], references: &[(u32, u32)]) -> Module {
    Module::Normal(NormalModule {
        resource_id: path.to_string(),
        source: String::new(),
        declared: declared.iter().map(|name| name.to_string()).collect(),
        references: references
            .iter()
            .map(|(owner, slot)| SymbolRef { owner: ModuleId(*owner), symbol: *slot })
            .collect(),
    })
}

fn outside(specifier: &str, bindings: &[&str]) -> Module {
    Module::External(ExternalModule {
        resource_id: specifier.to_string(),
        bindings: bindings.iter().map(|name| name.to_string()).collect(),
    })
}

fn chunk(file_name: &str, modules: &[u32]) -> Chunk {
    let mut chunk =
        Chunk::new(None, None, BitSet::new(8), modules.iter().map(|id| ModuleId(*id)).collect());
    chunk.file_name = Some(file_name.to_string());
    chunk
}

fn sym(owner: u32, slot: u32) -> SymbolRef {
    SymbolRef { owner: ModuleId(owner), symbol: slot }
}

fn names(chunk: &Chunk) -> Vec<(SymbolRef, String)> {
    (0..chunk.canonical_names.len())
        .map(|i| (chunk.canonical_names.key_at(i), chunk.canonical_names.value_at(i).clone()))
        .collect()
}

fn exports(chunk: &Chunk) -> Vec<(SymbolRef, String)> {
    (0..chunk.exports_to_other_chunks.len())
        .map(|i| {
            (
                chunk.exports_to_other_chunks.key_at(i),
                chunk.exports_to_other_chunks.value_at(i).clone(),
            )
        })
        .collect()
}

fn imports(chunk: &Chunk) -> Vec<(ChunkId, Vec<(Option<String>, SymbolRef)>)> {
    (0..chunk.imports_from_other_chunks.len())
        .map(|i| {
            (
                chunk.imports_from_other_chunks.key_at(i),
                chunk
                    .imports_from_other_chunks
                    .value_at(i)
                    .iter()
                    .map(|item| (item.export_alias.clone(), item.import_ref))
                    .collect(),
            )
        })
        .collect()
}

fn external_imports(chunk: &Chunk) -> Vec<(ModuleId, Vec<(String, Option<String>)>)> {
    (0..chunk.imports_from_external_modules.len())
        .map(|i| {
            (
                chunk.imports_from_external_modules.key_at(i),
                chunk
                    .imports_from_external_modules
                    .value_at(i)
                    .iter()
                    .map(|import| (import.imported.clone(), import.alias.clone()))
                    .collect(),
            )
        })
        .collect()
}

fn shared_symbol_graph() -> (LinkStageOutput, ChunkGraph) {
    let graph = LinkStageOutput {
        modules: vec![
            module("a.js", &["x"], &[]),
            module("b.js", &[], &[(0, 0)]),
            module("d.js", &[], &[(0, 0)]),
        ],
    };
    let chunk_graph = ChunkGraph {
        chunks: vec![chunk("c.js", &[0, 1]), chunk("d.js", &[2])],
        module_to_chunk: vec![Some(ChunkId(0)), Some(ChunkId(0)), Some(ChunkId(1))],
    };
    (graph, chunk_graph)
}

#[test]
fn a_symbol_shared_with_another_chunk_is_exported_and_imported() {
    let (graph, chunk_graph) = shared_symbol_graph();
    let resolved = resolve(chunk_graph, &graph).unwrap();
    let c = &resolved.chunks[0];
    let d = &resolved.chunks[1];
    assert_eq!(names(c), vec![(sym(0, 0), "x".to_string())]);
    assert_eq!(exports(c), vec![(sym(0, 0), "x".to_string())]);
    assert!(imports(c).is_empty());
    assert_eq!(names(d), vec![(sym(0, 0), "x".to_string())]);
    assert_eq!(imports(d), vec![(ChunkId(0), vec![(Some("x".to_string()), sym(0, 0))])]);
    assert!(exports(d).is_empty());
}

#[test]
fn a_resolved_chunk_renders_imports_bodies_and_exports() {
    let (graph, chunk_graph) = shared_symbol_graph();
    let resolved = resolve(chunk_graph, &graph).unwrap();
    let bodies = vec![
        ModuleRendering::Text("const x = 1;".to_string()),
        ModuleRendering::Text("console.log(x);".to_string()),
    ];
    let (c_text, _) = resolved.chunks[0].render(&graph, &resolved, &bodies).unwrap();
    assert_eq!(c_text, "const x = 1;\nconsole.log(x);\nexport { x };");
    let (d_text, _) = resolved.chunks[1]
        .render(&graph, &resolved, &vec![ModuleRendering::Text("use(x);".to_string())])
        .unwrap();
    assert_eq!(d_text, "import { x } from \"./c.js\";\nuse(x);");
}

#[test]
fn resolve_keeps_what_the_partition_says() {
    let graph = LinkStageOutput { modules: vec![module("a.js", &["x"], &[])] };
    let mut only = Chunk::new(
        Some("main".to_string()),
        Some(EntryPoint {
            name: Some("main".to_string()),
            module: ModuleId(0),
            kind: EntryPointKind::UserDefined,
        }),
        BitSet::new(3),
        vec![ModuleId(0)],
    );
    only.file_name = Some("main.js".to_string());
    only.bits.set_bit(2);
    let chunk_graph = ChunkGraph { chunks: vec![only], module_to_chunk: vec![Some(ChunkId(0))] };
    let resolved = resolve(chunk_graph, &graph).unwrap();
    let chunk = &resolved.chunks[0];
    assert_eq!(chunk.name.as_deref(), Some("main"));
    assert_eq!(chunk.file_name.as_deref(), Some("main.js"));
    assert_eq!(chunk.modules, vec![ModuleId(0)]);
    assert!(chunk.bits.has_bit(2));
    assert!(!chunk.bits.has_bit(1));
    assert_eq!(chunk.entry_point.as_ref().unwrap().kind, EntryPointKind::UserDefined);
    assert_eq!(resolved.module_to_chunk, vec![Some(ChunkId(0))]);
}

#[test]
fn resolve_does_not_read_the_old_tables() {
    let (graph, mut chunk_graph) = shared_symbol_graph();
    chunk_graph.chunks[0].canonical_names.insert(sym(9, 9), "stale".to_string());
    chunk_graph.chunks[0].exports_to_other_chunks.insert(sym(9, 9), "stale".to_string());
    chunk_graph.chunks[1].imports_from_other_chunks.insert(ChunkId(7), Vec::new());
    let resolved = resolve(chunk_graph, &graph).unwrap();
    assert_eq!(names(&resolved.chunks[0]), vec![(sym(0, 0), "x".to_string())]);
    assert_eq!(exports(&resolved.chunks[0]), vec![(sym(0, 0), "x".to_string())]);
    assert_eq!(
        imports(&resolved.chunks[1]),
        vec![(ChunkId(0), vec![(Some("x".to_string()), sym(0, 0))])]
    );
}

#[test]
fn colliding_names_get_a_numbered_suffix_in_module_order() {
    let graph = LinkStageOutput {
        modules: vec![
            module("a.js", &["value", "other"], &[]),
            module("b.js", &["value"], &[]),
            module("c.js", &["value", "value$1"], &[]),
        ],
    };
    let table = name_chunk(&graph, &vec![ModuleId(0), ModuleId(1), ModuleId(2)]).unwrap();
    let got: Vec<String> = (0..table.len()).map(|i| table.value_at(i).clone()).collect();
    assert_eq!(got, vec!["value", "other", "value$1", "value$2", "value$1$1"]);
    let keys: Vec<SymbolRef> = (0..table.len()).map(|i| table.key_at(i)).collect();
    assert_eq!(keys, vec![sym(0, 0), sym(0, 1), sym(1, 0), sym(2, 0), sym(2, 1)]);
}

#[test]
fn a_declared_suffix_name_is_not_taken_twice() {
    let graph = LinkStageOutput {
        modules: vec![module("a.js", &["a", "a$1", "a"], &[])],
    };
    let table = name_chunk(&graph, &vec![ModuleId(0)]).unwrap();
    let got: Vec<String> = (0..table.len()).map(|i| table.value_at(i).clone()).collect();
    assert_eq!(got, vec!["a", "a$1", "a$2"]);
}

#[test]
fn suffixes_count_past_nine() {
    let declared: Vec<&str> = vec!["n"; 12];
    let graph = LinkStageOutput { modules: vec![module("a.js", &declared, &[])] };
    let table = name_chunk(&graph, &vec![ModuleId(0)]).unwrap();
    assert_eq!(table.len(), 12);
    assert_eq!(table.value_at(0), "n");
    assert_eq!(table.value_at(9), "n$9");
    assert_eq!(table.value_at(10), "n$10");
    assert_eq!(table.value_at(11), "n$11");
}

#[test]
fn every_name_of_a_chunk_is_unique() {
    let graph = LinkStageOutput {
        modules: vec![
            module("a.js", &["x", "x", "y", "x$1"], &[(1, 0), (2, 0)]),
            module("b.js", &["x", "y"], &[(0, 0)]),
            outside("ext", &["x", "y"]),
        ],
    };
    let chunk_graph = ChunkGraph {
        chunks: vec![chunk("a.js", &[0]), chunk("b.js", &[1])],
        module_to_chunk: vec![Some(ChunkId(0)), Some(ChunkId(1)), None],
    };
    let resolved = resolve(chunk_graph, &graph).unwrap();
    for chunk in &resolved.chunks {
        let mut seen: Vec<String> = names(chunk).into_iter().map(|(_, name)| name).collect();
        let total = seen.len();
        seen.sort();
        seen.dedup();
        assert_eq!(seen.len(), total);
    }
    assert_eq!(
        names(&resolved.chunks[0]).into_iter().map(|(_, name)| name).collect::<Vec<_>>(),
        vec!["x", "x$1", "y", "x$1$1", "x$2", "x$3"]
    );
}

#[test]
fn an_imported_symbol_is_renamed_where_its_name_is_taken() {
    let graph = LinkStageOutput {
        modules: vec![module("a.js", &["x"], &[]), module("b.js", &["x"], &[(0, 0)])],
    };
    let chunk_graph = ChunkGraph {
        chunks: vec![chunk("a.js", &[0]), chunk("b.js", &[1])],
        module_to_chunk: vec![Some(ChunkId(0)), Some(ChunkId(1))],
    };
    let resolved = resolve(chunk_graph, &graph).unwrap();
    assert_eq!(
        names(&resolved.chunks[1]),
        vec![(sym(1, 0), "x".to_string()), (sym(0, 0), "x$1".to_string())]
    );
    assert_eq!(exports(&resolved.chunks[0]), vec![(sym(0, 0), "x".to_string())]);
    let preamble = resolved.chunks[1].render_imports_for_esm(&graph, &resolved).unwrap();
    assert_eq!(preamble, "import { x as x$1 } from \"./a.js\";");
}

#[test]
fn every_import_has_its_export_and_every_export_its_import() {
    let graph = LinkStageOutput {
        modules: vec![
            module("a.js", &["a1", "a2"], &[(1, 0), (2, 0)]),
            module("b.js", &["b1"], &[(0, 1), (2, 0)]),
            module("c.js", &["c1", "c2"], &[(0, 0), (0, 1), (1, 0)]),
        ],
    };
    let chunk_graph = ChunkGraph {
        chunks: vec![chunk("a.js", &[0]), chunk("b.js", &[1]), chunk("c.js", &[2])],
        module_to_chunk: vec![Some(ChunkId(0)), Some(ChunkId(1)), Some(ChunkId(2))],
    };
    let resolved = resolve(chunk_graph, &graph).unwrap();
    let mut import_count = 0;
    for (at, chunk) in resolved.chunks.iter().enumerate() {
        for (from, items) in imports(chunk) {
            assert_ne!(from.0 as usize, at);
            let given = exports(&resolved.chunks[from.0 as usize]);
            for (alias, symbol) in items {
                import_count += 1;
                let alias = alias.unwrap();
                assert!(given.contains(&(symbol, alias)));
            }
        }
    }
    assert_eq!(import_count, 7);
    for (at, chunk) in resolved.chunks.iter().enumerate() {
        for (symbol, name) in exports(chunk) {
            let taken = resolved.chunks.iter().any(|other| {
                imports(other).into_iter().any(|(from, items)| {
                    from.0 as usize == at && items.contains(&(Some(name.clone()), symbol))
                })
            });
            assert!(taken);
        }
    }
    assert_eq!(
        exports(&resolved.chunks[0]),
        vec![(sym(0, 1), "a2".to_string()), (sym(0, 0), "a1".to_string())]
    );
    assert_eq!(
        imports(&resolved.chunks[2]),
        vec![
            (
                ChunkId(0),
                vec![(Some("a1".to_string()), sym(0, 0)), (Some("a2".to_string()), sym(0, 1))]
            ),
            (ChunkId(1), vec![(Some("b1".to_string()), sym(1, 0))]),
        ]
    );
}

#[test]
fn a_symbol_mentioned_twice_is_imported_once() {
    let graph = LinkStageOutput {
        modules: vec![
            module("a.js", &["x"], &[]),
            module("b.js", &[], &[(0, 0), (0, 0)]),
            module("c.js", &[], &[(0, 0)]),
        ],
    };
    let chunk_graph = ChunkGraph {
        chunks: vec![chunk("a.js", &[0]), chunk("bc.js", &[1, 2])],
        module_to_chunk: vec![Some(ChunkId(0)), Some(ChunkId(1)), Some(ChunkId(1))],
    };
    let resolved = resolve(chunk_graph, &graph).unwrap();
    assert_eq!(
        imports(&resolved.chunks[1]),
        vec![(ChunkId(0), vec![(Some("x".to_string()), sym(0, 0))])]
    );
    assert_eq!(exports(&resolved.chunks[0]), vec![(sym(0, 0), "x".to_string())]);
}

#[test]
fn external_bindings_become_named_imports() {
    let graph = LinkStageOutput {
        modules: vec![
            module("a.js", &["map"], &[(1, 0), (1, 1), (2, 0)]),
            outside("lodash", &["map", "filter"]),
            outside("fs", &["readFile"]),
        ],
    };
    let chunk_graph = ChunkGraph {
        chunks: vec![chunk("a.js", &[0, 1])],
        module_to_chunk: vec![Some(ChunkId(0)), None, None],
    };
    let resolved = resolve(chunk_graph, &graph).unwrap();
    let only = &resolved.chunks[0];
    assert_eq!(
        names(only),
        vec![
            (sym(0, 0), "map".to_string()),
            (sym(1, 0), "map$1".to_string()),
            (sym(1, 1), "filter".to_string()),
            (sym(2, 0), "readFile".to_string()),
        ]
    );
    assert_eq!(
        external_imports(only),
        vec![
            (
                ModuleId(1),
                vec![
                    ("map".to_string(), Some("map$1".to_string())),
                    ("filter".to_string(), None)
                ]
            ),
            (ModuleId(2), vec![("readFile".to_string(), None)]),
        ]
    );
    assert!(imports(only).is_empty());
    assert!(exports(only).is_empty());
    let (text, report) = only
        .render(
            &graph,
            &resolved,
            &vec![ModuleRendering::Text("map$1(filter);".to_string()), ModuleRendering::Nothing],
        )
        .unwrap();
    assert_eq!(
        text,
        "import { map as map$1, filter } from \"lodash\";\nimport { readFile } from \"fs\";\nmap$1(filter);"
    );
    assert_eq!(report.len(), 1);
}

#[test]
fn chunks_may_import_from_each_other() {
    let graph = LinkStageOutput {
        modules: vec![module("a.js", &["a"], &[(1, 0)]), module("b.js", &["b"], &[(0, 0)])],
    };
    let chunk_graph = ChunkGraph {
        chunks: vec![chunk("a.js", &[0]), chunk("b.js", &[1])],
        module_to_chunk: vec![Some(ChunkId(0)), Some(ChunkId(1))],
    };
    let resolved = resolve(chunk_graph, &graph).unwrap();
    assert_eq!(
        imports(&resolved.chunks[0]),
        vec![(ChunkId(1), vec![(Some("b".to_string()), sym(1, 0))])]
    );
    assert_eq!(
        imports(&resolved.chunks[1]),
        vec![(ChunkId(0), vec![(Some("a".to_string()), sym(0, 0))])]
    );
    assert_eq!(exports(&resolved.chunks[0]), vec![(sym(0, 0), "a".to_string())]);
    assert_eq!(exports(&resolved.chunks[1]), vec![(sym(1, 0), "b".to_string())]);
}

#[test]
fn resolving_twice_gives_the_same_tables() {
    let (graph, first_graph) = shared_symbol_graph();
    let (_, second_graph) = shared_symbol_graph();
    let first = resolve(first_graph, &graph).unwrap();
    let second = resolve(second_graph, &graph).unwrap();
    for (a, b) in first.chunks.iter().zip(second.chunks.iter()) {
        assert_eq!(names(a), names(b));
        assert_eq!(imports(a), imports(b));
        assert_eq!(exports(a), exports(b));
        assert_eq!(external_imports(a), external_imports(b));
    }
}

#[test]
fn a_mention_of_a_slot_that_the_owner_lacks_dangles() {
    let graph = LinkStageOutput {
        modules: vec![module("a.js", &["x"], &[(0, 1)])],
    };
    let chunk_graph =
        ChunkGraph { chunks: vec![chunk("a.js", &[0])], module_to_chunk: vec![Some(ChunkId(0))] };
    let error = resolve(chunk_graph, &graph).err().unwrap();
    assert!(matches!(
        error,
        BuildError::DanglingReference { symbol: SymbolRef { owner: ModuleId(0), symbol: 1 } }
    ));
}

#[test]
fn a_mention_of_a_module_that_the_table_lacks_dangles() {
    let graph = LinkStageOutput { modules: vec![module("a.js", &[], &[(4, 0)])] };
    let error = name_chunk(&graph, &vec![ModuleId(0)]).err().unwrap();
    assert!(matches!(
        error,
        BuildError::DanglingReference { symbol: SymbolRef { owner: ModuleId(4), symbol: 0 } }
    ));
}

#[test]
fn a_mention_of_a_module_in_no_chunk_dangles() {
    let graph = LinkStageOutput {
        modules: vec![module("a.js", &[], &[(1, 0)]), module("b.js", &["b"], &[])],
    };
    let chunk_graph = ChunkGraph {
        chunks: vec![chunk("a.js", &[0])],
        module_to_chunk: vec![Some(ChunkId(0)), None],
    };
    let error = resolve(chunk_graph, &graph).err().unwrap();
    assert!(matches!(
        error,
        BuildError::DanglingReference { symbol: SymbolRef { owner: ModuleId(1), symbol: 0 } }
    ));
}

#[test]
fn a_mention_of_a_module_in_a_chunk_that_does_not_list_it_dangles() {
    let graph = LinkStageOutput {
        modules: vec![module("a.js", &[], &[(1, 0)]), module("b.js", &["b"], &[])],
    };
    let chunk_graph = ChunkGraph {
        chunks: vec![chunk("a.js", &[0]), chunk("b.js", &[])],
        module_to_chunk: vec![Some(ChunkId(0)), Some(ChunkId(1))],
    };
    let error = resolve(chunk_graph, &graph).err().unwrap();
    assert!(matches!(
        error,
        BuildError::DanglingReference { symbol: SymbolRef { owner: ModuleId(1), symbol: 0 } }
    ));
    let chunk_graph = ChunkGraph {
        chunks: vec![chunk("a.js", &[0])],
        module_to_chunk: vec![Some(ChunkId(0)), Some(ChunkId(3))],
    };
    let error = resolve(chunk_graph, &graph).err().unwrap();
    assert!(matches!(
        error,
        BuildError::DanglingReference { symbol: SymbolRef { owner: ModuleId(1), symbol: 0 } }
    ));
}

#[test]
fn a_chunk_of_a_module_that_the_table_lacks_cannot_be_resolved() {
    let graph = LinkStageOutput { modules: vec![module("a.js", &["x"], &[])] };
    let chunk_graph = ChunkGraph {
        chunks: vec![chunk("a.js", &[0, 3])],
        module_to_chunk: vec![Some(ChunkId(0))],
    };
    let error = resolve(chunk_graph, &graph).err().unwrap();
    assert!(matches!(error, BuildError::UnknownModule { module: ModuleId(3) }));
}

#[test]
fn naming_errors_come_before_linking_errors() {
    let graph = LinkStageOutput {
        modules: vec![
            module("a.js", &[], &[(2, 0)]),
            module("b.js", &[], &[(0, 5)]),
            module("c.js", &["c"], &[]),
        ],
    };
    let chunk_graph = ChunkGraph {
        chunks: vec![chunk("a.js", &[0]), chunk("b.js", &[1])],
        module_to_chunk: vec![Some(ChunkId(0)), Some(ChunkId(1)), None],
    };
    let error = resolve(chunk_graph, &graph).err().unwrap();
    assert!(matches!(
        error,
        BuildError::DanglingReference { symbol: SymbolRef { owner: ModuleId(0), symbol: 5 } }
    ));
}
