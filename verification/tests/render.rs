use chunk_render::bitset::BitSet;
use chunk_render::chunk::{
    Chunk, ChunkGraph, CrossChunkImportItem, EntryPoint, EntryPointKind, NamedImport,
};
use chunk_render::error::BuildError;
use chunk_render::graph::{ExternalModule, LinkStageOutput, Module, NormalModule};
use chunk_render::ids::{ChunkId, ModuleId, SymbolRef};
use chunk_render::render::ModuleRendering;

fn normal(path: &str, source: &str, declared: &[&str]) -> Module {
    Module::Normal(NormalModule {
        resource_id: path.to_string(),
        source: source.to_string(),
        declared: declared.iter().map(|name| name.to_string()).collect(),
        references: Vec::new(),
    })
}

fn external(specifier: &str, bindings: &[&str]) -> Module {
    Module::External(ExternalModule {
        resource_id: specifier.to_string(),
        bindings: bindings.iter().map(|name| name.to_string()).collect(),
    })
}

fn chunk_of(modules: &[u32]) -> Chunk {
    Chunk::new(None, None, BitSet::new(8), modules.iter().map(|id| ModuleId(*id)).collect())
}

fn named(mut chunk: Chunk, file_name: &str) -> Chunk {
    chunk.file_name = Some(file_name.to_string());
    chunk
}

fn text(body: &str) -> ModuleRendering {
    ModuleRendering::Text(body.to_string())
}

fn symbol(owner: u32, slot: u32) -> SymbolRef {
    SymbolRef { owner: ModuleId(owner), symbol: slot }
}

fn no_chunks() -> ChunkGraph {
    ChunkGraph { chunks: Vec::new(), module_to_chunk: Vec::new() }
}

#[test]
fn render_joins_bodies_in_module_order() {
    let graph = LinkStageOutput {
        modules: vec![normal("a.js", "export const x = 1;", &["x"]), normal("b.js", "x;", &[])],
    };
    let chunk = chunk_of(&[0, 1]);
    let rendered = vec![text("const x = 1;"), text("x;")];
    let (joined, report) = chunk.render(&graph, &no_chunks(), &rendered).unwrap();
    assert_eq!(joined, "const x = 1;\nx;");
    assert_eq!(report.len(), 2);
    assert_eq!(report["a.js"].original_length, 19);
    assert_eq!(report["a.js"].rendered_length, 12);
    assert_eq!(report["b.js"].original_length, 2);
    assert_eq!(report["b.js"].rendered_length, 2);
}

#[test]
fn render_follows_the_module_list_not_the_module_ids() {
    let graph = LinkStageOutput {
        modules: vec![normal("a.js", "a", &[]), normal("b.js", "b", &[]), normal("c.js", "c", &[])],
    };
    let chunk = chunk_of(&[2, 0, 1]);
    let rendered = vec![text("third"), text("first"), text("second")];
    let (joined, _) = chunk.render(&graph, &no_chunks(), &rendered).unwrap();
    assert_eq!(joined, "third\nfirst\nsecond");
}

#[test]
fn render_of_a_chunk_without_modules_is_empty() {
    let graph = LinkStageOutput { modules: Vec::new() };
    let chunk = chunk_of(&[]);
    let (joined, report) = chunk.render(&graph, &no_chunks(), &Vec::new()).unwrap();
    assert_eq!(joined, "");
    assert!(report.is_empty());
}

#[test]
fn render_skips_modules_without_text() {
    let graph = LinkStageOutput {
        modules: vec![normal("a.js", "aa", &[]), normal("b.js", "bbb", &[]), normal("c.js", "c", &[])],
    };
    let chunk = chunk_of(&[0, 1, 2]);
    let rendered = vec![text("A"), ModuleRendering::Nothing, text("")];
    let (joined, report) = chunk.render(&graph, &no_chunks(), &rendered).unwrap();
    assert_eq!(joined, "A");
    assert_eq!(report.len(), 3);
    assert_eq!(report["b.js"].original_length, 3);
    assert_eq!(report["b.js"].rendered_length, 0);
    assert_eq!(report["c.js"].rendered_length, 0);
}

#[test]
fn render_counts_bytes_not_characters() {
    let graph = LinkStageOutput { modules: vec![normal("a.js", "é", &[])] };
    let chunk = chunk_of(&[0]);
    let (joined, report) = chunk.render(&graph, &no_chunks(), &vec![text("日本")]).unwrap();
    assert_eq!(joined, "日本");
    assert_eq!(report["a.js"].original_length, 2);
    assert_eq!(report["a.js"].rendered_length, 6);
}

#[test]
fn render_keeps_the_later_sizes_where_two_modules_share_a_path() {
    let graph = LinkStageOutput {
        modules: vec![normal("same.js", "1", &[]), normal("same.js", "22", &[])],
    };
    let chunk = chunk_of(&[0, 1]);
    let (_, report) = chunk.render(&graph, &no_chunks(), &vec![text("x"), text("yyy")]).unwrap();
    assert_eq!(report.len(), 1);
    assert_eq!(report["same.js"].original_length, 2);
    assert_eq!(report["same.js"].rendered_length, 3);
}

#[test]
fn external_modules_give_no_body_text() {
    let graph = LinkStageOutput {
        modules: vec![normal("a.js", "a", &[]), external("lodash", &["map"]), normal("b.js", "b", &[])],
    };
    let chunk = chunk_of(&[0, 1, 2]);
    let rendered = vec![text("A"), text("MUST NOT APPEAR"), text("B")];
    let (joined, report) = chunk.render(&graph, &no_chunks(), &rendered).unwrap();
    assert_eq!(joined, "A\nB");
    assert_eq!(report.len(), 2);
    assert!(!report.contains_key("lodash"));
    let failed = vec![text("A"), ModuleRendering::Failed("ignored".to_string()), text("B")];
    let (again, _) = chunk.render(&graph, &no_chunks(), &failed).unwrap();
    assert_eq!(again, joined);
}

#[test]
fn render_writes_imports_before_and_exports_after_the_bodies() {
    let graph = LinkStageOutput {
        modules: vec![normal("a.js", "a", &["x", "y"]), normal("b.js", "b", &["z"]), external("fs", &["readFile"])],
    };
    let mut producer = named(chunk_of(&[0]), "producer.js");
    producer.canonical_names.insert(symbol(0, 0), "x".to_string());
    producer.canonical_names.insert(symbol(0, 1), "y".to_string());
    let mut consumer = named(chunk_of(&[1]), "consumer.js");
    consumer.canonical_names.insert(symbol(1, 0), "z".to_string());
    consumer.canonical_names.insert(symbol(0, 0), "x$1".to_string());
    consumer.canonical_names.insert(symbol(0, 1), "y".to_string());
    consumer.imports_from_other_chunks.push_to(
        ChunkId(0),
        CrossChunkImportItem { export_alias: Some("x".to_string()), import_ref: symbol(0, 0) },
    );
    consumer.imports_from_other_chunks.push_to(
        ChunkId(0),
        CrossChunkImportItem { export_alias: Some("y".to_string()), import_ref: symbol(0, 1) },
    );
    consumer.imports_from_external_modules.push_to(
        ModuleId(2),
        NamedImport { imported: "readFile".to_string(), alias: Some("read".to_string()) },
    );
    consumer.exports_to_other_chunks.insert(symbol(1, 0), "zed".to_string());
    let chunk_graph = ChunkGraph {
        chunks: vec![producer, consumer],
        module_to_chunk: vec![Some(ChunkId(0)), Some(ChunkId(1)), None],
    };
    let (joined, _) =
        chunk_graph.chunks[1].render(&graph, &chunk_graph, &vec![text("body();")]).unwrap();
    assert_eq!(
        joined,
        "import { x as x$1, y } from \"./producer.js\";\nimport { readFile as read } from \"fs\";\nbody();\nexport { z as zed };"
    );
}

#[test]
fn imports_keep_the_order_of_first_use() {
    let graph = LinkStageOutput {
        modules: vec![normal("a.js", "", &["a"]), normal("b.js", "", &["b"]), normal("c.js", "", &[])],
    };
    let first = named(chunk_of(&[0]), "first.js");
    let second = named(chunk_of(&[1]), "second.js");
    let mut third = named(chunk_of(&[2]), "third.js");
    third.canonical_names.insert(symbol(1, 0), "b".to_string());
    third.canonical_names.insert(symbol(0, 0), "a".to_string());
    third.imports_from_other_chunks.push_to(
        ChunkId(1),
        CrossChunkImportItem { export_alias: Some("b".to_string()), import_ref: symbol(1, 0) },
    );
    third.imports_from_other_chunks.push_to(
        ChunkId(0),
        CrossChunkImportItem { export_alias: Some("a".to_string()), import_ref: symbol(0, 0) },
    );
    let chunk_graph = ChunkGraph {
        chunks: vec![first, second, third],
        module_to_chunk: vec![Some(ChunkId(0)), Some(ChunkId(1)), Some(ChunkId(2))],
    };
    let preamble = chunk_graph.chunks[2].render_imports_for_esm(&graph, &chunk_graph).unwrap();
    assert_eq!(preamble, "import { b } from \"./second.js\";\nimport { a } from \"./first.js\";");
}

#[test]
fn an_import_without_alias_uses_the_local_name() {
    let graph = LinkStageOutput { modules: vec![normal("a.js", "", &["a"]), normal("b.js", "", &[])] };
    let owner = named(chunk_of(&[0]), "owner.js");
    let mut taker = named(chunk_of(&[1]), "taker.js");
    taker.canonical_names.insert(symbol(0, 0), "a".to_string());
    taker.imports_from_other_chunks.push_to(
        ChunkId(0),
        CrossChunkImportItem { export_alias: None, import_ref: symbol(0, 0) },
    );
    let chunk_graph = ChunkGraph {
        chunks: vec![owner, taker],
        module_to_chunk: vec![Some(ChunkId(0)), Some(ChunkId(1))],
    };
    let preamble = chunk_graph.chunks[1].render_imports_for_esm(&graph, &chunk_graph).unwrap();
    assert_eq!(preamble, "import { a } from \"./owner.js\";");
}

#[test]
fn an_external_group_without_bindings_is_imported_for_its_effects() {
    let graph = LinkStageOutput { modules: vec![external("polyfill", &[])] };
    let mut chunk = chunk_of(&[]);
    chunk.imports_from_external_modules.insert(ModuleId(0), Vec::new());
    let preamble = chunk.render_imports_for_esm(&graph, &no_chunks()).unwrap();
    assert_eq!(preamble, "import \"polyfill\";");
}

#[test]
fn an_external_import_without_alias_keeps_its_name() {
    let graph = LinkStageOutput { modules: vec![external("react", &["useState", "useMemo"])] };
    let mut chunk = chunk_of(&[]);
    chunk.imports_from_external_modules.push_to(
        ModuleId(0),
        NamedImport { imported: "useState".to_string(), alias: None },
    );
    chunk.imports_from_external_modules.push_to(
        ModuleId(0),
        NamedImport { imported: "useMemo".to_string(), alias: Some("useMemo".to_string()) },
    );
    let preamble = chunk.render_imports_for_esm(&graph, &no_chunks()).unwrap();
    assert_eq!(preamble, "import { useState, useMemo } from \"react\";");
}

#[test]
fn an_entry_chunk_renders_no_exports() {
    let graph = LinkStageOutput { modules: vec![normal("a.js", "", &["x"])] };
    for kind in [EntryPointKind::UserDefined, EntryPointKind::DynamicImport] {
        let mut chunk = Chunk::new(
            None,
            Some(EntryPoint { name: None, module: ModuleId(0), kind }),
            BitSet::new(1),
            vec![ModuleId(0)],
        );
        chunk.canonical_names.insert(symbol(0, 0), "x".to_string());
        chunk.exports_to_other_chunks.insert(symbol(0, 0), "x".to_string());
        assert_eq!(chunk.render_exports().unwrap(), None);
        let (joined, _) = chunk.render(&graph, &no_chunks(), &vec![text("const x = 1;")]).unwrap();
        assert_eq!(joined, "const x = 1;");
    }
}

#[test]
fn a_chunk_without_exports_renders_no_export_statement() {
    let chunk = chunk_of(&[]);
    assert_eq!(chunk.render_exports().unwrap(), None);
}

#[test]
fn exports_keep_the_order_of_first_export() {
    let mut chunk = chunk_of(&[0]);
    chunk.canonical_names.insert(symbol(0, 0), "a".to_string());
    chunk.canonical_names.insert(symbol(0, 1), "b".to_string());
    chunk.exports_to_other_chunks.insert(symbol(0, 1), "b".to_string());
    chunk.exports_to_other_chunks.insert(symbol(0, 0), "alpha".to_string());
    assert_eq!(chunk.render_exports().unwrap(), Some("export { b, a as alpha };".to_string()));
}

#[test]
fn module_failures_are_reported_together() {
    let graph = LinkStageOutput {
        modules: vec![
            normal("a.js", "", &[]),
            normal("b.js", "", &[]),
            normal("c.js", "", &[]),
            normal("d.js", "", &[]),
        ],
    };
    let chunk = chunk_of(&[0, 1, 2, 3]);
    let rendered = vec![
        ModuleRendering::Failed("bad syntax".to_string()),
        text("fine"),
        ModuleRendering::Failed("worse syntax".to_string()),
    ];
    let errors = chunk.render(&graph, &no_chunks(), &rendered).unwrap_err();
    assert_eq!(errors.len(), 3);
    assert!(matches!(
        &errors[0],
        BuildError::RenderFailed { module: ModuleId(0), message } if message == "bad syntax"
    ));
    assert!(matches!(
        &errors[1],
        BuildError::RenderFailed { module: ModuleId(2), message } if message == "worse syntax"
    ));
    assert!(matches!(&errors[2], BuildError::NotRendered { module: ModuleId(3) }));
}

#[test]
fn a_module_that_the_table_lacks_ends_the_rendering() {
    let graph = LinkStageOutput { modules: vec![normal("a.js", "", &[])] };
    let chunk = chunk_of(&[0, 7, 9]);
    let rendered = vec![ModuleRendering::Failed("first".to_string())];
    let errors = chunk.render(&graph, &no_chunks(), &rendered).unwrap_err();
    assert_eq!(errors.len(), 1);
    assert!(matches!(&errors[0], BuildError::UnknownModule { module: ModuleId(7) }));
}

#[test]
fn an_import_from_a_chunk_without_file_name_ends_the_rendering() {
    let graph = LinkStageOutput { modules: vec![normal("a.js", "", &["a"]), normal("b.js", "", &[])] };
    let owner = chunk_of(&[0]);
    let mut taker = chunk_of(&[1]);
    taker.canonical_names.insert(symbol(0, 0), "a".to_string());
    taker.imports_from_other_chunks.push_to(
        ChunkId(0),
        CrossChunkImportItem { export_alias: Some("a".to_string()), import_ref: symbol(0, 0) },
    );
    let chunk_graph = ChunkGraph {
        chunks: vec![owner, taker],
        module_to_chunk: vec![Some(ChunkId(0)), Some(ChunkId(1))],
    };
    let errors = chunk_graph.chunks[1].render(&graph, &chunk_graph, &vec![text("b")]).unwrap_err();
    assert_eq!(errors.len(), 1);
    assert!(matches!(&errors[0], BuildError::UnresolvedChunk { chunk: ChunkId(0) }));
}

#[test]
fn an_import_from_a_chunk_that_the_graph_lacks_ends_the_rendering() {
    let graph = LinkStageOutput { modules: vec![normal("a.js", "", &["a"])] };
    let mut taker = chunk_of(&[]);
    taker.imports_from_other_chunks.insert(ChunkId(5), Vec::new());
    let error = taker.render_imports_for_esm(&graph, &no_chunks()).unwrap_err();
    assert!(matches!(error, BuildError::UnresolvedChunk { chunk: ChunkId(5) }));
}

#[test]
fn an_imported_symbol_without_local_name_dangles() {
    let graph = LinkStageOutput { modules: vec![normal("a.js", "", &["a"]), normal("b.js", "", &[])] };
    let owner = named(chunk_of(&[0]), "owner.js");
    let mut taker = named(chunk_of(&[1]), "taker.js");
    taker.imports_from_other_chunks.push_to(
        ChunkId(0),
        CrossChunkImportItem { export_alias: Some("a".to_string()), import_ref: symbol(0, 0) },
    );
    let chunk_graph = ChunkGraph {
        chunks: vec![owner, taker],
        module_to_chunk: vec![Some(ChunkId(0)), Some(ChunkId(1))],
    };
    let errors = chunk_graph.chunks[1].render(&graph, &chunk_graph, &vec![text("b")]).unwrap_err();
    assert_eq!(errors.len(), 1);
    assert!(matches!(
        &errors[0],
        BuildError::DanglingReference { symbol: SymbolRef { owner: ModuleId(0), symbol: 0 } }
    ));
}

#[test]
fn an_imported_symbol_whose_owner_is_in_another_chunk_dangles() {
    let graph = LinkStageOutput { modules: vec![normal("a.js", "", &["a"]), normal("b.js", "", &[])] };
    let owner = named(chunk_of(&[0]), "owner.js");
    let mut taker = named(chunk_of(&[1]), "taker.js");
    taker.canonical_names.insert(symbol(0, 0), "a".to_string());
    taker.imports_from_other_chunks.push_to(
        ChunkId(0),
        CrossChunkImportItem { export_alias: Some("a".to_string()), import_ref: symbol(0, 0) },
    );
    let chunk_graph = ChunkGraph {
        chunks: vec![owner, taker],
        module_to_chunk: vec![None, Some(ChunkId(1))],
    };
    let error = chunk_graph.chunks[1].render_imports_for_esm(&graph, &chunk_graph).unwrap_err();
    assert!(matches!(
        error,
        BuildError::DanglingReference { symbol: SymbolRef { owner: ModuleId(0), symbol: 0 } }
    ));
}

#[test]
fn an_import_from_a_module_that_is_not_external_ends_the_rendering() {
    let graph = LinkStageOutput { modules: vec![normal("a.js", "", &[])] };
    let mut chunk = chunk_of(&[]);
    chunk.imports_from_external_modules.insert(ModuleId(0), Vec::new());
    let error = chunk.render_imports_for_esm(&graph, &no_chunks()).unwrap_err();
    assert!(matches!(error, BuildError::UnknownModule { module: ModuleId(0) }));
    let mut other = chunk_of(&[]);
    other.imports_from_external_modules.insert(ModuleId(3), Vec::new());
    let error = other.render_imports_for_esm(&graph, &no_chunks()).unwrap_err();
    assert!(matches!(error, BuildError::UnknownModule { module: ModuleId(3) }));
}

#[test]
fn an_exported_symbol_without_name_dangles() {
    let graph = LinkStageOutput { modules: vec![normal("a.js", "", &["a"])] };
    let mut chunk = chunk_of(&[0]);
    chunk.exports_to_other_chunks.insert(symbol(0, 0), "a".to_string());
    let errors = chunk
        .render(&graph, &no_chunks(), &vec![ModuleRendering::Failed("late".to_string())])
        .unwrap_err();
    assert_eq!(errors.len(), 1);
    assert!(matches!(
        &errors[0],
        BuildError::DanglingReference { symbol: SymbolRef { owner: ModuleId(0), symbol: 0 } }
    ));
}

#[test]
fn rendering_twice_gives_the_same_text_and_report() {
    let graph = LinkStageOutput {
        modules: vec![normal("a.js", "aaa", &["x"]), normal("b.js", "bb", &[]), external("fs", &["readFile"])],
    };
    let mut chunk = named(chunk_of(&[0, 2, 1]), "main.js");
    chunk.canonical_names.insert(symbol(0, 0), "x".to_string());
    chunk.exports_to_other_chunks.insert(symbol(0, 0), "x".to_string());
    chunk.imports_from_external_modules.push_to(
        ModuleId(2),
        NamedImport { imported: "readFile".to_string(), alias: None },
    );
    let rendered = vec![text("const x = readFile;"), ModuleRendering::Nothing, text("x();")];
    let (first, first_report) = chunk.render(&graph, &no_chunks(), &rendered).unwrap();
    let (second, second_report) = chunk.render(&graph, &no_chunks(), &rendered).unwrap();
    assert_eq!(first, "import { readFile } from \"fs\";\nconst x = readFile;\nx();\nexport { x };");
    assert_eq!(first, second);
    assert_eq!(first_report, second_report);
}
