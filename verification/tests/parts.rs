use chunk_render::bitset::BitSet;
use chunk_render::chunk::{Chunk, EntryPoint, EntryPointKind};
use chunk_render::ids::{ChunkId, ModuleId, SymbolRef};
use chunk_render::naming::{candidate_text, decimal_text};
use chunk_render::options::{FileNameTemplate, OutputOptions};
use chunk_render::table::{OrderedMap, TableKey};
use chunk_render::text::{
    binding_text, byte_length, export_statement_text, import_statement_text, join_lines, join_with,
};

fn options() -> OutputOptions {
    OutputOptions {
        entry_file_names: FileNameTemplate { template: "[name].js".to_string() },
        chunk_file_names: FileNameTemplate { template: "[name]-[hash].js".to_string() },
    }
}

fn entry(kind: EntryPointKind) -> Option<EntryPoint> {
    Some(EntryPoint { name: Some("main".to_string()), module: ModuleId(0), kind })
}

#[test]
fn a_user_defined_entry_gets_the_entry_template() {
    let mut chunk =
        Chunk::new(None, entry(EntryPointKind::UserDefined), BitSet::new(1), vec![ModuleId(0)]);
    let options = options();
    assert_eq!(chunk.file_name_template(&options).template, "[name].js");
}

#[test]
fn a_dynamic_entry_gets_the_chunk_template() {
    let mut chunk =
        Chunk::new(None, entry(EntryPointKind::DynamicImport), BitSet::new(1), vec![ModuleId(0)]);
    let options = options();
    assert_eq!(chunk.file_name_template(&options).template, "[name]-[hash].js");
}

#[test]
fn a_chunk_without_entry_gets_the_chunk_template() {
    let mut chunk = Chunk::new(Some("shared".to_string()), None, BitSet::new(1), Vec::new());
    let options = options();
    assert_eq!(chunk.file_name_template(&options).template, "[name]-[hash].js");
    assert_eq!(chunk.name.as_deref(), Some("shared"));
}

#[test]
fn a_new_chunk_has_empty_tables() {
    let chunk = Chunk::new(
        Some("a".to_string()),
        entry(EntryPointKind::UserDefined),
        BitSet::new(4),
        vec![ModuleId(3), ModuleId(1)],
    );
    assert_eq!(chunk.name.as_deref(), Some("a"));
    assert_eq!(chunk.modules, vec![ModuleId(3), ModuleId(1)]);
    assert!(chunk.file_name.is_none());
    assert_eq!(chunk.entry_point.unwrap().kind, EntryPointKind::UserDefined);
    assert_eq!(chunk.canonical_names.len(), 0);
    assert_eq!(chunk.imports_from_other_chunks.len(), 0);
    assert_eq!(chunk.imports_from_external_modules.len(), 0);
    assert_eq!(chunk.exports_to_other_chunks.len(), 0);
}

#[test]
fn a_bit_set_holds_what_was_put_in() {
    let mut bits = BitSet::new(20);
    for bit in 0..24 {
        assert!(!bits.has_bit(bit));
    }
    bits.set_bit(0);
    bits.set_bit(9);
    bits.set_bit(19);
    bits.set_bit(9);
    for bit in 0..24 {
        assert_eq!(bits.has_bit(bit), bit == 0 || bit == 9 || bit == 19);
    }
    assert!(!bits.has_bit(4_000_000_000));
}

#[test]
fn an_empty_bit_set_holds_nothing() {
    let bits = BitSet::new(0);
    assert!(!bits.has_bit(0));
    assert!(!bits.has_bit(7));
}

#[test]
fn keys_are_told_apart_by_their_codes() {
    assert_eq!(ModuleId(7).to_code(), 7);
    assert_eq!(ChunkId(u32::MAX).to_code(), 0xffff_ffff);
    assert_eq!(SymbolRef { owner: ModuleId(1), symbol: 2 }.to_code(), 0x1_0000_0002);
    assert_eq!(SymbolRef { owner: ModuleId(0), symbol: u32::MAX }.to_code(), 0xffff_ffff);
    assert_eq!(
        SymbolRef { owner: ModuleId(u32::MAX), symbol: u32::MAX }.to_code(),
        0xffff_ffff_ffff_ffff
    );
    assert_ne!(
        SymbolRef { owner: ModuleId(1), symbol: 0 }.to_code(),
        SymbolRef { owner: ModuleId(0), symbol: 1 }.to_code()
    );
}

#[test]
fn an_ordered_map_keeps_insertion_order_and_finds_by_key() {
    let mut table: OrderedMap<ModuleId, String> = OrderedMap::new();
    assert_eq!(table.len(), 0);
    assert!(table.get(ModuleId(1)).is_none());
    table.insert(ModuleId(5), "five".to_string());
    table.insert(ModuleId(1), "one".to_string());
    table.insert(ModuleId(9), "nine".to_string());
    assert_eq!(table.len(), 3);
    assert_eq!(table.key_at(0), ModuleId(5));
    assert_eq!(table.key_at(1), ModuleId(1));
    assert_eq!(table.key_at(2), ModuleId(9));
    assert_eq!(table.value_at(1), "one");
    assert_eq!(table.get(ModuleId(9)).unwrap(), "nine");
    assert_eq!(table.position(ModuleId(1)), Some(1));
    assert_eq!(table.position(ModuleId(2)), None);
    table.insert(ModuleId(5), "FIVE".to_string());
    assert_eq!(table.len(), 3);
    assert_eq!(table.key_at(0), ModuleId(5));
    assert_eq!(table.get(ModuleId(5)).unwrap(), "FIVE");
    assert_eq!(table.get(ModuleId(1)).unwrap(), "one");
}

#[test]
fn an_ordered_map_groups_members_by_key() {
    let mut table: OrderedMap<ChunkId, Vec<u8>> = OrderedMap::new();
    table.push_to(ChunkId(2), 20);
    table.push_to(ChunkId(1), 10);
    table.push_to(ChunkId(2), 21);
    table.push_to(ChunkId(2), 22);
    table.push_to(ChunkId(1), 11);
    assert_eq!(table.len(), 2);
    assert_eq!(table.key_at(0), ChunkId(2));
    assert_eq!(table.value_at(0), &vec![20, 21, 22]);
    assert_eq!(table.key_at(1), ChunkId(1));
    assert_eq!(table.get(ChunkId(1)).unwrap(), &vec![10, 11]);
}

#[test]
fn numbers_are_written_in_decimal() {
    assert_eq!(decimal_text(0), "0");
    assert_eq!(decimal_text(7), "7");
    assert_eq!(decimal_text(10), "10");
    assert_eq!(decimal_text(109), "109");
    assert_eq!(decimal_text(1234567890), "1234567890");
    assert_eq!(decimal_text(usize::MAX), format!("{}", usize::MAX));
}

#[test]
fn candidates_are_the_name_and_then_its_numbered_forms() {
    assert_eq!(candidate_text("foo", 0), "foo");
    assert_eq!(candidate_text("foo", 1), "foo$1");
    assert_eq!(candidate_text("foo", 42), "foo$42");
    assert_eq!(candidate_text("", 3), "$3");
}

#[test]
fn lines_are_joined_without_the_empty_ones() {
    assert_eq!(join_lines(&vec!["a", "", "b", "", "", "c"]).unwrap(), "a\nb\nc");
    assert_eq!(join_lines(&vec!["", "only", ""]).unwrap(), "only");
    assert_eq!(join_lines(&vec!["", ""]).unwrap(), "");
    assert_eq!(join_lines(&Vec::new()).unwrap(), "");
    assert_eq!(join_lines(&vec!["one\ntwo", "three"]).unwrap(), "one\ntwo\nthree");
}

#[test]
fn lists_are_joined_with_their_separator() {
    let parts = vec!["a".to_string(), String::new(), "c".to_string()];
    assert_eq!(join_with(&parts, ", "), "a, , c");
    assert_eq!(join_with(&vec!["x".to_string()], ", "), "x");
    assert_eq!(join_with(&Vec::new(), ", "), "");
}

#[test]
fn bindings_name_both_sides_only_where_they_differ() {
    assert_eq!(binding_text(&"a".to_string(), &"a".to_string()), "a");
    assert_eq!(binding_text(&"a".to_string(), &"b".to_string()), "a as b");
}

#[test]
fn statements_list_their_bindings() {
    let bindings = vec!["a".to_string(), "b as c".to_string()];
    assert_eq!(import_statement_text(&bindings, "./x.js"), "import { a, b as c } from \"./x.js\";");
    assert_eq!(import_statement_text(&Vec::new(), "./x.js"), "import \"./x.js\";");
    assert_eq!(export_statement_text(&bindings), "export { a, b as c };");
}

#[test]
fn byte_length_counts_utf8_bytes() {
    assert_eq!(byte_length(""), 0);
    assert_eq!(byte_length("abc"), 3);
    assert_eq!(byte_length("é日"), 5);
}
