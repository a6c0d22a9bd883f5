//! The chunk: one unit of output.

use crate::bitset::BitSet;
use crate::ids::{ChunkId, ModuleId, SymbolRef};
use crate::options::{FileNameTemplate, OutputOptions};
use crate::table::OrderedMap;
use vstd::prelude::*;

verus! {

/// How a chunk became an entry of the bundle.
#[derive(Clone, Copy, Debug, PartialEq, Eq, Structural)]
pub enum EntryPointKind {
    /// The user asked for this entry.
    UserDefined,
    /// The entry was made where a dynamic import splits the graph.
    DynamicImport,
}

/// The mark of an entry chunk.
#[derive(Clone, Debug, PartialEq, Eq)]
pub struct EntryPoint {
    pub name: Option<String>,
    pub module: ModuleId,
    pub kind: EntryPointKind,
}

/// A binding that a chunk takes from an external module.
#[derive(Clone, Debug, PartialEq, Eq)]
pub struct NamedImport {
    /// The name under which the external module offers the binding.
    pub imported: String,
    /// The name of the binding inside the chunk, where it differs.
    pub alias: Option<String>,
}

/// A symbol that a chunk takes from another chunk.
#[derive(Clone, Debug, PartialEq, Eq)]
pub struct CrossChunkImportItem {
    /// The name under which the owning chunk exports the symbol.
    pub export_alias: Option<String>,
    pub import_ref: SymbolRef,
}

/// What a named import says, as text.
pub struct NamedImportView {
    pub imported: Seq<char>,
    pub alias: Option<Seq<char>>,
}

impl View for NamedImport {
    type V = NamedImportView;

    open spec fn view(&self) -> NamedImportView {
        NamedImportView {
            imported: self.imported@,
            alias: match self.alias {
                Some(alias) => Some(alias@),
                None => None,
            },
        }
    }
}

/// What a cross-chunk import says, as text.
pub struct ImportItemView {
    pub alias: Option<Seq<char>>,
    pub symbol: SymbolRef,
}

impl View for CrossChunkImportItem {
    type V = ImportItemView;

    open spec fn view(&self) -> ImportItemView {
        ImportItemView {
            alias: match self.export_alias {
                Some(alias) => Some(alias@),
                None => None,
            },
            symbol: self.import_ref,
        }
    }
}

/// The sizes of one rendered module, for reports.
#[derive(Clone, Copy, Debug, PartialEq, Eq, Structural)]
pub struct RenderedModule {
    /// Bytes of the module's source.
    pub original_length: u32,
    /// Bytes of the module's rendered text.
    pub rendered_length: u32,
}

/// One unit of output: an ordered list of modules and the tables that link
/// it to the other chunks.
#[derive(Debug)]
pub struct Chunk {
    /// Present where the chunk is an entry of the bundle.
    pub entry_point: Option<EntryPoint>,
    /// The modules of the chunk, in the order in which they are rendered.
    pub modules: Vec<ModuleId>,
    pub name: Option<String>,
    /// The name of the chunk's file, once it has one.
    pub file_name: Option<String>,
    /// The name, unique within the chunk, of each symbol that the chunk
    /// mentions.
    pub canonical_names: OrderedMap<SymbolRef, String>,
    pub bits: BitSet,
    /// For each chunk that this one takes symbols from, in the order of
    /// first use, those symbols.
    pub imports_from_other_chunks: OrderedMap<ChunkId, Vec<CrossChunkImportItem>>,
    /// For each external module that this chunk takes bindings from, in the
    /// order of first use, those bindings.
    pub imports_from_external_modules: OrderedMap<ModuleId, Vec<NamedImport>>,
    /// The symbols that other chunks take from this one, each with the name
    /// under which it is exported. An entry chunk renders none of them.
    pub exports_to_other_chunks: OrderedMap<SymbolRef, String>,
}

/// The chunks of a build, each at the position that its `ChunkId` gives, and
/// for each module of the module table the chunk that holds it.
#[derive(Debug)]
pub struct ChunkGraph {
    pub chunks: Vec<Chunk>,
    pub module_to_chunk: Vec<Option<ChunkId>>,
}

impl ChunkGraph {
    /// The chunk that holds `module`, if any does.
    pub open spec fn chunk_of(&self, module: ModuleId) -> Option<ChunkId> {
        if module.0 < self.module_to_chunk@.len() {
            self.module_to_chunk@[module.0 as int]
        } else {
            None
        }
    }

    /// The chunk that holds `module`, if any does.
    pub fn owner_chunk(&self, module: ModuleId) -> (chunk: Option<ChunkId>)
        ensures
            chunk == self.chunk_of(module),
    {
        let position = module.0 as usize;
        if position < self.module_to_chunk.len() {
            self.module_to_chunk[position]
        } else {
            None
        }
    }
}

impl Chunk {
    /// Whether the chunk is an entry that the user asked for.
    pub open spec fn is_user_defined_entry(&self) -> bool {
        self.entry_point matches Some(entry) && entry.kind == EntryPointKind::UserDefined
    }

    /// A chunk of `modules` whose tables are all empty.
    pub fn new(
        name: Option<String>,
        entry_point: Option<EntryPoint>,
        bits: BitSet,
        modules: Vec<ModuleId>,
    ) -> (chunk: Self)
        ensures
            chunk.name == name,
            chunk.entry_point == entry_point,
            chunk.bits == bits,
            chunk.modules == modules,
            chunk.file_name is None,
            chunk.canonical_names.keys().len() == 0,
            chunk.canonical_names.values().len() == 0,
            chunk.imports_from_other_chunks.keys().len() == 0,
            chunk.imports_from_other_chunks.values().len() == 0,
            chunk.imports_from_external_modules.keys().len() == 0,
            chunk.imports_from_external_modules.values().len() == 0,
            chunk.exports_to_other_chunks.keys().len() == 0,
            chunk.exports_to_other_chunks.values().len() == 0,
    {
        Chunk {
            entry_point,
            modules,
            name,
            file_name: None,
            canonical_names: OrderedMap::new(),
            bits,
            imports_from_other_chunks: OrderedMap::new(),
            imports_from_external_modules: OrderedMap::new(),
            exports_to_other_chunks: OrderedMap::new(),
        }
    }

    /// The template that governs the name of the chunk's file: the entry
    /// template for an entry that the user asked for, the chunk template for
    /// every other chunk.
    pub fn file_name_template<'a>(&mut self, output_options: &'a OutputOptions) -> (template:
        &'a FileNameTemplate)
        ensures
            *final(self) == *old(self),
            *template == (if old(self).is_user_defined_entry() {
                output_options.entry_file_names
            } else {
                output_options.chunk_file_names
            }),
    {
        if matches!(self.entry_point, Some(EntryPoint { kind: EntryPointKind::UserDefined, .. })) {
            &output_options.entry_file_names
        } else {
            &output_options.chunk_file_names
        }
    }
}

} // verus!
