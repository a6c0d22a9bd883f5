//! The linked module graph, as far as the chunk core reads it.

use crate::ids::SymbolRef;
use vstd::prelude::*;

verus! {

/// A module whose text becomes part of a chunk.
#[derive(Debug)]
pub struct NormalModule {
    /// The path of the file that the module was read from.
    pub resource_id: String,
    /// The text of that file.
    pub source: String,
    /// The declared name of each symbol that the module owns, by slot.
    pub declared: Vec<String>,
    /// The symbols that the module's rendered body mentions, in the order of
    /// their first mention.
    pub references: Vec<SymbolRef>,
}

/// A module that stays outside the bundle and is reached by an import
/// statement.
#[derive(Debug)]
pub struct ExternalModule {
    /// The specifier under which the module is imported.
    pub resource_id: String,
    /// The name of each binding that the bundle takes from the module, by
    /// slot.
    pub bindings: Vec<String>,
}

/// The two kinds of module.
#[derive(Debug)]
pub enum Module {
    Normal(NormalModule),
    External(ExternalModule),
}

/// The result of linking: the module table, in which a module stands at the
/// position that its `ModuleId` gives.
#[derive(Debug)]
pub struct LinkStageOutput {
    pub modules: Vec<Module>,
}

impl LinkStageOutput {
    /// Whether `symbol` names a slot of a module of the table.
    pub open spec fn declares(&self, symbol: SymbolRef) -> bool {
        &&& symbol.owner.0 < self.modules@.len()
        &&& symbol.symbol < self.names_of(symbol.owner.0 as int).len()
    }

    /// The names of the symbols of the module at `position`, by slot.
    pub open spec fn names_of(&self, position: int) -> Seq<String> {
        match self.modules@[position] {
            Module::Normal(module) => module.declared@,
            Module::External(module) => module.bindings@,
        }
    }

    /// The declared name of `symbol`.
    pub open spec fn declared_as(&self, symbol: SymbolRef) -> Seq<char> {
        self.names_of(symbol.owner.0 as int)[symbol.symbol as int]@
    }

    /// Whether the module at `position` is an external one.
    pub open spec fn is_external(&self, position: int) -> bool {
        0 <= position < self.modules@.len() && self.modules@[position] is External
    }

    /// The declared name of `symbol`, if the table holds its slot.
    pub fn declared_name(&self, symbol: SymbolRef) -> (name: Option<&String>)
        ensures
            match name {
                Some(name) => self.declares(symbol) && name@ == self.declared_as(symbol),
                None => !self.declares(symbol),
            },
    {
        let position = symbol.owner.0 as usize;
        if position >= self.modules.len() {
            return None;
        }
        let names = match &self.modules[position] {
            Module::Normal(module) => &module.declared,
            Module::External(module) => &module.bindings,
        };
        let slot = symbol.symbol as usize;
        if slot < names.len() {
            Some(&names[slot])
        } else {
            None
        }
    }
}

} // verus!
