//! Scene description types shared with the configuration layer.
//!
//! Parsing scene files and instantiating entities from definitions are
//! jobs of the surrounding engine; the library holds the plain
//! definition values that travel across that boundary.

use vstd::prelude::*;

verus! {

/// Failure to look a scene up in a scene library.
#[derive(Debug, Clone, PartialEq)]
pub enum SceneLookupError {
    NotFound(String),
}

impl SceneLookupError {
    /// A human-readable description of the failure.
    pub fn message(&self) -> (r: String)
        ensures
            self matches SceneLookupError::NotFound(id) && r@ == id@,
    {
        match self {
            SceneLookupError::NotFound(id) => id.clone(),
        }
    }
}

/// Which mesh asset an entity definition references.
#[derive(Debug, Clone, PartialEq)]
pub struct ModelComponentDefinition {
    pub asset: String,
}

/// Which texture asset an entity definition references.
#[derive(Debug, Clone, PartialEq)]
pub struct TextureComponentDefinition {
    pub asset: String,
}

/// Which script an entity definition binds, with its parameters.
#[derive(Debug, Clone, PartialEq)]
pub struct ScriptComponentDefinition {
    pub name: String,
    pub params: Vec<(String, String)>,
}

impl ScriptComponentDefinition {
    pub fn new(name: String) -> (r: Self)
        ensures
            r.name@ == name@,
            r.params@ == Seq::<(String, String)>::empty(),
    {
        ScriptComponentDefinition { name, params: Vec::new() }
    }

    /// Adds one parameter entry.
    pub fn with_param(self, key: String, value: String) -> (r: Self)
        ensures
            r.name == self.name,
            r.params@ == self.params@.push((key, value)),
    {
        let ScriptComponentDefinition { name, mut params } = self;
        params.push((key, value));
        ScriptComponentDefinition { name, params }
    }
}

} // verus!
