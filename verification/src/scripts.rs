//! Script-facing context values. The script registry and its boxed
//! behaviors live in the surrounding engine; the library holds the
//! plain values handed to scripts.

use vstd::prelude::*;

verus! {

/// The identity of the entity a script is driving.
#[derive(Debug, Clone, Copy, PartialEq)]
pub struct ScriptEntityContext<'a> {
    pub id: u32,
    pub name: &'a str,
}

} // verus!
