//! Engine-facing configuration values that gameplay code hands to the
//! application loop. The loop itself (windowing, audio, rendering) lives
//! outside the verified library.

use crate::text::str_eq;
use vstd::prelude::*;
use vstd::string::StringExecFns;

verus! {

/// Event published whenever a console command is submitted, so gameplay
/// systems can react to commands the engine does not handle itself.
#[derive(Debug, Clone, PartialEq)]
pub struct ConsoleCommandEvent {
    pub text: String,
}

/// Whether some entry of `s` carries `key`.
pub open spec fn binding_has_param(s: Seq<(String, String)>, key: Seq<char>) -> bool {
    exists|i: int| 0 <= i < s.len() && s[i].0@ == key
}

/// Attaches a named script, with parameters, to the entity carrying a
/// given name once a scene is loaded.
#[derive(Debug, Clone, PartialEq)]
pub struct ScriptBinding {
    pub entity_name: String,
    pub script: String,
    pub params: Vec<(String, String)>,
}

impl ScriptBinding {
    pub fn new(entity_name: String, script: String) -> (r: Self)
        ensures
            r.entity_name@ == entity_name@,
            r.script@ == script@,
            r.params@ == Seq::<(String, String)>::empty(),
    {
        ScriptBinding { entity_name, script, params: Vec::new() }
    }

    /// Adds one parameter, replacing an existing entry with the same key.
    pub fn with_param(self, key: &str, value: &str) -> (r: Self)
        ensures
            r.entity_name == self.entity_name,
            r.script == self.script,
            binding_has_param(r.params@, key@),
            ({
                let s_old = self.params@;
                let s_new = r.params@;
                if binding_has_param(s_old, key@) {
                    exists|i: int|
                        0 <= i < s_old.len() && s_old[i].0@ == key@ && s_new.len() == s_old.len()
                            && s_new[i].0@ == key@ && s_new[i].1@ == value@ && forall|j: int|
                            0 <= j < s_old.len() && j != i ==> s_new[j] == s_old[j]
                } else {
                    s_new.len() == s_old.len() + 1 && s_new.subrange(0, s_old.len() as int)
                        == s_old && s_new.last().0@ == key@ && s_new.last().1@ == value@
                }
            }),
    {
        let ScriptBinding { entity_name, script, mut params } = self;
        let n = params.len();
        let mut i: usize = 0;
        while i < n
            invariant
                n == params@.len(),
                i <= n,
                entity_name == self.entity_name,
                script == self.script,
                params@ == self.params@,
                forall|j: int| 0 <= j < i ==> params@[j].0@ != key@,
            decreases n - i,
        {
            if str_eq(params[i].0.as_str(), key) {
                let entry_key = params[i].0.clone();
                params[i] = (entry_key, value.to_owned());
                proof {
                    assert(params@[i as int].0@ == key@);
                    assert(forall|j: int|
                        0 <= j < self.params@.len() && j != i ==> params@[j] == self.params@[j]);
                }
                return ScriptBinding { entity_name, script, params };
            }
            i += 1;
        }
        params.push((key.to_owned(), value.to_owned()));
        proof {
            assert(params@.subrange(0, self.params@.len() as int) =~= self.params@);
            assert(params@[self.params@.len() as int].0@ == key@);
            assert(binding_has_param(params@, key@));
        }
        ScriptBinding { entity_name, script, params }
    }
}

} // verus!
