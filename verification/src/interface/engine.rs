use vstd::prelude::*;

use super::selector::same_text;
use crate::config::Engine;

verus! {

/// The engine that the selector text `text` names, if it names one.
pub open spec fn engine_named(text: Seq<char>) -> Option<Engine> {
    if text == "CPU"@ {
        Some(Engine::CPU)
    } else if text == "GPU"@ {
        Some(Engine::GPU)
    } else {
        None
    }
}

/// Where a simulation runs, as chosen by the caller.
#[derive(Clone, Copy, Debug, Default)]
pub struct PyEngine(pub Engine);

impl PyEngine {
    /// The selector for the member whose value is `value` ("CPU", "GPU"); `None`
    /// for any other value.
    pub fn from_value(value: &str) -> (r: Option<PyEngine>)
        ensures
            r matches Some(s) ==> engine_named(value@) == Some(s.0),
            r is None <==> engine_named(value@) is None,
            value@ == "CPU"@ ==> (r matches Some(s) && s.0 == Engine::CPU),
            value@ == "GPU"@ ==> (r matches Some(s) && s.0 == Engine::GPU),
            r is Some ==> (value@ == "CPU"@ || value@ == "GPU"@),
    {
        proof {
            reveal_strlit("CPU");
            reveal_strlit("GPU");
            assert("CPU"@[0] != "GPU"@[0]);
        }
        if same_text(value, "CPU") {
            Some(PyEngine(Engine::CPU))
        } else if same_text(value, "GPU") {
            Some(PyEngine(Engine::GPU))
        } else {
            None
        }
    }

    /// The selected engine.
    pub fn get(&self) -> (r: Engine)
        ensures
            r == self.0,
    {
        self.0
    }
}

} // verus!
