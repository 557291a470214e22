use vstd::prelude::*;

use super::selector::same_text;
use crate::config::Implementation;

verus! {

/// The implementation that the selector text `text` names, if it names one.
pub open spec fn implementation_named(text: Seq<char>) -> Option<Implementation> {
    if text == "GALPY"@ {
        Some(Implementation::GALPY)
    } else if text == "SCIPY"@ {
        Some(Implementation::SCIPY)
    } else if text == "DRIFT"@ {
        Some(Implementation::DRIFT)
    } else {
        None
    }
}

/// The reference implementation chosen by the caller.
#[derive(Clone, Copy, Debug, Default)]
pub struct PyImplementation(pub Implementation);

impl PyImplementation {
    /// The selector for the member whose value is `value` ("GALPY", "SCIPY", "DRIFT"); `None`
    /// for any other value.
    pub fn from_value(value: &str) -> (r: Option<PyImplementation>)
        ensures
            r matches Some(s) ==> implementation_named(value@) == Some(s.0),
            r is None <==> implementation_named(value@) is None,
            value@ == "GALPY"@ ==> (r matches Some(s) && s.0 == Implementation::GALPY),
            value@ == "SCIPY"@ ==> (r matches Some(s) && s.0 == Implementation::SCIPY),
            value@ == "DRIFT"@ ==> (r matches Some(s) && s.0 == Implementation::DRIFT),
            r is Some ==> (value@ == "GALPY"@ || value@ == "SCIPY"@ || value@ == "DRIFT"@),
    {
        proof {
            reveal_strlit("GALPY");
            reveal_strlit("SCIPY");
            reveal_strlit("DRIFT");
            assert("GALPY"@[0] != "SCIPY"@[0]);
            assert("GALPY"@[0] != "DRIFT"@[0]);
            assert("SCIPY"@[0] != "DRIFT"@[0]);
        }
        if same_text(value, "GALPY") {
            Some(PyImplementation(Implementation::GALPY))
        } else if same_text(value, "SCIPY") {
            Some(PyImplementation(Implementation::SCIPY))
        } else if same_text(value, "DRIFT") {
            Some(PyImplementation(Implementation::DRIFT))
        } else {
            None
        }
    }

    /// The selected implementation.
    pub fn get(&self) -> (r: Implementation)
        ensures
            r == self.0,
    {
        self.0
    }
}

} // verus!
