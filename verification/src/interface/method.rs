use vstd::prelude::*;

use super::selector::same_text;
use crate::config::Method;

verus! {

/// The method that the selector text `text` names, if it names one.
pub open spec fn method_named(text: Seq<char>) -> Option<Method> {
    if text == "DOPR54"@ {
        Some(Method::DOPR54)
    } else if text == "DOP853"@ {
        Some(Method::DOP853)
    } else {
        None
    }
}

/// The integration method chosen by the caller.
#[derive(Clone, Copy, Debug, Default)]
pub struct PyMethod(pub Method);

impl PyMethod {
    /// The selector for the member whose value is `value` ("DOPR54", "DOP853"); `None`
    /// for any other value.
    pub fn from_value(value: &str) -> (r: Option<PyMethod>)
        ensures
            r matches Some(s) ==> method_named(value@) == Some(s.0),
            r is None <==> method_named(value@) is None,
            value@ == "DOPR54"@ ==> (r matches Some(s) && s.0 == Method::DOPR54),
            value@ == "DOP853"@ ==> (r matches Some(s) && s.0 == Method::DOP853),
            r is Some ==> (value@ == "DOPR54"@ || value@ == "DOP853"@),
    {
        proof {
            reveal_strlit("DOPR54");
            reveal_strlit("DOP853");
            assert("DOPR54"@[3] != "DOP853"@[3]);
        }
        if same_text(value, "DOPR54") {
            Some(PyMethod(Method::DOPR54))
        } else if same_text(value, "DOP853") {
            Some(PyMethod(Method::DOP853))
        } else {
            None
        }
    }

    /// The selected method.
    pub fn get(&self) -> (r: Method)
        ensures
            r == self.0,
    {
        self.0
    }
}

} // verus!
