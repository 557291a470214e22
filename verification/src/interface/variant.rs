use vstd::prelude::*;

use super::selector::same_text;
use crate::config::Variant;

verus! {

/// The variant that the selector text `text` names, if it names one.
pub open spec fn variant_named(text: Seq<char>) -> Option<Variant> {
    if text == "Compatible"@ {
        Some(Variant::Compatible)
    } else if text == "Modern"@ {
        Some(Variant::Modern)
    } else {
        None
    }
}

/// The integrator variant chosen by the caller.
#[derive(Clone, Copy, Debug, Default)]
pub struct PyVariant(pub Variant);

impl PyVariant {
    /// The selector for the member whose value is `value` ("Compatible", "Modern"); `None`
    /// for any other value.
    pub fn from_value(value: &str) -> (r: Option<PyVariant>)
        ensures
            r matches Some(s) ==> variant_named(value@) == Some(s.0),
            r is None <==> variant_named(value@) is None,
            value@ == "Compatible"@ ==> (r matches Some(s) && s.0 == Variant::Compatible),
            value@ == "Modern"@ ==> (r matches Some(s) && s.0 == Variant::Modern),
            r is Some ==> (value@ == "Compatible"@ || value@ == "Modern"@),
    {
        proof {
            reveal_strlit("Compatible");
            reveal_strlit("Modern");
            assert("Compatible"@[0] != "Modern"@[0]);
        }
        if same_text(value, "Compatible") {
            Some(PyVariant(Variant::Compatible))
        } else if same_text(value, "Modern") {
            Some(PyVariant(Variant::Modern))
        } else {
            None
        }
    }

    /// The selected variant.
    pub fn get(&self) -> (r: Variant)
        ensures
            r == self.0,
    {
        self.0
    }
}

} // verus!
