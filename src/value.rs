//! The unified value model that every source format is normalized into.
use vstd::prelude::*;

verus! {

/// A parsed document, independent of its source format.
///
/// Containers keep their elements in document order and carry the pretty
/// re-serialization of the subtree in its own format (the detail text).
pub enum TreeValue {
    Null,
    String(String),
    Number(String),
    Bool(bool),
    Array(Vec<TreeValue>, String),
    Object(Vec<(String, TreeValue)>, String),
}

impl TreeValue {
    /// Whether the value holds children (an array or an object).
    pub open spec fn is_container(self) -> bool {
        self is Array || self is Object
    }

    /// The number of elements or fields of a container; zero for a scalar.
    pub open spec fn child_count(self) -> nat {
        match self {
            TreeValue::Array(a, _) => a@.len(),
            TreeValue::Object(o, _) => o@.len(),
            _ => 0,
        }
    }
}

/// No object anywhere in the value has two fields of the same name.
pub open spec fn keys_distinct(v: TreeValue) -> bool
    decreases v,
{
    match v {
        TreeValue::Array(a, _) => forall|i: int|
            0 <= i < a@.len() ==> keys_distinct(#[trigger] a@[i]),
        TreeValue::Object(o, _) => {
            &&& forall|i: int, j: int|
                0 <= i < o@.len() && 0 <= j < o@.len() && i != j ==> #[trigger] o@[i].0@
                    != #[trigger] o@[j].0@
            &&& forall|i: int| 0 <= i < o@.len() ==> keys_distinct(#[trigger] o@[i].1)
        },
        _ => true,
    }
}

} // verus!
