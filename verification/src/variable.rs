use vstd::prelude::*;

verus! {

/// The runtime shape tag carried by every stored value and by every typed
/// variable handle.
///
/// The store is heterogeneous: it owns values of disparate shapes under a
/// common key space, and retrieval checks the handle's tag against the stored
/// value's tag. A handle whose identifier has been recycled to a variable of
/// a different shape therefore fails that check and is surfaced as a soft
/// miss, never as a wrongly-shaped value.
#[derive(Debug, Clone, Copy, PartialEq, Eq, Hash, Structural)]
pub enum Tag {
    Int,
    Bool,
    Unit,
}

/// A value owned by the reactive system on behalf of a variable.
#[derive(Debug, Clone, Copy, PartialEq, Eq, Structural)]
pub enum Value {
    Int(i64),
    Bool(bool),
    Unit,
}

/// The shape tag of a value.
pub open spec fn value_tag(v: Value) -> Tag {
    match v {
        Value::Int(_) => Tag::Int,
        Value::Bool(_) => Tag::Bool,
        Value::Unit => Tag::Unit,
    }
}

/// The shape tag of a value.
pub fn tag_of(v: &Value) -> (t: Tag)
    ensures
        t == value_tag(*v),
{
    match v {
        Value::Int(_) => Tag::Int,
        Value::Bool(_) => Tag::Bool,
        Value::Unit => Tag::Unit,
    }
}

/// A typed handle to a variable belonging to the reactive system.
///
/// Only the identifier and the shape tag are stored; handles are freely
/// copyable and are not counted by the system. A variable's identifier is
/// stable from creation to deletion; after deletion it may be recycled for an
/// unrelated variable, and a stale handle then refers to the new variable.
#[derive(Debug, Clone, Copy, PartialEq, Eq, Hash, Structural)]
pub struct Variable {
    pub id: u128,
    pub tag: Tag,
}

/// An untyped handle to a variable, used where targets are passed to listener
/// registration or event emission without requiring the value's shape.
#[derive(Debug, Clone, Copy, PartialEq, Eq, Hash, Structural)]
pub struct VariableId(pub u128);

impl Variable {
    /// Forget the shape tag, keeping only the identifier, so the handle can
    /// name an event target.
    pub fn into(self) -> (r: Option<VariableId>)
        ensures
            r == Some(VariableId(self.id)),
    {
        Some(VariableId(self.id))
    }
}

} // verus!
