//! Recipes, update mutators and handler programs: the plain-data forms of
//! the computations a host hands to the kernel.
//!
//! A recipe computes a variable's value; it may read other variables, and
//! reads made while the variable is being created are recorded as
//! dependencies. A mutator is the computation an update applies to a value.
//! A handler program is the body of a listener: a short sequence of
//! instructions run for each dispatched event, which may vote, abort, and
//! re-enter the system.

use vstd::prelude::*;

use crate::listener::Vote;
use crate::variable::Tag;
use crate::variable::Value;
use crate::variable::Variable;
use crate::variable::VariableId;
use crate::variable::value_tag;

verus! {

/// The computation that produces a variable's value.
///
/// On creation the recipe runs with no previous value; on recomputation it
/// runs with the variable's previous value. Integer sums saturate at the
/// ends of the `i64` range.
#[derive(Debug, Clone, Copy, PartialEq, Eq, Structural)]
pub enum Recipe {
    /// Always produce the given value.
    Const(Value),
    /// Read `source` through the system (the read is tracked, emits its
    /// events, and may be cancelled); on an integer result produce it plus
    /// `add`, otherwise produce `or`.
    ReadPlus { source: Variable, add: i64, or: i64 },
    /// On an integer previous value produce it plus `add`, otherwise
    /// produce `or`.
    PrevPlus { add: i64, or: i64 },
}

/// The computation an update applies to a variable's value.
///
/// A mutator never changes a value's shape: an assignment of a value of
/// another shape, or an integer step on a non-integer value, leaves the
/// value unchanged.
#[derive(Debug, Clone, Copy, PartialEq, Eq, Structural)]
pub enum Mutator {
    /// Replace the value, provided the shapes agree.
    Assign(Value),
    /// Add to an integer value, saturating.
    AddInt(i64),
}

/// One instruction of a handler program.
///
/// Instructions that name a variable re-enter the system through its public
/// operations, so they emit the usual events and may cascade.
#[derive(Debug, Clone, Copy, PartialEq, Eq, Structural)]
pub enum Instr {
    /// Set this handler's vote on the event being dispatched.
    CastVote(Vote),
    /// Abort the dispatch: once the program finishes, no later handler runs
    /// and the emission reports failure.
    Abort,
    /// Read the variable; abort the dispatch if it holds `true`.
    AbortIfSet(Variable),
    /// Update the variable with the mutator.
    Apply(Variable, Mutator),
    /// Read the first variable and assign what was read into the second.
    CopyInto(Variable, Variable),
    /// Emit the custom event with the given code at the given target.
    Trigger(u64, Option<VariableId>),
}

/// Saturating addition on `i64`.
pub open spec fn sat_add(a: i64, b: i64) -> i64 {
    if a + b > i64::MAX {
        i64::MAX
    } else if a + b < i64::MIN {
        i64::MIN
    } else {
        (a + b) as i64
    }
}

/// Saturating addition on `i64`.
pub fn sat_add_i64(a: i64, b: i64) -> (r: i64)
    ensures
        r == sat_add(a, b),
{
    let s: i128 = a as i128 + b as i128;
    if s > i64::MAX as i128 {
        i64::MAX
    } else if s < i64::MIN as i128 {
        i64::MIN
    } else {
        s as i64
    }
}

/// What a mutator makes of a value.
pub open spec fn spec_apply_mutator(cur: Value, m: Mutator) -> Value {
    match m {
        Mutator::Assign(v) => if value_tag(v) == value_tag(cur) {
            v
        } else {
            cur
        },
        Mutator::AddInt(k) => match cur {
            Value::Int(n) => Value::Int(sat_add(n, k)),
            _ => cur,
        },
    }
}

/// What a mutator makes of a value.
pub fn apply_mutator(cur: Value, m: Mutator) -> (r: Value)
    ensures
        r == spec_apply_mutator(cur, m),
{
    match m {
        Mutator::Assign(v) => {
            if crate::variable::tag_of(&v) == crate::variable::tag_of(&cur) {
                v
            } else {
                cur
            }
        },
        Mutator::AddInt(k) => match cur {
            Value::Int(n) => Value::Int(sat_add_i64(n, k)),
            _ => cur,
        },
    }
}

} // verus!
