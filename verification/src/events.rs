//! Events that are emitted as a result of built-in CRUD actions, and the
//! runtime identity by which listeners select the events they receive.

use vstd::prelude::*;

use crate::variable::Tag;
use crate::variable::Value;
use crate::variable::Variable;
use crate::variable::value_tag;

verus! {

/// A variable is about to be created. If this event is cancelled, the
/// variable will not be created. Since it is impossible to listen for this
/// event before the variable exists, it is emitted in the global scope.
#[derive(Debug, Clone, Copy, PartialEq, Eq, Structural)]
pub struct Creating {
    /// The value that will be given to the newly-created variable
    pub value: Value,
}

/// A variable has just been created. Cancelling this event has no effect.
/// Emitted in the global scope.
#[derive(Debug, Clone, Copy, PartialEq, Eq, Structural)]
pub struct Created {
    /// The variable that was just created
    pub source: Variable,
}

/// The targeted variable is about to be read. If this event is cancelled,
/// the variable will not be read.
#[derive(Debug, Clone, Copy, PartialEq, Eq, Structural)]
pub struct Reading;

/// The targeted variable has just been read. Cancelling this event has no
/// effect.
#[derive(Debug, Clone, Copy, PartialEq, Eq, Structural)]
pub struct Read;

/// The targeted variable is about to be updated. If this event is cancelled,
/// the variable will not be updated; per dependent, it cancels that
/// dependent's recomputation.
#[derive(Debug, Clone, Copy, PartialEq, Eq, Structural)]
pub struct Updating;

/// The targeted variable has just been updated. Cancelling this event has no
/// effect.
#[derive(Debug, Clone, Copy, PartialEq, Eq, Structural)]
pub struct Updated;

/// The targeted variable is about to be deleted. If this event is cancelled,
/// the variable will not be deleted.
#[derive(Debug, Clone, Copy, PartialEq, Eq, Structural)]
pub struct Deleting;

/// A variable has just been deleted. Cancelling this event has no effect.
/// Since the target no longer exists, this event is emitted in the global
/// scope. The handle is a tombstone and must not be used for further
/// operations.
#[derive(Debug, Clone, Copy, PartialEq, Eq, Structural)]
pub struct Deleted {
    /// The variable that was just deleted
    pub source: Variable,
}

/// An event dispatched by the system: one of the built-in lifecycle events,
/// or a custom event distinguished by a caller-chosen code.
#[derive(Debug, Clone, Copy, PartialEq, Eq, Structural)]
pub enum Event {
    Creating(Creating),
    Created(Created),
    Reading(Reading),
    Read(Read),
    Updating(Updating),
    Updated(Updated),
    Deleting(Deleting),
    Deleted(Deleted),
    Custom(u64),
}

/// The runtime identity of an event, by which listeners are bucketed.
///
/// `Creating`, `Created` and `Deleted` carry a payload whose shape is part of
/// the event's identity, so a listener registered for the creation of one
/// shape does not fire for another.
#[derive(Debug, Clone, Copy, PartialEq, Eq, Hash, Structural)]
pub enum EventTag {
    Creating(Tag),
    Created(Tag),
    Reading,
    Read,
    Updating,
    Updated,
    Deleting,
    Deleted(Tag),
    Custom(u64),
}

/// The identity under which an event is dispatched.
pub open spec fn spec_event_tag(e: Event) -> EventTag {
    match e {
        Event::Creating(c) => EventTag::Creating(value_tag(c.value)),
        Event::Created(c) => EventTag::Created(c.source.tag),
        Event::Reading(_) => EventTag::Reading,
        Event::Read(_) => EventTag::Read,
        Event::Updating(_) => EventTag::Updating,
        Event::Updated(_) => EventTag::Updated,
        Event::Deleting(_) => EventTag::Deleting,
        Event::Deleted(d) => EventTag::Deleted(d.source.tag),
        Event::Custom(code) => EventTag::Custom(code),
    }
}

/// The identity under which an event is dispatched.
pub fn event_tag(e: &Event) -> (t: EventTag)
    ensures
        t == spec_event_tag(*e),
{
    match e {
        Event::Creating(c) => EventTag::Creating(crate::variable::tag_of(&c.value)),
        Event::Created(c) => EventTag::Created(c.source.tag),
        Event::Reading(_) => EventTag::Reading,
        Event::Read(_) => EventTag::Read,
        Event::Updating(_) => EventTag::Updating,
        Event::Updated(_) => EventTag::Updated,
        Event::Deleting(_) => EventTag::Deleting,
        Event::Deleted(d) => EventTag::Deleted(d.source.tag),
        Event::Custom(code) => EventTag::Custom(*code),
    }
}

} // verus!
