//! A small, embeddable reactive-state kernel.
//!
//! The system manages typed reactive cells ("variables") in a heterogeneous
//! store keyed by opaque identifiers, tracks read-dependencies between them
//! automatically while a variable's recipe runs, recomputes direct dependents
//! when a source is updated, and dispatches cancellable lifecycle and custom
//! events to registered listeners. Listeners may re-enter the system: a
//! handler may itself read, update, create, delete, emit or listen.
//!
//! Recipes and handlers are given as plain data (a small instruction set)
//! rather than as opaque callbacks, so every operation of the kernel is a
//! deterministic function of the system state and is specified exactly by the
//! model interpreter in [`model`].

pub mod events;
pub mod laws;
pub mod listener;
pub mod model;
pub mod recipe;
pub mod registry;
pub mod system;
pub mod table;
pub mod variable;

pub use listener::Listener;
pub use listener::Vote;
pub use listener::Votes;
pub use recipe::Instr;
pub use recipe::Mutator;
pub use recipe::Recipe;
pub use system::System;
pub use variable::Tag;
pub use variable::Value;
pub use variable::Variable;
pub use variable::VariableId;
