//! The mathematical model of the reactive system, and the interpreter that
//! defines what every operation does to it.
//!
//! Handlers may re-enter the system, so an operation's effect is defined by
//! mutual recursion: dispatching an event runs handler programs, whose
//! instructions are themselves operations. The recursion is bounded by a
//! dispatch depth: each nested round of handlers spends one unit, and a
//! dispatch that would exceed the depth is aborted. A dispatch with no
//! matching handlers spends nothing, so handler-free operation is unaffected
//! by the bound.

use vstd::prelude::*;

use crate::events::Created;
use crate::events::Creating;
use crate::events::Deleted;
use crate::events::Deleting;
use crate::events::Event;
use crate::events::EventTag;
use crate::events::Read;
use crate::events::Reading;
use crate::events::Updated;
use crate::events::Updating;
use crate::events::spec_event_tag;
use crate::listener::Listener;
use crate::listener::Vote;
use crate::listener::VotesModel;
use crate::recipe::Instr;
use crate::recipe::Mutator;
use crate::recipe::Recipe;
use crate::recipe::sat_add;
use crate::recipe::spec_apply_mutator;
use crate::registry::BucketModel;
use crate::variable::Value;
use crate::variable::Variable;
use crate::variable::VariableId;
use crate::variable::value_tag;

verus! {

/// The state of the reactive system, as specifications speak of it.
#[verifier::ext_equal]
pub struct SystemModel {
    /// The next identifier the allocator will mint once its pool is empty.
    pub next_id: u128,
    /// Previously freed identifiers, reused stack-wise before minting.
    pub id_pool: Seq<u128>,
    /// While set, reads record a dependency of this variable on what is read.
    pub tracking_id: Option<u128>,
    /// Source identifier to the identifiers of its dependents, in the order
    /// the dependencies were recorded.
    pub deps: Map<u128, Seq<u128>>,
    /// The heterogeneous value store.
    pub values: Map<u128, Value>,
    /// The recipe of each live variable.
    pub recipes: Map<u128, Recipe>,
    /// The listener buckets, in the order they were first needed.
    pub buckets: Seq<BucketModel>,
    /// Every handler program ever registered, by slot.
    pub programs: Seq<Seq<Instr>>,
}

/// The state of a freshly built system.
pub open spec fn empty_model() -> SystemModel {
    SystemModel {
        next_id: 0,
        id_pool: Seq::empty(),
        tracking_id: None,
        deps: Map::empty(),
        values: Map::empty(),
        recipes: Map::empty(),
        buckets: Seq::empty(),
        programs: Seq::empty(),
    }
}

/// How many nested rounds of handlers one public operation will run before
/// aborting the dispatch in progress.
pub const DISPATCH_DEPTH: u64 = 64;

/// Mint an identifier: the most recently freed one if any, else the counter.
/// Fails only when the counter is exhausted.
pub open spec fn spec_alloc(m: SystemModel) -> Option<(u128, SystemModel)> {
    if m.id_pool.len() > 0 {
        Some((m.id_pool.last(), SystemModel { id_pool: m.id_pool.drop_last(), ..m }))
    } else if m.next_id < u128::MAX {
        Some((m.next_id, SystemModel { next_id: (m.next_id + 1) as u128, ..m }))
    } else {
        None
    }
}

/// Return an identifier to the pool.
pub open spec fn spec_release(m: SystemModel, id: u128) -> SystemModel {
    SystemModel { id_pool: m.id_pool.push(id), ..m }
}

/// Whether the handle denotes a live variable of its own shape. A stale
/// handle whose identifier was recycled to another shape is not live as that
/// handle, and operations through it miss softly.
pub open spec fn live_as(m: SystemModel, var: Variable) -> bool {
    m.values.dom().contains(var.id) && value_tag(m.values[var.id]) == var.tag
}

/// Record that `dependent`'s recipe read `source`; recording twice has no
/// further effect.
pub open spec fn record_dep(m: SystemModel, source: u128, dependent: u128) -> SystemModel {
    let lst = if m.deps.dom().contains(source) {
        m.deps[source]
    } else {
        Seq::empty()
    };
    let lst2 = if lst.contains(dependent) {
        lst
    } else {
        lst.push(dependent)
    };
    SystemModel { deps: m.deps.insert(source, lst2), ..m }
}

/// An empty tally.
pub open spec fn no_votes() -> VotesModel {
    VotesModel { abstain: 0, cancel: 0, proceed: 0 }
}

/// A tally after one more vote.
pub open spec fn tally(v: VotesModel, vote: Vote) -> VotesModel {
    match vote {
        Vote::Abstain => VotesModel { abstain: v.abstain + 1, ..v },
        Vote::Cancel => VotesModel { cancel: v.cancel + 1, ..v },
        Vote::Proceed => VotesModel { proceed: v.proceed + 1, ..v },
    }
}

/// A built-in lifecycle event is treated as cancelled iff its dispatch was
/// aborted or the votes to cancel strictly outnumber the votes to proceed.
pub open spec fn cancelled(r: Result<VotesModel, ()>) -> bool {
    match r {
        Ok(v) => v.cancel > v.proceed,
        Err(_) => true,
    }
}

/// The untyped identifier of an optional target handle.
pub open spec fn target_of(t: Option<VariableId>) -> Option<u128> {
    match t {
        Some(v) => Some(v.0),
        None => None,
    }
}

/// Whether the bucket serves the given event identity and target.
pub open spec fn bucket_matches(b: BucketModel, tag: EventTag, target: Option<u128>) -> bool {
    b.tag == tag && b.target == target
}

/// The position of the first bucket at or after `i` that serves the given
/// event identity and target.
pub open spec fn find_bucket_from(
    bs: Seq<BucketModel>,
    tag: EventTag,
    target: Option<u128>,
    i: int,
) -> Option<int>
    decreases bs.len() - i,
{
    if i < 0 || i >= bs.len() {
        None
    } else if bucket_matches(bs[i], tag, target) {
        Some(i)
    } else {
        find_bucket_from(bs, tag, target, i + 1)
    }
}

/// The handler entries an emission of the event at the target will run, in
/// registration order.
pub open spec fn entries_for(m: SystemModel, tag: EventTag, target: Option<u128>) -> Seq<
    (u128, usize),
> {
    match find_bucket_from(m.buckets, tag, target, 0) {
        Some(i) => m.buckets[i].entries,
        None => Seq::empty(),
    }
}

/// The dependent list after one identifier is struck from it, order kept;
/// `i` is where the scan stands.
pub open spec fn drop_id_from(lst: Seq<u128>, id: u128, i: int) -> Seq<u128>
    decreases lst.len() - i,
{
    if i < 0 || i >= lst.len() {
        Seq::empty()
    } else if lst[i] == id {
        drop_id_from(lst, id, i + 1)
    } else {
        seq![lst[i]] + drop_id_from(lst, id, i + 1)
    }
}

/// The dependency graph after a variable is deleted: its own edge set
/// leaves, and it is struck from every remaining dependent list.
pub open spec fn strip_deps(deps: Map<u128, Seq<u128>>, id: u128) -> Map<u128, Seq<u128>> {
    deps.remove(id).map_values(|lst: Seq<u128>| drop_id_from(lst, id, 0))
}

/// The buckets after a variable is deleted: every bucket scoped to it
/// leaves, order of the rest kept; `i` is where the scan stands.
pub open spec fn keep_buckets_from(bs: Seq<BucketModel>, id: u128, i: int) -> Seq<BucketModel>
    decreases bs.len() - i,
{
    if i < 0 || i >= bs.len() {
        Seq::empty()
    } else if bs[i].target == Some(id) {
        keep_buckets_from(bs, id, i + 1)
    } else {
        seq![bs[i]] + keep_buckets_from(bs, id, i + 1)
    }
}

/// Dispatch an event: snapshot the matching bucket's entries and run them in
/// registration order. With no matching handlers the dispatch succeeds with
/// an empty tally, changes nothing, and spends no depth; otherwise one unit
/// of depth pays for this round of handlers, and a dispatch with no depth
/// left is aborted.
pub open spec fn spec_emit(m: SystemModel, target: Option<u128>, e: Event, fuel: u64) -> (
    SystemModel,
    Result<VotesModel, ()>,
)
    decreases fuel, 10int, 0int,
{
    let entries = entries_for(m, spec_event_tag(e), target);
    if entries.len() == 0 {
        (m, Ok(no_votes()))
    } else if fuel == 0 {
        (m, Err(()))
    } else {
        spec_run_entries(m, entries, 0, no_votes(), fuel)
    }
}

/// Run the snapshot of handler entries from position `i` on. Each handler
/// runs with a fresh Abstain vote and clear abort flag; if it aborts, later
/// handlers are skipped and the dispatch reports failure, else its vote is
/// tallied. An entry whose program slot is out of range abstains.
pub open spec fn spec_run_entries(
    m: SystemModel,
    entries: Seq<(u128, usize)>,
    i: int,
    acc: VotesModel,
    fuel: u64,
) -> (SystemModel, Result<VotesModel, ()>)
    decreases fuel, 5int, entries.len() - i,
{
    if i < 0 || i >= entries.len() {
        (m, Ok(acc))
    } else if fuel == 0 {
        (m, Err(()))
    } else {
        let pidx = entries[i].1;
        let prog = if pidx < m.programs.len() {
            m.programs[pidx as int]
        } else {
            Seq::empty()
        };
        let (m1, vote, abort) = spec_run_program(m, prog, 0, Vote::Abstain, false, (fuel - 1) as u64);
        if abort {
            (m1, Err(()))
        } else {
            spec_run_entries(m1, entries, i + 1, tally(acc, vote), fuel)
        }
    }
}

/// Run one handler program from instruction `i` on, carrying the handler's
/// vote and abort flag. Instructions that name a variable re-enter the
/// system through the ordinary operations.
pub open spec fn spec_run_program(
    m: SystemModel,
    prog: Seq<Instr>,
    i: int,
    vote: Vote,
    abort: bool,
    fuel: u64,
) -> (SystemModel, Vote, bool)
    decreases fuel, 50int, prog.len() - i,
{
    if i < 0 || i >= prog.len() {
        (m, vote, abort)
    } else {
        match prog[i] {
            Instr::CastVote(v) => spec_run_program(m, prog, i + 1, v, abort, fuel),
            Instr::Abort => spec_run_program(m, prog, i + 1, vote, true, fuel),
            Instr::AbortIfSet(var) => {
                let (m1, r) = spec_read(m, var, fuel);
                let hit = match r {
                    Ok(Some(Value::Bool(b))) => b,
                    _ => false,
                };
                spec_run_program(m1, prog, i + 1, vote, abort || hit, fuel)
            },
            Instr::Apply(var, mu) => {
                let (m1, _r) = spec_update(m, var, mu, fuel);
                spec_run_program(m1, prog, i + 1, vote, abort, fuel)
            },
            Instr::CopyInto(src, dst) => {
                let (m1, r) = spec_read(m, src, fuel);
                match r {
                    Ok(Some(v)) => {
                        let (m2, _r2) = spec_update(m1, dst, Mutator::Assign(v), fuel);
                        spec_run_program(m2, prog, i + 1, vote, abort, fuel)
                    },
                    _ => spec_run_program(m1, prog, i + 1, vote, abort, fuel),
                }
            },
            Instr::Trigger(code, tgt) => {
                let (m1, _r) = spec_emit(m, target_of(tgt), Event::Custom(code), fuel);
                spec_run_program(m1, prog, i + 1, vote, abort, fuel)
            },
        }
    }
}

/// Read a variable. An absent or wrongly-shaped target misses softly with
/// nothing emitted. Otherwise `Reading` is emitted at the target and may
/// cancel the read; then, if a variable is being created, the read is
/// recorded as its dependency; then the value is taken (softly missing if a
/// handler deleted the target meanwhile) and `Read` is emitted, its votes
/// ignored.
pub open spec fn spec_read(m: SystemModel, var: Variable, fuel: u64) -> (
    SystemModel,
    Result<Option<Value>, ()>,
)
    decreases fuel, 20int, 0int,
{
    if !live_as(m, var) {
        (m, Ok(None))
    } else {
        let (m1, rv) = spec_emit(m, Some(var.id), Event::Reading(Reading), fuel);
        if cancelled(rv) {
            (m1, Err(()))
        } else {
            let m2 = match m1.tracking_id {
                Some(dep) => record_dep(m1, var.id, dep),
                None => m1,
            };
            if live_as(m2, var) {
                let v = m2.values[var.id];
                let (m3, _rv2) = spec_emit(m2, Some(var.id), Event::Read(Read), fuel);
                (m3, Ok(Some(v)))
            } else {
                (m2, Ok(None))
            }
        }
    }
}

/// Evaluate a recipe against the system. A reading recipe goes through the
/// ordinary read, so the read is tracked, emits its events, and may be
/// cancelled or miss; it then falls back to its `or` value.
pub open spec fn spec_eval_recipe(m: SystemModel, recipe: Recipe, prev: Option<Value>, fuel: u64)
    -> (SystemModel, Value)
    decreases fuel, 30int, 0int,
{
    match recipe {
        Recipe::Const(v) => (m, v),
        Recipe::ReadPlus { source, add, or } => {
            let (m1, r) = spec_read(m, source, fuel);
            match r {
                Ok(Some(Value::Int(n))) => (m1, Value::Int(sat_add(n, add))),
                _ => (m1, Value::Int(or)),
            }
        },
        Recipe::PrevPlus { add, or } => (
            m,
            match prev {
                Some(Value::Int(n)) => Value::Int(sat_add(n, add)),
                _ => Value::Int(or),
            },
        ),
    }
}

/// Create a variable: mint an identifier, evaluate the recipe with reads
/// tracked against it, emit `Creating` globally (cancellation frees the
/// identifier and fails the call), store value and recipe, emit `Created`
/// globally with its votes ignored, and return the typed handle.
pub open spec fn spec_create(m: SystemModel, recipe: Recipe, fuel: u64) -> (
    SystemModel,
    Result<Variable, ()>,
)
    decreases fuel, 40int, 0int,
{
    match spec_alloc(m) {
        None => (m, Err(())),
        Some((id, m1)) => {
            let m2 = SystemModel { tracking_id: Some(id), ..m1 };
            let (m3, value) = spec_eval_recipe(m2, recipe, None, fuel);
            let m4 = SystemModel { tracking_id: None, ..m3 };
            let (m5, rv) = spec_emit(m4, None, Event::Creating(Creating { value }), fuel);
            if cancelled(rv) {
                (spec_release(m5, id), Err(()))
            } else {
                let var = Variable { id, tag: value_tag(value) };
                let m6 = SystemModel {
                    values: m5.values.insert(id, value),
                    recipes: m5.recipes.insert(id, recipe),
                    ..m5
                };
                let (m7, _rv2) = spec_emit(m6, None, Event::Created(Created { source: var }), fuel);
                (m7, Ok(var))
            }
        },
    }
}

/// Update a variable: emit `Updating` at the target (cancellation fails the
/// call), apply the mutator, recompute each direct dependent in recorded
/// order, emit `Updated` at the target with votes ignored, and return the
/// value after mutation. An absent or wrongly-shaped target misses softly,
/// also when a handler deletes the target during `Updating`.
pub open spec fn spec_update(m: SystemModel, var: Variable, mu: Mutator, fuel: u64) -> (
    SystemModel,
    Result<Option<Value>, ()>,
)
    decreases fuel, 40int, 0int,
{
    if !live_as(m, var) {
        (m, Ok(None))
    } else {
        let (m1, rv) = spec_emit(m, Some(var.id), Event::Updating(Updating), fuel);
        if cancelled(rv) {
            (m1, Err(()))
        } else if !live_as(m1, var) {
            (m1, Ok(None))
        } else {
            let nv = spec_apply_mutator(m1.values[var.id], mu);
            let m2 = SystemModel { values: m1.values.insert(var.id, nv), ..m1 };
            let ds = if m2.deps.dom().contains(var.id) {
                m2.deps[var.id]
            } else {
                Seq::empty()
            };
            let m3 = spec_cascade(m2, ds, 0, fuel);
            let (m4, _rv2) = spec_emit(m3, Some(var.id), Event::Updated(Updated), fuel);
            (m4, Ok(Some(nv)))
        }
    }
}

/// Recompute the direct dependents of an updated variable, from position `i`
/// of the snapshot on. Per dependent: `Updating` at the dependent may cancel
/// just that recomputation; else its previous value is taken out of the
/// store, its recipe re-runs (untracked), the result is stored, and
/// `Updated` is emitted at the dependent, votes ignored. A dependent whose
/// recipe is gone is skipped. Dependents of dependents are not visited.
pub open spec fn spec_cascade(m: SystemModel, ds: Seq<u128>, i: int, fuel: u64) -> SystemModel
    decreases fuel, 35int, ds.len() - i,
{
    if i < 0 || i >= ds.len() {
        m
    } else {
        let d = ds[i];
        let (m1, rv) = spec_emit(m, Some(d), Event::Updating(Updating), fuel);
        if cancelled(rv) {
            spec_cascade(m1, ds, i + 1, fuel)
        } else if !m1.recipes.dom().contains(d) {
            spec_cascade(m1, ds, i + 1, fuel)
        } else {
            let recipe = m1.recipes[d];
            let prev = if m1.values.dom().contains(d) {
                Some(m1.values[d])
            } else {
                None
            };
            let m2 = SystemModel { values: m1.values.remove(d), ..m1 };
            let (m3, nv) = spec_eval_recipe(m2, recipe, prev, fuel);
            let m4 = SystemModel { values: m3.values.insert(d, nv), ..m3 };
            let (m5, _rv) = spec_emit(m4, Some(d), Event::Updated(Updated), fuel);
            spec_cascade(m5, ds, i + 1, fuel)
        }
    }
}

/// Delete a variable: fail while any dependent exists; emit `Deleting` at
/// the target (cancellation fails the call); then remove its edges both
/// ways, its recipe, every bucket scoped to it, and its value, free the
/// identifier, emit `Deleted` globally with votes ignored, and return the
/// last value. An absent or wrongly-shaped target misses softly, also when
/// a handler deletes the target during `Deleting`.
pub open spec fn spec_delete(m: SystemModel, var: Variable, fuel: u64) -> (
    SystemModel,
    Result<Option<Value>, ()>,
)
    decreases fuel, 40int, 0int,
{
    if !live_as(m, var) {
        (m, Ok(None))
    } else if m.deps.dom().contains(var.id) && m.deps[var.id].len() > 0 {
        (m, Err(()))
    } else {
        let (m1, rv) = spec_emit(m, Some(var.id), Event::Deleting(Deleting), fuel);
        if cancelled(rv) {
            (m1, Err(()))
        } else if !live_as(m1, var) {
            (m1, Ok(None))
        } else {
            let value = m1.values[var.id];
            let m2 = SystemModel {
                deps: strip_deps(m1.deps, var.id),
                recipes: m1.recipes.remove(var.id),
                buckets: keep_buckets_from(m1.buckets, var.id, 0),
                id_pool: m1.id_pool.push(var.id),
                values: m1.values.remove(var.id),
                ..m1
            };
            let (m3, _rv) = spec_emit(m2, None, Event::Deleted(Deleted { source: var }), fuel);
            (m3, Ok(Some(value)))
        }
    }
}

/// Register a listener: misses with `None` when the target variable does not
/// exist or the identifier space is exhausted; otherwise mints a listener
/// identifier from the shared pool, stores the program in a fresh slot,
/// appends the entry to its bucket (creating the bucket last in order if
/// new), and returns the handle. No event is emitted.
pub open spec fn spec_listen(
    m: SystemModel,
    tag: EventTag,
    target: Option<u128>,
    prog: Seq<Instr>,
) -> (SystemModel, Option<Listener>) {
    let absent = match target {
        Some(id) => !m.values.dom().contains(id),
        None => false,
    };
    if absent {
        (m, None)
    } else {
        match spec_alloc(m) {
            None => (m, None),
            Some((id, m1)) => {
                let pidx = m1.programs.len() as usize;
                let m2 = SystemModel { programs: m1.programs.push(prog), ..m1 };
                let m3 = match find_bucket_from(m2.buckets, tag, target, 0) {
                    Some(i) => SystemModel {
                        buckets: m2.buckets.update(
                            i,
                            BucketModel {
                                entries: crate::registry::entries_insert(
                                    m2.buckets[i].entries,
                                    id,
                                    pidx,
                                ),
                                ..m2.buckets[i]
                            },
                        ),
                        ..m2
                    },
                    None => SystemModel {
                        buckets: m2.buckets.push(
                            BucketModel { tag, target, entries: seq![(id, pidx)] },
                        ),
                        ..m2
                    },
                };
                (m3, Some(Listener { id, target, tag }))
            },
        }
    }
}

/// Remove a listener from its bucket by identifier, preserving the order of
/// the remaining listeners; `Some` iff the listener was present. The
/// listener identifier is not returned to the pool.
pub open spec fn spec_silence(m: SystemModel, l: Listener) -> (SystemModel, Option<()>) {
    match find_bucket_from(m.buckets, l.tag, l.target, 0) {
        None => (m, None),
        Some(i) => {
            let had = crate::registry::entries_has(m.buckets[i].entries, l.id);
            let m1 = SystemModel {
                buckets: m.buckets.update(
                    i,
                    BucketModel {
                        entries: crate::registry::entries_remove(m.buckets[i].entries, l.id),
                        ..m.buckets[i]
                    },
                ),
                ..m
            };
            (
                m1,
                if had {
                    Some(())
                } else {
                    None
                },
            )
        },
    }
}

} // verus!
