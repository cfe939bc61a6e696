//! Laws of the reactive system, proved of the model interpreter.
//!
//! Each proof function here states a property that holds of the operations
//! for every state its hypotheses admit; the public operations' contracts
//! tie the running system to the same interpreter, so what is proved here
//! holds of the running system.

use vstd::prelude::*;

use crate::listener::Listener;
use crate::listener::VotesModel;
use crate::model::SystemModel;
use crate::model::cancelled;
use crate::model::entries_for;
use crate::model::find_bucket_from;
use crate::model::keep_buckets_from;
use crate::model::live_as;
use crate::model::no_votes;
use crate::model::spec_alloc;
use crate::model::spec_create;
use crate::model::spec_delete;
use crate::model::spec_emit;
use crate::model::spec_listen;
use crate::model::spec_read;
use crate::model::spec_run_entries;
use crate::model::spec_silence;
use crate::model::spec_update;
use crate::model::tally;
use crate::events::Event;
use crate::events::EventTag;
use crate::events::spec_event_tag;
use crate::recipe::Instr;
use crate::recipe::Mutator;
use crate::recipe::Recipe;
use crate::registry::BucketModel;
use crate::registry::entries_has;
use crate::registry::entries_insert;
use crate::registry::entries_remove;
use crate::variable::Value;
use crate::variable::Variable;

verus! {

/// No bucket holds a handler: every dispatch succeeds with an empty tally
/// and leaves the state unchanged.
pub open spec fn quiet(m: SystemModel) -> bool {
    forall|i: int| 0 <= i < m.buckets.len() ==> (#[trigger] m.buckets[i]).entries.len() == 0
}

/// The keys of a bucket's entries are distinct, as they are in a running
/// system, where each listener identifier is registered in a bucket once.
pub open spec fn keys_unique(s: Seq<(u128, usize)>) -> bool {
    forall|i: int, j: int| 0 <= i < j < s.len() ==> (#[trigger] s[i]).0 != (#[trigger] s[j]).0
}

/// Operations on a dead handle miss softly: a handle that is not live — its
/// variable deleted, never created, or its identifier recycled to another
/// shape — reads, updates and deletes as `Ok(None)`, with the state
/// untouched and nothing emitted.
pub proof fn lemma_soft_miss_when_dead(m: SystemModel, var: Variable, mu: Mutator, fuel: u64)
    requires
        !live_as(m, var),
    ensures
        spec_read(m, var, fuel) == (m, Ok::<Option<Value>, ()>(None)),
        spec_update(m, var, mu, fuel) == (m, Ok::<Option<Value>, ()>(None)),
        spec_delete(m, var, fuel) == (m, Ok::<Option<Value>, ()>(None)),
{
}

/// In a quiet system every emission succeeds with an empty tally and
/// changes nothing; in particular no built-in event is ever cancelled.
pub proof fn lemma_emit_quiet(m: SystemModel, target: Option<u128>, e: Event, fuel: u64)
    requires
        quiet(m),
    ensures
        spec_emit(m, target, e, fuel) == (m, Ok::<VotesModel, ()>(no_votes())),
        !cancelled(spec_emit(m, target, e, fuel).1),
{
    let tag = spec_event_tag(e);
    match find_bucket_from(m.buckets, tag, target, 0) {
        Some(i) => {
            lemma_find_bucket_in_range(m.buckets, tag, target, 0);
            assert(m.buckets[i].entries.len() == 0);
        },
        None => {},
    }
}

/// A found bucket lies within the sequence.
pub proof fn lemma_find_bucket_in_range(
    bs: Seq<BucketModel>,
    tag: EventTag,
    target: Option<u128>,
    i: int,
)
    ensures
        match find_bucket_from(bs, tag, target, i) {
            Some(j) => i <= j < bs.len() && crate::model::bucket_matches(bs[j], tag, target),
            None => true,
        },
    decreases bs.len() - i,
{
    if i < 0 || i >= bs.len() {
    } else if crate::model::bucket_matches(bs[i], tag, target) {
    } else {
        lemma_find_bucket_in_range(bs, tag, target, i + 1);
    }
}

/// Every handler votes exactly once: when a dispatch is not aborted, the
/// votes to abstain, cancel and proceed sum to the number of handlers that
/// were registered for the event when the dispatch began.
pub proof fn lemma_votes_total(m: SystemModel, target: Option<u128>, e: Event, fuel: u64)
    ensures
        match spec_emit(m, target, e, fuel).1 {
            Ok(v) => v.abstain + v.cancel + v.proceed == entries_for(
                m,
                spec_event_tag(e),
                target,
            ).len(),
            Err(_) => true,
        },
{
    let entries = entries_for(m, spec_event_tag(e), target);
    if entries.len() == 0 {
    } else if fuel == 0 {
    } else {
        lemma_votes_total_entries(m, entries, 0, no_votes(), fuel);
    }
}

/// Helper for [`lemma_votes_total`]: running the entries from position `i`
/// adds one vote per remaining entry to the running tally.
proof fn lemma_votes_total_entries(
    m: SystemModel,
    entries: Seq<(u128, usize)>,
    i: int,
    acc: VotesModel,
    fuel: u64,
)
    requires
        0 <= i <= entries.len(),
    ensures
        match spec_run_entries(m, entries, i, acc, fuel).1 {
            Ok(v) => v.abstain + v.cancel + v.proceed == acc.abstain + acc.cancel + acc.proceed
                + (entries.len() - i),
            Err(_) => true,
        },
    decreases entries.len() - i,
{
    if i >= entries.len() {
    } else if fuel == 0 {
    } else {
        let pidx = entries[i].1;
        let prog = if pidx < m.programs.len() {
            m.programs[pidx as int]
        } else {
            Seq::empty()
        };
        let (m1, vote, abort) = crate::model::spec_run_program(
            m,
            prog,
            0,
            crate::listener::Vote::Abstain,
            false,
            (fuel - 1) as u64,
        );
        if abort {
        } else {
            lemma_votes_total_entries(m1, entries, i + 1, tally(acc, vote), fuel);
        }
    }
}

/// Inserting a key the entries lack appends it, last in order.
pub proof fn lemma_entries_insert_fresh(s: Seq<(u128, usize)>, k: u128, v: usize)
    requires
        !entries_has(s, k),
    ensures
        entries_insert(s, k, v) == s.push((k, v)),
    decreases s.len(),
{
    if s.len() == 0 {
        assert(entries_insert(s, k, v) =~= s.push((k, v)));
    } else {
        assert(s[0].0 != k);
        assert(!entries_has(s.drop_first(), k)) by {
            if entries_has(s.drop_first(), k) {
                let i = choose|i: int|
                    0 <= i < s.drop_first().len() && s.drop_first()[i].0 == k;
                assert(s[i + 1].0 == k);
            }
        }
        lemma_entries_insert_fresh(s.drop_first(), k, v);
        assert(entries_insert(s, k, v) =~= s.push((k, v)));
    }
}

/// After an insert the key is among the entries.
pub proof fn lemma_entries_insert_has(s: Seq<(u128, usize)>, k: u128, v: usize)
    ensures
        entries_has(entries_insert(s, k, v), k),
    decreases s.len(),
{
    if s.len() == 0 {
        assert(entries_insert(s, k, v)[0].0 == k);
    } else if s[0].0 == k {
        assert(entries_insert(s, k, v)[0].0 == k);
    } else {
        lemma_entries_insert_has(s.drop_first(), k, v);
        let t = entries_insert(s.drop_first(), k, v);
        let i = choose|i: int| 0 <= i < t.len() && t[i].0 == k;
        assert(entries_insert(s, k, v)[i + 1].0 == k);
    }
}

/// After a removal the key is gone, provided keys were unique.
pub proof fn lemma_entries_remove_gone(s: Seq<(u128, usize)>, k: u128)
    requires
        keys_unique(s),
    ensures
        !entries_has(entries_remove(s, k), k),
    decreases s.len(),
{
    if s.len() == 0 {
    } else if s[0].0 == k {
        if entries_has(s.drop_first(), k) {
            let i = choose|i: int| 0 <= i < s.drop_first().len() && s.drop_first()[i].0 == k;
            assert(s[i + 1].0 == k);
            assert(false);
        }
    } else {
        assert(keys_unique(s.drop_first())) by {
            assert(forall|i: int, j: int|
                0 <= i < j < s.drop_first().len() ==> (#[trigger] s.drop_first()[i]).0 != (
                #[trigger] s.drop_first()[j]).0) by {
                assert(forall|i: int|
                    0 <= i < s.drop_first().len() ==> #[trigger] s.drop_first()[i] == s[i + 1]);
            }
        }
        lemma_entries_remove_gone(s.drop_first(), k);
        let t = entries_remove(s, k);
        if entries_has(t, k) {
            let i = choose|i: int| 0 <= i < t.len() && t[i].0 == k;
            if i == 0 {
                assert(false);
            } else {
                assert(entries_remove(s.drop_first(), k)[i - 1].0 == k);
                assert(false);
            }
        }
    }
}

/// Silencing a freshly registered listener succeeds: for every state in
/// which `listen` hands back a handle, `silence` on that handle returns
/// `Some(())`.
pub proof fn lemma_silence_after_listen(
    m: SystemModel,
    tag: EventTag,
    target: Option<u128>,
    prog: Seq<Instr>,
)
    requires
        spec_listen(m, tag, target, prog).1 is Some,
    ensures
        ({
            let (m2, r) = spec_listen(m, tag, target, prog);
            spec_silence(m2, r->Some_0).1 == Some(())
        }),
{
    let (m2, r) = spec_listen(m, tag, target, prog);
    let l = r->Some_0;
    let (id, m1) = spec_alloc(m)->Some_0;
    let pidx = m1.programs.len() as usize;
    match find_bucket_from(m.buckets, tag, target, 0) {
        Some(i) => {
            lemma_find_bucket_in_range(m.buckets, tag, target, 0);
            lemma_find_bucket_update(
                m.buckets,
                tag,
                target,
                0,
                i,
                BucketModel {
                    entries: entries_insert(m.buckets[i].entries, id, pidx),
                    ..m.buckets[i]
                },
            );
            lemma_entries_insert_has(m.buckets[i].entries, id, pidx);
        },
        None => {
            lemma_find_bucket_push(
                m.buckets,
                tag,
                target,
                0,
                BucketModel { tag, target, entries: seq![(id, pidx)] },
            );
            assert(m2.buckets[m.buckets.len() as int].entries[0].0 == id);
        },
    }
}

/// A silenced listener is gone from its bucket, so no later dispatch runs
/// it again: after `silence`, the listener's identifier is absent from the
/// entries any emission of its event at its target will snapshot.
pub proof fn lemma_silenced_listener_gone(m: SystemModel, l: Listener)
    requires
        keys_unique(entries_for(m, l.tag, l.target)),
    ensures
        !entries_has(entries_for(spec_silence(m, l).0, l.tag, l.target), l.id),
{
    match find_bucket_from(m.buckets, l.tag, l.target, 0) {
        None => {
            let m2 = spec_silence(m, l).0;
            assert(entries_for(m2, l.tag, l.target).len() == 0);
        },
        Some(i) => {
            lemma_find_bucket_in_range(m.buckets, l.tag, l.target, 0);
            let b2 = BucketModel {
                entries: entries_remove(m.buckets[i].entries, l.id),
                ..m.buckets[i]
            };
            lemma_find_bucket_update(m.buckets, l.tag, l.target, 0, i, b2);
            lemma_entries_remove_gone(m.buckets[i].entries, l.id);
        },
    }
}

/// Every bucket except, at most, the one serving the given event identity
/// and target is empty of handlers.
pub open spec fn quiet_except(m: SystemModel, tag: EventTag, target: Option<u128>) -> bool {
    forall|i: int|
        0 <= i < m.buckets.len() ==> (crate::model::bucket_matches(
            #[trigger] m.buckets[i],
            tag,
            target,
        ) || m.buckets[i].entries.len() == 0)
}

/// An emission of anything but the one possibly-listened-to event succeeds
/// with an empty tally and changes nothing.
pub proof fn lemma_emit_quiet_except(
    m: SystemModel,
    tag0: EventTag,
    target0: Option<u128>,
    target: Option<u128>,
    e: Event,
    fuel: u64,
)
    requires
        quiet_except(m, tag0, target0),
        !(spec_event_tag(e) == tag0 && target == target0),
    ensures
        spec_emit(m, target, e, fuel) == (m, Ok::<VotesModel, ()>(no_votes())),
        !cancelled(spec_emit(m, target, e, fuel).1),
{
    let tag = spec_event_tag(e);
    match find_bucket_from(m.buckets, tag, target, 0) {
        Some(i) => {
            lemma_find_bucket_in_range(m.buckets, tag, target, 0);
            assert(!crate::model::bucket_matches(m.buckets[i], tag0, target0));
            assert(m.buckets[i].entries.len() == 0);
        },
        None => {},
    }
}

/// The variable a recipe reads through the system, if any.
pub open spec fn recipe_source(recipe: Recipe) -> Option<u128> {
    match recipe {
        Recipe::ReadPlus { source, .. } => Some(source.id),
        _ => None,
    }
}

/// In a quiet system a read misses softly on a dead handle and otherwise
/// returns the stored value, recording a dependency iff a variable is being
/// created; it touches nothing but the dependency graph.
pub proof fn lemma_read_quiet(m: SystemModel, var: Variable, fuel: u64)
    requires
        quiet(m),
    ensures
        ({
            let (m2, r) = spec_read(m, var, fuel);
            &&& quiet(m2)
            &&& if !live_as(m, var) {
                m2 == m && r == Ok::<Option<Value>, ()>(None)
            } else {
                r == Ok::<Option<Value>, ()>(Some(m.values[var.id])) && m2 == (match m.tracking_id {
                    Some(dep) => crate::model::record_dep(m, var.id, dep),
                    None => m,
                })
            }
        }),
{
    if live_as(m, var) {
        lemma_emit_quiet(m, Some(var.id), Event::Reading(crate::events::Reading), fuel);
        let m2 = match m.tracking_id {
            Some(dep) => crate::model::record_dep(m, var.id, dep),
            None => m,
        };
        assert(live_as(m2, var));
        lemma_emit_quiet(m2, Some(var.id), Event::Read(crate::events::Read), fuel);
    }
}

/// In a quiet system a recipe's evaluation touches nothing but the
/// dependency graph, and the only key it can add there is the variable the
/// recipe reads.
pub proof fn lemma_eval_quiet(m: SystemModel, recipe: Recipe, prev: Option<Value>, fuel: u64)
    requires
        quiet(m),
    ensures
        ({
            let (m2, v) = crate::model::spec_eval_recipe(m, recipe, prev, fuel);
            &&& quiet(m2)
            &&& m2.values == m.values
            &&& m2.recipes == m.recipes
            &&& m2.buckets == m.buckets
            &&& m2.programs == m.programs
            &&& m2.id_pool == m.id_pool
            &&& m2.next_id == m.next_id
            &&& m2.tracking_id == m.tracking_id
            &&& forall|k: u128|
                #[trigger] m2.deps.dom().contains(k) ==> m.deps.dom().contains(k) || Some(k)
                    == recipe_source(recipe)
        }),
{
    match recipe {
        Recipe::ReadPlus { source, .. } => {
            lemma_read_quiet(m, source, fuel);
        },
        _ => {},
    }
}

/// In a quiet system with an identifier to mint, `create` succeeds: the new
/// variable's value and recipe are stored under a common fresh identifier,
/// nothing else but the dependency graph moves, and the only dependency key
/// the recipe's run can add is the variable it reads.
pub proof fn lemma_create_quiet(m: SystemModel, recipe: Recipe, fuel: u64)
    requires
        quiet(m),
        spec_alloc(m) is Some,
    ensures
        ({
            let (m2, r) = spec_create(m, recipe, fuel);
            &&& r is Ok
            &&& quiet(m2)
            &&& r->Ok_0.id == spec_alloc(m)->Some_0.0
            &&& m2.values.dom().contains(r->Ok_0.id)
            &&& r->Ok_0.tag == crate::variable::value_tag(m2.values[r->Ok_0.id])
            &&& live_as(m2, r->Ok_0)
            &&& m2.values == m.values.insert(r->Ok_0.id, m2.values[r->Ok_0.id])
            &&& m2.recipes == m.recipes.insert(r->Ok_0.id, recipe)
            &&& m2.buckets == m.buckets
            &&& m2.programs == m.programs
            &&& m2.tracking_id == None::<u128>
            &&& forall|k: u128|
                #[trigger] m2.deps.dom().contains(k) ==> m.deps.dom().contains(k) || Some(k)
                    == recipe_source(recipe)
        }),
{
    let (id, m1) = spec_alloc(m)->Some_0;
    let mt = SystemModel { tracking_id: Some(id), ..m1 };
    lemma_eval_quiet(mt, recipe, None, fuel);
    let (m3, value) = crate::model::spec_eval_recipe(mt, recipe, None, fuel);
    let m4 = SystemModel { tracking_id: None, ..m3 };
    lemma_emit_quiet(
        m4,
        None,
        Event::Creating(crate::events::Creating { value }),
        fuel,
    );
    let var = Variable { id, tag: crate::variable::value_tag(value) };
    let m6 = SystemModel {
        values: m4.values.insert(id, value),
        recipes: m4.recipes.insert(id, recipe),
        ..m4
    };
    lemma_emit_quiet(
        m6,
        None,
        Event::Created(crate::events::Created { source: var }),
        fuel,
    );
    assert(spec_create(m, recipe, fuel) == (m6, Ok::<Variable, ()>(var)));
}

/// Each bucket kept across a deletion was a bucket before it.
pub proof fn lemma_keep_buckets_empty_entries(bs: Seq<BucketModel>, id: u128, i: int)
    requires
        forall|j: int| 0 <= j < bs.len() ==> (#[trigger] bs[j]).entries.len() == 0,
    ensures
        forall|x: int|
            0 <= x < keep_buckets_from(bs, id, i).len() ==> (#[trigger] keep_buckets_from(
                bs,
                id,
                i,
            )[x]).entries.len() == 0,
    decreases bs.len() - i,
{
    if i < 0 || i >= bs.len() {
    } else {
        lemma_keep_buckets_empty_entries(bs, id, i + 1);
        if bs[i].target != Some(id) {
            let r = keep_buckets_from(bs, id, i);
            assert(forall|x: int|
                1 <= x < r.len() ==> r[x] == #[trigger] keep_buckets_from(bs, id, i + 1)[x - 1]);
        }
    }
}

/// In a quiet system `delete` behaves purely: a dead handle misses softly,
/// a live variable with dependents is refused, and otherwise the value is
/// returned while value, recipe, both edge directions and the scoped
/// buckets leave and the identifier returns to the pool.
pub proof fn lemma_delete_quiet(m: SystemModel, var: Variable, fuel: u64)
    requires
        quiet(m),
    ensures
        ({
            let (m2, r) = spec_delete(m, var, fuel);
            &&& quiet(m2)
            &&& !live_as(m, var) ==> (m2 == m && r == Ok::<Option<Value>, ()>(None))
            &&& (live_as(m, var) && m.deps.dom().contains(var.id) && m.deps[var.id].len() > 0)
                ==> (m2 == m && r == Err::<Option<Value>, ()>(()))
            &&& (live_as(m, var) && !(m.deps.dom().contains(var.id) && m.deps[var.id].len() > 0))
                ==> {
                &&& r == Ok::<Option<Value>, ()>(Some(m.values[var.id]))
                &&& m2.values == m.values.remove(var.id)
                &&& m2.recipes == m.recipes.remove(var.id)
                &&& m2.deps == crate::model::strip_deps(m.deps, var.id)
                &&& m2.buckets == keep_buckets_from(m.buckets, var.id, 0)
                &&& m2.id_pool == m.id_pool.push(var.id)
                &&& !live_as(m2, var)
            }
        }),
{
    if live_as(m, var) && !(m.deps.dom().contains(var.id) && m.deps[var.id].len() > 0) {
        lemma_emit_quiet(m, Some(var.id), Event::Deleting(crate::events::Deleting), fuel);
        let value = m.values[var.id];
        let m2 = SystemModel {
            deps: crate::model::strip_deps(m.deps, var.id),
            recipes: m.recipes.remove(var.id),
            buckets: keep_buckets_from(m.buckets, var.id, 0),
            id_pool: m.id_pool.push(var.id),
            values: m.values.remove(var.id),
            ..m
        };
        lemma_keep_buckets_empty_entries(m.buckets, var.id, 0);
        lemma_emit_quiet(
            m2,
            None,
            Event::Deleted(crate::events::Deleted { source: var }),
            fuel,
        );
    }
}

/// Value/recipe coherence: in a quiet system, any sequence of `create` and
/// `delete` operations keeps the set of identifiers in the value store
/// equal to the set of identifiers in the recipe table — each step of such
/// a sequence preserves the equality, whether or not it succeeds.
pub proof fn lemma_store_coherence(m: SystemModel, recipe: Recipe, var: Variable, fuel: u64)
    requires
        quiet(m),
        m.values.dom() == m.recipes.dom(),
    ensures
        spec_create(m, recipe, fuel).0.values.dom() == spec_create(m, recipe, fuel).0.recipes.dom(),
        spec_delete(m, var, fuel).0.values.dom() == spec_delete(m, var, fuel).0.recipes.dom(),
        quiet(spec_create(m, recipe, fuel).0),
        quiet(spec_delete(m, var, fuel).0),
{
    if spec_alloc(m) is Some {
        lemma_create_quiet(m, recipe, fuel);
        let (m2, r) = spec_create(m, recipe, fuel);
        assert(m2.values.dom() =~= m2.recipes.dom());
    }
    lemma_delete_quiet(m, var, fuel);
    let (m3, r3) = spec_delete(m, var, fuel);
    if live_as(m, var) && !(m.deps.dom().contains(var.id) && m.deps[var.id].len() > 0) {
        assert(m3.values.dom() =~= m3.recipes.dom());
    }
}

/// Round trip: in a quiet system, creating a variable and deleting it with
/// no operation in between hands back exactly the value that was stored at
/// creation. The minted identifier must be fresh to the dependency graph
/// and not what the recipe reads, as it always is when identifiers are
/// recycled only by the system itself.
pub proof fn lemma_create_delete_roundtrip(m: SystemModel, recipe: Recipe, fuel: u64)
    requires
        quiet(m),
        spec_alloc(m) is Some,
        !m.deps.dom().contains(spec_alloc(m)->Some_0.0),
        recipe_source(recipe) != Some(spec_alloc(m)->Some_0.0),
    ensures
        ({
            let (m2, r) = spec_create(m, recipe, fuel);
            &&& r is Ok
            &&& spec_delete(m2, r->Ok_0, fuel).1 == Ok::<Option<Value>, ()>(
                Some(m2.values[r->Ok_0.id]),
            )
        }),
{
    lemma_create_quiet(m, recipe, fuel);
    let (m2, r) = spec_create(m, recipe, fuel);
    let var = r->Ok_0;
    assert(!m2.deps.dom().contains(var.id));
    lemma_delete_quiet(m2, var, fuel);
}

/// A deleted handle is dead: in a quiet system, after a successful
/// deletion, reads, updates and deletions through the old handle miss
/// softly and change nothing, until and unless the identifier is recycled.
pub proof fn lemma_deleted_handle_dead(m: SystemModel, var: Variable, mu: Mutator, fuel: u64)
    requires
        quiet(m),
        live_as(m, var),
        !(m.deps.dom().contains(var.id) && m.deps[var.id].len() > 0),
    ensures
        ({
            let (m2, r) = spec_delete(m, var, fuel);
            &&& r == Ok::<Option<Value>, ()>(Some(m.values[var.id]))
            &&& !live_as(m2, var)
            &&& spec_read(m2, var, fuel) == (m2, Ok::<Option<Value>, ()>(None))
            &&& spec_update(m2, var, mu, fuel) == (m2, Ok::<Option<Value>, ()>(None))
            &&& spec_delete(m2, var, fuel) == (m2, Ok::<Option<Value>, ()>(None))
        }),
{
    lemma_delete_quiet(m, var, fuel);
    let (m2, r) = spec_delete(m, var, fuel);
    lemma_soft_miss_when_dead(m2, var, mu, fuel);
}

/// Cascade correctness: in a quiet system where `b` is the one direct
/// dependent of `a`, with a recipe that reads `a` and adds a constant,
/// updating `a` recomputes `b` exactly once: afterwards `a` holds its
/// mutated value and `b` holds that value plus the constant, and the update
/// returns `a`'s new value.
pub proof fn lemma_counter_cascade(
    m: SystemModel,
    a: Variable,
    b: Variable,
    x: i64,
    k: i64,
    orv: i64,
    j: i64,
    fuel: u64,
)
    requires
        quiet(m),
        a.tag == crate::variable::Tag::Int,
        live_as(m, a),
        m.values[a.id] == Value::Int(x),
        live_as(m, b),
        a.id != b.id,
        m.deps.dom().contains(a.id),
        m.deps[a.id] == seq![b.id],
        m.recipes.dom().contains(b.id),
        m.recipes[b.id] == (Recipe::ReadPlus { source: a, add: k, or: orv }),
    ensures
        ({
            let (m2, r) = spec_update(m, a, Mutator::AddInt(j), fuel);
            let av = crate::recipe::sat_add(x, j);
            &&& r == Ok::<Option<Value>, ()>(Some(Value::Int(av)))
            &&& m2.values[a.id] == Value::Int(av)
            &&& m2.values[b.id] == Value::Int(crate::recipe::sat_add(av, k))
        }),
{
    let av = crate::recipe::sat_add(x, j);
    let nv = Value::Int(av);
    lemma_emit_quiet(m, Some(a.id), Event::Updating(crate::events::Updating), fuel);
    let m2 = SystemModel { values: m.values.insert(a.id, nv), ..m };
    let ds = m.deps[a.id];
    // The cascade visits b alone.
    lemma_emit_quiet(m2, Some(b.id), Event::Updating(crate::events::Updating), fuel);
    let prev = if m2.values.dom().contains(b.id) {
        Some(m2.values[b.id])
    } else {
        None
    };
    let mr = SystemModel { values: m2.values.remove(b.id), ..m2 };
    assert(live_as(mr, a));
    lemma_read_quiet(mr, a, fuel);
    let (m3, bv) = crate::model::spec_eval_recipe(
        mr,
        Recipe::ReadPlus { source: a, add: k, or: orv },
        prev,
        fuel,
    );
    assert(bv == Value::Int(crate::recipe::sat_add(av, k)));
    let m4 = SystemModel { values: m3.values.insert(b.id, bv), ..m3 };
    lemma_emit_quiet(m4, Some(b.id), Event::Updated(crate::events::Updated), fuel);
    assert(crate::model::spec_cascade(m4, ds, 1, fuel) == m4);
    assert(crate::model::spec_cascade(m2, ds, 0, fuel) == m4);
    lemma_emit_quiet(m4, Some(a.id), Event::Updated(crate::events::Updated), fuel);
    assert(m4.values[a.id] == nv);
}

/// A mutator never changes a value's shape.
pub proof fn lemma_mutator_keeps_shape(v: Value, mu: Mutator)
    ensures
        crate::variable::value_tag(crate::recipe::spec_apply_mutator(v, mu)) ==
            crate::variable::value_tag(v),
{
}

/// Helper for the re-entrancy laws: a handler program that copies `t` into
/// `p`, run in a state where every event it makes the system emit falls on
/// an empty bucket, assigns `t`'s current value to `p` and changes nothing
/// else, neither voting nor aborting.
proof fn lemma_copy_program_step(
    m: SystemModel,
    tag0: EventTag,
    target0: Option<u128>,
    t: Variable,
    p: Variable,
    fuel: u64,
)
    requires
        quiet_except(m, tag0, target0),
        m.tracking_id is None,
        live_as(m, t),
        live_as(m, p),
        p.id != t.id,
        crate::variable::value_tag(m.values[t.id]) == p.tag,
        !m.deps.dom().contains(p.id),
        !(tag0 == EventTag::Reading && target0 == Some(t.id)),
        !(tag0 == EventTag::Read && target0 == Some(t.id)),
        !(tag0 == EventTag::Updating && target0 == Some(p.id)),
        !(tag0 == EventTag::Updated && target0 == Some(p.id)),
    ensures
        crate::model::spec_run_program(
            m,
            seq![Instr::CopyInto(t, p)],
            0,
            crate::listener::Vote::Abstain,
            false,
            fuel,
        ) == ((
            SystemModel { values: m.values.insert(p.id, m.values[t.id]), ..m },
            crate::listener::Vote::Abstain,
            false,
        )),
{
    let vt = m.values[t.id];
    lemma_emit_quiet_except(
        m,
        tag0,
        target0,
        Some(t.id),
        Event::Reading(crate::events::Reading),
        fuel,
    );
    lemma_emit_quiet_except(m, tag0, target0, Some(t.id), Event::Read(crate::events::Read), fuel);
    assert(spec_read(m, t, fuel) == (m, Ok::<Option<Value>, ()>(Some(vt))));
    lemma_emit_quiet_except(
        m,
        tag0,
        target0,
        Some(p.id),
        Event::Updating(crate::events::Updating),
        fuel,
    );
    let nv = crate::recipe::spec_apply_mutator(m.values[p.id], Mutator::Assign(vt));
    assert(nv == vt);
    let m2 = SystemModel { values: m.values.insert(p.id, vt), ..m };
    assert(live_as(m2, p));
    lemma_emit_quiet_except(
        m2,
        tag0,
        target0,
        Some(p.id),
        Event::Updated(crate::events::Updated),
        fuel,
    );
    assert(spec_update(m, p, Mutator::Assign(vt), fuel) == (
        m2,
        Ok::<Option<Value>, ()>(Some(vt)),
    ));
    let prog = seq![Instr::CopyInto(t, p)];
    assert(crate::model::spec_run_program(
        m2,
        prog,
        1,
        crate::listener::Vote::Abstain,
        false,
        fuel,
    ) == (m2, crate::listener::Vote::Abstain, false));
}

/// Re-entrant observation, before: a handler for `Updating` on `t` that
/// reads `t` and stores what it saw into `p` observes the pre-update
/// value: after the update, `p` holds what `t` held before the call, while
/// `t` holds its mutated value, which the call returns.
pub proof fn lemma_updating_handler_sees_previous_value(
    m: SystemModel,
    t: Variable,
    p: Variable,
    lid: u128,
    pidx: usize,
    mu: Mutator,
    fuel: u64,
)
    requires
        quiet_except(m, EventTag::Updating, Some(t.id)),
        entries_for(m, EventTag::Updating, Some(t.id)) == seq![(lid, pidx)],
        (pidx as int) < m.programs.len(),
        m.programs[pidx as int] == seq![Instr::CopyInto(t, p)],
        m.tracking_id is None,
        live_as(m, t),
        live_as(m, p),
        p.id != t.id,
        crate::variable::value_tag(m.values[t.id]) == p.tag,
        !m.deps.dom().contains(p.id),
        !m.deps.dom().contains(t.id),
        fuel >= 1,
    ensures
        ({
            let (m2, r) = spec_update(m, t, mu, fuel);
            let nv = crate::recipe::spec_apply_mutator(m.values[t.id], mu);
            &&& r == Ok::<Option<Value>, ()>(Some(nv))
            &&& m2.values[t.id] == nv
            &&& m2.values[p.id] == m.values[t.id]
        }),
{
    let entries = entries_for(m, EventTag::Updating, Some(t.id));
    lemma_copy_program_step(m, EventTag::Updating, Some(t.id), t, p, (fuel - 1) as u64);
    let mb = SystemModel { values: m.values.insert(p.id, m.values[t.id]), ..m };
    assert(spec_run_entries(m, entries, 0, no_votes(), fuel) == (
        mb,
        Ok::<VotesModel, ()>(tally(no_votes(), crate::listener::Vote::Abstain)),
    ));
    assert(spec_emit(m, Some(t.id), Event::Updating(crate::events::Updating), fuel) == (
        mb,
        Ok::<VotesModel, ()>(tally(no_votes(), crate::listener::Vote::Abstain)),
    ));
    assert(live_as(mb, t));
    let nv = crate::recipe::spec_apply_mutator(mb.values[t.id], mu);
    let mc = SystemModel { values: mb.values.insert(t.id, nv), ..mb };
    lemma_emit_quiet_except(
        mc,
        EventTag::Updating,
        Some(t.id),
        Some(t.id),
        Event::Updated(crate::events::Updated),
        fuel,
    );
    assert(spec_update(m, t, mu, fuel) == (mc, Ok::<Option<Value>, ()>(Some(nv))));
}

/// Re-entrant observation, after: a handler for `Updated` on `t` that
/// reads `t` and stores what it saw into `p` observes the post-update
/// value: after the update, both `t` and `p` hold the mutated value.
pub proof fn lemma_updated_handler_sees_new_value(
    m: SystemModel,
    t: Variable,
    p: Variable,
    lid: u128,
    pidx: usize,
    mu: Mutator,
    fuel: u64,
)
    requires
        quiet_except(m, EventTag::Updated, Some(t.id)),
        entries_for(m, EventTag::Updated, Some(t.id)) == seq![(lid, pidx)],
        (pidx as int) < m.programs.len(),
        m.programs[pidx as int] == seq![Instr::CopyInto(t, p)],
        m.tracking_id is None,
        live_as(m, t),
        live_as(m, p),
        p.id != t.id,
        crate::variable::value_tag(m.values[t.id]) == p.tag,
        !m.deps.dom().contains(p.id),
        !m.deps.dom().contains(t.id),
        fuel >= 1,
    ensures
        ({
            let (m2, r) = spec_update(m, t, mu, fuel);
            let nv = crate::recipe::spec_apply_mutator(m.values[t.id], mu);
            &&& r == Ok::<Option<Value>, ()>(Some(nv))
            &&& m2.values[t.id] == nv
            &&& m2.values[p.id] == nv
        }),
{
    lemma_emit_quiet_except(
        m,
        EventTag::Updated,
        Some(t.id),
        Some(t.id),
        Event::Updating(crate::events::Updating),
        fuel,
    );
    let nv = crate::recipe::spec_apply_mutator(m.values[t.id], mu);
    lemma_mutator_keeps_shape(m.values[t.id], mu);
    let mc = SystemModel { values: m.values.insert(t.id, nv), ..m };
    assert(live_as(mc, t));
    assert(live_as(mc, p));
    lemma_copy_program_step(mc, EventTag::Updated, Some(t.id), t, p, (fuel - 1) as u64);
    let md = SystemModel { values: mc.values.insert(p.id, nv), ..mc };
    let entries = entries_for(mc, EventTag::Updated, Some(t.id));
    assert(entries == entries_for(m, EventTag::Updated, Some(t.id)));
    assert(spec_run_entries(mc, entries, 0, no_votes(), fuel) == (
        md,
        Ok::<VotesModel, ()>(tally(no_votes(), crate::listener::Vote::Abstain)),
    ));
    assert(spec_emit(mc, Some(t.id), Event::Updated(crate::events::Updated), fuel) == (
        md,
        Ok::<VotesModel, ()>(tally(no_votes(), crate::listener::Vote::Abstain)),
    ));
    assert(spec_update(m, t, mu, fuel) == (md, Ok::<Option<Value>, ()>(Some(nv))));
}

/// Whether one of the identifiers at or after position `i` is `k`.
pub open spec fn ids_from_contain(ds: Seq<u128>, i: int, k: u128) -> bool {
    exists|j: int| i <= j < ds.len() && ds[j] == k
}

/// Helper for [`lemma_update_recomputes_dependents_once`]: in a quiet
/// system the cascade re-runs the recipe of each listed dependent exactly
/// once, in order, and touches no other variable. With recipes that step
/// their own previous value, running twice would step twice; the
/// conclusion pins each dependent to a single step.
pub proof fn lemma_cascade_recomputes_each_once(m: SystemModel, ds: Seq<u128>, i: int, fuel: u64)
    requires
        quiet(m),
        0 <= i <= ds.len(),
        forall|a: int, b: int| 0 <= a < b < ds.len() ==> ds[a] != ds[b],
        forall|j: int| i <= j < ds.len() ==> m.recipes.dom().contains(#[trigger] ds[j]),
        forall|j: int| i <= j < ds.len() ==> (#[trigger] m.recipes[ds[j]]) is PrevPlus,
        forall|j: int| i <= j < ds.len() ==> m.values.dom().contains(#[trigger] ds[j]),
        forall|j: int| i <= j < ds.len() ==> (#[trigger] m.values[ds[j]]) is Int,
    ensures
        ({
            let m2 = crate::model::spec_cascade(m, ds, i, fuel);
            &&& quiet(m2)
            &&& m2.recipes == m.recipes
            &&& m2.buckets == m.buckets
            &&& m2.programs == m.programs
            &&& m2.deps == m.deps
            &&& m2.tracking_id == m.tracking_id
            &&& m2.id_pool == m.id_pool
            &&& m2.next_id == m.next_id
            &&& m2.values.dom() == m.values.dom()
            &&& forall|j: int|
                i <= j < ds.len() ==> m2.values[#[trigger] ds[j]] == Value::Int(
                    crate::recipe::sat_add(
                        m.values[ds[j]]->Int_0,
                        m.recipes[ds[j]]->PrevPlus_add,
                    ),
                )
            &&& forall|k: u128|
                m.values.dom().contains(k) && !ids_from_contain(ds, i, k)
                    ==> m2.values.contains_key(k) && #[trigger] m2.values[k] == m.values[k]
        }),
    decreases ds.len() - i,
{
    if i >= ds.len() {
    } else {
        let d = ds[i];
        lemma_emit_quiet(m, Some(d), Event::Updating(crate::events::Updating), fuel);
        let prev = Some(m.values[d]);
        let m2 = SystemModel { values: m.values.remove(d), ..m };
        let recipe = m.recipes[d];
        let v = Value::Int(
            crate::recipe::sat_add(m.values[d]->Int_0, recipe->PrevPlus_add),
        );
        assert(crate::model::spec_eval_recipe(m2, recipe, prev, fuel) == (m2, v));
        let m4 = SystemModel { values: m2.values.insert(d, v), ..m2 };
        lemma_emit_quiet(m4, Some(d), Event::Updated(crate::events::Updated), fuel);
        assert(m4.values.dom() =~= m.values.dom());
        assert(forall|j: int| i + 1 <= j < ds.len() ==> ds[j] != d);
        assert(forall|j: int|
            i + 1 <= j < ds.len() ==> (#[trigger] m4.values[ds[j]]) == m.values[ds[j]]);
        lemma_cascade_recomputes_each_once(m4, ds, i + 1, fuel);
        let m5 = crate::model::spec_cascade(m4, ds, i + 1, fuel);
        assert(crate::model::spec_cascade(m, ds, i, fuel) == m5);
        assert(!ids_from_contain(ds, i + 1, d));
        assert(m5.values[d] == v);
        assert forall|k: u128|
            m.values.dom().contains(k) && !ids_from_contain(ds, i, k) implies m5.values.contains_key(
            k,
        ) && #[trigger] m5.values[k] == m.values[k] by {
            assert(k != d) by {
                if k == d {
                    assert(ids_from_contain(ds, i, k));
                }
            }
            assert(!ids_from_contain(ds, i + 1, k)) by {
                if ids_from_contain(ds, i + 1, k) {
                    let j = choose|j: int| i + 1 <= j < ds.len() && ds[j] == k;
                    assert(ids_from_contain(ds, i, k));
                }
            }
            assert(m4.values[k] == m.values[k]);
        }
        assert forall|j: int|
            i <= j < ds.len() implies m5.values[#[trigger] ds[j]] == Value::Int(
            crate::recipe::sat_add(m.values[ds[j]]->Int_0, m.recipes[ds[j]]->PrevPlus_add),
        ) by {
            if j == i {
            } else {
                assert(m4.values[ds[j]] == m.values[ds[j]]);
            }
        }
    }
}

/// Every direct dependent is recomputed exactly once per update call: in a
/// quiet system where each of `a`'s dependents has a recipe that steps its
/// own previous integer value, updating `a` leaves each dependent stepped
/// exactly once — twice would step twice — while `a` carries its mutated
/// value, which the call returns.
pub proof fn lemma_update_recomputes_dependents_once(
    m: SystemModel,
    a: Variable,
    mu: Mutator,
    fuel: u64,
)
    requires
        quiet(m),
        live_as(m, a),
        m.deps.dom().contains(a.id),
        forall|ai: int, b: int|
            0 <= ai < b < m.deps[a.id].len() ==> m.deps[a.id][ai] != m.deps[a.id][b],
        forall|j: int| 0 <= j < m.deps[a.id].len() ==> (#[trigger] m.deps[a.id][j]) != a.id,
        forall|j: int|
            0 <= j < m.deps[a.id].len() ==> m.recipes.dom().contains(#[trigger] m.deps[a.id][j]),
        forall|j: int|
            0 <= j < m.deps[a.id].len() ==> (#[trigger] m.recipes[m.deps[a.id][j]]) is PrevPlus,
        forall|j: int|
            0 <= j < m.deps[a.id].len() ==> m.values.dom().contains(#[trigger] m.deps[a.id][j]),
        forall|j: int|
            0 <= j < m.deps[a.id].len() ==> (#[trigger] m.values[m.deps[a.id][j]]) is Int,
    ensures
        ({
            let (m2, r) = spec_update(m, a, mu, fuel);
            let nv = crate::recipe::spec_apply_mutator(m.values[a.id], mu);
            let ds = m.deps[a.id];
            &&& r == Ok::<Option<Value>, ()>(Some(nv))
            &&& m2.values[a.id] == nv
            &&& forall|j: int|
                0 <= j < ds.len() ==> m2.values[#[trigger] ds[j]] == Value::Int(
                    crate::recipe::sat_add(
                        m.values[ds[j]]->Int_0,
                        m.recipes[ds[j]]->PrevPlus_add,
                    ),
                )
        }),
{
    lemma_emit_quiet(m, Some(a.id), Event::Updating(crate::events::Updating), fuel);
    let nv = crate::recipe::spec_apply_mutator(m.values[a.id], mu);
    let m2 = SystemModel { values: m.values.insert(a.id, nv), ..m };
    let ds = m.deps[a.id];
    assert(forall|j: int|
        0 <= j < ds.len() ==> (#[trigger] m2.values[ds[j]]) == m.values[ds[j]]);
    lemma_cascade_recomputes_each_once(m2, ds, 0, fuel);
    let m3 = crate::model::spec_cascade(m2, ds, 0, fuel);
    assert(!ids_from_contain(ds, 0, a.id)) by {
        if ids_from_contain(ds, 0, a.id) {
            let j = choose|j: int| 0 <= j < ds.len() && ds[j] == a.id;
        }
    }
    assert(m3.values[a.id] == nv);
    lemma_emit_quiet(m3, Some(a.id), Event::Updated(crate::events::Updated), fuel);
    assert forall|j: int|
        0 <= j < ds.len() implies m3.values[#[trigger] ds[j]] == Value::Int(
        crate::recipe::sat_add(m.values[ds[j]]->Int_0, m.recipes[ds[j]]->PrevPlus_add),
    ) by {
        assert(m2.values[ds[j]] == m.values[ds[j]]);
        assert(m2.recipes[ds[j]] == m.recipes[ds[j]]);
    }
}

/// Helper: running a snapshot from a position past a prefix is running the
/// suffix from the matching position.
proof fn lemma_run_entries_shift(
    m: SystemModel,
    pre: Seq<(u128, usize)>,
    suf: Seq<(u128, usize)>,
    x: int,
    acc: VotesModel,
    fuel: u64,
)
    requires
        0 <= x,
    ensures
        spec_run_entries(m, pre + suf, pre.len() + x, acc, fuel) == spec_run_entries(
            m,
            suf,
            x,
            acc,
            fuel,
        ),
    decreases suf.len() - x,
{
    let cat = pre + suf;
    if x >= suf.len() {
    } else if fuel == 0 {
    } else {
        assert(cat[pre.len() + x] == suf[x]);
        let pidx = suf[x].1;
        let prog = if pidx < m.programs.len() {
            m.programs[pidx as int]
        } else {
            Seq::empty()
        };
        let (m1, vote, abort) = crate::model::spec_run_program(
            m,
            prog,
            0,
            crate::listener::Vote::Abstain,
            false,
            (fuel - 1) as u64,
        );
        if abort {
        } else {
            lemma_run_entries_shift(m1, pre, suf, x + 1, acc, fuel);
            assert(spec_run_entries(m1, cat, pre.len() + x + 1, tally(acc, vote), fuel)
                == spec_run_entries(m1, suf, x + 1, tally(acc, vote), fuel)) by {
                lemma_run_entries_shift(m1, pre, suf, x + 1, tally(acc, vote), fuel);
            }
        }
    }
}

/// Registration order is preserved by dispatch: running the concatenation
/// of two blocks of handler entries runs the earlier block first, from the
/// starting state, and then — unless the earlier block aborted — the later
/// block, from the state and tally the earlier block left.
pub proof fn lemma_dispatch_order(
    m: SystemModel,
    s1: Seq<(u128, usize)>,
    s2: Seq<(u128, usize)>,
    i: int,
    acc: VotesModel,
    fuel: u64,
)
    requires
        0 <= i <= s1.len(),
    ensures
        spec_run_entries(m, s1 + s2, i, acc, fuel) == ({
            let (m1, r1) = spec_run_entries(m, s1, i, acc, fuel);
            match r1 {
                Ok(v) => spec_run_entries(m1, s2, 0, v, fuel),
                Err(_) => (m1, Err::<VotesModel, ()>(())),
            }
        }),
    decreases s1.len() - i,
{
    let cat = s1 + s2;
    if i == s1.len() {
        lemma_run_entries_shift(m, s1, s2, 0, acc, fuel);
        if s2.len() == 0 {
        }
    } else if fuel == 0 {
    } else {
        assert(cat[i] == s1[i]);
        let pidx = s1[i].1;
        let prog = if pidx < m.programs.len() {
            m.programs[pidx as int]
        } else {
            Seq::empty()
        };
        let (m1, vote, abort) = crate::model::spec_run_program(
            m,
            prog,
            0,
            crate::listener::Vote::Abstain,
            false,
            (fuel - 1) as u64,
        );
        if abort {
        } else {
            lemma_dispatch_order(m1, s1, s2, i + 1, tally(acc, vote), fuel);
        }
    }
}

/// Registration appends: when `listen` hands back a handle whose
/// identifier its bucket lacked — as it always does in a running system —
/// the handler stands after every handler registered there before it, and
/// earlier entries keep their order.
pub proof fn lemma_listen_appends(
    m: SystemModel,
    tag: EventTag,
    target: Option<u128>,
    prog: Seq<Instr>,
)
    requires
        spec_listen(m, tag, target, prog).1 is Some,
        !entries_has(entries_for(m, tag, target), spec_listen(m, tag, target, prog).1->Some_0.id),
    ensures
        ({
            let (m2, r) = spec_listen(m, tag, target, prog);
            entries_for(m2, tag, target) == entries_for(m, tag, target).push(
                (r->Some_0.id, m.programs.len() as usize),
            )
        }),
{
    let (m2, r) = spec_listen(m, tag, target, prog);
    let (id, m1) = spec_alloc(m)->Some_0;
    let pidx = m1.programs.len() as usize;
    match find_bucket_from(m.buckets, tag, target, 0) {
        Some(i) => {
            lemma_find_bucket_in_range(m.buckets, tag, target, 0);
            lemma_find_bucket_update(
                m.buckets,
                tag,
                target,
                0,
                i,
                BucketModel {
                    entries: entries_insert(m.buckets[i].entries, id, pidx),
                    ..m.buckets[i]
                },
            );
            lemma_entries_insert_fresh(m.buckets[i].entries, id, pidx);
        },
        None => {
            lemma_find_bucket_push(
                m.buckets,
                tag,
                target,
                0,
                BucketModel { tag, target, entries: seq![(id, pidx)] },
            );
            assert(entries_for(m2, tag, target) =~= entries_for(m, tag, target).push((id, pidx)));
        },
    }
}

/// Listener locality: registering a listener for one event identity and
/// target leaves the handlers of every other (identity, target) pair
/// untouched, so an emission there fires exactly what it fired before.
pub proof fn lemma_listen_elsewhere(
    m: SystemModel,
    tag: EventTag,
    target: Option<u128>,
    prog: Seq<Instr>,
    tag2: EventTag,
    target2: Option<u128>,
)
    requires
        !(tag2 == tag && target2 == target),
    ensures
        entries_for(spec_listen(m, tag, target, prog).0, tag2, target2) == entries_for(
            m,
            tag2,
            target2,
        ),
{
    let (m2, r) = spec_listen(m, tag, target, prog);
    let absent = match target {
        Some(id) => !m.values.dom().contains(id),
        None => false,
    };
    if absent || spec_alloc(m) is None {
    } else {
        let (id, m1) = spec_alloc(m)->Some_0;
        let pidx = m1.programs.len() as usize;
        match find_bucket_from(m.buckets, tag, target, 0) {
            Some(i) => {
                lemma_find_bucket_in_range(m.buckets, tag, target, 0);
                let b2 = BucketModel {
                    entries: entries_insert(m.buckets[i].entries, id, pidx),
                    ..m.buckets[i]
                };
                lemma_find_bucket_update(m.buckets, tag2, target2, 0, i, b2);
                match find_bucket_from(m.buckets, tag2, target2, 0) {
                    Some(j) => {
                        lemma_find_bucket_in_range(m.buckets, tag2, target2, 0);
                        assert(j != i);
                    },
                    None => {},
                }
            },
            None => {
                let b2 = BucketModel { tag, target, entries: seq![(id, pidx)] };
                lemma_find_bucket_push(m.buckets, tag2, target2, 0, b2);
                match find_bucket_from(m.buckets, tag2, target2, 0) {
                    Some(j) => {
                        lemma_find_bucket_in_range(m.buckets, tag2, target2, 0);
                    },
                    None => {},
                }
            },
        }
    }
}

/// Replacing a bucket with one serving the same event identity and target
/// leaves every bucket search unchanged in its result position.
pub proof fn lemma_find_bucket_update(
    bs: Seq<BucketModel>,
    tag: EventTag,
    target: Option<u128>,
    j: int,
    i: int,
    b2: BucketModel,
)
    requires
        0 <= i < bs.len(),
        b2.tag == bs[i].tag,
        b2.target == bs[i].target,
    ensures
        find_bucket_from(bs.update(i, b2), tag, target, j) == find_bucket_from(bs, tag, target, j),
    decreases bs.len() - j,
{
    let bs2 = bs.update(i, b2);
    if j < 0 || j >= bs.len() {
    } else {
        assert(crate::model::bucket_matches(bs2[j], tag, target) == crate::model::bucket_matches(
            bs[j],
            tag,
            target,
        ));
        lemma_find_bucket_update(bs, tag, target, j + 1, i, b2);
    }
}

/// Appending a bucket changes a search only when nothing matched before,
/// and then only if the new bucket itself matches.
pub proof fn lemma_find_bucket_push(
    bs: Seq<BucketModel>,
    tag: EventTag,
    target: Option<u128>,
    j: int,
    b2: BucketModel,
)
    requires
        0 <= j,
    ensures
        find_bucket_from(bs.push(b2), tag, target, j) == match find_bucket_from(
            bs,
            tag,
            target,
            j,
        ) {
            Some(i) => Some(i),
            None => if j <= bs.len() && crate::model::bucket_matches(b2, tag, target) {
                Some(bs.len() as int)
            } else {
                None
            },
        },
    decreases bs.len() + 1 - j,
{
    let bs2 = bs.push(b2);
    if j >= bs2.len() {
    } else if j == bs.len() {
        assert(bs2[j] == b2);
        if !crate::model::bucket_matches(b2, tag, target) {
            assert(find_bucket_from(bs2, tag, target, j + 1) is None);
        }
    } else {
        assert(bs2[j] == bs[j]);
        lemma_find_bucket_push(bs, tag, target, j + 1, b2);
    }
}

} // verus!
