//! The reactive system: the dispatch engine and the CRUD operations.
//!
//! Every public operation's contract ties the system's state, through its
//! view, to the model interpreter in [`crate::model`]: the state after the
//! call, and the returned outcome, are exactly those the interpreter
//! computes from the state before the call, with the dispatch depth
//! [`crate::model::DISPATCH_DEPTH`].

use vstd::prelude::*;

use crate::events::Created;
use crate::events::Creating;
use crate::events::Deleted;
use crate::events::Deleting;
use crate::events::Event;
use crate::events::EventTag;
use crate::events::Read;
use crate::events::Reading;
use crate::events::Updated;
use crate::events::Updating;
use crate::events::event_tag;
use crate::listener::Listener;
use crate::listener::Vote;
use crate::listener::Votes;
use crate::listener::votes_res;
use crate::events::spec_event_tag;
use crate::model::DISPATCH_DEPTH;
use crate::model::SystemModel;
use crate::model::bucket_matches;
use crate::model::entries_for;
use crate::model::cancelled;
use crate::model::drop_id_from;
use crate::model::empty_model;
use crate::model::find_bucket_from;
use crate::model::keep_buckets_from;
use crate::model::no_votes;
use crate::model::record_dep;
use crate::model::spec_alloc;
use crate::model::spec_cascade;
use crate::model::spec_create;
use crate::model::spec_delete;
use crate::model::spec_emit;
use crate::model::spec_eval_recipe;
use crate::model::spec_listen;
use crate::model::spec_read;
use crate::model::spec_release;
use crate::model::spec_run_entries;
use crate::model::spec_run_program;
use crate::model::spec_silence;
use crate::model::spec_update;
use crate::model::strip_deps;
use crate::model::tally;
use crate::model::target_of;
use crate::recipe::Instr;
use crate::recipe::Mutator;
use crate::recipe::Recipe;
use crate::recipe::apply_mutator;
use crate::recipe::sat_add_i64;
use crate::registry::Bucket;
use crate::registry::BucketModel;
use crate::registry::entries_insert;
use crate::registry::imap_insert;
use crate::registry::imap_new;
use crate::registry::imap_shift_remove;
use crate::registry::imap_snapshot;
use crate::table::Table;
use crate::variable::Value;
use crate::variable::Variable;
use crate::variable::VariableId;
use crate::variable::tag_of;

verus! {

/// The reactive system.
///
/// All state lives behind this value; operations take it by mutable
/// reference, and handler programs re-enter it through the interpreter the
/// operations share.
pub struct System {
    next_id: u128,
    id_pool: Vec<u128>,
    tracking_id: Option<u128>,
    dependencies: Table<Vec<u128>>,
    values: Table<Value>,
    recipes: Table<Recipe>,
    listeners: Vec<Bucket>,
    programs: Vec<Vec<Instr>>,
}

impl View for System {
    type V = SystemModel;

    closed spec fn view(&self) -> SystemModel {
        SystemModel {
            next_id: self.next_id,
            id_pool: self.id_pool@,
            tracking_id: self.tracking_id,
            deps: self.dependencies@.map_values(|lst: Vec<u128>| lst@),
            values: self.values@,
            recipes: self.recipes@,
            buckets: self.listeners@.map_values(|b: Bucket| b@),
            programs: self.programs@.map_values(|p: Vec<Instr>| p@),
        }
    }
}

impl System {
    /// The internal tables are well formed. Established by [`Default`] and
    /// preserved by every operation.
    pub closed spec fn wf(&self) -> bool {
        self.dependencies.wf() && self.values.wf() && self.recipes.wf()
    }
}

impl Default for System {
    /// An empty system.
    fn default() -> (r: Self)
        ensures
            r@ == empty_model(),
            r.wf(),
    {
        let r = System {
            next_id: 0,
            id_pool: Vec::new(),
            tracking_id: None,
            dependencies: Table::new(),
            values: Table::new(),
            recipes: Table::new(),
            listeners: Vec::new(),
            programs: Vec::new(),
        };
        proof {
            assert(r@.deps =~~= empty_model().deps);
            assert(r@.buckets =~~= empty_model().buckets);
            assert(r@.programs =~~= empty_model().programs);
            assert(r@ =~~= empty_model());
        }
        r
    }
}

/// Whether two optional identifiers are the same.
fn opt_id_eq(a: Option<u128>, b: Option<u128>) -> (r: bool)
    ensures
        r == (a == b),
{
    match (a, b) {
        (None, None) => true,
        (Some(x), Some(y)) => x == y,
        _ => false,
    }
}

/// A copy of a list of identifiers.
fn copy_ids(v: &Vec<u128>) -> (r: Vec<u128>)
    ensures
        r@ == v@,
{
    let mut out: Vec<u128> = Vec::new();
    let n = v.len();
    let mut i: usize = 0;
    while i < n
        invariant
            n == v@.len(),
            0 <= i <= n,
            out@ == v@.subrange(0, i as int),
        decreases n - i,
    {
        out.push(v[i]);
        proof {
            assert(out@ =~= v@.subrange(0, i + 1));
        }
        i += 1;
    }
    proof {
        assert(out@ =~= v@);
    }
    out
}

/// A copy of a handler program.
fn copy_instrs(v: &Vec<Instr>) -> (r: Vec<Instr>)
    ensures
        r@ == v@,
{
    let mut out: Vec<Instr> = Vec::new();
    let n = v.len();
    let mut i: usize = 0;
    while i < n
        invariant
            n == v@.len(),
            0 <= i <= n,
            out@ == v@.subrange(0, i as int),
        decreases n - i,
    {
        out.push(v[i]);
        proof {
            assert(out@ =~= v@.subrange(0, i + 1));
        }
        i += 1;
    }
    proof {
        assert(out@ =~= v@);
    }
    out
}

/// Whether the list holds the identifier.
fn contains_id(v: &Vec<u128>, id: u128) -> (r: bool)
    ensures
        r == v@.contains(id),
{
    let n = v.len();
    let mut i: usize = 0;
    while i < n
        invariant
            n == v@.len(),
            0 <= i <= n,
            forall|j: int| 0 <= j < i ==> v@[j] != id,
        decreases n - i,
    {
        if v[i] == id {
            return true;
        }
        i += 1;
    }
    false
}

/// The list with every occurrence of the identifier struck, order kept.
fn drop_id_exec(v: &Vec<u128>, id: u128) -> (r: Vec<u128>)
    ensures
        r@ == drop_id_from(v@, id, 0),
{
    let mut out: Vec<u128> = Vec::new();
    let n = v.len();
    let mut i: usize = 0;
    while i < n
        invariant
            n == v@.len(),
            0 <= i <= n,
            drop_id_from(v@, id, 0) == out@ + drop_id_from(v@, id, i as int),
        decreases n - i,
    {
        let x = v[i];
        if x != id {
            out.push(x);
            proof {
                assert(out@ =~= (out@.drop_last() + seq![x]));
                assert(out@.drop_last() + (seq![x] + drop_id_from(v@, id, i + 1)) =~= out@
                    + drop_id_from(v@, id, i + 1));
            }
        }
        i += 1;
    }
    proof {
        assert(out@ + drop_id_from(v@, id, n as int) =~= out@);
    }
    out
}

/// Whether a dispatch outcome cancels the built-in event it voted on.
fn is_cancelled(r: &Result<Votes, ()>) -> (b: bool)
    ensures
        b == cancelled(votes_res(*r)),
{
    match r {
        Ok(v) => v.cancel > v.proceed,
        Err(_) => true,
    }
}

impl System {
    /// The position of the first bucket serving the event identity and
    /// target, if any.
    fn find_bucket(&self, tag: EventTag, target: Option<u128>) -> (r: Option<usize>)
        ensures
            match r {
                Some(i) => i < self@.buckets.len() && find_bucket_from(
                    self@.buckets,
                    tag,
                    target,
                    0,
                ) == Some(i as int),
                None => find_bucket_from(self@.buckets, tag, target, 0) is None,
            },
    {
        let n = self.listeners.len();
        let mut i: usize = 0;
        while i < n
            invariant
                n == self.listeners@.len(),
                self@.buckets.len() == n,
                0 <= i <= n,
                find_bucket_from(self@.buckets, tag, target, 0) == find_bucket_from(
                    self@.buckets,
                    tag,
                    target,
                    i as int,
                ),
            decreases n - i,
        {
            let hit = self.listeners[i].tag == tag && opt_id_eq(self.listeners[i].target, target);
            proof {
                assert(self@.buckets[i as int] == self.listeners@[i as int]@);
            }
            if hit {
                proof {
                    assert(bucket_matches(self@.buckets[i as int], tag, target));
                }
                return Some(i);
            }
            proof {
                assert(!bucket_matches(self@.buckets[i as int], tag, target));
            }
            i += 1;
        }
        None
    }

    /// Mint an identifier: the most recently freed one, else the counter.
    fn alloc_id(&mut self) -> (r: Option<u128>)
        requires
            old(self).wf(),
        ensures
            final(self).wf(),
            match r {
                Some(id) => spec_alloc(old(self)@) == Some((id, final(self)@)),
                None => spec_alloc(old(self)@) is None && final(self)@ == old(self)@,
            },
    {
        match self.id_pool.pop() {
            Some(id) => Some(id),
            None => {
                if self.next_id < u128::MAX {
                    let id = self.next_id;
                    self.next_id = self.next_id + 1;
                    Some(id)
                } else {
                    None
                }
            },
        }
    }

    /// Remove a listener from the system.
    ///
    /// Returns `None` if the listener does not exist, `Some` otherwise. The
    /// remaining listeners of its bucket keep their order, and the silenced
    /// handler never fires again. The listener's identifier is not returned
    /// to the pool.
    pub fn silence(&mut self, listener: Listener) -> (r: Option<()>)
        requires
            old(self).wf(),
        ensures
            final(self).wf(),
            ({
                let (m, res) = spec_silence(old(self)@, listener);
                final(self)@ == m && r == res
            }),
    {
        match self.find_bucket(listener.tag, listener.target) {
            None => None,
            Some(i) => {
                let ghost pre = self@;
                let removed = imap_shift_remove(&mut self.listeners[i].entries, listener.id);
                proof {
                    let (m, _res) = spec_silence(pre, listener);
                    assert(self@.buckets =~= m.buckets);
                    assert(self@ =~~= m);
                }
                match removed {
                    Some(_) => Some(()),
                    None => None,
                }
            },
        }
    }

    /// Register a handler to be run when an event is dispatched.
    ///
    /// A `None` target listens in the global scope; a `Some` target listens
    /// on that variable alone, and requires it to exist. The handler is
    /// appended to its bucket, after every handler registered there before
    /// it. No event is emitted. Returns `None` when the target does not
    /// exist (or no identifier can be minted), `Some` with the listener
    /// handle otherwise.
    pub fn listen(&mut self, tag: EventTag, target: Option<VariableId>, program: Vec<Instr>) -> (r:
        Option<Listener>)
        requires
            old(self).wf(),
        ensures
            final(self).wf(),
            ({
                let (m, res) = spec_listen(old(self)@, tag, target_of(target), program@);
                final(self)@ == m && r == res
            }),
    {
        let t: Option<u128> = match target {
            Some(v) => Some(v.0),
            None => None,
        };
        match t {
            Some(id) => {
                if !self.values.contains(id) {
                    return None;
                }
            },
            None => {},
        }
        let id = match self.alloc_id() {
            None => {
                return None;
            },
            Some(id) => id,
        };
        let ghost m1 = self@;
        let pidx = self.programs.len();
        self.programs.push(program);
        proof {
            assert(self@.programs =~= m1.programs.push(program@));
        }
        let ghost m2 = self@;
        match self.find_bucket(tag, t) {
            Some(i) => {
                let ghost b = self@.buckets[i as int];
                imap_insert(&mut self.listeners[i].entries, id, pidx);
                proof {
                    assert(self@.buckets =~= m2.buckets.update(
                        i as int,
                        BucketModel { entries: entries_insert(b.entries, id, pidx), ..b },
                    ));
                }
            },
            None => {
                let mut entries = imap_new();
                imap_insert(&mut entries, id, pidx);
                let b = Bucket { tag, target: t, entries };
                proof {
                    assert(entries_insert(Seq::<(u128, usize)>::empty(), id, pidx) =~= seq![
                        (id, pidx as usize),
                    ]);
                    assert(b@ =~= (BucketModel { tag, target: t, entries: seq![(id, pidx as usize)] }));
                }
                self.listeners.push(b);
                proof {
                    assert(self@.buckets =~= m2.buckets.push(b@));
                }
            },
        }
        proof {
            let (m, _res) = spec_listen(old(self)@, tag, t, program@);
            assert(self@ =~~= m);
        }
        Some(Listener { id, target: t, tag })
    }

    /// Dispatch an event to the handlers of its matching bucket, in
    /// registration order, tallying their votes; a handler that aborts
    /// skips the rest and fails the dispatch.
    fn do_emit(&mut self, target: Option<u128>, e: &Event, fuel: u64) -> (r: Result<Votes, ()>)
        requires
            old(self).wf(),
        ensures
            final(self).wf(),
            ({
                let (m, res) = spec_emit(old(self)@, target, *e, fuel);
                final(self)@ == m && votes_res(r) == res
            }),
        decreases fuel, 10int, 0int,
    {
        let tag = event_tag(e);
        let entries: Vec<(u128, usize)> = match self.find_bucket(tag, target) {
            Some(i) => imap_snapshot(&self.listeners[i].entries),
            None => Vec::new(),
        };
        proof {
            assert(entries@ =~= entries_for(self@, spec_event_tag(*e), target));
        }
        if entries.len() == 0 {
            return Ok(Votes { abstain: 0, cancel: 0, proceed: 0 });
        }
        if fuel == 0 {
            return Err(());
        }
        let ghost m0 = self@;
        proof {
            assert(spec_emit(old(self)@, target, *e, fuel) == spec_run_entries(
                m0,
                entries@,
                0,
                no_votes(),
                fuel,
            ));
        }
        let mut votes = Votes { abstain: 0, cancel: 0, proceed: 0 };
        let n = entries.len();
        let mut i: usize = 0;
        while i < n
            invariant
                self.wf(),
                n == entries@.len(),
                0 <= i <= n,
                fuel > 0,
                votes.abstain + votes.cancel + votes.proceed == i,
                spec_emit(old(self)@, target, *e, fuel) == spec_run_entries(
                    self@,
                    entries@,
                    i as int,
                    votes@,
                    fuel,
                ),
            decreases n - i,
        {
            let ghost pre = self@;
            let ghost votes0 = votes@;
            let pidx = entries[i].1;
            let prog: Vec<Instr> = if pidx < self.programs.len() {
                copy_instrs(&self.programs[pidx])
            } else {
                Vec::new()
            };
            proof {
                assert(self@.programs.len() == self.programs@.len());
                if (pidx as int) < self@.programs.len() {
                    assert(prog@ =~= self@.programs[pidx as int]);
                } else {
                    assert(prog@ =~= Seq::<Instr>::empty());
                }
            }
            let (vote, abort) = self.do_run_program(&prog, fuel - 1);
            if abort {
                proof {
                    assert(spec_run_entries(pre, entries@, i as int, votes0, fuel) == (
                    self@,
                    Err::<crate::listener::VotesModel, ()>(()),
                    ));
                }
                return Err(());
            }

            match vote {
                Vote::Abstain => {
                    votes.abstain = votes.abstain + 1;
                },
                Vote::Cancel => {
                    votes.cancel = votes.cancel + 1;
                },
                Vote::Proceed => {
                    votes.proceed = votes.proceed + 1;
                },
            }
            proof {
                assert(votes@ == tally(votes0, vote));
                assert(spec_run_entries(pre, entries@, i as int, votes0, fuel)
                    == spec_run_entries(self@, entries@, i as int + 1, votes@, fuel));
            }
            i += 1;
        }
        Ok(votes)
    }

    /// Run one handler program, instruction by instruction, carrying the
    /// handler's vote and abort flag.
    fn do_run_program(&mut self, prog: &Vec<Instr>, fuel: u64) -> (r: (Vote, bool))
        requires
            old(self).wf(),
        ensures
            final(self).wf(),
            ({
                let (m, vote, abort) = spec_run_program(
                    old(self)@,
                    prog@,
                    0,
                    Vote::Abstain,
                    false,
                    fuel,
                );
                final(self)@ == m && r.0 == vote && r.1 == abort
            }),
        decreases fuel, 50int, 0int,
    {
        let ghost m0 = self@;
        let n = prog.len();
        let mut i: usize = 0;
        let mut vote = Vote::Abstain;
        let mut abort = false;
        while i < n
            invariant
                self.wf(),
                n == prog@.len(),
                0 <= i <= n,
                spec_run_program(m0, prog@, 0, Vote::Abstain, false, fuel) == spec_run_program(
                    self@,
                    prog@,
                    i as int,
                    vote,
                    abort,
                    fuel,
                ),
            decreases n - i,
        {
            let ghost pre = self@;
            let ghost vote0 = vote;
            let ghost abort0 = abort;
            match prog[i] {
                Instr::CastVote(v) => {
                    vote = v;
                },
                Instr::Abort => {
                    abort = true;
                },
                Instr::AbortIfSet(var) => {
                    let rr = self.do_read(var, fuel);
                    match rr {
                        Ok(Some(Value::Bool(true))) => {
                            abort = true;
                        },
                        _ => {},
                    }
                },
                Instr::Apply(var, mu) => {
                    let _ = self.do_update(var, mu, fuel);
                },
                Instr::CopyInto(src, dst) => {
                    let rr = self.do_read(src, fuel);
                    match rr {
                        Ok(Some(v)) => {
                            let _ = self.do_update(dst, Mutator::Assign(v), fuel);
                        },
                        _ => {},
                    }
                },
                Instr::Trigger(code, tgt) => {
                    let t: Option<u128> = match tgt {
                        Some(vid) => Some(vid.0),
                        None => None,
                    };
                    let _ = self.do_emit(t, &Event::Custom(code), fuel);
                },
            }
            proof {
                assert(spec_run_program(pre, prog@, i as int, vote0, abort0, fuel)
                    == spec_run_program(self@, prog@, i as int + 1, vote, abort, fuel));
            }
            i += 1;
        }
        (vote, abort)
    }

    /// Read a variable, emitting `Reading` (cancellable) and `Read`, and
    /// recording a dependency while a variable is being created.
    fn do_read(&mut self, variable: Variable, fuel: u64) -> (r: Result<Option<Value>, ()>)
        requires
            old(self).wf(),
        ensures
            final(self).wf(),
            ({
                let (m, res) = spec_read(old(self)@, variable, fuel);
                final(self)@ == m && r == res
            }),
        decreases fuel, 20int, 0int,
    {
        let live0 = match self.values.get_copy(variable.id) {
            Some(v) => tag_of(&v) == variable.tag,
            None => false,
        };
        if !live0 {
            return Ok(None);
        }
        let rv = self.do_emit(Some(variable.id), &Event::Reading(Reading), fuel);
        if is_cancelled(&rv) {
            return Err(());
        }
        let ghost m1 = self@;
        match self.tracking_id {
            Some(dep) => {
                let lst: Vec<u128> = match self.dependencies.get(variable.id) {
                    Some(l) => copy_ids(l),
                    None => Vec::new(),
                };
                let already = contains_id(&lst, dep);
                let mut lst2 = lst;
                if !already {
                    lst2.push(dep);
                }
                self.dependencies.insert(variable.id, lst2);
                proof {
                    assert(self@.deps =~~= record_dep(m1, variable.id, dep).deps);
                    assert(self@ =~~= record_dep(m1, variable.id, dep));
                }
            },
            None => {},
        }
        let v2 = self.values.get_copy(variable.id);
        let live2 = match v2 {
            Some(v) => tag_of(&v) == variable.tag,
            None => false,
        };
        if live2 {
            let val = match v2 {
                Some(v) => v,
                None => Value::Unit,
            };
            let _ = self.do_emit(Some(variable.id), &Event::Read(Read), fuel);
            Ok(Some(val))
        } else {
            Ok(None)
        }
    }

    /// Evaluate a recipe against the system; a reading recipe goes through
    /// the ordinary read.
    fn do_eval_recipe(&mut self, recipe: Recipe, prev: Option<Value>, fuel: u64) -> (v: Value)
        requires
            old(self).wf(),
        ensures
            final(self).wf(),
            ({
                let (m, val) = spec_eval_recipe(old(self)@, recipe, prev, fuel);
                final(self)@ == m && v == val
            }),
        decreases fuel, 30int, 0int,
    {
        match recipe {
            Recipe::Const(v) => v,
            Recipe::ReadPlus { source, add, or } => {
                let r = self.do_read(source, fuel);
                match r {
                    Ok(Some(Value::Int(n))) => Value::Int(sat_add_i64(n, add)),
                    _ => Value::Int(or),
                }
            },
            Recipe::PrevPlus { add, or } => {
                match prev {
                    Some(Value::Int(n)) => Value::Int(sat_add_i64(n, add)),
                    _ => Value::Int(or),
                }
            },
        }
    }

    /// Update a variable: emit `Updating` (cancellable), apply the mutator,
    /// recompute each direct dependent once, and emit `Updated`.
    fn do_update(&mut self, variable: Variable, mu: Mutator, fuel: u64) -> (r: Result<
        Option<Value>,
        (),
    >)
        requires
            old(self).wf(),
        ensures
            final(self).wf(),
            ({
                let (m, res) = spec_update(old(self)@, variable, mu, fuel);
                final(self)@ == m && r == res
            }),
        decreases fuel, 40int, 0int,
    {
        let live0 = match self.values.get_copy(variable.id) {
            Some(v) => tag_of(&v) == variable.tag,
            None => false,
        };
        if !live0 {
            return Ok(None);
        }
        let rv = self.do_emit(Some(variable.id), &Event::Updating(Updating), fuel);
        if is_cancelled(&rv) {
            return Err(());
        }
        let ghost m1 = self@;
        let cur = match self.values.get_copy(variable.id) {
            Some(v) => v,
            None => {
                return Ok(None);
            },
        };
        if crate::variable::tag_of(&cur) != variable.tag {
            return Ok(None);
        }
        let nv = apply_mutator(cur, mu);
        self.values.insert(variable.id, nv);
        proof {
            assert(self@ =~~= (SystemModel { values: m1.values.insert(variable.id, nv), ..m1 }));
        }
        let ds: Vec<u128> = match self.dependencies.get(variable.id) {
            Some(l) => copy_ids(l),
            None => Vec::new(),
        };
        proof {
            if self@.deps.dom().contains(variable.id) {
                assert(ds@ =~= self@.deps[variable.id]);
            } else {
                assert(ds@ =~= Seq::<u128>::empty());
            }
        }
        let ghost mc0 = self@;
        let n = ds.len();
        let mut i: usize = 0;
        while i < n
            invariant
                self.wf(),
                n == ds@.len(),
                0 <= i <= n,
                spec_cascade(mc0, ds@, 0, fuel) == spec_cascade(self@, ds@, i as int, fuel),
            decreases n - i,
        {
            let ghost pre = self@;
            let d = ds[i];
            let rv2 = self.do_emit(Some(d), &Event::Updating(Updating), fuel);
            if !is_cancelled(&rv2) {
                match self.recipes.get_copy(d) {
                    None => {
                        proof {
                            assert(spec_cascade(pre, ds@, i as int, fuel) == spec_cascade(
                                self@,
                                ds@,
                                i as int + 1,
                                fuel,
                            ));
                        }
                    },
                    Some(rec) => {
                        let ghost mr1 = self@;
                        let prev = self.values.remove(d);
                        proof {
                            assert(self@ =~~= (SystemModel { values: mr1.values.remove(d), ..mr1 }));
                        }
                        let nv2 = self.do_eval_recipe(rec, prev, fuel);
                        let ghost mr3 = self@;
                        self.values.insert(d, nv2);
                        proof {
                            assert(self@ =~~= (SystemModel { values: mr3.values.insert(d, nv2), ..mr3 }));
                        }
                        let _ = self.do_emit(Some(d), &Event::Updated(Updated), fuel);
                        proof {
                            assert(spec_cascade(pre, ds@, i as int, fuel) == spec_cascade(
                                self@,
                                ds@,
                                i as int + 1,
                                fuel,
                            ));
                        }
                    },
                }
            } else {
                proof {
                    assert(spec_cascade(pre, ds@, i as int, fuel) == spec_cascade(
                        self@,
                        ds@,
                        i as int + 1,
                        fuel,
                    ));
                }
            }
            i += 1;
        }
        let _ = self.do_emit(Some(variable.id), &Event::Updated(Updated), fuel);
        Ok(Some(nv))
    }

    /// Create a variable: mint an identifier, evaluate the recipe with
    /// reads tracked, emit `Creating` (cancellable), store value and
    /// recipe, and emit `Created`.
    fn do_create(&mut self, recipe: Recipe, fuel: u64) -> (r: Result<Variable, ()>)
        requires
            old(self).wf(),
        ensures
            final(self).wf(),
            ({
                let (m, res) = spec_create(old(self)@, recipe, fuel);
                final(self)@ == m && r == res
            }),
    {
        let id = match self.alloc_id() {
            None => {
                return Err(());
            },
            Some(id) => id,
        };
        let ghost m1 = self@;
        self.tracking_id = Some(id);
        proof {
            assert(self@ =~~= (SystemModel { tracking_id: Some(id), ..m1 }));
        }
        let value = self.do_eval_recipe(recipe, None, fuel);
        let ghost m3 = self@;
        self.tracking_id = None;
        proof {
            assert(self@ =~~= (SystemModel { tracking_id: None, ..m3 }));
        }
        let ev = Event::Creating(Creating { value });
        let rv = self.do_emit(None, &ev, fuel);
        if is_cancelled(&rv) {
            let ghost m5 = self@;
            self.id_pool.push(id);
            proof {
                assert(self@ =~~= spec_release(m5, id));
            }
            return Err(());
        }
        let ghost m5 = self@;
        self.values.insert(id, value);
        self.recipes.insert(id, recipe);
        proof {
            assert(self@ =~~= (SystemModel {
                values: m5.values.insert(id, value),
                recipes: m5.recipes.insert(id, recipe),
                ..m5
            }));
        }
        let var = Variable { id, tag: tag_of(&value) };
        let _ = self.do_emit(None, &Event::Created(Created { source: var }), fuel);
        Ok(var)
    }

    /// Delete a variable: refuse while dependents exist, emit `Deleting`
    /// (cancellable), wipe the variable's edges, recipe, scoped listeners
    /// and value, free the identifier, and emit `Deleted`.
    fn do_delete(&mut self, variable: Variable, fuel: u64) -> (r: Result<Option<Value>, ()>)
        requires
            old(self).wf(),
        ensures
            final(self).wf(),
            ({
                let (m, res) = spec_delete(old(self)@, variable, fuel);
                final(self)@ == m && r == res
            }),
    {
        let live0 = match self.values.get_copy(variable.id) {
            Some(v) => tag_of(&v) == variable.tag,
            None => false,
        };
        if !live0 {
            return Ok(None);
        }
        let has_deps = match self.dependencies.get(variable.id) {
            Some(l) => l.len() > 0,
            None => false,
        };
        if has_deps {
            return Err(());
        }
        let rv = self.do_emit(Some(variable.id), &Event::Deleting(Deleting), fuel);
        if is_cancelled(&rv) {
            return Err(());
        }
        let ghost m1 = self@;
        let value = match self.values.get_copy(variable.id) {
            Some(v) => v,
            None => {
                return Ok(None);
            },
        };
        if tag_of(&value) != variable.tag {
            return Ok(None);
        }
        // Outgoing edges of the deleted variable.
        let _ = self.dependencies.remove(variable.id);
        let ghost d0 = self@.deps;
        let ghost mstart = self@;
        // Incoming edges: strike the identifier from every dependent list.
        let n = self.dependencies.len();
        let ghost ks = self.dependencies.keyseq();
        let mut i: usize = 0;
        while i < n
            invariant
                self.dependencies.wf(),
                self.values.wf(),
                self.recipes.wf(),
                n == self.dependencies.keyseq().len(),
                self.dependencies.keyseq() == ks,
                0 <= i <= n,
                self@.deps.dom() == d0.dom(),
                forall|j: int|
                    0 <= j < i ==> self@.deps[ks[j]] == drop_id_from(
                        d0[ks[j]],
                        variable.id,
                        0,
                    ),
                forall|j: int| i <= j < n ==> self@.deps[ks[j]] == d0[ks[j]],
                self@ == (SystemModel { deps: self@.deps, ..mstart }),
            decreases n - i,
        {
            let k = self.dependencies.key_at(i);
            proof {
                assert(k == ks[i as int]);
                assert(self.dependencies.keyseq().contains(k));
                assert(self@.deps.dom().contains(k));
            }
            let lst = match self.dependencies.get(k) {
                Some(l) => copy_ids(l),
                None => Vec::new(),
            };
            proof {
                assert(lst@ == self@.deps[k]);
                assert(forall|a: int, b: int|
                    0 <= a < b < ks.len() ==> ks[a] != ks[b]) by {
                    assert(forall|a: int|
                        0 <= a < ks.len() ==> ks[a] == (
                        #[trigger] self.dependencies.entries()[a]).0);
                }
            }
            let filtered = drop_id_exec(&lst, variable.id);
            let ghost pre = self@;
            self.dependencies.insert(k, filtered);
            proof {
                assert(self@.deps =~~= pre.deps.insert(k, filtered@));
                assert(self@ == (SystemModel { deps: self@.deps, ..mstart }));
            }
            i += 1;
        }
        proof {
            assert forall|k2: u128| #[trigger] self@.deps.dom().contains(k2) implies self@.deps[k2]
                == drop_id_from(d0[k2], variable.id, 0) by {
                assert(self.dependencies.keyseq().contains(k2));
                let j = choose|j: int| 0 <= j < ks.len() && ks[j] == k2;
                assert(self@.deps[ks[j]] == drop_id_from(d0[ks[j]], variable.id, 0));
            }
            assert(self@.deps =~~= strip_deps(m1.deps, variable.id));
        }
        self.recipes.remove(variable.id);
        // Listeners scoped to the deleted variable.
        let ghost b0 = self@.buckets;
        let ghost mbstart = self@;
        let mut kept: Vec<Bucket> = Vec::new();
        while self.listeners.len() > 0
            invariant
                self.dependencies.wf(),
                self.values.wf(),
                self.recipes.wf(),
                self@.buckets.len() <= b0.len(),
                self@.buckets == b0.subrange(
                    b0.len() - self@.buckets.len(),
                    b0.len() as int,
                ),
                kept@.map_values(|b: Bucket| b@) + keep_buckets_from(
                    b0,
                    variable.id,
                    b0.len() - self@.buckets.len(),
                ) == keep_buckets_from(b0, variable.id, 0),
                self@ == (SystemModel { buckets: self@.buckets, ..mbstart }),
            decreases self.listeners.len(),
        {
            let ghost j = b0.len() - self@.buckets.len();
            let ghost pre = self@;
            let ghost kept0 = kept@;
            let ghost lpre = self.listeners@;
            let b = self.listeners.remove(0);
            proof {
                assert(pre.buckets[0] == b0[j]);
                assert(b@ == b0[j]);
                assert(self.listeners@ == lpre.remove(0));
                assert forall|x: int| 0 <= x < self@.buckets.len() implies #[trigger] self@.buckets[x]
                    == b0[j + 1 + x] by {
                    assert(self.listeners@[x] == lpre[x + 1]);
                    assert(self@.buckets[x] == self.listeners@[x]@);
                    assert(pre.buckets[x + 1] == lpre[x + 1]@);
                    assert(pre.buckets[x + 1] == b0[j + 1 + x]);
                }
                assert(self@.buckets =~= b0.subrange(j + 1, b0.len() as int));
                assert(self@ == (SystemModel { buckets: self@.buckets, ..mbstart }));
            }
            let is_target = opt_id_eq(b.target, Some(variable.id));
            if !is_target {
                kept.push(b);
                proof {
                    assert(kept@.map_values(|b2: Bucket| b2@) =~= kept0.map_values(
                        |b2: Bucket| b2@,
                    ).push(b@));
                    assert(kept0.map_values(|b2: Bucket| b2@).push(b@) + keep_buckets_from(
                        b0,
                        variable.id,
                        j + 1,
                    ) =~= kept0.map_values(|b2: Bucket| b2@) + (seq![b@] + keep_buckets_from(
                        b0,
                        variable.id,
                        j + 1,
                    )));
                }
            }
        }
        self.listeners = kept;
        proof {
            assert(self@.buckets =~= kept@.map_values(|b: Bucket| b@));
            assert(kept@.map_values(|b: Bucket| b@) + keep_buckets_from(
                b0,
                variable.id,
                b0.len() as int,
            ) =~= kept@.map_values(|b: Bucket| b@));
            assert(self@.buckets =~= keep_buckets_from(b0, variable.id, 0));
        }
        self.id_pool.push(variable.id);
        let _ = self.values.remove(variable.id);
        proof {
            assert(self@ =~~= (SystemModel {
                deps: strip_deps(m1.deps, variable.id),
                recipes: m1.recipes.remove(variable.id),
                buckets: keep_buckets_from(m1.buckets, variable.id, 0),
                id_pool: m1.id_pool.push(variable.id),
                values: m1.values.remove(variable.id),
                ..m1
            }));
        }
        let _ = self.do_emit(None, &Event::Deleted(Deleted { source: variable }), fuel);
        Ok(Some(value))
    }

    /// Create a new variable in the reactive system.
    ///
    /// The recipe computes the variable's value; variables it reads are
    /// tracked, and whenever one of them is updated the recipe re-runs to
    /// refresh this variable's value. The creation can be cancelled only
    /// after the recipe has run, by `Creating` listeners.
    ///
    /// Returns `Err` if the action was cancelled (or no identifier could be
    /// minted), and `Ok` with the new variable's handle otherwise; the
    /// outcome and the new state are exactly [`spec_create`]'s.
    pub fn create(&mut self, recipe: Recipe) -> (r: Result<Variable, ()>)
        requires
            old(self).wf(),
        ensures
            final(self).wf(),
            ({
                let (m, res) = spec_create(old(self)@, recipe, DISPATCH_DEPTH);
                final(self)@ == m && r == res
            }),
    {
        self.do_create(recipe, DISPATCH_DEPTH)
    }

    /// Read the value of a variable in the reactive system.
    ///
    /// Returns `Err` if the read was cancelled, `Ok(None)` if the target
    /// does not exist (or its identifier was recycled to another shape),
    /// and `Ok(Some)` with a copy of the value otherwise; the outcome and
    /// the new state are exactly [`spec_read`]'s.
    pub fn read(&mut self, variable: Variable) -> (r: Result<Option<Value>, ()>)
        requires
            old(self).wf(),
        ensures
            final(self).wf(),
            ({
                let (m, res) = spec_read(old(self)@, variable, DISPATCH_DEPTH);
                final(self)@ == m && r == res
            }),
    {
        self.do_read(variable, DISPATCH_DEPTH)
    }

    /// Update the value of a variable in the reactive system, then
    /// recompute each variable that depends on it, once each.
    ///
    /// Returns `Err` if the update was cancelled, `Ok(None)` if the target
    /// does not exist, and `Ok(Some)` with the value after mutation
    /// otherwise; the outcome and the new state are exactly
    /// [`spec_update`]'s.
    pub fn update(&mut self, variable: Variable, mutator: Mutator) -> (r: Result<
        Option<Value>,
        (),
    >)
        requires
            old(self).wf(),
        ensures
            final(self).wf(),
            ({
                let (m, res) = spec_update(old(self)@, variable, mutator, DISPATCH_DEPTH);
                final(self)@ == m && r == res
            }),
    {
        self.do_update(variable, mutator, DISPATCH_DEPTH)
    }

    /// Remove a variable from the reactive system.
    ///
    /// Returns `Err` if the deletion was cancelled, including when deleting
    /// the target would leave dangling dependents; `Ok(None)` if the target
    /// does not exist; and `Ok` with the most recent value otherwise; the
    /// outcome and the new state are exactly [`spec_delete`]'s.
    pub fn delete(&mut self, variable: Variable) -> (r: Result<Option<Value>, ()>)
        requires
            old(self).wf(),
        ensures
            final(self).wf(),
            ({
                let (m, res) = spec_delete(old(self)@, variable, DISPATCH_DEPTH);
                final(self)@ == m && r == res
            }),
    {
        self.do_delete(variable, DISPATCH_DEPTH)
    }

    /// Trigger an event in the reactive system. A `None` target triggers in
    /// the global scope; a `Some` target triggers on that variable alone.
    ///
    /// Returns `Err` if any handler aborted the dispatch, and `Ok` with the
    /// handlers' votes otherwise; the outcome and the new state are exactly
    /// [`spec_emit`]'s.
    pub fn emit(&mut self, target: Option<VariableId>, event: &Event) -> (r: Result<Votes, ()>)
        requires
            old(self).wf(),
        ensures
            final(self).wf(),
            ({
                let (m, res) = spec_emit(old(self)@, target_of(target), *event, DISPATCH_DEPTH);
                final(self)@ == m && votes_res(r) == res
            }),
    {
        let t: Option<u128> = match target {
            Some(v) => Some(v.0),
            None => None,
        };
        self.do_emit(t, event, DISPATCH_DEPTH)
    }
}

} // verus!
