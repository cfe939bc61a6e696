use korhah::events::Event;
use korhah::events::EventTag;
use korhah::Instr;
use korhah::Mutator;
use korhah::Recipe;
use korhah::System;
use korhah::Tag;
use korhah::Value;
use korhah::VariableId;
use korhah::Vote;
use korhah::Votes;

#[test]
fn counter_cascade() {
    let mut s = System::default();
    let a = s.create(Recipe::Const(Value::Int(0))).expect("no cancelling listeners");
    let b = s
        .create(Recipe::ReadPlus { source: a, add: 1, or: -1 })
        .expect("no cancelling listeners");
    assert_eq!(Ok(Some(Value::Int(1))), s.read(b));
    assert_eq!(Ok(Some(Value::Int(1))), s.update(a, Mutator::AddInt(1)));
    assert_eq!(Ok(Some(Value::Int(2))), s.read(b));
}

#[test]
fn every_direct_dependent_recomputes() {
    let mut s = System::default();
    let a = s.create(Recipe::Const(Value::Int(0))).unwrap();
    let b = s.create(Recipe::ReadPlus { source: a, add: 10, or: -1 }).unwrap();
    let c = s.create(Recipe::ReadPlus { source: a, add: 20, or: -1 }).unwrap();
    assert_eq!(Ok(Some(Value::Int(10))), s.read(b));
    assert_eq!(Ok(Some(Value::Int(20))), s.read(c));
    assert_eq!(Ok(Some(Value::Int(5))), s.update(a, Mutator::AddInt(5)));
    assert_eq!(Ok(Some(Value::Int(15))), s.read(b));
    assert_eq!(Ok(Some(Value::Int(25))), s.read(c));
}

#[test]
fn dangling_guard() {
    let mut s = System::default();
    let a = s.create(Recipe::Const(Value::Int(0))).unwrap();
    let b = s.create(Recipe::ReadPlus { source: a, add: 1, or: -1 }).unwrap();
    // `a` cannot leave while `b` depends on it.
    assert_eq!(Err(()), s.delete(a));
    assert_eq!(Ok(Some(Value::Int(1))), s.delete(b));
    assert_eq!(Ok(Some(Value::Int(0))), s.delete(a));
    assert_eq!(Ok(None), s.delete(a));
}

#[test]
fn cancelling_listener() {
    let mut s = System::default();
    // Listener takes identifier 0.
    let canceller = s
        .listen(
            EventTag::Creating(Tag::Int),
            None,
            vec![Instr::CastVote(Vote::Cancel)],
        )
        .expect("global listeners always register");
    // The attempt takes identifier 1 and must give it back on cancellation.
    assert_eq!(Err(()), s.create(Recipe::Const(Value::Int(0))));
    assert_eq!(Some(()), s.silence(canceller));
    let v = s.create(Recipe::Const(Value::Int(0))).unwrap();
    assert_eq!(1, v.id);
}

#[test]
fn creating_identity_is_per_shape() {
    let mut s = System::default();
    let _ = s
        .listen(
            EventTag::Creating(Tag::Int),
            None,
            vec![Instr::CastVote(Vote::Cancel)],
        )
        .unwrap();
    // The canceller watches integer creations alone.
    assert!(s.create(Recipe::Const(Value::Bool(true))).is_ok());
    assert_eq!(Err(()), s.create(Recipe::Const(Value::Int(0))));
}

#[test]
fn abort_path() {
    let mut s = System::default();
    let flag = s.create(Recipe::Const(Value::Bool(false))).unwrap();
    let _ = s
        .listen(
            EventTag::Custom(7),
            None,
            vec![
                Instr::AbortIfSet(flag),
                Instr::Apply(flag, Mutator::Assign(Value::Bool(true))),
            ],
        )
        .unwrap();
    assert!(s.emit(None, &Event::Custom(7)).is_ok());
    assert!(s.emit(None, &Event::Custom(7)).is_err());
}

#[test]
fn listener_locality() {
    let mut s = System::default();
    let v = s.create(Recipe::Const(Value::Int(0))).unwrap();
    let global_hits = s.create(Recipe::Const(Value::Int(0))).unwrap();
    let scoped_hits = s.create(Recipe::Const(Value::Int(0))).unwrap();
    let _ = s
        .listen(EventTag::Custom(9), None, vec![Instr::Apply(global_hits, Mutator::AddInt(1))])
        .unwrap();
    let _ = s
        .listen(EventTag::Custom(9), v.into(), vec![Instr::Apply(scoped_hits, Mutator::AddInt(1))])
        .unwrap();
    // Targeted emission fires only the scoped listener.
    assert!(s.emit(v.into(), &Event::Custom(9)).is_ok());
    assert_eq!(Ok(Some(Value::Int(0))), s.read(global_hits));
    assert_eq!(Ok(Some(Value::Int(1))), s.read(scoped_hits));
    // Global emission fires only the global listener. No bubbling.
    assert!(s.emit(None, &Event::Custom(9)).is_ok());
    assert_eq!(Ok(Some(Value::Int(1))), s.read(global_hits));
    assert_eq!(Ok(Some(Value::Int(1))), s.read(scoped_hits));
}

#[test]
fn cleanup_on_delete() {
    let mut s = System::default();
    let w = s.create(Recipe::Const(Value::Int(0))).unwrap();
    let v = s.create(Recipe::Const(Value::Int(0))).unwrap();
    let _ = s
        .listen(EventTag::Custom(5), v.into(), vec![Instr::Apply(w, Mutator::AddInt(1))])
        .unwrap();
    assert_eq!(Ok(Some(Value::Int(0))), s.delete(v));
    // The recycled identifier does not revive the old listener.
    let v2 = s.create(Recipe::Const(Value::Int(0))).unwrap();
    assert_eq!(v.id, v2.id);
    assert!(s.emit(v2.into(), &Event::Custom(5)).is_ok());
    assert_eq!(Ok(Some(Value::Int(0))), s.read(w));
}

#[test]
fn silence_listen_roundtrip() {
    let mut s = System::default();
    let x = s.create(Recipe::Const(Value::Int(0))).unwrap();
    let listener = s
        .listen(EventTag::Custom(3), None, vec![Instr::Apply(x, Mutator::AddInt(1))])
        .unwrap();
    let _ = s.emit(None, &Event::Custom(3));
    assert_eq!(Ok(Some(Value::Int(1))), s.read(x));
    let _ = s.emit(None, &Event::Custom(3));
    assert_eq!(Ok(Some(Value::Int(2))), s.read(x));
    assert_eq!(Some(()), s.silence(listener));
    // The silenced handler never fires again.
    let _ = s.emit(None, &Event::Custom(3));
    assert_eq!(Ok(Some(Value::Int(2))), s.read(x));
    assert_eq!(None, s.silence(listener));
}

#[test]
fn votes_add_up() {
    let mut s = System::default();
    let _ = s.listen(EventTag::Custom(4), None, vec![Instr::CastVote(Vote::Cancel)]).unwrap();
    let _ = s.listen(EventTag::Custom(4), None, vec![Instr::CastVote(Vote::Proceed)]).unwrap();
    let _ = s.listen(EventTag::Custom(4), None, vec![]).unwrap();
    let votes = s.emit(None, &Event::Custom(4)).expect("nobody aborts");
    assert_eq!(Votes { abstain: 1, cancel: 1, proceed: 1 }, votes);
    assert_eq!(3, votes.abstain + votes.cancel + votes.proceed);
}

#[test]
fn dispatch_preserves_registration_order() {
    let mut s = System::default();
    let x = s.create(Recipe::Const(Value::Int(0))).unwrap();
    let y = s.create(Recipe::Const(Value::Int(-1))).unwrap();
    // First handler copies x into y; the second overwrites x. If they ran
    // in the other order, y would see the overwritten value.
    let _ = s.listen(EventTag::Custom(6), None, vec![Instr::CopyInto(x, y)]).unwrap();
    let _ = s
        .listen(EventTag::Custom(6), None, vec![Instr::Apply(x, Mutator::Assign(Value::Int(5)))])
        .unwrap();
    assert!(s.emit(None, &Event::Custom(6)).is_ok());
    assert_eq!(Ok(Some(Value::Int(0))), s.read(y));
    assert_eq!(Ok(Some(Value::Int(5))), s.read(x));
}

#[test]
fn create_delete_returns_initial_value() {
    let mut s = System::default();
    let v = s.create(Recipe::Const(Value::Int(42))).unwrap();
    assert_eq!(Ok(Some(Value::Int(42))), s.delete(v));
}

#[test]
fn reentrant_update_observation() {
    let mut s = System::default();
    let t = s.create(Recipe::Const(Value::Int(10))).unwrap();
    let before = s.create(Recipe::Const(Value::Int(-1))).unwrap();
    let after = s.create(Recipe::Const(Value::Int(-1))).unwrap();
    let _ = s.listen(EventTag::Updating, t.into(), vec![Instr::CopyInto(t, before)]).unwrap();
    let _ = s.listen(EventTag::Updated, t.into(), vec![Instr::CopyInto(t, after)]).unwrap();
    assert_eq!(Ok(Some(Value::Int(15))), s.update(t, Mutator::AddInt(5)));
    // The Updating handler saw the pre-update value, the Updated handler
    // the post-update value.
    assert_eq!(Ok(Some(Value::Int(10))), s.read(before));
    assert_eq!(Ok(Some(Value::Int(15))), s.read(after));
}

#[test]
fn deleted_handle_misses_softly() {
    let mut s = System::default();
    let v = s.create(Recipe::Const(Value::Int(1))).unwrap();
    assert_eq!(Ok(Some(Value::Int(1))), s.delete(v));
    assert_eq!(Ok(None), s.read(v));
    assert_eq!(Ok(None), s.update(v, Mutator::AddInt(1)));
    assert_eq!(Ok(None), s.delete(v));
}

#[test]
fn recycled_identifier_of_another_shape_misses_softly() {
    let mut s = System::default();
    let v = s.create(Recipe::Const(Value::Int(1))).unwrap();
    assert_eq!(Ok(Some(Value::Int(1))), s.delete(v));
    let w = s.create(Recipe::Const(Value::Bool(true))).unwrap();
    assert_eq!(v.id, w.id);
    // The stale integer-shaped handle does not reach the boolean variable.
    assert_eq!(Ok(None), s.read(v));
    assert_eq!(Ok(Some(Value::Bool(true))), s.read(w));
}

#[test]
fn reading_cancelled_by_strict_majority() {
    let mut s = System::default();
    let v = s.create(Recipe::Const(Value::Int(7))).unwrap();
    let _ = s.listen(EventTag::Reading, v.into(), vec![Instr::CastVote(Vote::Cancel)]).unwrap();
    assert_eq!(Err(()), s.read(v));
    // One Proceed vote breaks the strict majority to cancel.
    let _ = s.listen(EventTag::Reading, v.into(), vec![Instr::CastVote(Vote::Proceed)]).unwrap();
    assert_eq!(Ok(Some(Value::Int(7))), s.read(v));
}

#[test]
fn cancelled_dependent_is_skipped() {
    let mut s = System::default();
    let a = s.create(Recipe::Const(Value::Int(0))).unwrap();
    let b = s.create(Recipe::ReadPlus { source: a, add: 1, or: -1 }).unwrap();
    let _ = s.listen(EventTag::Updating, b.into(), vec![Instr::CastVote(Vote::Cancel)]).unwrap();
    // The update of `a` itself goes through; `b`'s recomputation alone is
    // cancelled, so `b` keeps its stale value.
    assert_eq!(Ok(Some(Value::Int(1))), s.update(a, Mutator::AddInt(1)));
    assert_eq!(Ok(Some(Value::Int(1))), s.read(a));
    assert_eq!(Ok(Some(Value::Int(1))), s.read(b));
}

#[test]
fn deleting_cancelled_keeps_variable() {
    let mut s = System::default();
    let v = s.create(Recipe::Const(Value::Int(3))).unwrap();
    let _ = s.listen(EventTag::Deleting, v.into(), vec![Instr::CastVote(Vote::Cancel)]).unwrap();
    assert_eq!(Err(()), s.delete(v));
    assert_eq!(Ok(Some(Value::Int(3))), s.read(v));
}

#[test]
fn listen_on_missing_target() {
    let mut s = System::default();
    assert!(s.listen(EventTag::Custom(1), Some(VariableId(99)), vec![]).is_none());
}

#[test]
fn emit_without_listeners() {
    let mut s = System::default();
    let votes = s.emit(None, &Event::Custom(1)).unwrap();
    assert_eq!(Votes { abstain: 0, cancel: 0, proceed: 0 }, votes);
}

#[test]
fn integer_steps_saturate() {
    let mut s = System::default();
    let v = s.create(Recipe::Const(Value::Int(i64::MAX))).unwrap();
    assert_eq!(Ok(Some(Value::Int(i64::MAX))), s.update(v, Mutator::AddInt(1)));
    let w = s.create(Recipe::Const(Value::Int(i64::MIN))).unwrap();
    assert_eq!(Ok(Some(Value::Int(i64::MIN))), s.update(w, Mutator::AddInt(-1)));
}

#[test]
fn previous_value_recipe_starts_from_fallback() {
    let mut s = System::default();
    let c = s.create(Recipe::PrevPlus { add: 1, or: 100 }).unwrap();
    assert_eq!(Ok(Some(Value::Int(100))), s.read(c));
}

#[test]
fn mutator_keeps_value_shape() {
    let mut s = System::default();
    let v = s.create(Recipe::Const(Value::Int(2))).unwrap();
    // Assigning a value of another shape leaves the value unchanged.
    assert_eq!(Ok(Some(Value::Int(2))), s.update(v, Mutator::Assign(Value::Bool(true))));
    assert_eq!(Ok(Some(Value::Int(9))), s.update(v, Mutator::Assign(Value::Int(9))));
}

#[test]
fn runaway_reentrant_emission_terminates() {
    let mut s = System::default();
    // The handler re-emits its own event without end. The dispatch depth
    // cuts the recursion off: the innermost dispatch is aborted, the
    // handler ignores that and completes, and the outer emission returns
    // with the handler's single abstention.
    let _ = s.listen(EventTag::Custom(8), None, vec![Instr::Trigger(8, None)]).unwrap();
    assert_eq!(
        Ok(Votes { abstain: 1, cancel: 0, proceed: 0 }),
        s.emit(None, &Event::Custom(8))
    );
}

#[test]
fn handle_into_target() {
    let mut s = System::default();
    let v = s.create(Recipe::Const(Value::Unit)).unwrap();
    assert_eq!(Some(VariableId(v.id)), v.into());
}
