use vstd::prelude::*;
use crate::event::{Event, Violation, ViolationKind};
use crate::model::{
    State, absence_kind, event_ok, has_live_borrow, has_live_exclusive, initial_state, is_live,
    next_state, run, spec_validate, step,
};

verus! {

/// A step succeeds exactly when the event is legal in the state it meets,
/// and then advances the state to `next_state`.
pub proof fn lemma_step_ok_iff(st: State, e: Event)
    ensures
        step(st, e) is Ok <==> event_ok(st, e),
        event_ok(st, e) ==> step(st, e) == Ok::<State, (ViolationKind, u64)>(next_state(st, e)),
{
}

/// Whether every event of `events[from ..]` is legal in the state it meets
/// when the earlier events have been applied to `st`.
pub open spec fn conflict_free_from(st: State, events: Seq<Event>, from: int) -> bool
    decreases events.len() - from,
{
    if from < 0 || from >= events.len() {
        true
    } else {
        event_ok(st, events[from]) && conflict_free_from(
            next_state(st, events[from]),
            events,
            from + 1,
        )
    }
}

/// Whether every event of the sequence is legal in the state it meets,
/// starting from the initial state.
pub open spec fn conflict_free(events: Seq<Event>) -> bool {
    conflict_free_from(initial_state(), events, 0)
}

proof fn lemma_run_ok_iff(st: State, events: Seq<Event>, from: int)
    ensures
        run(st, events, from) is Ok <==> conflict_free_from(st, events, from),
    decreases events.len() - from,
{
    if 0 <= from < events.len() {
        lemma_step_ok_iff(st, events[from]);
        match step(st, events[from]) {
            Ok(st2) => {
                lemma_run_ok_iff(st2, events, from + 1);
            },
            Err(_) => {},
        }
    }
}

/// Validation succeeds exactly on the conflict-free sequences: those in
/// which no event touches a binding that does not own its value, takes a
/// borrow that conflicts with a live one, moves a borrowed binding, borrows
/// exclusively or writes without the right to mutate, releases a borrow that
/// is not live, or exits a scope that is not the innermost open one.
pub proof fn lemma_conflict_free_validates(events: Seq<Event>)
    ensures
        spec_validate(events) is Ok <==> conflict_free(events),
{
    lemma_run_ok_iff(initial_state(), events, 0);
}

/// Validation has no hidden cross-run state: its verdict is a function of
/// the event sequence alone, so a second, independent run over the same
/// sequence returns the same verdict — in particular, replaying a legal
/// sequence succeeds both times.
pub proof fn lemma_validate_deterministic(first: Seq<Event>, second: Seq<Event>)
    requires
        first == second,
    ensures
        spec_validate(first) == spec_validate(second),
{
}

/// Moving a binding with a currently live borrow is refused with
/// `BorrowedWhileMoving`, regardless of the borrow's kind.
pub proof fn lemma_move_while_borrowed_refused(st: State, from: u64, to: u64)
    requires
        is_live(st, from),
        has_live_borrow(st, from),
    ensures
        step(st, Event::Move { from, to }) == Err::<State, (ViolationKind, u64)>(
            (ViolationKind::BorrowedWhileMoving, from),
        ),
{
}

/// Shared borrows coexist: a shared borrow is legal whenever the binding
/// owns its value and no exclusive borrow of it is live, however many shared
/// borrows are live already.
pub proof fn lemma_shared_borrows_coexist(st: State, id: u64, scope: u64)
    requires
        is_live(st, id),
        !has_live_exclusive(st, id),
    ensures
        step(st, Event::BorrowShared { id, scope }) is Ok,
{
}

/// Borrow exclusivity: any two distinct live borrows of the same binding are
/// both shared — so a binding has either any number of live shared borrows,
/// or exactly one live exclusive borrow, never both kinds at once and never
/// two exclusive ones.
pub open spec fn borrow_exclusivity(st: State) -> bool {
    forall|i: int, j: int|
        0 <= i < st.borrows.len() && 0 <= j < st.borrows.len() && i != j && st.borrows[i].live
            && st.borrows[j].live && st.borrows[i].binding == st.borrows[j].binding
            ==> !st.borrows[i].exclusive && !st.borrows[j].exclusive
}

/// A legal step preserves borrow exclusivity.
pub proof fn lemma_step_preserves_exclusivity(st: State, e: Event)
    requires
        borrow_exclusivity(st),
        step(st, e) is Ok,
    ensures
        borrow_exclusivity(step(st, e)->Ok_0),
{
    let st2 = step(st, e)->Ok_0;
    match e {
        Event::BorrowShared { id, scope: _ } => {
            assert forall|i: int, j: int|
                0 <= i < st2.borrows.len() && 0 <= j < st2.borrows.len() && i != j
                    && st2.borrows[i].live && st2.borrows[j].live && st2.borrows[i].binding
                    == st2.borrows[j].binding implies !st2.borrows[i].exclusive
                && !st2.borrows[j].exclusive by {
                if i < st.borrows.len() && j < st.borrows.len() {
                    assert(st2.borrows[i] == st.borrows[i] && st2.borrows[j] == st.borrows[j]);
                } else {
                    let o = if i < st.borrows.len() {
                        i
                    } else {
                        j
                    };
                    assert(st2.borrows[o] == st.borrows[o]);
                    assert(!st.borrows[o].exclusive) by {
                        assert(!has_live_exclusive(st, id));
                    }
                }
            }
        },
        Event::BorrowExclusive { id, scope: _ } => {
            assert forall|i: int, j: int|
                0 <= i < st2.borrows.len() && 0 <= j < st2.borrows.len() && i != j
                    && st2.borrows[i].live && st2.borrows[j].live && st2.borrows[i].binding
                    == st2.borrows[j].binding implies !st2.borrows[i].exclusive
                && !st2.borrows[j].exclusive by {
                if i < st.borrows.len() && j < st.borrows.len() {
                    assert(st2.borrows[i] == st.borrows[i] && st2.borrows[j] == st.borrows[j]);
                } else {
                    let o = if i < st.borrows.len() {
                        i
                    } else {
                        j
                    };
                    assert(st2.borrows[o] == st.borrows[o]);
                    assert(st.borrows[o].live && st.borrows[o].binding == id);
                    assert(false) by {
                        assert(has_live_borrow(st, id));
                        assert(!has_live_borrow(st, id));
                    }
                }
            }
        },
        _ => {
        },
    }
}

/// A whole legal run preserves borrow exclusivity. Applied to a prefix of
/// the sequence, this says the invariant holds at every instant of a run.
pub proof fn lemma_run_preserves_exclusivity(st: State, events: Seq<Event>, from: int)
    requires
        borrow_exclusivity(st),
        run(st, events, from) is Ok,
    ensures
        borrow_exclusivity(run(st, events, from)->Ok_0),
    decreases events.len() - from,
{
    if 0 <= from < events.len() {
        lemma_step_preserves_exclusivity(st, events[from]);
        lemma_run_preserves_exclusivity(step(st, events[from])->Ok_0, events, from + 1);
    }
}

/// Every legal event sequence ends — and, through its prefixes, passes only
/// through states — with either any number of live shared borrows or one
/// live exclusive borrow per binding.
pub proof fn lemma_exclusivity_invariant(events: Seq<Event>)
    ensures
        run(initial_state(), events, 0) is Ok ==> borrow_exclusivity(
            run(initial_state(), events, 0)->Ok_0,
        ),
{
    if run(initial_state(), events, 0) is Ok {
        lemma_run_preserves_exclusivity(initial_state(), events, 0);
    }
}

/// A shared borrow requested while an exclusive borrow of the same binding
/// is live is refused with `ConflictingBorrow`.
pub proof fn lemma_exclusive_excludes_shared(st: State, id: u64, scope: u64)
    requires
        is_live(st, id),
        has_live_exclusive(st, id),
    ensures
        step(st, Event::BorrowShared { id, scope }) == Err::<State, (ViolationKind, u64)>(
            (ViolationKind::ConflictingBorrow, id),
        ),
{
}

/// A binding that does not currently own a value — moved away, dropped, or
/// never bound — can be neither read, written, borrowed, nor moved from.
pub proof fn lemma_use_without_ownership_refused(st: State, id: u64, to: u64, scope: u64)
    requires
        !is_live(st, id),
    ensures
        step(st, Event::Read { id }) == Err::<State, (ViolationKind, u64)>(
            (absence_kind(st, id), id),
        ),
        step(st, Event::Write { id }) == Err::<State, (ViolationKind, u64)>(
            (absence_kind(st, id), id),
        ),
        step(st, Event::BorrowShared { id, scope }) == Err::<State, (ViolationKind, u64)>(
            (absence_kind(st, id), id),
        ),
        step(st, Event::BorrowExclusive { id, scope }) == Err::<State, (ViolationKind, u64)>(
            (absence_kind(st, id), id),
        ),
        step(st, Event::Move { from: id, to }) == Err::<State, (ViolationKind, u64)>(
            (ViolationKind::UseAfterMove, id),
        ),
{
}

/// Running the events of `events.take(k)` is running `events` up to `k`:
/// either both fail on the same early violation, or the run over the whole
/// sequence passes through the prefix's final state.
proof fn lemma_run_prefix(st: State, events: Seq<Event>, from: int, k: int)
    requires
        0 <= from <= k <= events.len(),
    ensures
        (match run(st, events.take(k), from) {
            Ok(stk) => run(st, events, from) == run(stk, events, k),
            Err(v) => run(st, events, from) == Err::<State, Violation>(v),
        }),
    decreases k - from,
{
    if from < k {
        assert(events.take(k)[from] == events[from]);
        match step(st, events[from]) {
            Ok(st2) => {
                lemma_run_prefix(st2, events, from + 1, k);
            },
            Err(_) => {},
        }
    }
}

/// A reported violation's index lies within the suffix that was run.
proof fn lemma_run_err_index(st: State, events: Seq<Event>, from: int)
    requires
        0 <= from,
        events.len() <= usize::MAX,
    ensures
        (match run(st, events, from) {
            Ok(_) => true,
            Err(v) => from <= v.index < events.len(),
        }),
    decreases events.len() - from,
{
    if 0 <= from < events.len() {
        match step(st, events[from]) {
            Ok(st2) => {
                lemma_run_err_index(st2, events, from + 1);
            },
            Err(_) => {},
        }
    }
}

/// Validation is fail-fast: when it reports a violation, the events before
/// the offending index form a legal sequence on their own, and the offending
/// event is illegal in the state that prefix produces. The sequence is asked
/// to fit in memory, as every sequence handed to the executable validator
/// does.
pub proof fn lemma_fail_fast(events: Seq<Event>)
    requires
        events.len() <= usize::MAX,
    ensures
        (match spec_validate(events) {
            Ok(_) => true,
            Err(v) => {
                &&& v.index < events.len()
                &&& spec_validate(events.take(v.index as int)) is Ok
                &&& run(initial_state(), events.take(v.index as int), 0) is Ok
                &&& !event_ok(
                    run(initial_state(), events.take(v.index as int), 0)->Ok_0,
                    events[v.index as int],
                )
            },
        }),
{
    let st0 = initial_state();
    if spec_validate(events) is Err {
        let v = spec_validate(events)->Err_0;
        lemma_run_err_index(st0, events, 0);
        let k = v.index as int;
        lemma_run_prefix(st0, events, 0, k);
        match run(st0, events.take(k), 0) {
            Ok(stk) => {
                assert(run(stk, events, k) == Err::<State, Violation>(v));
                match step(stk, events[k]) {
                    Ok(st2) => {
                        lemma_run_err_index(st2, events, k + 1);
                        assert(false);
                    },
                    Err(_) => {
                        lemma_step_ok_iff(stk, events[k]);
                    },
                }
            },
            Err(v2) => {
                lemma_run_err_index(st0, events.take(k), 0);
                assert(false);
            },
        }
    }
}

} // verus!
