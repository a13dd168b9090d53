use vstd::prelude::*;
use crate::event::{Event, OwnerState, Violation, ViolationKind};

verus! {

/// The tracked attributes of one binding.
#[derive(Clone, Copy)]
pub struct BindingAttrs {
    /// Current ownership state.
    pub state: OwnerState,
    /// Whether the binding was declared mutable.
    pub mutable: bool,
    /// The scope the binding was created in; `None` when it was created
    /// outside every explicit scope, in which case it is never dropped.
    pub scope: Option<u64>,
}

/// One registered borrow. Its identifier is its position in the state's
/// borrow sequence.
#[derive(Clone, Copy)]
pub struct BorrowRec {
    /// The borrowed binding.
    pub binding: u64,
    /// Exclusive or shared.
    pub exclusive: bool,
    /// The scope the borrow is registered under; exiting it releases the
    /// borrow.
    pub scope: u64,
    /// Whether the borrow is still live.
    pub live: bool,
}

/// The validator's state: the bindings seen so far, every borrow ever
/// registered (live or released), and the stack of open scopes.
pub struct State {
    pub bindings: Map<u64, BindingAttrs>,
    pub borrows: Seq<BorrowRec>,
    pub scopes: Seq<u64>,
}

/// The state before any event: no bindings, no borrows, no open scope.
pub open spec fn initial_state() -> State {
    State { bindings: Map::empty(), borrows: Seq::empty(), scopes: Seq::empty() }
}

/// Whether `id` names a binding that currently owns its value.
pub open spec fn is_live(st: State, id: u64) -> bool {
    st.bindings.contains_key(id) && st.bindings[id].state == OwnerState::Owned
}

/// The violation kind for touching a binding that does not own a value:
/// a dropped binding reads as a use after drop; a moved-away binding, or an
/// identifier that was never bound, reads as a use after move.
pub open spec fn absence_kind(st: State, id: u64) -> ViolationKind {
    if st.bindings.contains_key(id) && st.bindings[id].state == OwnerState::Dropped {
        ViolationKind::UseAfterDrop
    } else {
        ViolationKind::UseAfterMove
    }
}

/// Whether any borrow of `id`, shared or exclusive, is currently live.
pub open spec fn has_live_borrow(st: State, id: u64) -> bool {
    exists|j: int|
        0 <= j < st.borrows.len() && st.borrows[j].live && st.borrows[j].binding == id
}

/// Whether an exclusive borrow of `id` is currently live.
pub open spec fn has_live_exclusive(st: State, id: u64) -> bool {
    exists|j: int|
        0 <= j < st.borrows.len() && st.borrows[j].live && st.borrows[j].binding == id
            && st.borrows[j].exclusive
}

/// The innermost open scope, or `None` outside every explicit scope.
pub open spec fn innermost_scope(st: State) -> Option<u64> {
    if st.scopes.len() == 0 {
        None
    } else {
        Some(st.scopes.last())
    }
}

/// How exiting `scope` affects one binding: a binding created in that scope
/// and still owning its value is dropped; every other binding is untouched.
pub open spec fn binding_at_exit(b: BindingAttrs, scope: u64) -> BindingAttrs {
    if b.scope == Some(scope) && b.state == OwnerState::Owned {
        BindingAttrs { state: OwnerState::Dropped, mutable: b.mutable, scope: b.scope }
    } else {
        b
    }
}

/// How exiting `scope` affects one borrow: a borrow registered under that
/// scope is released; every other borrow is untouched.
pub open spec fn borrow_at_exit(b: BorrowRec, scope: u64) -> BorrowRec {
    if b.scope == scope {
        BorrowRec { binding: b.binding, exclusive: b.exclusive, scope: b.scope, live: false }
    } else {
        b
    }
}

/// The bindings after exiting `scope`.
pub open spec fn bindings_at_exit(m: Map<u64, BindingAttrs>, scope: u64) -> Map<u64, BindingAttrs> {
    Map::new(|k: u64| m.contains_key(k), |k: u64| binding_at_exit(m[k], scope))
}

/// The borrows after exiting `scope`.
pub open spec fn borrows_at_exit(s: Seq<BorrowRec>, scope: u64) -> Seq<BorrowRec> {
    Seq::new(s.len(), |j: int| borrow_at_exit(s[j], scope))
}

/// Whether `e` provokes no violation in state `st`: bindings it touches own
/// their value, borrows it takes do not conflict with a live borrow, releases
/// name a live borrow, exclusive borrows and writes respect mutability, and a
/// scope exit names the innermost open scope.
pub open spec fn event_ok(st: State, e: Event) -> bool {
    match e {
        Event::Bind { id, mutable: _ } => !is_live(st, id),
        Event::Move { from, to: _ } => is_live(st, from) && !has_live_borrow(st, from),
        Event::BorrowShared { id, scope: _ } => is_live(st, id) && !has_live_exclusive(st, id),
        Event::BorrowExclusive { id, scope: _ } => is_live(st, id) && st.bindings[id].mutable
            && !has_live_borrow(st, id),
        Event::ReleaseBorrow { borrow } => borrow < st.borrows.len()
            && st.borrows[borrow as int].live,
        Event::EnterScope { scope: _ } => true,
        Event::ExitScope { scope } => st.scopes.len() > 0 && st.scopes.last() == scope,
        Event::Read { id } => is_live(st, id),
        Event::Write { id } => is_live(st, id) && (st.bindings[id].mutable || has_live_exclusive(
            st,
            id,
        )),
    }
}

/// One step of the validator: either the successor state, or the kind of the
/// first violated rule together with the identifier involved.
///
/// The rules, checked in the order given:
/// - `Bind` refuses an identifier that is currently live, and otherwise
///   creates the binding, owned by the innermost open scope.
/// - `Move` requires the source to own its value and to have no live borrow
///   of either kind; it marks the source moved and creates the destination
///   with the source's mutability, owned by the innermost open scope. A
///   source that does not own a value is reported as a use after move.
/// - `BorrowShared` requires the binding to own its value and no exclusive
///   borrow of it to be live; any number of shared borrows may coexist.
/// - `BorrowExclusive` additionally requires the binding to be mutable and no
///   borrow of it at all to be live.
/// - `ReleaseBorrow` requires the named borrow to be live and releases it.
/// - `EnterScope` always succeeds and opens a scope.
/// - `ExitScope` must name the innermost open scope; it releases every borrow
///   registered under that scope, then drops every binding created in it that
///   still owns its value, then closes the scope.
/// - `Read` requires the binding to own its value.
/// - `Write` additionally requires the binding to be mutable or to have a
///   live exclusive borrow.
pub open spec fn step(st: State, e: Event) -> Result<State, (ViolationKind, u64)> {
    match e {
        Event::Bind { id, mutable } => if is_live(st, id) {
            Err((ViolationKind::DuplicateBinding, id))
        } else {
            Ok(
                State {
                    bindings: st.bindings.insert(
                        id,
                        BindingAttrs {
                            state: OwnerState::Owned,
                            mutable,
                            scope: innermost_scope(st),
                        },
                    ),
                    borrows: st.borrows,
                    scopes: st.scopes,
                },
            )
        },
        Event::Move { from, to } => if !is_live(st, from) {
            Err((ViolationKind::UseAfterMove, from))
        } else if has_live_borrow(st, from) {
            Err((ViolationKind::BorrowedWhileMoving, from))
        } else {
            Ok(
                State {
                    bindings: st.bindings.insert(
                        from,
                        BindingAttrs {
                            state: OwnerState::Moved,
                            mutable: st.bindings[from].mutable,
                            scope: st.bindings[from].scope,
                        },
                    ).insert(
                        to,
                        BindingAttrs {
                            state: OwnerState::Owned,
                            mutable: st.bindings[from].mutable,
                            scope: innermost_scope(st),
                        },
                    ),
                    borrows: st.borrows,
                    scopes: st.scopes,
                },
            )
        },
        Event::BorrowShared { id, scope } => if !is_live(st, id) {
            Err((absence_kind(st, id), id))
        } else if has_live_exclusive(st, id) {
            Err((ViolationKind::ConflictingBorrow, id))
        } else {
            Ok(
                State {
                    bindings: st.bindings,
                    borrows: st.borrows.push(
                        BorrowRec { binding: id, exclusive: false, scope, live: true },
                    ),
                    scopes: st.scopes,
                },
            )
        },
        Event::BorrowExclusive { id, scope } => if !is_live(st, id) {
            Err((absence_kind(st, id), id))
        } else if !st.bindings[id].mutable {
            Err((ViolationKind::NotMutable, id))
        } else if has_live_borrow(st, id) {
            Err((ViolationKind::ConflictingBorrow, id))
        } else {
            Ok(
                State {
                    bindings: st.bindings,
                    borrows: st.borrows.push(
                        BorrowRec { binding: id, exclusive: true, scope, live: true },
                    ),
                    scopes: st.scopes,
                },
            )
        },
        Event::ReleaseBorrow { borrow } => if borrow < st.borrows.len()
            && st.borrows[borrow as int].live {
            Ok(
                State {
                    bindings: st.bindings,
                    borrows: st.borrows.update(
                        borrow as int,
                        BorrowRec {
                            binding: st.borrows[borrow as int].binding,
                            exclusive: st.borrows[borrow as int].exclusive,
                            scope: st.borrows[borrow as int].scope,
                            live: false,
                        },
                    ),
                    scopes: st.scopes,
                },
            )
        } else {
            Err((ViolationKind::UnknownBorrow, borrow))
        },
        Event::EnterScope { scope } => Ok(
            State { bindings: st.bindings, borrows: st.borrows, scopes: st.scopes.push(scope) },
        ),
        Event::ExitScope { scope } => if st.scopes.len() > 0 && st.scopes.last() == scope {
            Ok(
                State {
                    bindings: bindings_at_exit(st.bindings, scope),
                    borrows: borrows_at_exit(st.borrows, scope),
                    scopes: st.scopes.drop_last(),
                },
            )
        } else {
            Err((ViolationKind::ScopeMismatch, scope))
        },
        Event::Read { id } => if is_live(st, id) {
            Ok(st)
        } else {
            Err((absence_kind(st, id), id))
        },
        Event::Write { id } => if !is_live(st, id) {
            Err((absence_kind(st, id), id))
        } else if !st.bindings[id].mutable && !has_live_exclusive(st, id) {
            Err((ViolationKind::NotMutable, id))
        } else {
            Ok(st)
        },
    }
}

/// The state after a legal event; an illegal event leaves the state as it is.
pub open spec fn next_state(st: State, e: Event) -> State {
    match step(st, e) {
        Ok(st2) => st2,
        Err(_) => st,
    }
}

/// The result of validating `events[from ..]` starting in state `st`:
/// the final state, or the first violation, reported with the global index of
/// the offending event.
pub open spec fn run(st: State, events: Seq<Event>, from: int) -> Result<State, Violation>
    decreases events.len() - from,
{
    if from < 0 || from >= events.len() {
        Ok(st)
    } else {
        match step(st, events[from]) {
            Ok(st2) => run(st2, events, from + 1),
            Err((kind, id)) => Err(Violation { kind, index: from as usize, id }),
        }
    }
}

/// The result of validating a whole event sequence from the initial state.
pub open spec fn spec_validate(events: Seq<Event>) -> Result<(), Violation> {
    match run(initial_state(), events, 0) {
        Ok(_) => Ok(()),
        Err(v) => Err(v),
    }
}

} // verus!
