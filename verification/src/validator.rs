use vstd::prelude::*;
use crate::event::{Event, OwnerState, Violation, ViolationKind};
use crate::model::{
    BindingAttrs, BorrowRec, State, binding_at_exit, bindings_at_exit, borrow_at_exit,
    borrows_at_exit, has_live_borrow, has_live_exclusive, initial_state, innermost_scope, run,
    spec_validate, step,
};

verus! {

/// One entry of the executable binding table: an identifier and the
/// binding's attributes.
#[derive(Clone, Copy)]
struct BindingEntry {
    id: u64,
    attrs: BindingAttrs,
}

/// No two entries share an identifier.
spec fn unique_ids(s: Seq<BindingEntry>) -> bool {
    forall|i: int, j: int| 0 <= i < j < s.len() ==> s[i].id != s[j].id
}

/// The binding table read as a map from identifier to attributes.
spec fn bindings_as_map(s: Seq<BindingEntry>) -> Map<u64, BindingAttrs>
    decreases s.len(),
{
    if s.len() == 0 {
        Map::empty()
    } else {
        bindings_as_map(s.drop_last()).insert(s.last().id, s.last().attrs)
    }
}

/// The map holds a key exactly when some entry carries it.
proof fn lemma_as_map_dom(s: Seq<BindingEntry>, k: u64)
    ensures
        bindings_as_map(s).contains_key(k) <==> exists|i: int| 0 <= i < s.len() && s[i].id == k,
    decreases s.len(),
{
    if s.len() > 0 {
        lemma_as_map_dom(s.drop_last(), k);
        if s.last().id == k {
            assert(s[s.len() - 1].id == k);
        } else {
            if bindings_as_map(s).contains_key(k) {
                let i = choose|i: int| 0 <= i < s.drop_last().len() && s.drop_last()[i].id == k;
                assert(s[i].id == k);
            }
            if exists|i: int| 0 <= i < s.len() && s[i].id == k {
                let i = choose|i: int| 0 <= i < s.len() && s[i].id == k;
                assert(s.drop_last()[i].id == k);
            }
        }
    }
}

/// With unique identifiers, the map agrees with each entry.
proof fn lemma_as_map_at(s: Seq<BindingEntry>, i: int)
    requires
        unique_ids(s),
        0 <= i < s.len(),
    ensures
        bindings_as_map(s).contains_key(s[i].id),
        bindings_as_map(s)[s[i].id] == s[i].attrs,
    decreases s.len(),
{
    if i < s.len() - 1 {
        assert(unique_ids(s.drop_last())) by {
            assert(forall|x: int, y: int|
                0 <= x < y < s.drop_last().len() ==> s.drop_last()[x] == s[x]
                    && s.drop_last()[y] == s[y]);
        }
        lemma_as_map_at(s.drop_last(), i);
        assert(s.last().id != s[i].id);
    }
}

/// Appending an entry inserts its identifier.
proof fn lemma_as_map_push(s: Seq<BindingEntry>, r: BindingEntry)
    ensures
        bindings_as_map(s.push(r)) == bindings_as_map(s).insert(r.id, r.attrs),
{
    assert(s.push(r).drop_last() =~= s);
    assert(s.push(r).last() == r);
}

/// Overwriting an entry in place, keeping its identifier, inserts the new
/// attributes.
proof fn lemma_as_map_update(s: Seq<BindingEntry>, i: int, r: BindingEntry)
    requires
        unique_ids(s),
        0 <= i < s.len(),
        s[i].id == r.id,
    ensures
        bindings_as_map(s.update(i, r)) == bindings_as_map(s).insert(r.id, r.attrs),
    decreases s.len(),
{
    let s2 = s.update(i, r);
    if i == s.len() - 1 {
        assert(s2.drop_last() =~= s.drop_last());
        assert(s2.last() == r);
        assert(bindings_as_map(s2) =~= bindings_as_map(s).insert(r.id, r.attrs));
    } else {
        assert(unique_ids(s.drop_last())) by {
            assert(forall|x: int, y: int|
                0 <= x < y < s.drop_last().len() ==> s.drop_last()[x] == s[x]
                    && s.drop_last()[y] == s[y]);
        }
        assert(s2.drop_last() =~= s.drop_last().update(i, r));
        lemma_as_map_update(s.drop_last(), i, r);
        assert(s2.last() == s.last());
        assert(s.last().id != r.id);
        assert(bindings_as_map(s2) =~= bindings_as_map(s).insert(r.id, r.attrs));
    }
}

/// The validator's executable state: the binding table, every registered
/// borrow under its identifier (its position), and the stack of open scopes.
struct Validator {
    bindings: Vec<BindingEntry>,
    borrows: Vec<BorrowRec>,
    scopes: Vec<u64>,
}

impl View for Validator {
    type V = State;

    closed spec fn view(&self) -> State {
        State {
            bindings: bindings_as_map(self.bindings@),
            borrows: self.borrows@,
            scopes: self.scopes@,
        }
    }
}

impl Validator {
    spec fn wf(&self) -> bool {
        unique_ids(self.bindings@)
    }

    /// The index of the entry for `id`, if there is one, together with what
    /// the model says of that binding.
    fn find_binding(&self, id: u64) -> (r: Option<usize>)
        requires
            self.wf(),
        ensures
            (match r {
                Some(i) => i < self.bindings@.len() && self.bindings@[i as int].id == id
                    && self@.bindings.contains_key(id) && self@.bindings[id]
                    == self.bindings@[i as int].attrs,
                None => !self@.bindings.contains_key(id) && forall|j: int|
                    0 <= j < self.bindings@.len() ==> self.bindings@[j].id != id,
            }),
    {
        let mut i: usize = 0;
        while i < self.bindings.len()
            invariant
                i <= self.bindings@.len(),
                forall|j: int| 0 <= j < i ==> self.bindings@[j].id != id,
                self.wf(),
            decreases self.bindings@.len() - i,
        {
            if self.bindings[i].id == id {
                proof {
                    lemma_as_map_at(self.bindings@, i as int);
                }
                return Some(i);
            }
            i += 1;
        }
        proof {
            lemma_as_map_dom(self.bindings@, id);
        }
        None
    }

    /// Whether any borrow of `id` is live.
    fn scan_live_borrow(&self, id: u64) -> (r: bool)
        ensures
            r == has_live_borrow(self@, id),
    {
        let mut i: usize = 0;
        while i < self.borrows.len()
            invariant
                i <= self.borrows@.len(),
                forall|j: int|
                    0 <= j < i ==> !(self.borrows@[j].live && self.borrows@[j].binding == id),
            decreases self.borrows@.len() - i,
        {
            let b = self.borrows[i];
            if b.live && b.binding == id {
                proof {
                    assert(has_live_borrow(self@, id)) by {
                        assert(self@.borrows[i as int].live && self@.borrows[i as int].binding
                            == id);
                    }
                }
                return true;
            }
            i += 1;
        }
        false
    }

    /// Whether an exclusive borrow of `id` is live.
    fn scan_live_exclusive(&self, id: u64) -> (r: bool)
        ensures
            r == has_live_exclusive(self@, id),
    {
        let mut i: usize = 0;
        while i < self.borrows.len()
            invariant
                i <= self.borrows@.len(),
                forall|j: int|
                    0 <= j < i ==> !(self.borrows@[j].live && self.borrows@[j].binding == id
                        && self.borrows@[j].exclusive),
            decreases self.borrows@.len() - i,
        {
            let b = self.borrows[i];
            if b.live && b.binding == id && b.exclusive {
                proof {
                    assert(has_live_exclusive(self@, id)) by {
                        assert(self@.borrows[i as int].live && self@.borrows[i as int].binding
                            == id && self@.borrows[i as int].exclusive);
                    }
                }
                return true;
            }
            i += 1;
        }
        false
    }

    /// The innermost open scope.
    fn current_scope(&self) -> (r: Option<u64>)
        ensures
            r == innermost_scope(self@),
    {
        if self.scopes.len() == 0 {
            None
        } else {
            Some(self.scopes[self.scopes.len() - 1])
        }
    }

    /// Create or overwrite the entry for `id`; the model sees an insert.
    fn put_binding(&mut self, id: u64, attrs: BindingAttrs)
        requires
            old(self).wf(),
        ensures
            final(self).wf(),
            final(self)@.bindings == old(self)@.bindings.insert(id, attrs),
            final(self)@.borrows == old(self)@.borrows,
            final(self)@.scopes == old(self)@.scopes,
    {
        let entry = BindingEntry { id, attrs };
        match self.find_binding(id) {
            Some(i) => {
                let ghost s0 = self.bindings@;
                self.bindings.set(i, entry);
                proof {
                    lemma_as_map_update(s0, i as int, entry);
                }
            },
            None => {
                let ghost s0 = self.bindings@;
                self.bindings.push(entry);
                proof {
                    lemma_as_map_push(s0, entry);
                    assert forall|x: int, y: int|
                        0 <= x < y < self.bindings@.len() implies self.bindings@[x].id
                        != self.bindings@[y].id by {
                        if y < s0.len() {
                            assert(self.bindings@[x] == s0[x] && self.bindings@[y] == s0[y]);
                        } else {
                            assert(self.bindings@[x] == s0[x] && self.bindings@[y] == entry);
                        }
                    }
                }
            },
        }
    }

    /// Apply one event: advance the state as the model's step relation says,
    /// or report the violated rule and the identifier involved.
    fn step_event(&mut self, e: &Event) -> (r: Result<(), (ViolationKind, u64)>)
        requires
            old(self).wf(),
        ensures
            final(self).wf(),
            (match r {
                Ok(_) => step(old(self)@, *e) == Ok::<State, (ViolationKind, u64)>(final(self)@),
                Err(err) => step(old(self)@, *e) == Err::<State, (ViolationKind, u64)>(err),
            }),
    {
        match *e {
            Event::Bind { id, mutable } => {
                let live = match self.find_binding(id) {
                    Some(i) => self.bindings[i].attrs.state == OwnerState::Owned,
                    None => false,
                };
                if live {
                    Err((ViolationKind::DuplicateBinding, id))
                } else {
                    let sc = self.current_scope();
                    self.put_binding(
                        id,
                        BindingAttrs { state: OwnerState::Owned, mutable, scope: sc },
                    );
                    Ok(())
                }
            },
            Event::Move { from, to } => {
                let attrs = match self.find_binding(from) {
                    Some(i) => self.bindings[i].attrs,
                    None => {
                        return Err((ViolationKind::UseAfterMove, from));
                    },
                };
                if !(attrs.state == OwnerState::Owned) {
                    return Err((ViolationKind::UseAfterMove, from));
                }
                if self.scan_live_borrow(from) {
                    return Err((ViolationKind::BorrowedWhileMoving, from));
                }
                let sc = self.current_scope();
                self.put_binding(
                    from,
                    BindingAttrs { state: OwnerState::Moved, mutable: attrs.mutable, scope: attrs.scope },
                );
                self.put_binding(
                    to,
                    BindingAttrs { state: OwnerState::Owned, mutable: attrs.mutable, scope: sc },
                );
                Ok(())
            },
            Event::BorrowShared { id, scope } => {
                let attrs = match self.find_binding(id) {
                    Some(i) => self.bindings[i].attrs,
                    None => {
                        return Err((ViolationKind::UseAfterMove, id));
                    },
                };
                if attrs.state == OwnerState::Moved {
                    return Err((ViolationKind::UseAfterMove, id));
                }
                if attrs.state == OwnerState::Dropped {
                    return Err((ViolationKind::UseAfterDrop, id));
                }
                if self.scan_live_exclusive(id) {
                    return Err((ViolationKind::ConflictingBorrow, id));
                }
                self.borrows.push(BorrowRec { binding: id, exclusive: false, scope, live: true });
                Ok(())
            },
            Event::BorrowExclusive { id, scope } => {
                let attrs = match self.find_binding(id) {
                    Some(i) => self.bindings[i].attrs,
                    None => {
                        return Err((ViolationKind::UseAfterMove, id));
                    },
                };
                if attrs.state == OwnerState::Moved {
                    return Err((ViolationKind::UseAfterMove, id));
                }
                if attrs.state == OwnerState::Dropped {
                    return Err((ViolationKind::UseAfterDrop, id));
                }
                if !attrs.mutable {
                    return Err((ViolationKind::NotMutable, id));
                }
                if self.scan_live_borrow(id) {
                    return Err((ViolationKind::ConflictingBorrow, id));
                }
                self.borrows.push(BorrowRec { binding: id, exclusive: true, scope, live: true });
                Ok(())
            },
            Event::ReleaseBorrow { borrow } => {
                if borrow < self.borrows.len() as u64 {
                    let bi = borrow as usize;
                    let rec = self.borrows[bi];
                    if rec.live {
                        self.borrows.set(
                            bi,
                            BorrowRec {
                                binding: rec.binding,
                                exclusive: rec.exclusive,
                                scope: rec.scope,
                                live: false,
                            },
                        );
                        return Ok(());
                    }
                }
                Err((ViolationKind::UnknownBorrow, borrow))
            },
            Event::EnterScope { scope } => {
                self.scopes.push(scope);
                Ok(())
            },
            Event::ExitScope { scope } => {
                if self.scopes.len() == 0 {
                    return Err((ViolationKind::ScopeMismatch, scope));
                }
                if self.scopes[self.scopes.len() - 1] != scope {
                    return Err((ViolationKind::ScopeMismatch, scope));
                }
                self.scopes.pop();
                let ghost scopes1 = self.scopes@;
                let ghost borrows0 = self.borrows@;
                let ghost bind0 = self.bindings@;
                let mut i: usize = 0;
                while i < self.borrows.len()
                    invariant
                        i <= self.borrows@.len(),
                        self.borrows@.len() == borrows0.len(),
                        self.bindings@ == bind0,
                        self.scopes@ == scopes1,
                        forall|j: int|
                            0 <= j < i ==> self.borrows@[j] == borrow_at_exit(borrows0[j], scope),
                        forall|j: int| i <= j < borrows0.len() ==> self.borrows@[j] == borrows0[j],
                    decreases self.borrows@.len() - i,
                {
                    let rec = self.borrows[i];
                    if rec.scope == scope {
                        self.borrows.set(
                            i,
                            BorrowRec {
                                binding: rec.binding,
                                exclusive: rec.exclusive,
                                scope: rec.scope,
                                live: false,
                            },
                        );
                    }
                    i += 1;
                }
                proof {
                    assert(self.borrows@ =~= borrows_at_exit(borrows0, scope));
                }
                let ghost borrows1 = self.borrows@;
                let mut k: usize = 0;
                while k < self.bindings.len()
                    invariant
                        k <= self.bindings@.len(),
                        self.bindings@.len() == bind0.len(),
                        self.borrows@ == borrows1,
                        self.scopes@ == scopes1,
                        forall|j: int|
                            0 <= j < k ==> self.bindings@[j].id == bind0[j].id
                                && self.bindings@[j].attrs == binding_at_exit(
                                bind0[j].attrs,
                                scope,
                            ),
                        forall|j: int| k <= j < bind0.len() ==> self.bindings@[j] == bind0[j],
                    decreases self.bindings@.len() - k,
                {
                    let entry = self.bindings[k];
                    let dropped = match entry.attrs.scope {
                        Some(s) => s == scope && entry.attrs.state == OwnerState::Owned,
                        None => false,
                    };
                    if dropped {
                        self.bindings.set(
                            k,
                            BindingEntry {
                                id: entry.id,
                                attrs: BindingAttrs {
                                    state: OwnerState::Dropped,
                                    mutable: entry.attrs.mutable,
                                    scope: entry.attrs.scope,
                                },
                            },
                        );
                    }
                    k += 1;
                }
                proof {
                    assert(unique_ids(bind0));
                    lemma_as_map_exit(bind0, self.bindings@, scope);
                    assert forall|x: int, y: int|
                        0 <= x < y < self.bindings@.len() implies self.bindings@[x].id
                        != self.bindings@[y].id by {
                        assert(self.bindings@[x].id == bind0[x].id && self.bindings@[y].id
                            == bind0[y].id);
                    }
                    assert(self@.scopes == old(self)@.scopes.drop_last());
                }
                Ok(())
            },
            Event::Read { id } => {
                let attrs = match self.find_binding(id) {
                    Some(i) => self.bindings[i].attrs,
                    None => {
                        return Err((ViolationKind::UseAfterMove, id));
                    },
                };
                if attrs.state == OwnerState::Moved {
                    return Err((ViolationKind::UseAfterMove, id));
                }
                if attrs.state == OwnerState::Dropped {
                    return Err((ViolationKind::UseAfterDrop, id));
                }
                Ok(())
            },
            Event::Write { id } => {
                let attrs = match self.find_binding(id) {
                    Some(i) => self.bindings[i].attrs,
                    None => {
                        return Err((ViolationKind::UseAfterMove, id));
                    },
                };
                if attrs.state == OwnerState::Moved {
                    return Err((ViolationKind::UseAfterMove, id));
                }
                if attrs.state == OwnerState::Dropped {
                    return Err((ViolationKind::UseAfterDrop, id));
                }
                if !attrs.mutable && !self.scan_live_exclusive(id) {
                    return Err((ViolationKind::NotMutable, id));
                }
                Ok(())
            },
        }
    }
}

/// Dropping at scope exit, entry by entry, acts on the binding map pointwise.
proof fn lemma_as_map_exit(s1: Seq<BindingEntry>, s2: Seq<BindingEntry>, scope: u64)
    requires
        unique_ids(s1),
        s2.len() == s1.len(),
        forall|j: int|
            0 <= j < s1.len() ==> s2[j].id == s1[j].id && s2[j].attrs == binding_at_exit(
                s1[j].attrs,
                scope,
            ),
    ensures
        bindings_as_map(s2) == bindings_at_exit(bindings_as_map(s1), scope),
{
    let m1 = bindings_as_map(s1);
    let m2 = bindings_as_map(s2);
    let mt = bindings_at_exit(m1, scope);
    assert forall|x: int, y: int| 0 <= x < y < s2.len() implies s2[x].id != s2[y].id by {
        assert(s2[x].id == s1[x].id && s2[y].id == s1[y].id);
    }
    assert forall|k: u64| #[trigger] m2.contains_key(k) implies mt.contains_key(k) by {
        lemma_as_map_dom(s2, k);
        let j = choose|j: int| 0 <= j < s2.len() && s2[j].id == k;
        assert(s1[j].id == k);
        lemma_as_map_dom(s1, k);
    }
    assert forall|k: u64| #[trigger] mt.contains_key(k) implies m2.contains_key(k) by {
        lemma_as_map_dom(s1, k);
        let j = choose|j: int| 0 <= j < s1.len() && s1[j].id == k;
        assert(s2[j].id == k);
        lemma_as_map_dom(s2, k);
    }
    assert forall|k: u64| #[trigger] m2.contains_key(k) implies m2[k] == mt[k] by {
        lemma_as_map_dom(s2, k);
        let j = choose|j: int| 0 <= j < s2.len() && s2[j].id == k;
        lemma_as_map_at(s2, j);
        assert(s1[j].id == k);
        lemma_as_map_at(s1, j);
    }
    assert(m2.dom() =~= mt.dom());
    assert(m2 =~= mt);
}

/// Checks an event sequence against the ownership rules.
///
/// Returns the model's verdict exactly: confirmation that the whole sequence
/// is legal, or the first violation, with its kind, the index of the
/// offending event, and the identifier involved. The result is a pure
/// function of the event sequence; nothing carries over between runs.
pub fn validate(events: &Vec<Event>) -> (r: Result<(), Violation>)
    ensures
        r == spec_validate(events@),
{
    let mut v = Validator { bindings: Vec::new(), borrows: Vec::new(), scopes: Vec::new() };
    proof {
        assert(v@.bindings =~= initial_state().bindings);
        assert(v@ == initial_state());
    }
    let mut i: usize = 0;
    while i < events.len()
        invariant
            i <= events@.len(),
            v.wf(),
            run(initial_state(), events@, 0) == run(v@, events@, i as int),
        decreases events@.len() - i,
    {
        let ghost pre = v@;
        match v.step_event(&events[i]) {
            Ok(_) => {
                proof {
                    assert(run(pre, events@, i as int) == run(v@, events@, i as int + 1));
                }
            },
            Err(err) => {
                let violation = Violation { kind: err.0, index: i, id: err.1 };
                proof {
                    assert(run(pre, events@, i as int) == Err::<State, Violation>(violation));
                }
                return Err(violation);
            },
        }
        i += 1;
    }
    Ok(())
}

} // verus!
