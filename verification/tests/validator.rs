use borrow_validator::event::{Event, Violation, ViolationKind};
use borrow_validator::validator::validate;

fn violation(kind: ViolationKind, index: usize, id: u64) -> Result<(), Violation> {
    Err(Violation { kind, index, id })
}

#[test]
fn empty_sequence_is_legal() {
    assert_eq!(validate(&vec![]), Ok(()));
}

#[test]
fn conflict_free_sequence_is_legal() {
    let events = vec![
        Event::EnterScope { scope: 1 },
        Event::Bind { id: 10, mutable: true },
        Event::BorrowShared { id: 10, scope: 1 },
        Event::Read { id: 10 },
        Event::ReleaseBorrow { borrow: 0 },
        Event::BorrowExclusive { id: 10, scope: 1 },
        Event::Write { id: 10 },
        Event::ReleaseBorrow { borrow: 1 },
        Event::Move { from: 10, to: 11 },
        Event::Read { id: 11 },
        Event::ExitScope { scope: 1 },
    ];
    assert_eq!(validate(&events), Ok(()));
}

#[test]
fn exclusive_then_shared_conflicts() {
    let events = vec![
        Event::Bind { id: 1, mutable: true },
        Event::BorrowExclusive { id: 1, scope: 7 },
        Event::BorrowShared { id: 1, scope: 7 },
    ];
    assert_eq!(validate(&events), violation(ViolationKind::ConflictingBorrow, 2, 1));
}

#[test]
fn shared_borrows_coexist() {
    let events = vec![
        Event::Bind { id: 1, mutable: false },
        Event::BorrowShared { id: 1, scope: 7 },
        Event::BorrowShared { id: 1, scope: 7 },
    ];
    assert_eq!(validate(&events), Ok(()));
}

#[test]
fn read_after_move_is_refused() {
    let events = vec![
        Event::Bind { id: 1, mutable: false },
        Event::Move { from: 1, to: 2 },
        Event::Read { id: 1 },
    ];
    assert_eq!(validate(&events), violation(ViolationKind::UseAfterMove, 2, 1));
}

#[test]
fn scope_exit_drops_binding_and_borrow() {
    let events = vec![
        Event::EnterScope { scope: 5 },
        Event::Bind { id: 1, mutable: true },
        Event::BorrowExclusive { id: 1, scope: 5 },
        Event::ExitScope { scope: 5 },
        Event::Read { id: 1 },
    ];
    assert_eq!(validate(&events), violation(ViolationKind::UseAfterDrop, 4, 1));
}

#[test]
fn replaying_a_legal_sequence_succeeds_twice() {
    let events = vec![
        Event::Bind { id: 1, mutable: true },
        Event::BorrowShared { id: 1, scope: 3 },
        Event::ReleaseBorrow { borrow: 0 },
        Event::Write { id: 1 },
    ];
    let first = validate(&events);
    let second = validate(&events);
    assert_eq!(first, Ok(()));
    assert_eq!(second, Ok(()));
    assert_eq!(first, second);
}

#[test]
fn move_of_shared_borrowed_binding_is_refused() {
    let events = vec![
        Event::Bind { id: 1, mutable: false },
        Event::BorrowShared { id: 1, scope: 3 },
        Event::Move { from: 1, to: 2 },
    ];
    assert_eq!(validate(&events), violation(ViolationKind::BorrowedWhileMoving, 2, 1));
}

#[test]
fn move_of_exclusively_borrowed_binding_is_refused() {
    let events = vec![
        Event::Bind { id: 1, mutable: true },
        Event::BorrowExclusive { id: 1, scope: 3 },
        Event::Move { from: 1, to: 2 },
    ];
    assert_eq!(validate(&events), violation(ViolationKind::BorrowedWhileMoving, 2, 1));
}

#[test]
fn rebinding_a_live_identifier_is_refused() {
    let events = vec![
        Event::Bind { id: 1, mutable: false },
        Event::Bind { id: 1, mutable: true },
    ];
    assert_eq!(validate(&events), violation(ViolationKind::DuplicateBinding, 1, 1));
}

#[test]
fn exclusive_borrow_of_immutable_binding_is_refused() {
    let events = vec![
        Event::Bind { id: 1, mutable: false },
        Event::BorrowExclusive { id: 1, scope: 0 },
    ];
    assert_eq!(validate(&events), violation(ViolationKind::NotMutable, 1, 1));
}

#[test]
fn write_through_immutable_binding_is_refused() {
    let events = vec![
        Event::Bind { id: 1, mutable: false },
        Event::Write { id: 1 },
    ];
    assert_eq!(validate(&events), violation(ViolationKind::NotMutable, 1, 1));
}

#[test]
fn write_through_mutable_binding_is_legal() {
    let events = vec![
        Event::Bind { id: 1, mutable: true },
        Event::Write { id: 1 },
    ];
    assert_eq!(validate(&events), Ok(()));
}

#[test]
fn releasing_an_unregistered_borrow_is_refused() {
    let events = vec![
        Event::Bind { id: 1, mutable: true },
        Event::ReleaseBorrow { borrow: 0 },
    ];
    assert_eq!(validate(&events), violation(ViolationKind::UnknownBorrow, 1, 0));
}

#[test]
fn releasing_a_borrow_twice_is_refused() {
    let events = vec![
        Event::Bind { id: 1, mutable: false },
        Event::BorrowShared { id: 1, scope: 0 },
        Event::ReleaseBorrow { borrow: 0 },
        Event::ReleaseBorrow { borrow: 0 },
    ];
    assert_eq!(validate(&events), violation(ViolationKind::UnknownBorrow, 3, 0));
}

#[test]
fn exiting_an_outer_scope_first_is_refused() {
    let events = vec![
        Event::EnterScope { scope: 1 },
        Event::EnterScope { scope: 2 },
        Event::ExitScope { scope: 1 },
    ];
    assert_eq!(validate(&events), violation(ViolationKind::ScopeMismatch, 2, 1));
}

#[test]
fn exiting_with_no_open_scope_is_refused() {
    let events = vec![Event::ExitScope { scope: 9 }];
    assert_eq!(validate(&events), violation(ViolationKind::ScopeMismatch, 0, 9));
}

#[test]
fn released_borrow_permits_exclusive_borrow() {
    let events = vec![
        Event::Bind { id: 1, mutable: true },
        Event::BorrowShared { id: 1, scope: 0 },
        Event::ReleaseBorrow { borrow: 0 },
        Event::BorrowExclusive { id: 1, scope: 0 },
    ];
    assert_eq!(validate(&events), Ok(()));
}

#[test]
fn moved_identifier_may_be_rebound() {
    let events = vec![
        Event::Bind { id: 1, mutable: true },
        Event::Move { from: 1, to: 2 },
        Event::Bind { id: 1, mutable: false },
        Event::Read { id: 1 },
        Event::Read { id: 2 },
    ];
    assert_eq!(validate(&events), Ok(()));
}

#[test]
fn write_after_drop_is_refused() {
    let events = vec![
        Event::EnterScope { scope: 1 },
        Event::Bind { id: 7, mutable: true },
        Event::ExitScope { scope: 1 },
        Event::Write { id: 7 },
    ];
    assert_eq!(validate(&events), violation(ViolationKind::UseAfterDrop, 3, 7));
}

#[test]
fn outer_binding_survives_inner_scope() {
    let events = vec![
        Event::Bind { id: 1, mutable: false },
        Event::EnterScope { scope: 2 },
        Event::ExitScope { scope: 2 },
        Event::Read { id: 1 },
    ];
    assert_eq!(validate(&events), Ok(()));
}

#[test]
fn moving_an_unbound_identifier_is_refused() {
    let events = vec![Event::Move { from: 1, to: 2 }];
    assert_eq!(validate(&events), violation(ViolationKind::UseAfterMove, 0, 1));
}

#[test]
fn borrows_are_numbered_in_order_of_registration() {
    let events = vec![
        Event::Bind { id: 1, mutable: false },
        Event::BorrowShared { id: 1, scope: 0 },
        Event::BorrowShared { id: 1, scope: 0 },
        Event::ReleaseBorrow { borrow: 1 },
        Event::ReleaseBorrow { borrow: 1 },
    ];
    assert_eq!(validate(&events), violation(ViolationKind::UnknownBorrow, 4, 1));
}

#[test]
fn moved_to_binding_inherits_mutability() {
    let events = vec![
        Event::Bind { id: 1, mutable: false },
        Event::Move { from: 1, to: 2 },
        Event::Write { id: 2 },
    ];
    assert_eq!(validate(&events), violation(ViolationKind::NotMutable, 2, 2));
}

#[test]
fn first_violation_wins() {
    let events = vec![
        Event::Read { id: 1 },
        Event::ExitScope { scope: 9 },
    ];
    assert_eq!(validate(&events), violation(ViolationKind::UseAfterMove, 0, 1));
}
