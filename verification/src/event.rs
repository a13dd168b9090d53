use vstd::prelude::*;

verus! {

/// The ownership state of a binding.
#[derive(Clone, Copy, PartialEq, Eq, Structural, Debug)]
pub enum OwnerState {
    /// The binding currently owns its value.
    Owned,
    /// The value was moved out; the binding may no longer be used.
    Moved,
    /// The binding's scope was exited; the binding may no longer be used.
    Dropped,
}

/// One event of a program trace, presented to the validator in order.
///
/// Binding and scope identifiers are chosen by the caller. Borrow identifiers
/// are assigned by the validator itself: the n-th borrow event that succeeds
/// registers the borrow under identifier n, counting from zero.
#[derive(Clone, Copy, PartialEq, Eq, Structural, Debug)]
pub enum Event {
    /// Create a binding `id`, mutable or not, owned by the innermost open scope.
    Bind { id: u64, mutable: bool },
    /// Move ownership out of `from` into a fresh binding `to`.
    Move { from: u64, to: u64 },
    /// Take a shared borrow of `id`, live until `scope` is exited.
    BorrowShared { id: u64, scope: u64 },
    /// Take an exclusive borrow of `id`, live until `scope` is exited.
    BorrowExclusive { id: u64, scope: u64 },
    /// Release the borrow that was registered under `borrow`.
    ReleaseBorrow { borrow: u64 },
    /// Open a lexical scope named `scope`.
    EnterScope { scope: u64 },
    /// Close the innermost open scope, which must be named `scope`.
    ExitScope { scope: u64 },
    /// Read through the binding `id`.
    Read { id: u64 },
    /// Write through the binding `id`.
    Write { id: u64 },
}

/// The kind of a rule violation.
#[derive(Clone, Copy, PartialEq, Eq, Structural, Debug)]
pub enum ViolationKind {
    /// `Bind` of an identifier that is currently live.
    DuplicateBinding,
    /// Use of a binding whose value was moved out, or that was never bound.
    UseAfterMove,
    /// Use of a binding that was dropped at the exit of its scope.
    UseAfterDrop,
    /// `Move` of a binding that still has a live borrow.
    BorrowedWhileMoving,
    /// A borrow that cannot coexist with a borrow that is already live.
    ConflictingBorrow,
    /// An exclusive borrow of, or a write through, an immutable binding.
    NotMutable,
    /// `ReleaseBorrow` of an identifier that names no live borrow.
    UnknownBorrow,
    /// `ExitScope` that does not name the innermost open scope.
    ScopeMismatch,
}

/// A rule violation: its kind, the index of the offending event in the input
/// sequence, and the identifier involved — the binding for ownership and
/// borrow conflicts, the borrow identifier for `UnknownBorrow`, and the scope
/// identifier for `ScopeMismatch`.
#[derive(Clone, Copy, PartialEq, Eq, Structural, Debug)]
pub struct Violation {
    pub kind: ViolationKind,
    pub index: usize,
    pub id: u64,
}

} // verus!
