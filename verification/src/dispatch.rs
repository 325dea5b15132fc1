//! The operation dispatcher.
//!
//! Let `I`, `O`, `D` be the counts of own-type cells among the transaction's
//! inputs, outputs and cell-deps.  The shape of `(I, O, D)` picks at most one
//! operation; a transaction fitting no shape is rejected as an unknown
//! operation.

use vstd::prelude::*;

verus! {

/// The operation a transaction proposes over the ring.
#[derive(Clone, Copy, PartialEq, Eq, Structural, Debug)]
pub enum Operation {
    /// Materialize the info cell and every client cell from a bootstrap.
    Create,
    /// Tear the whole ring down.
    Destroy,
    /// Advance the tip one slot.
    Update,
    /// Roll a suffix of slots back and replace it by a stronger chain.
    Reorg,
    /// No operation fits the transaction's shape.
    Unknown,
}

/// No own-type cell is spent and at least one is produced.
pub open spec fn is_create_shape(i: nat, o: nat) -> bool {
    i == 0 && o >= 1
}

/// Own-type cells are spent and none is produced.
pub open spec fn is_destroy_shape(i: nat, o: nat) -> bool {
    i >= 1 && o == 0
}

/// Exactly the info cell and one client are spent and re-produced.
pub open spec fn is_update_shape(i: nat, o: nat) -> bool {
    i == 2 && o == 2
}

/// The info cell and at least two clients are spent and re-produced, with a
/// verification base exposed through a cell-dep.
pub open spec fn is_reorg_shape(i: nat, o: nat, d: nat) -> bool {
    i >= 3 && o == i && d >= 1
}

/// The operation chosen from the counts of own-type cells.
pub open spec fn spec_operation(i: nat, o: nat, d: nat) -> Operation {
    if is_create_shape(i, o) {
        Operation::Create
    } else if is_destroy_shape(i, o) {
        Operation::Destroy
    } else if is_update_shape(i, o) {
        Operation::Update
    } else if is_reorg_shape(i, o, d) {
        Operation::Reorg
    } else {
        Operation::Unknown
    }
}

pub fn choose_operation(i: usize, o: usize, d: usize) -> (r: Operation)
    ensures
        r == spec_operation(i as nat, o as nat, d as nat),
{
    if i == 0 && o >= 1 {
        Operation::Create
    } else if i >= 1 && o == 0 {
        Operation::Destroy
    } else if i == 2 && o == 2 {
        Operation::Update
    } else if i >= 3 && o == i && d >= 1 {
        Operation::Reorg
    } else {
        Operation::Unknown
    }
}

/// Given `(I, O, D)`, at most one operation's shape predicate holds, so the
/// cascade in [`spec_operation`] never shadows another applicable operation.
pub proof fn lemma_dispatch_exclusive(i: nat, o: nat, d: nat)
    ensures
        !(is_create_shape(i, o) && is_destroy_shape(i, o)),
        !(is_create_shape(i, o) && is_update_shape(i, o)),
        !(is_create_shape(i, o) && is_reorg_shape(i, o, d)),
        !(is_destroy_shape(i, o) && is_update_shape(i, o)),
        !(is_destroy_shape(i, o) && is_reorg_shape(i, o, d)),
        !(is_update_shape(i, o) && is_reorg_shape(i, o, d)),
        is_create_shape(i, o) ==> spec_operation(i, o, d) == Operation::Create,
        is_destroy_shape(i, o) ==> spec_operation(i, o, d) == Operation::Destroy,
        is_update_shape(i, o) ==> spec_operation(i, o, d) == Operation::Update,
        is_reorg_shape(i, o, d) ==> spec_operation(i, o, d) == Operation::Reorg,
{
}

} // verus!
