//! The Destroy verifier.
//!
//! A Destroy spends the whole ring — the info cell and every client cell —
//! and produces no own-type cell.  Its only check is the cell count; an
//! accompanying lock governs the released assets, so cell contents are not
//! inspected.

use crate::codec::args_clients_count;
use crate::codec::args_ok;
use crate::codec::read_type_args;
use crate::error::spec_internal_code;
use crate::error::InternalError;
use crate::types::TxModel;
use crate::types::TxView;
use vstd::prelude::*;

verus! {

/// Verdict of a Destroy: `0` exactly when the script arguments decode and the
/// spent own-type cells number `1 + clients_count`.
pub open spec fn spec_destroy(tx: TxModel, own_inputs: nat) -> i8 {
    if !args_ok(tx.script_args) {
        spec_internal_code(InternalError::Encoding)
    } else if own_inputs != 1 + args_clients_count(tx.script_args) {
        spec_internal_code(InternalError::DestroyNotEnoughCells)
    } else {
        0
    }
}

pub fn verify_destroy(tx: &TxView, own_inputs: usize) -> (r: i8)
    ensures
        r == spec_destroy(tx@, own_inputs as nat),
{
    let args = match read_type_args(&tx.script_args) {
        Some(args) => args,
        None => {
            return InternalError::Encoding.code();
        },
    };
    let cells_count: usize = 1 + args.clients_count as usize;
    if own_inputs != cells_count {
        return InternalError::DestroyNotEnoughCells.code();
    }
    0
}

} // verus!
