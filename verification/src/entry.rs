//! The program entry: classify, dispatch, verify.
//!
//! The entry function answers with a [`Step`]: either the exit byte itself,
//! or the one delegated header-chain call that still stands between the
//! structural checks and the verdict.  The driver performs that call and maps
//! its outcome through [`finish_client_verify`] (Update and Reorg) or
//! [`crate::create::finish_create`] (Create).

use crate::classify::own_index_seq;
use crate::classify::own_indices;
use crate::create::spec_create;
use crate::create::start_create;
use crate::destroy::spec_destroy;
use crate::destroy::verify_destroy;
use crate::dispatch::choose_operation;
use crate::dispatch::spec_operation;
use crate::dispatch::Operation;
use crate::error::spec_error_code;
use crate::error::spec_internal_code;
use crate::error::delegated_code;
use crate::error::Error;
use crate::error::InternalError;
use crate::reorg::spec_reorg;
use crate::reorg::verify_reorg;
use crate::types::Step;
use crate::types::StepModel;
use crate::types::TxModel;
use crate::types::TxView;
use crate::update::spec_update;
use crate::update::verify_update;
use vstd::prelude::*;

verus! {

/// The whole verifier, up to the delegated header-chain call.
pub open spec fn spec_entry(tx: TxModel) -> StepModel {
    let i = own_index_seq(tx.inputs, tx.script_hash).len();
    let o = own_index_seq(tx.outputs, tx.script_hash).len();
    let d = own_index_seq(tx.cell_deps, tx.script_hash).len();
    match spec_operation(i, o, d) {
        Operation::Create => spec_create(tx),
        Operation::Destroy => StepModel::Exit(spec_destroy(tx, i)),
        Operation::Update => spec_update(tx),
        Operation::Reorg => spec_reorg(tx),
        Operation::Unknown => StepModel::Exit(
            spec_internal_code(InternalError::UnknownOperation),
        ),
    }
}

/// Classify the transaction, pick its operation, and run that operation's
/// checks; zero accepts, any other exit byte rejects, and a delegated step
/// asks the driver to run the one header-chain call still outstanding.
pub fn program_entry(tx: &TxView) -> (r: Step)
    ensures
        r@ == spec_entry(tx@),
{
    let ins = own_indices(&tx.inputs, &tx.script_hash);
    let outs = own_indices(&tx.outputs, &tx.script_hash);
    let deps = own_indices(&tx.cell_deps, &tx.script_hash);
    proof {
        assert(ins@.len() == own_index_seq(tx@.inputs, tx@.script_hash).len());
        assert(outs@.len() == own_index_seq(tx@.outputs, tx@.script_hash).len());
        assert(deps@.len() == own_index_seq(tx@.cell_deps, tx@.script_hash).len());
    }
    match choose_operation(ins.len(), outs.len(), deps.len()) {
        Operation::Create => start_create(tx, &outs),
        Operation::Destroy => Step::Exit(verify_destroy(tx, ins.len())),
        Operation::Update => verify_update(tx, &ins, &outs, &deps),
        Operation::Reorg => verify_reorg(tx, &ins, &outs, &deps),
        Operation::Unknown => Step::Exit(InternalError::UnknownOperation.code()),
    }
}

/// Exit byte once the delegated `verify_new_client` call came back: success
/// accepts the transaction, a failure surfaces the collaborator's ordinal
/// re-based into the delegated range.
pub open spec fn spec_finish_client_verify(outcome: Result<(), u8>) -> i8 {
    match outcome {
        Ok(_) => 0,
        Err(e) => spec_error_code(Error::Update(e)),
    }
}

/// Map the outcome of the delegated `verify_new_client` call to the exit byte.
pub fn finish_client_verify(outcome: &Result<(), u8>) -> (r: i8)
    ensures
        r == spec_finish_client_verify(*outcome),
{
    match outcome {
        Ok(_) => 0,
        Err(e) => delegated_code(*e),
    }
}

} // verus!
