//! The Update verifier.
//!
//! An Update advances the ring one slot: the info cell and the oldest client
//! cell (the slot after the tip) are spent; the info cell comes back with its
//! tip advanced, and the spent slot comes back holding the next checkpoint.
//! The current tip client is exposed read-only through a cell-dep and serves
//! as the verification base; whether the new checkpoint follows from it is
//! delegated, so the verifier ends in [`StepModel::VerifyClient`].

use crate::classify::lemma_own_index_seq;
use crate::classify::own_index_seq;
use crate::codec::args_clients_count;
use crate::codec::args_flags;
use crate::codec::args_ok;
use crate::codec::bytes_eq;
use crate::codec::client_id;
use crate::codec::client_ok;
use crate::codec::client_with_id;
use crate::codec::client_replace_id;
use crate::codec::info_ok;
use crate::codec::info_packed;
use crate::codec::info_tip;
use crate::codec::pack_info;
use crate::codec::read_type_args;
use crate::error::spec_internal_code;
use crate::error::spec_sys_error;
use crate::error::sys_error;
use crate::error::InternalError;
use crate::ring::spec_next_id;
use crate::ring::next_client_id;
use crate::types::spec_witness_at;
use crate::types::Step;
use crate::types::StepModel;
use crate::types::TxModel;
use crate::types::TxView;
use crate::types::VerifyAsk;
use crate::types::VerifyAskModel;
use vstd::prelude::*;

verus! {

/// The Update verifier, up to the delegated `verify_new_client` call.
///
/// The two own-type inputs are disambiguated by trial decode into the info
/// cell and the client about to be overwritten; likewise the two outputs.
/// The output info must equal the input info with its tip advanced one slot;
/// the single own-type cell-dep must hold the current tip client, and becomes
/// the verification base once re-packed with the advanced slot id.
pub open spec fn spec_update(tx: TxModel) -> StepModel {
    let ins = own_index_seq(tx.inputs, tx.script_hash);
    let outs = own_index_seq(tx.outputs, tx.script_hash);
    let deps = own_index_seq(tx.cell_deps, tx.script_hash);
    let d0 = tx.inputs[ins[0]].data;
    let d1 = tx.inputs[ins[1]].data;
    if !info_ok(d0) && !info_ok(d1) {
        StepModel::Exit(spec_internal_code(InternalError::UpdateInputInfoNotFound))
    } else {
        let info_in = if info_ok(d0) {
            d0
        } else {
            d1
        };
        let client_in = if info_ok(d0) {
            d1
        } else {
            d0
        };
        if !client_ok(client_in) {
            StepModel::Exit(spec_internal_code(InternalError::UpdateInputClientNotFound))
        } else if !args_ok(tx.script_args) {
            StepModel::Exit(spec_internal_code(InternalError::Encoding))
        } else {
            let tip = info_tip(info_in);
            let count = args_clients_count(tx.script_args);
            let flags = args_flags(tx.script_args);
            let expected = spec_next_id(tip, count);
            if client_id(client_in) != expected {
                StepModel::Exit(spec_internal_code(InternalError::UpdateInputClientIdIsMismatch))
            } else {
                let o0 = tx.outputs[outs[0]].data;
                let o1 = tx.outputs[outs[1]].data;
                if !info_ok(o0) && !info_ok(o1) {
                    StepModel::Exit(spec_internal_code(InternalError::UpdateOutputInfoNotFound))
                } else {
                    let info_out = if info_ok(o0) {
                        o0
                    } else {
                        o1
                    };
                    let client_out = if info_ok(o0) {
                        o1
                    } else {
                        o0
                    };
                    let info_out_index = if info_ok(o0) {
                        outs[0]
                    } else {
                        outs[1]
                    };
                    if !client_ok(client_out) {
                        StepModel::Exit(
                            spec_internal_code(InternalError::UpdateOutputClientNotFound),
                        )
                    } else if info_out != info_packed(expected) {
                        StepModel::Exit(spec_internal_code(InternalError::UpdateOutputInfoChanged))
                    } else if deps.len() >= 2 {
                        StepModel::Exit(spec_internal_code(InternalError::UpdateCellDepMoreThanOne))
                    } else if deps.len() == 0 {
                        StepModel::Exit(spec_internal_code(InternalError::UpdateCellDepNotFound))
                    } else {
                        let dep = tx.cell_deps[deps[0]].data;
                        if !client_ok(dep) {
                            StepModel::Exit(
                                spec_internal_code(InternalError::UpdateCellDepClientNotFound),
                            )
                        } else if client_id(dep) != tip {
                            StepModel::Exit(
                                spec_internal_code(InternalError::UpdateCellDepClientIdIsMismatch),
                            )
                        } else {
                            match spec_witness_at(tx.witnesses, info_out_index) {
                                Err(c) => StepModel::Exit(spec_internal_code(spec_sys_error(c))),
                                Ok(w) => match w.output_type {
                                    None => StepModel::Exit(
                                        spec_internal_code(InternalError::UpdateWitnessIsNotExisted),
                                    ),
                                    Some(update) => StepModel::VerifyClient(
                                        VerifyAskModel {
                                            base: client_with_id(dep, expected),
                                            next: client_out,
                                            update,
                                            flags,
                                        },
                                    ),
                                },
                            }
                        }
                    }
                }
            }
        }
    }
}

pub fn verify_update(tx: &TxView, ins: &Vec<usize>, outs: &Vec<usize>, deps: &Vec<usize>) -> (r:
    Step)
    requires
        ins@.map_values(|x: usize| x as int) == own_index_seq(tx@.inputs, tx@.script_hash),
        outs@.map_values(|x: usize| x as int) == own_index_seq(tx@.outputs, tx@.script_hash),
        deps@.map_values(|x: usize| x as int) == own_index_seq(tx@.cell_deps, tx@.script_hash),
        ins@.len() == 2,
        outs@.len() == 2,
    ensures
        r@ == spec_update(tx@),
{
    proof {
        lemma_own_index_seq(tx@.inputs, tx@.script_hash);
        lemma_own_index_seq(tx@.outputs, tx@.script_hash);
        lemma_own_index_seq(tx@.cell_deps, tx@.script_hash);
        assert(own_index_seq(tx@.inputs, tx@.script_hash)[0] == ins@[0] as int);
        assert(own_index_seq(tx@.inputs, tx@.script_hash)[1] == ins@[1] as int);
        assert(own_index_seq(tx@.outputs, tx@.script_hash)[0] == outs@[0] as int);
        assert(own_index_seq(tx@.outputs, tx@.script_hash)[1] == outs@[1] as int);
        assert(tx@.inputs[ins@[0] as int] == tx.inputs@[ins@[0] as int]@);
        assert(tx@.inputs[ins@[1] as int] == tx.inputs@[ins@[1] as int]@);
        assert(tx@.outputs[outs@[0] as int] == tx.outputs@[outs@[0] as int]@);
        assert(tx@.outputs[outs@[1] as int] == tx.outputs@[outs@[1] as int]@);
    }
    let d0 = &tx.inputs[ins[0]].data;
    let d1 = &tx.inputs[ins[1]].data;
    let d0_is_info = d0.len() == 1;
    let d1_is_info = d1.len() == 1;
    if !d0_is_info && !d1_is_info {
        return Step::Exit(InternalError::UpdateInputInfoNotFound.code());
    }
    let info_in = if d0_is_info {
        d0
    } else {
        d1
    };
    let client_in = if d0_is_info {
        d1
    } else {
        d0
    };
    if client_in.len() != crate::codec::CLIENT_LEN {
        return Step::Exit(InternalError::UpdateInputClientNotFound.code());
    }
    let args = match read_type_args(&tx.script_args) {
        Some(args) => args,
        None => {
            return Step::Exit(InternalError::Encoding.code());
        },
    };
    let tip = info_in[0];
    let expected = next_client_id(tip, args.clients_count);
    if client_in[0] != expected {
        return Step::Exit(InternalError::UpdateInputClientIdIsMismatch.code());
    }
    let o0 = &tx.outputs[outs[0]].data;
    let o1 = &tx.outputs[outs[1]].data;
    let o0_is_info = o0.len() == 1;
    let o1_is_info = o1.len() == 1;
    if !o0_is_info && !o1_is_info {
        return Step::Exit(InternalError::UpdateOutputInfoNotFound.code());
    }
    let info_out = if o0_is_info {
        o0
    } else {
        o1
    };
    let client_out = if o0_is_info {
        o1
    } else {
        o0
    };
    let info_out_index = if o0_is_info {
        outs[0]
    } else {
        outs[1]
    };
    if client_out.len() != crate::codec::CLIENT_LEN {
        return Step::Exit(InternalError::UpdateOutputClientNotFound.code());
    }
    let expected_info = pack_info(expected);
    if !bytes_eq(info_out, &expected_info) {
        return Step::Exit(InternalError::UpdateOutputInfoChanged.code());
    }
    if deps.len() >= 2 {
        return Step::Exit(InternalError::UpdateCellDepMoreThanOne.code());
    }
    if deps.len() == 0 {
        return Step::Exit(InternalError::UpdateCellDepNotFound.code());
    }
    proof {
        assert(own_index_seq(tx@.cell_deps, tx@.script_hash)[0] == deps@[0] as int);
        assert(tx@.cell_deps[deps@[0] as int] == tx.cell_deps@[deps@[0] as int]@);
    }
    let dep = &tx.cell_deps[deps[0]].data;
    let dep_id = match crate::codec::read_client_id(dep) {
        Some(id) => id,
        None => {
            return Step::Exit(InternalError::UpdateCellDepClientNotFound.code());
        },
    };
    if dep_id != tip {
        return Step::Exit(InternalError::UpdateCellDepClientIdIsMismatch.code());
    }
    let update = match tx.witness_output_type(info_out_index) {
        Err(c) => {
            return Step::Exit(sys_error(c).code());
        },
        Ok(None) => {
            return Step::Exit(InternalError::UpdateWitnessIsNotExisted.code());
        },
        Ok(Some(u)) => u,
    };
    let base = client_replace_id(dep, expected);
    Step::VerifyClient(
        VerifyAsk { base, next: client_out.clone(), update, flags: args.flags },
    )
}

} // verus!
