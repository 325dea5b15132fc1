//! The Create verifier.
//!
//! A Create materializes the whole ring in one transaction: one info cell
//! followed by `clients_count` client cells, contiguous among the outputs.
//! The script's `type_id` argument must be the digest binding the instance to
//! this transaction; the info cell must point at slot zero; and every client
//! cell must equal the bootstrap-derived genesis client, distinguished only
//! by its slot id.  The genesis client itself comes from the delegated
//! bootstrap call, so verification pauses at [`StepModel::InitClient`] and
//! finishes in [`finish_create`].

use crate::classify::lemma_own_index_seq;
use crate::classify::own_index_seq;
use crate::codec::args_clients_count;
use crate::codec::args_ok;
use crate::codec::args_type_id;
use crate::codec::bytes_eq;
use crate::codec::client_ok;
use crate::codec::client_with_id;
use crate::codec::info_ok;
use crate::codec::info_tip;
use crate::codec::read_info;
use crate::codec::read_type_args;
use crate::error::spec_internal_code;
use crate::error::spec_sys_error;
use crate::error::spec_error_code;
use crate::error::sys_error;
use crate::error::delegated_code;
use crate::error::Error;
use crate::error::InternalError;
use crate::hashing::calculate_type_id;
use crate::hashing::spec_type_id;
use crate::types::spec_witness_at;
use crate::types::CreatePending;
use crate::types::CreatePendingModel;
use crate::types::Step;
use crate::types::StepModel;
use crate::types::TxModel;
use crate::types::TxView;
use vstd::prelude::*;

verus! {

/// The indices ascend one by one, with no foreign cell interleaved.
pub open spec fn contiguous(s: Seq<int>) -> bool {
    forall|k: int| 0 <= k && k + 1 < s.len() ==> s[k + 1] == #[trigger] s[k] + 1
}

/// Data of the own-type outputs after the first (the client cells).
pub open spec fn spec_client_outputs(tx: TxModel) -> Seq<Seq<u8>> {
    let outs = own_index_seq(tx.outputs, tx.script_hash);
    outs.subrange(1, outs.len() as int).map_values(|i: int| tx.outputs[i].data)
}

/// First half of a Create: everything up to the delegated bootstrap call.
pub open spec fn spec_create(tx: TxModel) -> StepModel {
    let outs = own_index_seq(tx.outputs, tx.script_hash);
    if outs.len() < 4 {
        StepModel::Exit(spec_internal_code(InternalError::CreateNotEnoughCells))
    } else if !contiguous(outs) {
        StepModel::Exit(spec_internal_code(InternalError::CreateShouldBeOrdered))
    } else if !args_ok(tx.script_args) {
        StepModel::Exit(spec_internal_code(InternalError::Encoding))
    } else if outs.len() != 1 + args_clients_count(tx.script_args) {
        StepModel::Exit(spec_internal_code(InternalError::CreateCellsCountNotMatched))
    } else if tx.first_input is None {
        StepModel::Exit(spec_internal_code(InternalError::IndexOutOfBound))
    } else if args_type_id(tx.script_args) != spec_type_id(
        tx.first_input->Some_0,
        outs.len() as u64,
    ) {
        StepModel::Exit(spec_internal_code(InternalError::CreateIncorrectUniqueId))
    } else if !info_ok(tx.outputs[outs[0]].data) {
        StepModel::Exit(spec_internal_code(InternalError::CreateBadInfoCellData))
    } else if info_tip(tx.outputs[outs[0]].data) != 0 {
        StepModel::Exit(spec_internal_code(InternalError::CreateInfoIndexShouldBeZero))
    } else {
        match spec_witness_at(tx.witnesses, outs[0]) {
            Err(c) => StepModel::Exit(spec_internal_code(spec_sys_error(c))),
            Ok(w) => match w.input_type {
                None => StepModel::Exit(
                    spec_internal_code(InternalError::CreateWitnessIsNotExisted),
                ),
                Some(bootstrap) => StepModel::InitClient {
                    bootstrap,
                    pending: CreatePendingModel { clients: spec_client_outputs(tx) },
                },
            },
        }
    }
}

pub fn start_create(tx: &TxView, outs: &Vec<usize>) -> (r: Step)
    requires
        outs@.map_values(|x: usize| x as int) == own_index_seq(tx@.outputs, tx@.script_hash),
    ensures
        r@ == spec_create(tx@),
{
    let ghost souts = own_index_seq(tx@.outputs, tx@.script_hash);
    proof {
        lemma_own_index_seq(tx@.outputs, tx@.script_hash);
        assert forall|k: int| 0 <= k < souts.len() implies #[trigger] souts[k] == outs@[k]
            as int by {
            assert(souts[k] == outs@.map_values(|x: usize| x as int)[k]);
        }
    }
    if outs.len() < 4 {
        return Step::Exit(InternalError::CreateNotEnoughCells.code());
    }
    let n = outs.len();
    for k in 0..n - 1
        invariant
            n == outs@.len(),
            n >= 4,
            souts == own_index_seq(tx@.outputs, tx@.script_hash),
            souts.len() == n,
            forall|j: int| 0 <= j < souts.len() ==> #[trigger] souts[j] == outs@[j] as int,
            forall|j: int| 0 <= j < souts.len() ==> 0 <= #[trigger] souts[j] < tx@.outputs.len(),
            forall|j: int| 0 <= j && j + 1 <= k ==> souts[j + 1] == #[trigger] souts[j] + 1,
    {
        let lo = outs[k];
        let hi = outs[k + 1];
        if !(lo < hi && hi - lo == 1) {
            proof {
                assert(souts[k + 1] != souts[k as int] + 1);
            }
            return Step::Exit(InternalError::CreateShouldBeOrdered.code());
        }
        assert(souts[k + 1] == souts[k as int] + 1);
    }
    assert(contiguous(souts));
    let args = match read_type_args(&tx.script_args) {
        Some(args) => args,
        None => {
            return Step::Exit(InternalError::Encoding.code());
        },
    };
    let cells_count: usize = 1 + args.clients_count as usize;
    if n != cells_count {
        return Step::Exit(InternalError::CreateCellsCountNotMatched.code());
    }
    let first_input = match &tx.first_input {
        Some(b) => b,
        None => {
            return Step::Exit(InternalError::IndexOutOfBound.code());
        },
    };
    let type_id = calculate_type_id(first_input, n as u64);
    if !bytes_eq(&type_id, &args.type_id) {
        return Step::Exit(InternalError::CreateIncorrectUniqueId.code());
    }
    proof {
        lemma_own_index_seq(tx@.outputs, tx@.script_hash);
        assert(souts[0] < tx@.outputs.len());
        assert(tx@.outputs[souts[0]] == tx.outputs@[souts[0]]@);
    }
    let info_index = outs[0];
    let tip = match read_info(&tx.outputs[info_index].data) {
        Some(tip) => tip,
        None => {
            return Step::Exit(InternalError::CreateBadInfoCellData.code());
        },
    };
    if tip != 0 {
        return Step::Exit(InternalError::CreateInfoIndexShouldBeZero.code());
    }
    let bootstrap = match tx.witness_input_type(info_index) {
        Err(c) => {
            return Step::Exit(sys_error(c).code());
        },
        Ok(None) => {
            return Step::Exit(InternalError::CreateWitnessIsNotExisted.code());
        },
        Ok(Some(b)) => b,
    };
    let mut clients: Vec<Vec<u8>> = Vec::new();
    for k in 1..n
        invariant
            n == outs@.len(),
            souts == own_index_seq(tx@.outputs, tx@.script_hash),
            souts.len() == n,
            forall|j: int| 0 <= j < souts.len() ==> #[trigger] souts[j] == outs@[j] as int,
            forall|j: int| 0 <= j < souts.len() ==> 0 <= #[trigger] souts[j] < tx@.outputs.len(),
            clients@.len() == k - 1,
            forall|j: int|
                0 <= j < k - 1 ==> #[trigger] clients@[j]@ == tx@.outputs[souts[j + 1]].data,
    {
        proof {
            assert(tx@.outputs[souts[k as int]] == tx.outputs@[souts[k as int]]@);
        }
        clients.push(tx.outputs[outs[k]].data.clone());
    }
    proof {
        let expected = spec_client_outputs(tx@);
        assert(expected.len() == n - 1);
        assert forall|j: int| 0 <= j < n - 1 implies clients@.map_values(|v: Vec<u8>| v@)[j]
            == expected[j] by {
            assert(souts.subrange(1, souts.len() as int)[j] == souts[j + 1]);
            assert(clients@[j]@ == tx@.outputs[souts[j + 1]].data);
        }
        assert(clients@.map_values(|v: Vec<u8>| v@) =~= expected);
    }
    Step::InitClient { bootstrap, pending: CreatePending { clients } }
}

/// Verdict over the client outputs once the genesis client is known:
/// starting at slot `k`, each remaining output must frame as a client and
/// equal the genesis client re-packed with its slot.
pub open spec fn spec_check_clients(clients: Seq<Seq<u8>>, genesis: Seq<u8>, k: int) -> i8
    decreases clients.len() - k,
{
    if k < 0 || k >= clients.len() {
        0
    } else if !client_ok(clients[k]) {
        spec_internal_code(InternalError::CreateBadClientCellData)
    } else if clients[k] != client_with_id(genesis, (k % 256) as u8) {
        spec_internal_code(InternalError::CreateNewClientIsIncorrect)
    } else {
        spec_check_clients(clients, genesis, k + 1)
    }
}

/// Verdict of a Create once the delegated bootstrap call came back.
pub open spec fn spec_finish_create(p: CreatePendingModel, outcome: Result<Seq<u8>, u8>) -> i8 {
    match outcome {
        Err(e) => spec_error_code(Error::Bootstrap(e)),
        Ok(genesis) => {
            if !client_ok(genesis) {
                spec_internal_code(InternalError::Unknown)
            } else {
                spec_check_clients(p.clients, genesis, 0)
            }
        },
    }
}

/// Finish a Create with the outcome of the delegated bootstrap call: `Ok`
/// carries the packed genesis client, `Err` the collaborator's error ordinal.
pub fn finish_create(pending: &CreatePending, outcome: &Result<Vec<u8>, u8>) -> (r: i8)
    ensures
        r == spec_finish_create(
            pending@,
            match outcome {
                Ok(g) => Ok::<Seq<u8>, u8>(g@),
                Err(e) => Err(*e),
            },
        ),
{
    let genesis = match outcome {
        Err(e) => {
            return delegated_code(*e);
        },
        Ok(g) => g,
    };
    if genesis.len() != crate::codec::CLIENT_LEN {
        return InternalError::Unknown.code();
    }
    assert(client_ok(genesis@));
    let ghost cs = pending@.clients;
    let n = pending.clients.len();
    for k in 0..n
        invariant
            n == pending.clients@.len(),
            cs == pending@.clients,
            cs.len() == n,
            client_ok(genesis@),
            outcome matches Ok(g) && g@ == genesis@,
            spec_check_clients(cs, genesis@, 0) == spec_check_clients(cs, genesis@, k as int),
    {
        proof {
            assert(cs[k as int] == pending.clients@[k as int]@);
        }
        let expected_id: u8 = (k % 256) as u8;
        let data = &pending.clients[k];
        if data.len() != crate::codec::CLIENT_LEN {
            assert(!client_ok(cs[k as int]));
            assert(spec_check_clients(cs, genesis@, k as int) == spec_internal_code(
                InternalError::CreateBadClientCellData,
            ));
            return InternalError::CreateBadClientCellData.code();
        }
        let expected = crate::codec::client_replace_id(genesis, expected_id);
        if !bytes_eq(data, &expected) {
            assert(cs[k as int] != client_with_id(genesis@, (k as int % 256) as u8));
            assert(spec_check_clients(cs, genesis@, k as int) == spec_internal_code(
                InternalError::CreateNewClientIsIncorrect,
            ));
            return InternalError::CreateNewClientIsIncorrect.code();
        }
        assert(cs[k as int] == client_with_id(genesis@, (k as int % 256) as u8));
        assert(spec_check_clients(cs, genesis@, k as int) == spec_check_clients(
            cs,
            genesis@,
            k + 1,
        ));
    }
    assert(spec_check_clients(cs, genesis@, n as int) == 0);
    0
}

} // verus!
