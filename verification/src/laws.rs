//! Laws of the verifier, stated over the specification of each operation.
//!
//! Each proof function here is a statement about every transaction the
//! verifier accepts, not about chosen values; the operation dispatcher's own
//! law, that at most one operation fits a transaction's shape, stands in
//! [`crate::dispatch::lemma_dispatch_exclusive`].

use crate::classify::own_index_seq;
use crate::codec::args_clients_count;
use crate::codec::args_flags;
use crate::codec::args_type_id;
use crate::codec::client_id;
use crate::codec::client_ok;
use crate::codec::client_with_id;
use crate::codec::client_work;
use crate::codec::info_ok;
use crate::codec::info_packed;
use crate::codec::info_tip;
use crate::codec::is_testnet;
use crate::codec::le_value;
use crate::codec::u64_le_bytes;
use crate::create::spec_check_clients;
use crate::create::spec_client_outputs;
use crate::create::spec_create;
use crate::create::spec_finish_create;
use crate::error::InternalError;
use crate::hashing::blake2b_of;
use crate::reorg::find_tip_client;
use crate::reorg::lemma_client_ids_at_swap;
use crate::reorg::lemma_scan_outputs_all_pass;
use crate::reorg::lemma_scan_outputs_products;
use crate::reorg::lemma_scan_outputs_shape;
use crate::reorg::lemma_scan_outputs_template;
use crate::reorg::own_input_datas;
use crate::reorg::scan_inputs;
use crate::reorg::scan_outputs;
use crate::reorg::spec_reorg;
use crate::ring::spec_next_id;
use crate::ring::spec_prev_iter;
use crate::types::CreatePendingModel;
use crate::types::StepModel;
use crate::types::TxModel;
use crate::update::spec_update;
use vstd::prelude::*;

verus! {

/// Helper for the create law: from slot `k` on, a zero verdict means every
/// remaining client output equals the genesis client re-packed with its slot.
proof fn lemma_check_clients_accepted(clients: Seq<Seq<u8>>, genesis: Seq<u8>, k: int)
    requires
        0 <= k <= clients.len(),
        spec_check_clients(clients, genesis, k) == 0,
    ensures
        forall|j: int|
            k <= j < clients.len() ==> client_ok(#[trigger] clients[j]) && clients[j]
                == client_with_id(genesis, (j % 256) as u8),
    decreases clients.len() - k,
{
    if k < clients.len() {
        lemma_check_clients_accepted(clients, genesis, k + 1);
    }
}

/// Ring identity at creation: an accepted Create materializes client cells
/// whose slot ids are exactly `0, 1, …, clients_count − 1`, in output order.
pub proof fn law_create_ring(
    tx: TxModel,
    bootstrap: Seq<u8>,
    pending: CreatePendingModel,
    genesis: Seq<u8>,
)
    requires
        spec_create(tx) == (StepModel::InitClient { bootstrap, pending }),
        spec_finish_create(pending, Ok(genesis)) == 0,
    ensures
        pending.clients.len() == args_clients_count(tx.script_args),
        forall|k: int|
            0 <= k < pending.clients.len() ==> client_ok(#[trigger] pending.clients[k])
                && client_id(pending.clients[k]) == k as u8,
{
    let outs = own_index_seq(tx.outputs, tx.script_hash);
    assert(pending.clients == spec_client_outputs(tx));
    assert(pending.clients.len() == outs.len() - 1);
    assert(client_ok(genesis));
    lemma_check_clients_accepted(pending.clients, genesis, 0);
    assert forall|k: int| 0 <= k < pending.clients.len() implies client_ok(
        #[trigger] pending.clients[k],
    ) && client_id(pending.clients[k]) == k as u8 by {
        assert(pending.clients[k] == client_with_id(genesis, (k % 256) as u8));
        assert(k % 256 == k);
        assert(client_id(client_with_id(genesis, (k % 256) as u8)) == (k % 256) as u8);
    }
}

/// Type-id binding: a Create that passes its structural checks carries as
/// `type_id` the digest of the serialized first input followed by the
/// little-endian count of own-type outputs, `1 + clients_count`.
pub proof fn law_create_type_id(tx: TxModel)
    requires
        spec_create(tx) is InitClient,
    ensures
        tx.first_input is Some,
        args_type_id(tx.script_args) == blake2b_of(
            tx.first_input->Some_0 + u64_le_bytes(
                (1 + args_clients_count(tx.script_args)) as u64,
            ),
        ),
{
    let outs = own_index_seq(tx.outputs, tx.script_hash);
    assert(outs.len() == 1 + args_clients_count(tx.script_args));
}

/// Monotone tip: an accepted Update advances the info cell's tip exactly one
/// slot forward, and spends the client sitting in that slot.
pub proof fn law_update_monotone_tip(tx: TxModel)
    requires
        spec_update(tx) is VerifyClient,
    ensures
        ({
            let ins = own_index_seq(tx.inputs, tx.script_hash);
            let outs = own_index_seq(tx.outputs, tx.script_hash);
            let d0 = tx.inputs[ins[0]].data;
            let d1 = tx.inputs[ins[1]].data;
            let info_in = if info_ok(d0) {
                d0
            } else {
                d1
            };
            let client_in = if info_ok(d0) {
                d1
            } else {
                d0
            };
            let o0 = tx.outputs[outs[0]].data;
            let o1 = tx.outputs[outs[1]].data;
            let info_out = if info_ok(o0) {
                o0
            } else {
                o1
            };
            let advanced = spec_next_id(info_tip(info_in), args_clients_count(tx.script_args));
            &&& info_ok(info_out)
            &&& info_tip(info_out) == advanced
            &&& client_id(client_in) == advanced
        }),
{
}

/// The verification base an accepted Update hands to the delegated check
/// occupies the advanced slot: the slot the new checkpoint will fill.
pub proof fn law_update_base_slot(tx: TxModel, ask: crate::types::VerifyAskModel)
    requires
        spec_update(tx) == StepModel::VerifyClient(ask),
    ensures
        ({
            let ins = own_index_seq(tx.inputs, tx.script_hash);
            let d0 = tx.inputs[ins[0]].data;
            let d1 = tx.inputs[ins[1]].data;
            let info_in = if info_ok(d0) {
                d0
            } else {
                d1
            };
            client_id(ask.base) == spec_next_id(
                info_tip(info_in),
                args_clients_count(tx.script_args),
            )
        }),
{
}

/// Deepest slot wins: an accepted Reorg of depth `n` moves the info cell's
/// tip to the slot `n − 1` steps behind the stale tip, and the candidate tip
/// client it hands to the delegated check occupies that same slot.
pub proof fn law_reorg_deepest_slot(tx: TxModel, ask: crate::types::VerifyAskModel)
    requires
        spec_reorg(tx) == StepModel::VerifyClient(ask),
    ensures
        ({
            let scan = scan_inputs(own_input_datas(tx));
            let tip = scan.tip->Some_0;
            let count = args_clients_count(tx.script_args);
            let n = scan.clients.len();
            let new_tip = spec_prev_iter(tip, (n - 1) as nat, count);
            let oscan = scan_outputs(
                own_index_seq(tx.outputs, tx.script_hash),
                tx.outputs,
                info_packed(new_tip),
                new_tip,
            );
            &&& oscan.info_index matches Some(i) && tx.outputs[i].data == info_packed(new_tip)
                && info_tip(tx.outputs[i].data) == new_tip
            &&& client_ok(ask.next) && client_id(ask.next) == new_tip
        }),
{
    let scan = scan_inputs(own_input_datas(tx));
    let tip = scan.tip->Some_0;
    let count = args_clients_count(tx.script_args);
    let n = scan.clients.len();
    let new_tip = spec_prev_iter(tip, (n - 1) as nat, count);
    lemma_scan_outputs_products(
        own_index_seq(tx.outputs, tx.script_hash),
        tx.outputs,
        info_packed(new_tip),
        new_tip,
    );
}

/// Work progress: outside testnet, an accepted Reorg replaces the stale tip
/// by a candidate carrying strictly more accumulated chain work.
pub proof fn law_reorg_work_progress(tx: TxModel, ask: crate::types::VerifyAskModel)
    requires
        spec_reorg(tx) == StepModel::VerifyClient(ask),
        !is_testnet(args_flags(tx.script_args)),
    ensures
        ({
            let scan = scan_inputs(own_input_datas(tx));
            let stale = find_tip_client(scan.clients, scan.tip->Some_0);
            stale matches Some(c) && le_value(client_work(ask.next)) > le_value(client_work(c))
        }),
{
}

/// Ring identity under reorg: an accepted Reorg re-produces exactly the
/// multiset of slot ids it spends, so the live ring keeps its slot set.
pub proof fn law_reorg_ring(tx: TxModel)
    requires
        spec_reorg(tx) is VerifyClient,
    ensures
        ({
            let scan = scan_inputs(own_input_datas(tx));
            let tip = scan.tip->Some_0;
            let count = args_clients_count(tx.script_args);
            let n = scan.clients.len();
            let new_tip = spec_prev_iter(tip, (n - 1) as nat, count);
            let oscan = scan_outputs(
                own_index_seq(tx.outputs, tx.script_hash),
                tx.outputs,
                info_packed(new_tip),
                new_tip,
            );
            oscan.ids.to_multiset() == scan.clients.map_values(
                |d: Seq<u8>| client_id(d),
            ).to_multiset()
        }),
{
}

/// The second transaction equals the first, except that the data of two
/// own-type client outputs changed places; everything else — the info output,
/// the witnesses, every input and cell-dep — stays put.
pub open spec fn swapped_client_outputs(tx1: TxModel, tx2: TxModel, p: int, q: int) -> bool {
    let outs = own_index_seq(tx1.outputs, tx1.script_hash);
    &&& tx2.script_hash == tx1.script_hash
    &&& tx2.script_args == tx1.script_args
    &&& tx2.first_input == tx1.first_input
    &&& tx2.inputs == tx1.inputs
    &&& tx2.cell_deps == tx1.cell_deps
    &&& tx2.witnesses == tx1.witnesses
    &&& tx2.outputs.len() == tx1.outputs.len()
    &&& 0 <= p < outs.len()
    &&& 0 <= q < outs.len()
    &&& p != q
    &&& client_ok(tx1.outputs[outs[p]].data)
    &&& client_ok(tx1.outputs[outs[q]].data)
    &&& forall|j: int|
        0 <= j < tx1.outputs.len() && j != outs[p] && j != outs[q]
            ==> #[trigger] tx2.outputs[j] == tx1.outputs[j]
    &&& tx2.outputs[outs[p]].type_hash == tx1.outputs[outs[p]].type_hash
    &&& tx2.outputs[outs[q]].type_hash == tx1.outputs[outs[q]].type_hash
    &&& tx2.outputs[outs[p]].data == tx1.outputs[outs[q]].data
    &&& tx2.outputs[outs[q]].data == tx1.outputs[outs[p]].data
}

/// Idempotent classification: reordering the own-type client outputs of an
/// accepted Reorg changes nothing — the transaction is accepted up to the
/// same delegated check, so the final verdict is identical.  Swaps generate
/// every permutation, and the swap relation is its own inverse, so the
/// acceptance of either transaction carries over to the other; only the
/// byte reported for a transaction both reject may depend on the order, since
/// rejection names the first failure the scan meets.
pub proof fn law_reorg_output_order(tx1: TxModel, tx2: TxModel, p: int, q: int)
    requires
        swapped_client_outputs(tx1, tx2, p, q),
        spec_reorg(tx1) is VerifyClient,
    ensures
        spec_reorg(tx2) == spec_reorg(tx1),
{
    let h = tx1.script_hash;
    let outs = own_index_seq(tx1.outputs, h);
    let o1 = tx1.outputs;
    let o2 = tx2.outputs;
    crate::classify::lemma_own_index_seq(o1, h);
    assert forall|j: int| 0 <= j < o1.len() implies #[trigger] o2[j].type_hash
        == o1[j].type_hash by {
        if j != outs[p] && j != outs[q] {
            assert(o2[j] == o1[j]);
        }
    }
    crate::classify::lemma_own_index_seq_same(o1, o2, h);
    assert(own_index_seq(tx2.outputs, tx2.script_hash) == outs);
    // The input side reads nothing the swap touches.
    assert(own_input_datas(tx2) =~~= own_input_datas(tx1));
    let scan = scan_inputs(own_input_datas(tx1));
    let tip = scan.tip->Some_0;
    let count = args_clients_count(tx1.script_args);
    let n = scan.clients.len();
    let new_tip = spec_prev_iter(tip, (n - 1) as nat, count);
    let e = info_packed(new_tip);
    let s1 = scan_outputs(outs, o1, e, new_tip);
    assert(s1.err is None && s1.info_index is Some && s1.tip_data is Some);
    lemma_scan_outputs_shape(outs, o1, e, new_tip);
    lemma_scan_outputs_template(outs, o1, e, new_tip);
    assert(s1.template is Some);
    assert forall|k1: int, k2: int|
        0 <= k1 < outs.len() && 0 <= k2 < outs.len() && client_ok(#[trigger] o1[outs[k1]].data)
            && client_ok(#[trigger] o1[outs[k2]].data) implies o1[outs[k2]].data == client_with_id(
        o1[outs[k1]].data,
        client_id(o1[outs[k2]].data),
    ) by {
        let t = s1.template->Some_0;
        assert(o1[outs[k1]].data == client_with_id(t, client_id(o1[outs[k1]].data)));
        assert(o1[outs[k2]].data == client_with_id(t, client_id(o1[outs[k2]].data)));
        assert(client_with_id(o1[outs[k1]].data, client_id(o1[outs[k2]].data)) =~= client_with_id(
            t,
            client_id(o1[outs[k2]].data),
        ));
    }
    // How the swap re-reads the outputs, position by position.
    assert(o2[outs[p]].data == o1[outs[q]].data && o2[outs[q]].data == o1[outs[p]].data);
    assert forall|k: int| 0 <= k < outs.len() && k != p && k != q implies #[trigger] o2[
        outs[k]
    ].data == o1[outs[k]].data by {
        assert(outs[k] != outs[p] && outs[k] != outs[q]);
        assert(o2[outs[k]] == o1[outs[k]]);
    }
    // The shape the accepting scan guarantees carries over to the swapped
    // outputs: same classification per position, same single info cell, and
    // the same pairwise body agreement among the clients.
    assert forall|k: int| 0 <= k < outs.len() implies client_ok(#[trigger] o2[outs[k]].data) || (
    info_ok(o2[outs[k]].data) && o2[outs[k]].data == e) by {
        if k == p || k == q {
        } else {
            assert(o2[outs[k]].data == o1[outs[k]].data);
        }
    }
    assert forall|k1: int, k2: int| 0 <= k1 < k2 < outs.len() implies !(info_ok(
        #[trigger] o2[outs[k1]].data,
    ) && info_ok(#[trigger] o2[outs[k2]].data)) by {
        assert(client_ok(o2[outs[p]].data) && client_ok(o2[outs[q]].data));
        if k1 != p && k1 != q && k2 != p && k2 != q {
            assert(o2[outs[k1]].data == o1[outs[k1]].data);
            assert(o2[outs[k2]].data == o1[outs[k2]].data);
        }
    }
    assert forall|k1: int, k2: int|
        0 <= k1 < outs.len() && 0 <= k2 < outs.len() && client_ok(#[trigger] o2[outs[k1]].data)
            && client_ok(#[trigger] o2[outs[k2]].data) implies o2[outs[k2]].data == client_with_id(
        o2[outs[k1]].data,
        client_id(o2[outs[k2]].data),
    ) by {
        let m1: int = if k1 == p { q } else if k1 == q { p } else { k1 };
        let m2: int = if k2 == p { q } else if k2 == q { p } else { k2 };
        assert(o2[outs[k1]].data == o1[outs[m1]].data);
        assert(o2[outs[k2]].data == o1[outs[m2]].data);
        assert(o1[outs[m2]].data == client_with_id(o1[outs[m1]].data, client_id(o1[outs[m2]].data)));
    }
    lemma_scan_outputs_all_pass(outs, o2, e, new_tip);
    let s2 = scan_outputs(outs, o2, e, new_tip);
    lemma_scan_outputs_shape(outs, o2, e, new_tip);
    // Same info cell recorded.
    let k0 = choose|k: int|
        0 <= k < outs.len() && info_ok(#[trigger] o1[outs[k]].data) && outs[k]
            == s1.info_index->Some_0;
    assert(info_ok(o2[outs[k0]].data));
    assert(s2.info_index == Some(outs[k0]) && s1.info_index == Some(outs[k0]));
    // Same tip client captured.
    let k1 = choose|k: int|
        0 <= k < outs.len() && client_ok(#[trigger] o1[outs[k]].data) && client_id(
            o1[outs[k]].data,
        ) == new_tip && o1[outs[k]].data == s1.tip_data->Some_0;
    let k1s: int = if k1 == p { q } else if k1 == q { p } else { k1 };
    assert(o2[outs[k1s]].data == o1[outs[k1]].data);
    assert(s2.tip_data == Some(o1[outs[k1]].data) && s1.tip_data == Some(o1[outs[k1]].data));
    // Same slot-id multiset collected.
    assert forall|j1: int, j2: int| 0 <= j1 < j2 < outs.len() implies #[trigger] outs[j1]
        != #[trigger] outs[j2] by {
        assert(outs[j1] < outs[j2]);
    }
    lemma_client_ids_at_swap(outs, o1, o2, p, q);
    assert(s2.ids.to_multiset() == s1.ids.to_multiset());
    // Everything after the output scan reads parts the swap leaves alone.
    assert(own_index_seq(tx2.cell_deps, tx2.script_hash) == own_index_seq(
        tx1.cell_deps,
        tx1.script_hash,
    ));
    assert(spec_reorg(tx2) == spec_reorg(tx1));
}

/// Classification does not depend on output order, in the following sense:
/// in an accepted Reorg the produced clients all share one body, so which
/// client stands at which output position carries no information beyond the
/// assignment of slot ids — any two produced clients differ at most in their
/// id byte, and two with the same id are equal.
pub proof fn law_reorg_clients_uniform(tx: TxModel)
    requires
        spec_reorg(tx) is VerifyClient,
    ensures
        ({
            let scan = scan_inputs(own_input_datas(tx));
            let tip = scan.tip->Some_0;
            let count = args_clients_count(tx.script_args);
            let n = scan.clients.len();
            let new_tip = spec_prev_iter(tip, (n - 1) as nat, count);
            let outs = own_index_seq(tx.outputs, tx.script_hash);
            forall|p: int, q: int|
                0 <= p < outs.len() && 0 <= q < outs.len() && client_ok(
                    #[trigger] tx.outputs[outs[p]].data,
                ) && client_ok(#[trigger] tx.outputs[outs[q]].data) ==> tx.outputs[outs[q]].data
                    == client_with_id(
                    tx.outputs[outs[p]].data,
                    client_id(tx.outputs[outs[q]].data),
                )
        }),
{
    let scan = scan_inputs(own_input_datas(tx));
    let tip = scan.tip->Some_0;
    let count = args_clients_count(tx.script_args);
    let n = scan.clients.len();
    let new_tip = spec_prev_iter(tip, (n - 1) as nat, count);
    let outs = own_index_seq(tx.outputs, tx.script_hash);
    let oscan = scan_outputs(outs, tx.outputs, info_packed(new_tip), new_tip);
    lemma_scan_outputs_template(outs, tx.outputs, info_packed(new_tip), new_tip);
    assert forall|p: int, q: int|
        0 <= p < outs.len() && 0 <= q < outs.len() && client_ok(
            #[trigger] tx.outputs[outs[p]].data,
        ) && client_ok(#[trigger] tx.outputs[outs[q]].data) implies tx.outputs[outs[q]].data
        == client_with_id(tx.outputs[outs[p]].data, client_id(tx.outputs[outs[q]].data)) by {
        let t = oscan.template->Some_0;
        let dp = tx.outputs[outs[p]].data;
        let dq = tx.outputs[outs[q]].data;
        assert(dp == client_with_id(t, client_id(dp)));
        assert(dq == client_with_id(t, client_id(dq)));
        assert(client_with_id(dp, client_id(dq)) =~= client_with_id(t, client_id(dq)));
    }
}

} // verus!
