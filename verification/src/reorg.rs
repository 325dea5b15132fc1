//! The Reorg verifier.
//!
//! A Reorg rolls back the newest `n` checkpoints (`2 <= n`) and replaces them
//! by a fresh suffix rooted at a common ancestor: the spent client slots must
//! be exactly the `n` slots walking backwards from the tip; the produced
//! clients must share one body, differing only in their slot ids, over the
//! same slot set; the deepest replaced slot becomes the new tip.  On the main
//! chain the replacement must carry strictly more accumulated work.  The
//! ancestor client is exposed through a cell-dep and, re-packed with the new
//! tip slot, becomes the verification base of the delegated check.

use crate::classify::lemma_own_index_seq;
use crate::classify::own_index_seq;
use crate::codec::args_clients_count;
use crate::codec::args_flags;
use crate::codec::args_ok;
use crate::codec::bytes_eq;
use crate::codec::client_id;
use crate::codec::client_ok;
use crate::codec::client_replace_id;
use crate::codec::client_with_id;
use crate::codec::client_work;
use crate::codec::client_work_of;
use crate::codec::info_ok;
use crate::codec::info_packed;
use crate::codec::info_tip;
use crate::codec::is_testnet;
use crate::codec::le_bytes_lt;
use crate::codec::le_value;
use crate::codec::pack_info;
use crate::codec::read_type_args;
use crate::error::spec_internal_code;
use crate::error::spec_sys_error;
use crate::error::sys_error;
use crate::error::InternalError;
use crate::ring::spec_prev_id;
use crate::ring::spec_prev_iter;
use crate::ring::prev_client_id;
use crate::types::spec_witness_at;
use crate::types::CellModel;
use crate::types::Step;
use crate::types::StepModel;
use crate::types::TxModel;
use crate::types::TxView;
use crate::types::VerifyAsk;
use crate::types::VerifyAskModel;
use vstd::prelude::*;
use vstd::relations::sorted_by;
use vstd::relations::total_ordering;
use vstd::seq_lib::lemma_sorted_unique;
use vstd::seq_lib::group_to_multiset_ensures;

verus! {

// --- scanning the own-type inputs ---

/// Outcome of walking the own-type input cells in transaction order.
pub struct InputScan {
    /// First classification failure, if any.
    pub err: Option<InternalError>,
    /// Tip slot of the single info cell, once seen.
    pub tip: Option<u8>,
    /// Data of the client cells, in scan order.
    pub clients: Seq<Seq<u8>>,
}

/// Classify the own-type input data in order; the first failure wins.
pub open spec fn scan_inputs(datas: Seq<Seq<u8>>) -> InputScan
    decreases datas.len(),
{
    if datas.len() == 0 {
        InputScan { err: None, tip: None, clients: seq![] }
    } else {
        let prev = scan_inputs(datas.drop_last());
        let d = datas.last();
        if prev.err is Some {
            prev
        } else if info_ok(d) {
            if prev.tip is Some {
                InputScan {
                    err: Some(InternalError::ReorgInputInfoDuplicated),
                    tip: prev.tip,
                    clients: prev.clients,
                }
            } else {
                InputScan { err: None, tip: Some(info_tip(d)), clients: prev.clients }
            }
        } else if client_ok(d) {
            InputScan { err: None, tip: prev.tip, clients: prev.clients.push(d) }
        } else {
            InputScan {
                err: Some(InternalError::ReorgInputMalformed),
                tip: prev.tip,
                clients: prev.clients,
            }
        }
    }
}

/// Once a prefix fails, the whole scan fails the same way.
proof fn lemma_scan_inputs_err_persists(datas: Seq<Seq<u8>>, k: int)
    requires
        0 <= k <= datas.len(),
        scan_inputs(datas.take(k)).err is Some,
    ensures
        scan_inputs(datas).err == scan_inputs(datas.take(k)).err,
    decreases datas.len() - k,
{
    if k == datas.len() {
        assert(datas.take(k) =~= datas);
    } else {
        assert(datas.take(k + 1).drop_last() =~= datas.take(k));
        lemma_scan_inputs_err_persists(datas, k + 1);
    }
}

/// Data of the own-type input cells, in transaction order.
pub open spec fn own_input_datas(tx: TxModel) -> Seq<Seq<u8>> {
    own_index_seq(tx.inputs, tx.script_hash).map_values(|i: int| tx.inputs[i].data)
}

/// First spent client holding the given slot.
pub open spec fn find_tip_client(clients: Seq<Seq<u8>>, tip: u8) -> Option<Seq<u8>>
    decreases clients.len(),
{
    if clients.len() == 0 {
        None
    } else if client_id(clients.first()) == tip {
        Some(clients.first())
    } else {
        find_tip_client(clients.drop_first(), tip)
    }
}

// --- the expected slot walk ---

/// The `n` slots walking backwards from `tip`: the slots a Reorg of depth `n`
/// must spend and re-produce.
pub open spec fn walk_back(tip: u8, n: nat, count: u8) -> Seq<u8>
    decreases n,
{
    if n == 0 {
        seq![]
    } else {
        seq![tip] + walk_back(spec_prev_id(tip, count), (n - 1) as nat, count)
    }
}

/// Stepping before walking equals walking one step further.
proof fn lemma_prev_iter_step(tip: u8, n: nat, count: u8)
    ensures
        spec_prev_iter(spec_prev_id(tip, count), n, count) == spec_prev_iter(
            tip,
            n + 1,
            count,
        ),
    decreases n,
{
    let prev = spec_prev_id(tip, count);
    if n == 0 {
        assert(spec_prev_iter(tip, 1, count) == spec_prev_id(spec_prev_iter(tip, 0, count), count));
    } else {
        lemma_prev_iter_step(tip, (n - 1) as nat, count);
        assert(spec_prev_iter(prev, n, count) == spec_prev_id(
            spec_prev_iter(prev, (n - 1) as nat, count),
            count,
        ));
        assert(spec_prev_iter(tip, n + 1, count) == spec_prev_id(
            spec_prev_iter(tip, n, count),
            count,
        ));
    }
}

/// The walk names slot `k` of the backward iteration, for every position.
pub proof fn lemma_walk_back(tip: u8, n: nat, count: u8)
    ensures
        walk_back(tip, n, count).len() == n,
        forall|k: int|
            0 <= k < n ==> walk_back(tip, n, count)[k] == spec_prev_iter(tip, k as nat, count),
    decreases n,
{
    if n > 0 {
        let prev = spec_prev_id(tip, count);
        lemma_walk_back(prev, (n - 1) as nat, count);
        assert forall|k: int| 0 <= k < n implies walk_back(tip, n, count)[k] == spec_prev_iter(
            tip,
            k as nat,
            count,
        ) by {
            if k > 0 {
                assert(walk_back(tip, n, count)[k] == walk_back(prev, (n - 1) as nat, count)[k
                    - 1]);
                lemma_prev_iter_step(tip, (k - 1) as nat, count);
            }
        }
    }
}

// --- scanning the own-type outputs ---

/// Outcome of walking the own-type output cells in transaction order.
pub struct OutputScan {
    /// First classification or comparison failure, if any.
    pub err: Option<InternalError>,
    /// Transaction index of the single info cell, once seen.
    pub info_index: Option<int>,
    /// Data of the first client cell: the body every other client must share.
    pub template: Option<Seq<u8>>,
    /// Data of the client holding the new tip slot (the last one, where the
    /// slot repeats).
    pub tip_data: Option<Seq<u8>>,
    /// Slot ids of the client cells, in scan order.
    pub ids: Seq<u8>,
}

/// Classify and check the own-type output cells in order; the first failure
/// wins.  `expected_info` is the packed info the output info cell must equal;
/// `new_tip` the slot whose client becomes the new tip.
pub open spec fn scan_outputs(
    idxs: Seq<int>,
    outputs: Seq<CellModel>,
    expected_info: Seq<u8>,
    new_tip: u8,
) -> OutputScan
    decreases idxs.len(),
{
    if idxs.len() == 0 {
        OutputScan { err: None, info_index: None, template: None, tip_data: None, ids: seq![] }
    } else {
        let prev = scan_outputs(idxs.drop_last(), outputs, expected_info, new_tip);
        let i = idxs.last();
        let d = outputs[i].data;
        if prev.err is Some {
            prev
        } else if client_ok(d) {
            let id = client_id(d);
            let template_mismatch = match prev.template {
                Some(t) => d != client_with_id(t, id),
                None => false,
            };
            if template_mismatch {
                OutputScan {
                    err: Some(InternalError::ReorgNewClientIsIncorrect),
                    info_index: prev.info_index,
                    template: prev.template,
                    tip_data: prev.tip_data,
                    ids: prev.ids,
                }
            } else {
                OutputScan {
                    err: None,
                    info_index: prev.info_index,
                    template: if prev.template is Some {
                        prev.template
                    } else {
                        Some(d)
                    },
                    tip_data: if id == new_tip {
                        Some(d)
                    } else {
                        prev.tip_data
                    },
                    ids: prev.ids.push(id),
                }
            }
        } else if info_ok(d) {
            if prev.info_index is Some {
                OutputScan {
                    err: Some(InternalError::ReorgOutputInfoDuplicated),
                    info_index: prev.info_index,
                    template: prev.template,
                    tip_data: prev.tip_data,
                    ids: prev.ids,
                }
            } else if d != expected_info {
                OutputScan {
                    err: Some(InternalError::UpdateOutputInfoChanged),
                    info_index: prev.info_index,
                    template: prev.template,
                    tip_data: prev.tip_data,
                    ids: prev.ids,
                }
            } else {
                OutputScan {
                    err: None,
                    info_index: Some(i),
                    template: prev.template,
                    tip_data: prev.tip_data,
                    ids: prev.ids,
                }
            }
        } else {
            OutputScan {
                err: Some(InternalError::ReorgOutputMalformed),
                info_index: prev.info_index,
                template: prev.template,
                tip_data: prev.tip_data,
                ids: prev.ids,
            }
        }
    }
}

/// Once a prefix fails, the whole scan fails the same way.
proof fn lemma_scan_outputs_err_persists(
    idxs: Seq<int>,
    outputs: Seq<CellModel>,
    expected_info: Seq<u8>,
    new_tip: u8,
    k: int,
)
    requires
        0 <= k <= idxs.len(),
        scan_outputs(idxs.take(k), outputs, expected_info, new_tip).err is Some,
    ensures
        scan_outputs(idxs, outputs, expected_info, new_tip).err == scan_outputs(
            idxs.take(k),
            outputs,
            expected_info,
            new_tip,
        ).err,
    decreases idxs.len() - k,
{
    if k == idxs.len() {
        assert(idxs.take(k) =~= idxs);
    } else {
        assert(idxs.take(k + 1).drop_last() =~= idxs.take(k));
        lemma_scan_outputs_err_persists(idxs, outputs, expected_info, new_tip, k + 1);
    }
}

/// What an output scan that saw no failure guarantees of its products: the
/// info cell it recorded holds exactly the expected packed info, and the tip
/// client it captured frames as a client holding the new tip slot.
pub proof fn lemma_scan_outputs_products(
    idxs: Seq<int>,
    outputs: Seq<CellModel>,
    expected_info: Seq<u8>,
    new_tip: u8,
)
    requires
        scan_outputs(idxs, outputs, expected_info, new_tip).err is None,
    ensures
        scan_outputs(idxs, outputs, expected_info, new_tip).info_index matches Some(i) ==> outputs[
            i
        ].data == expected_info,
        scan_outputs(idxs, outputs, expected_info, new_tip).tip_data matches Some(d) ==> client_ok(
            d,
        ) && client_id(d) == new_tip,
    decreases idxs.len(),
{
    if idxs.len() > 0 {
        let prev = scan_outputs(idxs.drop_last(), outputs, expected_info, new_tip);
        if prev.err is None {
            lemma_scan_outputs_products(idxs.drop_last(), outputs, expected_info, new_tip);
        }
    }
}

/// In an output scan that saw no failure, every client cell equals the
/// template (the first client) re-packed with its own slot id.
pub proof fn lemma_scan_outputs_template(
    idxs: Seq<int>,
    outputs: Seq<CellModel>,
    expected_info: Seq<u8>,
    new_tip: u8,
)
    requires
        scan_outputs(idxs, outputs, expected_info, new_tip).err is None,
    ensures
        scan_outputs(idxs, outputs, expected_info, new_tip).template matches Some(t) ==> client_ok(
            t,
        ) && forall|p: int|
            0 <= p < idxs.len() && client_ok(outputs[idxs[p]].data)
                ==> #[trigger] outputs[idxs[p]].data == client_with_id(
                t,
                client_id(outputs[idxs[p]].data),
            ),
        scan_outputs(idxs, outputs, expected_info, new_tip).template is None ==> forall|p: int|
            0 <= p < idxs.len() ==> !client_ok(#[trigger] outputs[idxs[p]].data),
    decreases idxs.len(),
{
    if idxs.len() > 0 {
        let prev = scan_outputs(idxs.drop_last(), outputs, expected_info, new_tip);
        let cur = scan_outputs(idxs, outputs, expected_info, new_tip);
        assert(prev.err is None);
        lemma_scan_outputs_template(idxs.drop_last(), outputs, expected_info, new_tip);
        let d = outputs[idxs.last()].data;
        assert(forall|p: int| 0 <= p < idxs.len() - 1 ==> idxs.drop_last()[p] == idxs[p]);
        if client_ok(d) {
            if prev.template is Some {
                let t = prev.template->Some_0;
                assert(cur.template == Some(t));
                assert(d == client_with_id(t, client_id(d)));
            } else {
                assert(cur.template == Some(d));
                assert(d == client_with_id(d, client_id(d))) by {
                    assert(client_with_id(d, client_id(d)) =~= d);
                }
                assert(forall|p: int|
                    0 <= p < idxs.len() - 1 ==> !client_ok(#[trigger] outputs[idxs[p]].data));
            }
        }
    }
}

/// Slot ids of the client cells among the scanned outputs, in scan order;
/// what [`scan_outputs`] collects when nothing fails.
pub open spec fn client_ids_at(idxs: Seq<int>, outputs: Seq<CellModel>) -> Seq<u8>
    decreases idxs.len(),
{
    if idxs.len() == 0 {
        seq![]
    } else {
        client_ids_at(idxs.drop_last(), outputs) + if client_ok(outputs[idxs.last()].data) {
            seq![client_id(outputs[idxs.last()].data)]
        } else {
            seq![]
        }
    }
}

/// Everything an output scan that saw no failure says about the cells it
/// walked: each classifies, at most one is an info and it equals the expected
/// packed info, the recorded info position and captured tip client name real
/// cells, every client holding the new tip slot is the captured one, and the
/// collected ids are the client ids in scan order.
pub proof fn lemma_scan_outputs_shape(
    idxs: Seq<int>,
    outputs: Seq<CellModel>,
    expected_info: Seq<u8>,
    new_tip: u8,
)
    requires
        scan_outputs(idxs, outputs, expected_info, new_tip).err is None,
    ensures
        scan_outputs(idxs, outputs, expected_info, new_tip).ids == client_ids_at(idxs, outputs),
        forall|k: int|
            0 <= k < idxs.len() ==> client_ok(#[trigger] outputs[idxs[k]].data) || (info_ok(
                outputs[idxs[k]].data,
            ) && outputs[idxs[k]].data == expected_info),
        forall|k1: int, k2: int|
            0 <= k1 < k2 < idxs.len() ==> !(info_ok(#[trigger] outputs[idxs[k1]].data) && info_ok(
                #[trigger] outputs[idxs[k2]].data,
            )),
        forall|k: int|
            0 <= k < idxs.len() && info_ok(#[trigger] outputs[idxs[k]].data) ==> scan_outputs(
                idxs,
                outputs,
                expected_info,
                new_tip,
            ).info_index == Some(idxs[k]),
        scan_outputs(idxs, outputs, expected_info, new_tip).info_index matches Some(i) ==> exists|
            k: int,
        | 0 <= k < idxs.len() && info_ok(#[trigger] outputs[idxs[k]].data) && idxs[k] == i,
        forall|k: int|
            0 <= k < idxs.len() && client_ok(#[trigger] outputs[idxs[k]].data) && client_id(
                outputs[idxs[k]].data,
            ) == new_tip ==> scan_outputs(idxs, outputs, expected_info, new_tip).tip_data == Some(
                outputs[idxs[k]].data,
            ),
        scan_outputs(idxs, outputs, expected_info, new_tip).tip_data matches Some(d) ==> exists|
            k: int,
        | 0 <= k < idxs.len() && client_ok(#[trigger] outputs[idxs[k]].data) && client_id(
            outputs[idxs[k]].data,
        ) == new_tip && outputs[idxs[k]].data == d,
    decreases idxs.len(),
{
    if idxs.len() > 0 {
        let pre = idxs.drop_last();
        let prev = scan_outputs(pre, outputs, expected_info, new_tip);
        let cur = scan_outputs(idxs, outputs, expected_info, new_tip);
        assert(prev.err is None);
        lemma_scan_outputs_shape(pre, outputs, expected_info, new_tip);
        lemma_scan_outputs_template(pre, outputs, expected_info, new_tip);
        let last = idxs.len() - 1;
        let d = outputs[idxs.last()].data;
        assert(forall|k: int| 0 <= k < last ==> pre[k] == idxs[k]);
        assert(cur.ids =~= client_ids_at(idxs, outputs));
        if client_ok(d) && client_id(d) == new_tip {
            assert forall|k: int|
                0 <= k < idxs.len() && client_ok(#[trigger] outputs[idxs[k]].data) && client_id(
                    outputs[idxs[k]].data,
                ) == new_tip implies cur.tip_data == Some(outputs[idxs[k]].data) by {
                if k < last {
                    assert(prev.tip_data == Some(outputs[pre[k]].data));
                    let t0 = prev.template->Some_0;
                    assert(outputs[pre[k]].data == client_with_id(t0, new_tip));
                    assert(d == client_with_id(t0, new_tip));
                }
            }
        }
    }
}

/// An output scan over cells that all classify, with at most one info cell
/// holding exactly the expected packed info, and with every pair of client
/// cells equal up to their slot ids, sees no failure.
pub proof fn lemma_scan_outputs_all_pass(
    idxs: Seq<int>,
    outputs: Seq<CellModel>,
    expected_info: Seq<u8>,
    new_tip: u8,
)
    requires
        forall|k: int|
            0 <= k < idxs.len() ==> client_ok(#[trigger] outputs[idxs[k]].data) || (info_ok(
                outputs[idxs[k]].data,
            ) && outputs[idxs[k]].data == expected_info),
        forall|k1: int, k2: int|
            0 <= k1 < k2 < idxs.len() ==> !(info_ok(#[trigger] outputs[idxs[k1]].data) && info_ok(
                #[trigger] outputs[idxs[k2]].data,
            )),
        forall|k1: int, k2: int|
            0 <= k1 < idxs.len() && 0 <= k2 < idxs.len() && client_ok(
                #[trigger] outputs[idxs[k1]].data,
            ) && client_ok(#[trigger] outputs[idxs[k2]].data) ==> outputs[idxs[k2]].data
                == client_with_id(outputs[idxs[k1]].data, client_id(outputs[idxs[k2]].data)),
    ensures
        scan_outputs(idxs, outputs, expected_info, new_tip).err is None,
        scan_outputs(idxs, outputs, expected_info, new_tip).template matches Some(tf) ==> exists|
            j: int,
        | 0 <= j < idxs.len() && client_ok(#[trigger] outputs[idxs[j]].data) && outputs[idxs[j]].data
            == tf,
        scan_outputs(idxs, outputs, expected_info, new_tip).info_index is Some ==> exists|j: int|
            0 <= j < idxs.len() && info_ok(#[trigger] outputs[idxs[j]].data),
    decreases idxs.len(),
{
    if idxs.len() > 0 {
        let pre = idxs.drop_last();
        assert(forall|k: int| 0 <= k < pre.len() ==> pre[k] == idxs[k]);
        lemma_scan_outputs_all_pass(pre, outputs, expected_info, new_tip);
        let prev = scan_outputs(pre, outputs, expected_info, new_tip);
        let last = idxs.len() - 1;
        let d = outputs[idxs.last()].data;
        if client_ok(d) {
            if prev.template is Some {
                let tf = prev.template->Some_0;
                let j = choose|j: int|
                    0 <= j < pre.len() && client_ok(#[trigger] outputs[pre[j]].data)
                        && outputs[pre[j]].data == tf;
                assert(outputs[idxs[last]].data == client_with_id(
                    outputs[idxs[j]].data,
                    client_id(outputs[idxs[last]].data),
                ));
            }
        } else {
            assert(info_ok(d) && d == expected_info);
            if prev.info_index is Some {
                let j = choose|j: int| 0 <= j < pre.len() && info_ok(#[trigger] outputs[pre[j]].data);
                assert(info_ok(outputs[idxs[j]].data) && info_ok(outputs[idxs[last]].data));
                assert(false);
            }
        }
    }
}

/// The collected client ids depend only on the data the scan reads.
proof fn lemma_client_ids_at_reads_equal(idxs: Seq<int>, o1: Seq<CellModel>, o2: Seq<CellModel>)
    requires
        forall|k: int| 0 <= k < idxs.len() ==> o2[#[trigger] idxs[k]].data == o1[idxs[k]].data,
    ensures
        client_ids_at(idxs, o2) == client_ids_at(idxs, o1),
    decreases idxs.len(),
{
    if idxs.len() > 0 {
        assert(forall|k: int| 0 <= k < idxs.len() - 1 ==> idxs.drop_last()[k] == idxs[k]);
        lemma_client_ids_at_reads_equal(idxs.drop_last(), o1, o2);
    }
}

/// Each client position contributes its id to the collection.
proof fn lemma_client_ids_at_contains(idxs: Seq<int>, outputs: Seq<CellModel>, a: int)
    requires
        0 <= a < idxs.len(),
        client_ok(outputs[idxs[a]].data),
    ensures
        client_ids_at(idxs, outputs).to_multiset().count(client_id(outputs[idxs[a]].data)) >= 1,
    decreases idxs.len(),
{
    broadcast use group_to_multiset_ensures;
    broadcast use vstd::multiset::group_multiset_axioms;

    let pre = idxs.drop_last();
    assert(forall|k: int| 0 <= k < idxs.len() - 1 ==> pre[k] == idxs[k]);
    let rec = client_ids_at(pre, outputs);
    if a == idxs.len() - 1 {
        assert(client_ids_at(idxs, outputs) == rec.push(client_id(outputs[idxs[a]].data)));
    } else {
        lemma_client_ids_at_contains(pre, outputs, a);
        if client_ok(outputs[idxs.last()].data) {
            assert(client_ids_at(idxs, outputs) == rec.push(client_id(outputs[idxs.last()].data)));
        } else {
            assert(client_ids_at(idxs, outputs) =~= rec);
        }
    }
}

/// Replacing the data read at one client position replaces its contribution
/// to the id multiset.
proof fn lemma_client_ids_at_replace(
    idxs: Seq<int>,
    o1: Seq<CellModel>,
    o2: Seq<CellModel>,
    a: int,
)
    requires
        0 <= a < idxs.len(),
        forall|k: int|
            0 <= k < idxs.len() && k != a ==> o2[#[trigger] idxs[k]].data == o1[idxs[k]].data,
        client_ok(o1[idxs[a]].data),
        client_ok(o2[idxs[a]].data),
    ensures
        client_ids_at(idxs, o2).to_multiset() == client_ids_at(idxs, o1).to_multiset().remove(
            client_id(o1[idxs[a]].data),
        ).insert(client_id(o2[idxs[a]].data)),
    decreases idxs.len(),
{
    broadcast use group_to_multiset_ensures;
    broadcast use vstd::multiset::group_multiset_axioms;

    let pre = idxs.drop_last();
    assert(forall|k: int| 0 <= k < idxs.len() - 1 ==> pre[k] == idxs[k]);
    let u = client_id(o1[idxs[a]].data);
    let v = client_id(o2[idxs[a]].data);
    let ms1 = client_ids_at(idxs, o1).to_multiset();
    let ms2 = client_ids_at(idxs, o2).to_multiset();
    if a == idxs.len() - 1 {
        lemma_client_ids_at_reads_equal(pre, o1, o2);
        let rec = client_ids_at(pre, o1).to_multiset();
        assert(client_ids_at(idxs, o1) == client_ids_at(pre, o1).push(u));
        assert(client_ids_at(idxs, o2) == client_ids_at(pre, o1).push(v));
        assert(ms2 =~= ms1.remove(u).insert(v));
    } else {
        lemma_client_ids_at_replace(pre, o1, o2, a);
        lemma_client_ids_at_contains(pre, o1, a);
        let d1 = o1[idxs.last()].data;
        let d2 = o2[idxs.last()].data;
        assert(d2 == d1);
        if client_ok(d1) {
            assert(client_ids_at(idxs, o1) == client_ids_at(pre, o1).push(client_id(d1)));
            assert(client_ids_at(idxs, o2) == client_ids_at(pre, o2).push(client_id(d1)));
            assert(ms2 =~= ms1.remove(u).insert(v));
        } else {
            assert(client_ids_at(idxs, o1) =~= client_ids_at(pre, o1));
            assert(client_ids_at(idxs, o2) =~= client_ids_at(pre, o2));
        }
    }
}

/// Swapping the data read at two client positions leaves the id multiset
/// unchanged.
pub proof fn lemma_client_ids_at_swap(
    idxs: Seq<int>,
    o1: Seq<CellModel>,
    o2: Seq<CellModel>,
    a: int,
    b: int,
)
    requires
        0 <= a < idxs.len(),
        0 <= b < idxs.len(),
        a != b,
        o1.len() == o2.len(),
        forall|k: int| 0 <= k < idxs.len() ==> 0 <= #[trigger] idxs[k] < o1.len(),
        forall|k1: int, k2: int|
            0 <= k1 < k2 < idxs.len() ==> #[trigger] idxs[k1] != #[trigger] idxs[k2],
        forall|k: int|
            0 <= k < idxs.len() && k != a && k != b ==> o2[#[trigger] idxs[k]].data == o1[
                idxs[k]
            ].data,
        o2[idxs[a]].data == o1[idxs[b]].data,
        o2[idxs[b]].data == o1[idxs[a]].data,
        client_ok(o1[idxs[a]].data),
        client_ok(o1[idxs[b]].data),
    ensures
        client_ids_at(idxs, o2).to_multiset() == client_ids_at(idxs, o1).to_multiset(),
{
    broadcast use vstd::multiset::group_multiset_axioms;

    let u = client_id(o1[idxs[a]].data);
    let v = client_id(o1[idxs[b]].data);
    let mid = o1.update(idxs[a], o1[idxs[b]]);
    assert forall|k: int| 0 <= k < idxs.len() && k != a implies mid[#[trigger] idxs[k]].data == o1[
        idxs[k]
    ].data by {
        if k < a {
            assert(idxs[k] != idxs[a]);
        } else {
            assert(idxs[a] != idxs[k]);
        }
    }
    assert(mid[idxs[a]].data == o1[idxs[b]].data);
    lemma_client_ids_at_replace(idxs, o1, mid, a);
    assert(forall|k: int|
        0 <= k < idxs.len() && k != b ==> o2[#[trigger] idxs[k]].data == mid[idxs[k]].data);
    lemma_client_ids_at_replace(idxs, mid, o2, b);
    lemma_client_ids_at_contains(idxs, o1, a);
    lemma_client_ids_at_contains(idxs, o1, b);
    let ms1 = client_ids_at(idxs, o1).to_multiset();
    assert(client_ids_at(idxs, o2).to_multiset() =~= ms1.remove(u).insert(v).remove(v).insert(u));
    assert(ms1.remove(u).insert(v).remove(v).insert(u) =~= ms1);
}

// --- sorting the slot ids ---

/// Slot ids in ascending order.
pub open spec fn id_order() -> spec_fn(u8, u8) -> bool {
    |a: u8, b: u8| a <= b
}

/// Sort the slot ids: an insertion sort, since the lists are as short as the
/// ring.
pub fn sort_ids(v: &Vec<u8>) -> (r: Vec<u8>)
    ensures
        sorted_by(r@, id_order()),
        r@.to_multiset() == v@.to_multiset(),
{
    proof {
        broadcast use group_to_multiset_ensures;

    }
    let mut r: Vec<u8> = Vec::new();
    let n = v.len();
    for i in 0..n
        invariant
            n == v@.len(),
            sorted_by(r@, id_order()),
            r@.to_multiset() == v@.take(i as int).to_multiset(),
    {
        proof {
            broadcast use group_to_multiset_ensures;

        }
        let x = v[i];
        let mut j: usize = 0;
        while j < r.len() && r[j] <= x
            invariant
                j <= r@.len(),
                forall|t: int| 0 <= t < j ==> r@[t] <= x,
            decreases r@.len() - j,
        {
            j = j + 1;
        }
        let ghost old_r = r@;
        proof {
            assert(sorted_by(old_r, id_order()));
            assert(forall|t: int| 0 <= t < j ==> old_r[t] <= x);
            assert(j < old_r.len() ==> !(old_r[j as int] <= x));
        }
        r.insert(j, x);
        proof {
            assert(r@.remove(j as int) =~= old_r);
            assert(r@.remove(j as int).to_multiset() =~= r@.to_multiset().remove(r@[j as int]));
            assert(r@.to_multiset().contains(x));
            assert(r@.to_multiset() =~= old_r.to_multiset().insert(x));
            assert(v@.take(i + 1).drop_last() =~= v@.take(i as int));
            assert(v@.take(i + 1) =~= v@.take(i as int).push(x));
            assert forall|t1: int, t2: int| 0 <= t1 < t2 < r@.len() implies id_order()(
                r@[t1],
                r@[t2],
            ) by {
                if t2 == j {
                    assert(r@[t1] == old_r[t1] && r@[t2] == x);
                    assert(old_r[t1] <= x);
                } else if t1 == j {
                    assert(r@[t1] == x && r@[t2] == old_r[t2 - 1]);
                    assert(x < old_r[j as int]);
                    assert(id_order()(old_r[j as int], old_r[t2 - 1]));
                } else if t1 < j && t2 > j {
                    assert(r@[t1] == old_r[t1] && r@[t2] == old_r[t2 - 1]);
                    assert(id_order()(old_r[t1], old_r[t2 - 1]));
                } else if t2 < j {
                    assert(r@[t1] == old_r[t1] && r@[t2] == old_r[t2]);
                    assert(id_order()(old_r[t1], old_r[t2]));
                } else {
                    assert(r@[t1] == old_r[t1 - 1] && r@[t2] == old_r[t2 - 1]);
                    assert(id_order()(old_r[t1 - 1], old_r[t2 - 1]));
                }
            }
        }
    }
    proof {
        assert(v@.take(n as int) =~= v@);
    }
    r
}

/// Decide multiset equality of two id lists by sorting both.
pub fn same_id_multiset(a: &Vec<u8>, b: &Vec<u8>) -> (r: bool)
    ensures
        r == (a@.to_multiset() == b@.to_multiset()),
{
    let sa = sort_ids(a);
    let sb = sort_ids(b);
    let eq = bytes_eq(&sa, &sb);
    proof {
        assert(total_ordering(id_order()));
        if eq {
            assert(a@.to_multiset() =~= b@.to_multiset());
        } else {
            if a@.to_multiset() == b@.to_multiset() {
                lemma_sorted_unique(sa@, sb@, id_order());
                assert(false);
            }
        }
    }
    eq
}

// --- exec helpers over the scans ---

/// Data of the client inputs named by `cidx`.
pub open spec fn client_datas_of(tx: TxModel, cidx: Seq<usize>) -> Seq<Seq<u8>> {
    cidx.map_values(|i: usize| tx.inputs[i as int].data)
}

/// Copy the chain work out of the first spent client holding slot `tip`.
fn find_tip_work(tx: &TxView, cidx: &Vec<usize>, tip: u8) -> (r: Option<Vec<u8>>)
    requires
        forall|j: int|
            0 <= j < cidx@.len() ==> #[trigger] cidx@[j] < tx.inputs@.len() && client_ok(
                tx@.inputs[cidx@[j] as int].data,
            ),
    ensures
        match r {
            Some(w) => find_tip_client(client_datas_of(tx@, cidx@), tip) matches Some(c) && w@
                == client_work(c) && w@.len() == 32,
            None => find_tip_client(client_datas_of(tx@, cidx@), tip) is None,
        },
{
    let ghost clients = client_datas_of(tx@, cidx@);
    proof {
        assert(clients.skip(0) =~= clients);
    }
    let n = cidx.len();
    for t in 0..n
        invariant
            n == cidx@.len(),
            clients == client_datas_of(tx@, cidx@),
            clients.len() == n,
            forall|j: int|
                0 <= j < cidx@.len() ==> #[trigger] cidx@[j] < tx.inputs@.len() && client_ok(
                    tx@.inputs[cidx@[j] as int].data,
                ),
            find_tip_client(clients, tip) == find_tip_client(clients.skip(t as int), tip),
    {
        proof {
            assert(clients[t as int] == tx@.inputs[cidx@[t as int] as int].data);
            assert(tx@.inputs[cidx@[t as int] as int] == tx.inputs@[cidx@[t as int] as int]@);
            assert(clients.skip(t as int).first() == clients[t as int]);
        }
        let d = &tx.inputs[cidx[t]].data;
        if d[0] == tip {
            return Some(client_work_of(d));
        }
        proof {
            assert(clients.skip(t as int).drop_first() =~= clients.skip(t + 1));
        }
    }
    proof {
        assert(clients.skip(n as int).len() == 0);
    }
    None
}

// --- the verifier ---

/// The Reorg verifier, up to the delegated `verify_new_client` call.
///
/// The branch on an empty cell-dep list is unreachable through the
/// dispatcher, which requires at least one own-type cell-dep for a Reorg.
pub open spec fn spec_reorg(tx: TxModel) -> StepModel {
    let scan = scan_inputs(own_input_datas(tx));
    if scan.err is Some {
        StepModel::Exit(spec_internal_code(scan.err->Some_0))
    } else if scan.tip is None {
        StepModel::Exit(spec_internal_code(InternalError::ReorgInputInfoNotFound))
    } else if scan.clients.len() < 2 {
        StepModel::Exit(spec_internal_code(InternalError::ReorgInputClientNotEnough))
    } else {
        let tip = scan.tip->Some_0;
        match find_tip_client(scan.clients, tip) {
            None => StepModel::Exit(spec_internal_code(InternalError::ReorgInputTipClientNotFound)),
            Some(tip_cell) => {
                if !args_ok(tx.script_args) {
                    StepModel::Exit(spec_internal_code(InternalError::Encoding))
                } else {
                    let prev_work = le_value(client_work(tip_cell));
                    let count = args_clients_count(tx.script_args);
                    let flags = args_flags(tx.script_args);
                    let n = scan.clients.len();
                    let ids = scan.clients.map_values(|d: Seq<u8>| client_id(d));
                    let expected_ids = walk_back(tip, n, count);
                    if ids.to_multiset() != expected_ids.to_multiset() {
                        StepModel::Exit(
                            spec_internal_code(InternalError::ReorgInputClientIdsIsMismatch),
                        )
                    } else {
                        let new_tip = spec_prev_iter(tip, (n - 1) as nat, count);
                        let fork = spec_prev_iter(tip, n, count);
                        let outs = own_index_seq(tx.outputs, tx.script_hash);
                        let oscan = scan_outputs(outs, tx.outputs, info_packed(new_tip), new_tip);
                        if oscan.err is Some {
                            StepModel::Exit(spec_internal_code(oscan.err->Some_0))
                        } else if oscan.info_index is None {
                            StepModel::Exit(
                                spec_internal_code(InternalError::ReorgOutputInfoNotFound),
                            )
                        } else if oscan.tip_data is None {
                            StepModel::Exit(
                                spec_internal_code(InternalError::ReorgOutputTipClientNotFound),
                            )
                        } else if oscan.ids.to_multiset() != expected_ids.to_multiset() {
                            StepModel::Exit(
                                spec_internal_code(InternalError::ReorgOutputClientIdsIsMismatch),
                            )
                        } else if !is_testnet(flags) && prev_work >= le_value(
                            client_work(oscan.tip_data->Some_0),
                        ) {
                            StepModel::Exit(spec_internal_code(InternalError::ReorgNotBetterChain))
                        } else {
                            let deps = own_index_seq(tx.cell_deps, tx.script_hash);
                            if deps.len() >= 2 {
                                StepModel::Exit(
                                    spec_internal_code(InternalError::ReorgCellDepMoreThanOne),
                                )
                            } else if deps.len() == 0 {
                                StepModel::Exit(
                                    spec_internal_code(InternalError::UnknownOperation),
                                )
                            } else {
                                let dep = tx.cell_deps[deps[0]].data;
                                if !client_ok(dep) {
                                    StepModel::Exit(
                                        spec_internal_code(
                                            InternalError::ReorgCellDepClientNotFound,
                                        ),
                                    )
                                } else if client_id(dep) != fork {
                                    StepModel::Exit(
                                        spec_internal_code(
                                            InternalError::ReorgCellDepClientIdIsMismatch,
                                        ),
                                    )
                                } else {
                                    match spec_witness_at(tx.witnesses, oscan.info_index->Some_0) {
                                        Err(c) => StepModel::Exit(
                                            spec_internal_code(spec_sys_error(c)),
                                        ),
                                        Ok(w) => match w.output_type {
                                            None => StepModel::Exit(
                                                spec_internal_code(
                                                    InternalError::UpdateWitnessIsNotExisted,
                                                ),
                                            ),
                                            Some(update) => StepModel::VerifyClient(
                                                VerifyAskModel {
                                                    base: client_with_id(dep, new_tip),
                                                    next: oscan.tip_data->Some_0,
                                                    update,
                                                    flags,
                                                },
                                            ),
                                        },
                                    }
                                }
                            }
                        }
                    }
                }
            },
        }
    }
}

#[verifier::loop_isolation(false)]
#[verifier::rlimit(100)]
pub fn verify_reorg(tx: &TxView, ins: &Vec<usize>, outs: &Vec<usize>, deps: &Vec<usize>) -> (r:
    Step)
    requires
        ins@.map_values(|x: usize| x as int) == own_index_seq(tx@.inputs, tx@.script_hash),
        outs@.map_values(|x: usize| x as int) == own_index_seq(tx@.outputs, tx@.script_hash),
        deps@.map_values(|x: usize| x as int) == own_index_seq(tx@.cell_deps, tx@.script_hash),
    ensures
        r@ == spec_reorg(tx@),
{
    let ghost datas = own_input_datas(tx@);
    proof {
        lemma_own_index_seq(tx@.inputs, tx@.script_hash);
        assert forall|j: int| 0 <= j < ins@.len() implies #[trigger] ins@[j]
            < tx.inputs@.len() && datas[j] == tx@.inputs[ins@[j] as int].data by {
            let sins = own_index_seq(tx@.inputs, tx@.script_hash);
            assert(sins[j] == ins@.map_values(|x: usize| x as int)[j]);
            assert(datas[j] == tx.inputs@[sins[j]]@.data);
        }
    }
    // Scan the own-type inputs: one info cell, the rest clients.
    let mut tip_opt: Option<u8> = None;
    let mut cidx: Vec<usize> = Vec::new();
    let nin = ins.len();
    for k in 0..nin
        invariant
            nin == ins@.len(),
            datas == own_input_datas(tx@),
            datas.len() == nin,
            forall|j: int|
                0 <= j < ins@.len() ==> #[trigger] ins@[j] < tx.inputs@.len() && datas[j]
                    == tx@.inputs[ins@[j] as int].data,
            scan_inputs(datas.take(k as int)).err is None,
            tip_opt == scan_inputs(datas.take(k as int)).tip,
            cidx@.len() == scan_inputs(datas.take(k as int)).clients.len(),
            forall|j: int|
                0 <= j < cidx@.len() ==> #[trigger] cidx@[j] < tx.inputs@.len() && tx@.inputs[
                    cidx@[j] as int
                ].data == scan_inputs(datas.take(k as int)).clients[j] && client_ok(
                    tx@.inputs[cidx@[j] as int].data,
                ),
    {
        proof {
            assert(datas.take(k + 1).drop_last() =~= datas.take(k as int));
            assert(datas.take(k + 1).last() == datas[k as int]);
            assert(tx@.inputs[ins@[k as int] as int] == tx.inputs@[ins@[k as int] as int]@);
        }
        let d = &tx.inputs[ins[k]].data;
        if d.len() == 1 {
            if tip_opt.is_some() {
                proof {
                    lemma_scan_inputs_err_persists(datas, k + 1);
                }
                return Step::Exit(InternalError::ReorgInputInfoDuplicated.code());
            }
            tip_opt = Some(d[0]);
        } else if d.len() == crate::codec::CLIENT_LEN {
            cidx.push(ins[k]);
        } else {
            proof {
                lemma_scan_inputs_err_persists(datas, k + 1);
            }
            return Step::Exit(InternalError::ReorgInputMalformed.code());
        }
    }
    proof {
        assert(datas.take(nin as int) =~= datas);
    }
    let ghost scan = scan_inputs(datas);
    let tip = match tip_opt {
        None => {
            return Step::Exit(InternalError::ReorgInputInfoNotFound.code());
        },
        Some(t) => t,
    };
    if cidx.len() < 2 {
        return Step::Exit(InternalError::ReorgInputClientNotEnough.code());
    }
    proof {
        assert(client_datas_of(tx@, cidx@) =~= scan.clients);
    }
    // The chain work recorded at the stale tip.
    let prev_work = match find_tip_work(tx, &cidx, tip) {
        None => {
            return Step::Exit(InternalError::ReorgInputTipClientNotFound.code());
        },
        Some(w) => w,
    };
    let args = match read_type_args(&tx.script_args) {
        Some(args) => args,
        None => {
            return Step::Exit(InternalError::Encoding.code());
        },
    };
    let count = args.clients_count;
    let flags = args.flags;
    // The spent slot set must walk backwards from the tip.
    let n = cidx.len();
    let mut ids: Vec<u8> = Vec::new();
    for j in 0..n
        invariant
            n == cidx@.len(),
            scan == scan_inputs(own_input_datas(tx@)),
            scan.clients.len() == n,
            forall|t: int|
                0 <= t < cidx@.len() ==> #[trigger] cidx@[t] < tx.inputs@.len() && tx@.inputs[
                    cidx@[t] as int
                ].data == scan.clients[t] && client_ok(tx@.inputs[cidx@[t] as int].data),
            ids@.len() == j,
            forall|t: int| 0 <= t < j ==> ids@[t] == client_id(#[trigger] scan.clients[t]),
    {
        proof {
            assert(tx@.inputs[cidx@[j as int] as int] == tx.inputs@[cidx@[j as int] as int]@);
            assert(client_ok(scan.clients[j as int]));
        }
        ids.push(tx.inputs[cidx[j]].data[0]);
    }
    proof {
        assert(ids@ =~= scan.clients.map_values(|d: Seq<u8>| client_id(d)));
    }
    let mut expected: Vec<u8> = Vec::new();
    let mut tmp: u8 = tip;
    for j in 0..n
        invariant
            tmp == spec_prev_iter(tip, j as nat, count),
            expected@.len() == j,
            forall|t: int| 0 <= t < j ==> expected@[t] == spec_prev_iter(tip, t as nat, count),
    {
        expected.push(tmp);
        tmp = prev_client_id(tmp, count);
    }
    proof {
        lemma_walk_back(tip, n as nat, count);
        assert(expected@ =~= walk_back(tip, n as nat, count));
    }
    if !same_id_multiset(&ids, &expected) {
        return Step::Exit(InternalError::ReorgInputClientIdsIsMismatch.code());
    }
    let new_tip = expected[n - 1];
    let fork = tmp;
    assert(new_tip == spec_prev_iter(tip, (n - 1) as nat, count));
    // Scan the own-type outputs: the info cell advanced to the new tip, and
    // clients sharing one body over the same slot set.
    let expected_info = pack_info(new_tip);
    let ghost souts = own_index_seq(tx@.outputs, tx@.script_hash);
    proof {
        lemma_own_index_seq(tx@.outputs, tx@.script_hash);
        assert forall|j: int| 0 <= j < outs@.len() implies #[trigger] outs@[j]
            < tx.outputs@.len() && souts[j] == outs@[j] as int && tx@.outputs[souts[j]].data
            == tx.outputs@[outs@[j] as int]@.data by {
            assert(souts[j] == outs@.map_values(|x: usize| x as int)[j]);
            assert(0 <= souts[j] < tx@.outputs.len());
            assert(tx@.outputs[souts[j]] == tx.outputs@[souts[j]]@);
        }
    }
    let mut info_idx: Option<usize> = None;
    let mut template: Option<Vec<u8>> = None;
    let mut tip_data: Option<Vec<u8>> = None;
    let mut oids: Vec<u8> = Vec::new();
    let nout = outs.len();
    for k in 0..nout
        invariant
            nout == outs@.len(),
            souts == own_index_seq(tx@.outputs, tx@.script_hash),
            souts.len() == nout,
            expected_info@ == info_packed(new_tip),
            forall|j: int|
                0 <= j < outs@.len() ==> #[trigger] outs@[j] < tx.outputs@.len() && souts[j]
                    == outs@[j] as int && tx@.outputs[souts[j]].data == tx.outputs@[outs@[j] as int]@.data,
            scan_outputs(souts.take(k as int), tx@.outputs, expected_info@, new_tip).err is None,
            match info_idx {
                Some(i) => scan_outputs(souts.take(k as int), tx@.outputs, expected_info@, new_tip)
                    .info_index == Some(i as int),
                None => scan_outputs(souts.take(k as int), tx@.outputs, expected_info@, new_tip)
                    .info_index is None,
            },
            match template {
                Some(t) => scan_outputs(souts.take(k as int), tx@.outputs, expected_info@, new_tip)
                    .template == Some(t@) && t@.len() == crate::codec::CLIENT_LEN,
                None => scan_outputs(souts.take(k as int), tx@.outputs, expected_info@, new_tip)
                    .template is None,
            },
            match tip_data {
                Some(t) => scan_outputs(souts.take(k as int), tx@.outputs, expected_info@, new_tip)
                    .tip_data == Some(t@) && t@.len() == crate::codec::CLIENT_LEN,
                None => scan_outputs(souts.take(k as int), tx@.outputs, expected_info@, new_tip)
                    .tip_data is None,
            },
            oids@ == scan_outputs(souts.take(k as int), tx@.outputs, expected_info@, new_tip).ids,
    {
        proof {
            assert(souts.take(k + 1).drop_last() =~= souts.take(k as int));
            assert(souts.take(k + 1).last() == souts[k as int]);
        }
        let d = &tx.outputs[outs[k]].data;
        assert(d@ == tx@.outputs[souts[k as int]].data);
        if d.len() == crate::codec::CLIENT_LEN {
            let id = d[0];
            let mismatch = match &template {
                Some(t) => {
                    let exp = client_replace_id(t, id);
                    !bytes_eq(d, &exp)
                },
                None => false,
            };
            if mismatch {
                proof {
                    lemma_scan_outputs_err_persists(souts, tx@.outputs, expected_info@, new_tip, k
                        + 1);
                }
                return Step::Exit(InternalError::ReorgNewClientIsIncorrect.code());
            }
            if template.is_none() {
                template = Some(d.clone());
            }
            if id == new_tip {
                tip_data = Some(d.clone());
            }
            oids.push(id);
        } else if d.len() == 1 {
            if info_idx.is_some() {
                proof {
                    lemma_scan_outputs_err_persists(souts, tx@.outputs, expected_info@, new_tip, k
                        + 1);
                }
                return Step::Exit(InternalError::ReorgOutputInfoDuplicated.code());
            }
            if !bytes_eq(d, &expected_info) {
                proof {
                    lemma_scan_outputs_err_persists(souts, tx@.outputs, expected_info@, new_tip, k
                        + 1);
                }
                return Step::Exit(InternalError::UpdateOutputInfoChanged.code());
            }
            info_idx = Some(outs[k]);
        } else {
            proof {
                lemma_scan_outputs_err_persists(souts, tx@.outputs, expected_info@, new_tip, k + 1);
            }
            return Step::Exit(InternalError::ReorgOutputMalformed.code());
        }
    }
    proof {
        assert(souts.take(nout as int) =~= souts);
    }
    let info_index = match info_idx {
        None => {
            return Step::Exit(InternalError::ReorgOutputInfoNotFound.code());
        },
        Some(i) => i,
    };
    let new_tip_cell = match tip_data {
        None => {
            return Step::Exit(InternalError::ReorgOutputTipClientNotFound.code());
        },
        Some(d) => d,
    };
    if !same_id_multiset(&oids, &expected) {
        return Step::Exit(InternalError::ReorgOutputClientIdsIsMismatch.code());
    }
    // Chain-work policy: outside testnet the replacement must carry strictly
    // more work than the stale tip did.
    if flags != 1 {
        let new_work = client_work_of(&new_tip_cell);
        assert(prev_work@.len() == 32);
        assert(new_work@.len() == 32);
        if !le_bytes_lt(&prev_work, &new_work) {
            return Step::Exit(InternalError::ReorgNotBetterChain.code());
        }
    }
    // The single own-type cell-dep holds the fork-point client.
    if deps.len() >= 2 {
        return Step::Exit(InternalError::ReorgCellDepMoreThanOne.code());
    }
    if deps.len() == 0 {
        return Step::Exit(InternalError::UnknownOperation.code());
    }
    proof {
        lemma_own_index_seq(tx@.cell_deps, tx@.script_hash);
        assert(own_index_seq(tx@.cell_deps, tx@.script_hash)[0] == deps@.map_values(
            |x: usize| x as int,
        )[0]);
        assert(tx@.cell_deps[deps@[0] as int] == tx.cell_deps@[deps@[0] as int]@);
    }
    let dep = &tx.cell_deps[deps[0]].data;
    let dep_id = match crate::codec::read_client_id(dep) {
        Some(id) => id,
        None => {
            return Step::Exit(InternalError::ReorgCellDepClientNotFound.code());
        },
    };
    if dep_id != fork {
        return Step::Exit(InternalError::ReorgCellDepClientIdIsMismatch.code());
    }
    let update = match tx.witness_output_type(info_index) {
        Err(c) => {
            return Step::Exit(sys_error(c).code());
        },
        Ok(None) => {
            return Step::Exit(InternalError::UpdateWitnessIsNotExisted.code());
        },
        Ok(Some(u)) => u,
    };
    let base = client_replace_id(dep, new_tip);
    Step::VerifyClient(VerifyAsk { base, next: new_tip_cell, update, flags })
}

} // verus!
