use ckb_bitcoin_spv_type_lock::create::finish_create;
use ckb_bitcoin_spv_type_lock::entry::finish_client_verify;
use ckb_bitcoin_spv_type_lock::entry::program_entry;
use ckb_bitcoin_spv_type_lock::error::Error;
use ckb_bitcoin_spv_type_lock::error::InternalError;
use ckb_bitcoin_spv_type_lock::error::SysCode;
use ckb_bitcoin_spv_type_lock::ring::next_client_id;
use ckb_bitcoin_spv_type_lock::ring::prev_client_id;
use ckb_bitcoin_spv_type_lock::types::CellEntry;
use ckb_bitcoin_spv_type_lock::types::Step;
use ckb_bitcoin_spv_type_lock::types::TxView;
use ckb_bitcoin_spv_type_lock::types::VerifyAsk;
use ckb_bitcoin_spv_type_lock::types::WitnessArgs;

const CLIENT_LEN: usize = 113;
const WORK_OFFSET: usize = 73;

fn script_hash() -> Vec<u8> {
    vec![0xab; 32]
}

fn foreign_hash() -> Vec<u8> {
    vec![0xcd; 32]
}

fn own(data: Vec<u8>) -> CellEntry {
    CellEntry { type_hash: Some(script_hash()), data }
}

fn foreign(data: Vec<u8>) -> CellEntry {
    CellEntry { type_hash: Some(foreign_hash()), data }
}

fn untyped() -> CellEntry {
    CellEntry { type_hash: None, data: vec![7, 7, 7] }
}

fn info(tip: u8) -> Vec<u8> {
    vec![tip]
}

/// A packed client: slot `id`, every body byte set to `marker`, and `work`
/// written little-endian into the partial-chain-work field.
fn client(id: u8, marker: u8, work: u64) -> Vec<u8> {
    let mut v = vec![marker; CLIENT_LEN];
    v[0] = id;
    for i in 0..32 {
        v[WORK_OFFSET + i] = 0;
    }
    let le = work.to_le_bytes();
    for i in 0..8 {
        v[WORK_OFFSET + i] = le[i];
    }
    v
}

fn type_args(type_id: &[u8], count: u8, flags: u8) -> Vec<u8> {
    let mut v = type_id.to_vec();
    v.push(count);
    v.push(flags);
    v
}

fn wit_input(bytes: &[u8]) -> Result<WitnessArgs, SysCode> {
    Ok(WitnessArgs { input_type: Some(bytes.to_vec()), output_type: None })
}

fn wit_output(bytes: &[u8]) -> Result<WitnessArgs, SysCode> {
    Ok(WitnessArgs { input_type: None, output_type: Some(bytes.to_vec()) })
}

fn wit_empty() -> Result<WitnessArgs, SysCode> {
    Ok(WitnessArgs { input_type: None, output_type: None })
}

fn empty_tx() -> TxView {
    TxView {
        script_hash: script_hash(),
        script_args: Vec::new(),
        first_input: None,
        inputs: Vec::new(),
        outputs: Vec::new(),
        cell_deps: Vec::new(),
        witnesses: Vec::new(),
    }
}

fn exit_of(step: Step) -> i8 {
    match step {
        Step::Exit(c) => c,
        Step::InitClient { .. } => panic!("expected a verdict, got a bootstrap step"),
        Step::VerifyClient(_) => panic!("expected a verdict, got a verify step"),
    }
}

/// The `type_id` a Create with this first input and this many own-type
/// outputs must carry, computed with the real hash.
fn expected_type_id(first_input: &[u8], outputs_count: u64) -> Vec<u8> {
    let mut message = first_input.to_vec();
    message.extend_from_slice(&outputs_count.to_le_bytes());
    ckb_hash::blake2b_256(&message).to_vec()
}

fn first_input_bytes() -> Vec<u8> {
    let mut v = vec![0u8; 44];
    for (i, b) in v.iter_mut().enumerate() {
        *b = i as u8;
    }
    v
}

/// A well-formed Create transaction: ring of three slots, genesis client
/// derived from the bootstrap, every slot holding it under its own id.
fn create_tx(count: u8) -> TxView {
    let fi = first_input_bytes();
    let outputs_count = 1 + count as u64;
    let type_id = expected_type_id(&fi, outputs_count);
    let mut outputs = vec![own(info(0))];
    for id in 0..count {
        outputs.push(own(client(id, 0x11, 500)));
    }
    outputs.push(foreign(vec![9, 9]));
    TxView {
        script_hash: script_hash(),
        script_args: type_args(&type_id, count, 0),
        first_input: Some(fi),
        inputs: vec![foreign(vec![1, 2])],
        outputs,
        cell_deps: Vec::new(),
        witnesses: vec![wit_input(b"bootstrap-blob")],
    }
}

#[test]
fn create_accepts_ring_of_three() {
    let tx = create_tx(3);
    match program_entry(&tx) {
        Step::InitClient { bootstrap, pending } => {
            assert_eq!(bootstrap, b"bootstrap-blob".to_vec());
            assert_eq!(pending.clients.len(), 3);
            let genesis = client(0, 0x11, 500);
            assert_eq!(finish_create(&pending, &Ok(genesis)), 0);
        },
        _ => panic!("expected the bootstrap step"),
    }
}

#[test]
fn create_rejects_swapped_slot_ids() {
    let mut tx = create_tx(3);
    // Swap the data of the slot-1 and slot-2 client outputs.
    let a = tx.outputs[2].data.clone();
    tx.outputs[2].data = tx.outputs[3].data.clone();
    tx.outputs[3].data = a;
    match program_entry(&tx) {
        Step::InitClient { pending, .. } => {
            let genesis = client(0, 0x11, 500);
            assert_eq!(finish_create(&pending, &Ok(genesis)), 0x28);
        },
        _ => panic!("expected the bootstrap step"),
    }
}

#[test]
fn create_rejects_wrong_type_id() {
    let mut tx = create_tx(3);
    let mut args = tx.script_args.clone();
    args[0] ^= 0xff;
    tx.script_args = args;
    assert_eq!(exit_of(program_entry(&tx)), 0x23);
}

#[test]
fn create_rejects_too_small_ring() {
    let tx = create_tx(2);
    assert_eq!(exit_of(program_entry(&tx)), 0x20);
}

#[test]
fn create_rejects_interleaved_outputs() {
    let mut tx = create_tx(3);
    // A foreign cell between the info output and the client outputs.
    tx.outputs.insert(1, foreign(vec![5]));
    assert_eq!(exit_of(program_entry(&tx)), 0x21);
}

#[test]
fn create_rejects_count_mismatch() {
    let mut tx = create_tx(3);
    tx.outputs.insert(4, own(client(3, 0x11, 500)));
    assert_eq!(exit_of(program_entry(&tx)), 0x22);
}

#[test]
fn create_rejects_malformed_args() {
    let mut tx = create_tx(3);
    tx.script_args = vec![1, 2, 3];
    assert_eq!(exit_of(program_entry(&tx)), 0x04);
}

#[test]
fn create_rejects_missing_first_input() {
    let mut tx = create_tx(3);
    tx.first_input = None;
    assert_eq!(exit_of(program_entry(&tx)), 0x01);
}

#[test]
fn create_rejects_client_in_info_slot() {
    let mut tx = create_tx(3);
    tx.outputs[0].data = client(0, 0x11, 500);
    // The own-type outputs still count 4, but the first no longer frames as
    // an info; the expected type id changes with nothing else, so recompute.
    let type_id = expected_type_id(&first_input_bytes(), 4);
    tx.script_args = type_args(&type_id, 3, 0);
    assert_eq!(exit_of(program_entry(&tx)), 0x24);
}

#[test]
fn create_rejects_nonzero_initial_tip() {
    let mut tx = create_tx(3);
    tx.outputs[0].data = info(2);
    assert_eq!(exit_of(program_entry(&tx)), 0x25);
}

#[test]
fn create_rejects_missing_witness() {
    let mut tx = create_tx(3);
    tx.witnesses = vec![wit_empty()];
    assert_eq!(exit_of(program_entry(&tx)), 0x26);
}

#[test]
fn create_surfaces_witness_load_failure() {
    let mut tx = create_tx(3);
    tx.witnesses = vec![Err(SysCode::Encoding)];
    assert_eq!(exit_of(program_entry(&tx)), 0x04);
}

#[test]
fn create_surfaces_witness_out_of_range() {
    let mut tx = create_tx(3);
    tx.witnesses = Vec::new();
    assert_eq!(exit_of(program_entry(&tx)), 0x01);
}

#[test]
fn create_rejects_malformed_client_output() {
    let mut tx = create_tx(3);
    tx.outputs[2].data = vec![1, 2, 3, 4, 5];
    match program_entry(&tx) {
        Step::InitClient { pending, .. } => {
            let genesis = client(0, 0x11, 500);
            assert_eq!(finish_create(&pending, &Ok(genesis)), 0x27);
        },
        _ => panic!("expected the bootstrap step"),
    }
}

#[test]
fn create_surfaces_bootstrap_failure() {
    let tx = create_tx(3);
    match program_entry(&tx) {
        Step::InitClient { pending, .. } => {
            assert_eq!(finish_create(&pending, &Err(7)), 0x67);
        },
        _ => panic!("expected the bootstrap step"),
    }
}

/// A well-formed Update transaction: ring of five slots, stale tip zero.
fn update_tx() -> TxView {
    let type_id = vec![0x42; 32];
    TxView {
        script_hash: script_hash(),
        script_args: type_args(&type_id, 5, 0),
        first_input: Some(first_input_bytes()),
        inputs: vec![own(info(0)), own(client(1, 0x22, 700))],
        outputs: vec![own(info(1)), own(client(1, 0x33, 900))],
        cell_deps: vec![foreign(vec![8]), own(client(0, 0x22, 800))],
        witnesses: vec![wit_output(b"update-blob")],
    }
}

#[test]
fn update_accepts_single_step() {
    let tx = update_tx();
    match program_entry(&tx) {
        Step::VerifyClient(VerifyAsk { base, next, update, flags }) => {
            assert_eq!(base, client(1, 0x22, 800));
            assert_eq!(next, client(1, 0x33, 900));
            assert_eq!(update, b"update-blob".to_vec());
            assert_eq!(flags, 0);
            assert_eq!(finish_client_verify(&Ok(())), 0);
        },
        _ => panic!("expected the verify step"),
    }
}

#[test]
fn update_rejects_wrong_input_slot() {
    let mut tx = update_tx();
    tx.inputs[1].data = client(2, 0x22, 700);
    assert_eq!(exit_of(program_entry(&tx)), 0x42);
}

#[test]
fn update_rejects_missing_input_info() {
    let mut tx = update_tx();
    tx.inputs[0].data = client(3, 0x22, 700);
    assert_eq!(exit_of(program_entry(&tx)), 0x40);
}

#[test]
fn update_rejects_malformed_input_client() {
    let mut tx = update_tx();
    tx.inputs[1].data = vec![1, 2, 3];
    assert_eq!(exit_of(program_entry(&tx)), 0x41);
}

#[test]
fn update_rejects_missing_output_info() {
    let mut tx = update_tx();
    tx.outputs[0].data = client(1, 0x33, 900);
    assert_eq!(exit_of(program_entry(&tx)), 0x43);
}

#[test]
fn update_rejects_malformed_output_client() {
    let mut tx = update_tx();
    tx.outputs[1].data = vec![4, 4, 4];
    assert_eq!(exit_of(program_entry(&tx)), 0x44);
}

#[test]
fn update_rejects_changed_output_info() {
    let mut tx = update_tx();
    tx.outputs[0].data = info(2);
    assert_eq!(exit_of(program_entry(&tx)), 0x45);
}

#[test]
fn update_rejects_two_cell_deps() {
    let mut tx = update_tx();
    tx.cell_deps.push(own(client(0, 0x22, 800)));
    assert_eq!(exit_of(program_entry(&tx)), 0x46);
}

#[test]
fn update_rejects_missing_cell_dep() {
    let mut tx = update_tx();
    tx.cell_deps = vec![foreign(vec![8]), untyped()];
    assert_eq!(exit_of(program_entry(&tx)), 0x47);
}

#[test]
fn update_rejects_malformed_cell_dep() {
    let mut tx = update_tx();
    tx.cell_deps[1].data = vec![6, 6];
    assert_eq!(exit_of(program_entry(&tx)), 0x48);
}

#[test]
fn update_rejects_cell_dep_off_tip() {
    let mut tx = update_tx();
    tx.cell_deps[1].data = client(4, 0x22, 800);
    assert_eq!(exit_of(program_entry(&tx)), 0x49);
}

#[test]
fn update_rejects_missing_witness() {
    let mut tx = update_tx();
    tx.witnesses = vec![wit_empty()];
    assert_eq!(exit_of(program_entry(&tx)), 0x4a);
}

#[test]
fn update_surfaces_delegated_failure() {
    assert_eq!(finish_client_verify(&Err(3)), 0x63);
}

#[test]
fn delegated_ordinal_is_clamped_into_range() {
    assert_eq!(finish_client_verify(&Err(0xff)), 0x7f);
}

/// A well-formed Reorg transaction: ring of five slots, stale tip one,
/// depth three, so slots `{1, 0, 4}` are replaced, slot four becomes the new
/// tip, and the fork-point client sits in slot three.
fn reorg_tx(flags: u8, new_work: u64) -> TxView {
    let type_id = vec![0x42; 32];
    TxView {
        script_hash: script_hash(),
        script_args: type_args(&type_id, 5, flags),
        first_input: Some(first_input_bytes()),
        inputs: vec![
            own(client(1, 0x22, 1000)),
            own(info(1)),
            own(client(0, 0x23, 900)),
            own(client(4, 0x24, 800)),
        ],
        outputs: vec![
            own(info(4)),
            own(client(1, 0x55, new_work)),
            own(client(0, 0x55, new_work)),
            own(client(4, 0x55, new_work)),
        ],
        cell_deps: vec![own(client(3, 0x26, 700))],
        witnesses: vec![wit_output(b"reorg-update-blob")],
    }
}

#[test]
fn reorg_accepts_deeper_rollback() {
    let tx = reorg_tx(0, 2000);
    match program_entry(&tx) {
        Step::VerifyClient(VerifyAsk { base, next, update, flags }) => {
            assert_eq!(base, client(4, 0x26, 700));
            assert_eq!(next, client(4, 0x55, 2000));
            assert_eq!(update, b"reorg-update-blob".to_vec());
            assert_eq!(flags, 0);
            assert_eq!(finish_client_verify(&Ok(())), 0);
        },
        _ => panic!("expected the verify step"),
    }
}

#[test]
fn reorg_rejects_insufficient_work_on_mainnet() {
    let tx = reorg_tx(0, 1000);
    assert_eq!(exit_of(program_entry(&tx)), 0x56);
}

#[test]
fn reorg_tolerates_insufficient_work_on_testnet() {
    let tx = reorg_tx(1, 1000);
    match program_entry(&tx) {
        Step::VerifyClient(ask) => {
            assert_eq!(ask.flags, 1);
            assert_eq!(finish_client_verify(&Ok(())), 0);
        },
        _ => panic!("expected the verify step"),
    }
}

#[test]
fn reorg_rejects_duplicated_input_info() {
    let mut tx = reorg_tx(0, 2000);
    tx.inputs[3].data = info(2);
    assert_eq!(exit_of(program_entry(&tx)), 0x50);
}

#[test]
fn reorg_rejects_malformed_input() {
    let mut tx = reorg_tx(0, 2000);
    tx.inputs[2].data = vec![9, 9];
    assert_eq!(exit_of(program_entry(&tx)), 0x51);
}

#[test]
fn reorg_rejects_missing_input_info() {
    let mut tx = reorg_tx(0, 2000);
    tx.inputs[1].data = client(2, 0x22, 950);
    assert_eq!(exit_of(program_entry(&tx)), 0x52);
}

#[test]
fn reorg_rejects_unknown_tip_slot() {
    let mut tx = reorg_tx(0, 2000);
    tx.inputs[1].data = info(2);
    assert_eq!(exit_of(program_entry(&tx)), 0x54);
}

#[test]
fn reorg_rejects_wrong_input_slot_set() {
    let mut tx = reorg_tx(0, 2000);
    tx.inputs[3].data = client(3, 0x24, 800);
    assert_eq!(exit_of(program_entry(&tx)), 0x55);
}

#[test]
fn reorg_rejects_malformed_output() {
    let mut tx = reorg_tx(0, 2000);
    tx.outputs[2].data = vec![1, 2];
    assert_eq!(exit_of(program_entry(&tx)), 0x57);
}

#[test]
fn reorg_rejects_duplicated_output_info() {
    let mut tx = reorg_tx(0, 2000);
    tx.outputs[3].data = info(4);
    assert_eq!(exit_of(program_entry(&tx)), 0x58);
}

#[test]
fn reorg_rejects_missing_output_info() {
    let mut tx = reorg_tx(0, 2000);
    tx.outputs[0].data = client(4, 0x55, 2000);
    // With two id-4 outputs the scan still accepts them (equal bodies), so
    // the missing info is what gets reported.
    tx.outputs[3].data = client(0, 0x55, 2000);
    assert_eq!(exit_of(program_entry(&tx)), 0x59);
}

#[test]
fn reorg_rejects_missing_new_tip_output() {
    let mut tx = reorg_tx(0, 2000);
    tx.outputs[3].data = client(3, 0x55, 2000);
    assert_eq!(exit_of(program_entry(&tx)), 0x5a);
}

#[test]
fn reorg_rejects_wrong_output_slot_set() {
    let mut tx = reorg_tx(0, 2000);
    tx.outputs[1].data = client(4, 0x55, 2000);
    assert_eq!(exit_of(program_entry(&tx)), 0x5b);
}

#[test]
fn reorg_rejects_diverging_client_bodies() {
    let mut tx = reorg_tx(0, 2000);
    tx.outputs[2].data = client(0, 0x56, 2000);
    assert_eq!(exit_of(program_entry(&tx)), 0x5c);
}

#[test]
fn reorg_rejects_changed_output_info() {
    let mut tx = reorg_tx(0, 2000);
    tx.outputs[0].data = info(3);
    assert_eq!(exit_of(program_entry(&tx)), 0x45);
}

#[test]
fn reorg_rejects_two_cell_deps() {
    let mut tx = reorg_tx(0, 2000);
    tx.cell_deps.push(own(client(3, 0x26, 700)));
    assert_eq!(exit_of(program_entry(&tx)), 0x5d);
}

#[test]
fn reorg_rejects_malformed_cell_dep() {
    let mut tx = reorg_tx(0, 2000);
    tx.cell_deps[0].data = vec![0; 20];
    assert_eq!(exit_of(program_entry(&tx)), 0x5e);
}

#[test]
fn reorg_rejects_cell_dep_off_fork_point() {
    let mut tx = reorg_tx(0, 2000);
    tx.cell_deps[0].data = client(2, 0x26, 700);
    assert_eq!(exit_of(program_entry(&tx)), 0x5f);
}

#[test]
fn reorg_rejects_missing_witness() {
    let mut tx = reorg_tx(0, 2000);
    tx.witnesses = vec![wit_empty()];
    assert_eq!(exit_of(program_entry(&tx)), 0x4a);
}

#[test]
fn reorg_verdict_ignores_client_output_order() {
    // Permuting the client outputs of an accepted Reorg (the info cell and
    // the witness staying put) leaves every verdict identical.
    let tx = reorg_tx(0, 2000);
    let mut permuted = reorg_tx(0, 2000);
    let a = permuted.outputs[1].data.clone();
    permuted.outputs[1].data = permuted.outputs[3].data.clone();
    permuted.outputs[3].data = a;
    match (program_entry(&tx), program_entry(&permuted)) {
        (Step::VerifyClient(x), Step::VerifyClient(y)) => {
            assert_eq!(x.base, y.base);
            assert_eq!(x.next, y.next);
            assert_eq!(x.update, y.update);
            assert_eq!(x.flags, y.flags);
        },
        _ => panic!("expected both verify steps"),
    }
}

/// A well-formed Destroy transaction: ring of three slots spent, nothing
/// own-type produced.
fn destroy_tx(count_in_args: u8) -> TxView {
    let type_id = vec![0x42; 32];
    TxView {
        script_hash: script_hash(),
        script_args: type_args(&type_id, count_in_args, 0),
        first_input: None,
        inputs: vec![
            own(info(0)),
            own(client(0, 0x22, 500)),
            own(client(1, 0x22, 500)),
            own(client(2, 0x22, 500)),
        ],
        outputs: vec![foreign(vec![1])],
        cell_deps: Vec::new(),
        witnesses: Vec::new(),
    }
}

#[test]
fn destroy_accepts_whole_ring() {
    let tx = destroy_tx(3);
    assert_eq!(exit_of(program_entry(&tx)), 0);
}

#[test]
fn destroy_rejects_partial_ring() {
    let tx = destroy_tx(5);
    assert_eq!(exit_of(program_entry(&tx)), 0x3f);
}

#[test]
fn destroy_rejects_malformed_args() {
    let mut tx = destroy_tx(3);
    tx.script_args = vec![0; 10];
    assert_eq!(exit_of(program_entry(&tx)), 0x04);
}

#[test]
fn unknown_shape_is_rejected() {
    let mut tx = empty_tx();
    tx.inputs = vec![own(info(0))];
    tx.outputs = vec![own(info(1))];
    assert_eq!(exit_of(program_entry(&tx)), 0x10);
}

#[test]
fn no_own_cells_is_rejected() {
    let tx = empty_tx();
    assert_eq!(exit_of(program_entry(&tx)), 0x10);
}

#[test]
fn ring_arithmetic_wraps() {
    assert_eq!(next_client_id(0, 5), 1);
    assert_eq!(next_client_id(4, 5), 0);
    assert_eq!(prev_client_id(0, 5), 4);
    assert_eq!(prev_client_id(4, 5), 3);
}

#[test]
fn exit_codes_sit_in_their_ranges() {
    assert_eq!(InternalError::Encoding.code(), 0x04);
    assert_eq!(InternalError::UnknownOperation.code(), 0x10);
    assert_eq!(InternalError::CreateNewClientIsIncorrect.code(), 0x28);
    assert_eq!(InternalError::DestroyNotEnoughCells.code(), 0x3f);
    assert_eq!(InternalError::UpdateInputClientIdIsMismatch.code(), 0x42);
    assert_eq!(InternalError::ReorgNotBetterChain.code(), 0x56);
    assert_eq!(Error::Internal(InternalError::ItemMissing).exit_code(), 0x02);
    assert_eq!(Error::Bootstrap(0).exit_code(), 0x60);
    assert_eq!(Error::Update(0x1f).exit_code(), 0x7f);
}

#[test]
fn create_accepts_largest_ring() {
    let fi = first_input_bytes();
    let type_id = expected_type_id(&fi, 256);
    let mut outputs = vec![own(info(0))];
    for id in 0..=254u8 {
        outputs.push(own(client(id, 0x11, 500)));
    }
    let tx = TxView {
        script_hash: script_hash(),
        script_args: type_args(&type_id, 255, 0),
        first_input: Some(fi),
        inputs: vec![foreign(vec![1])],
        outputs,
        cell_deps: Vec::new(),
        witnesses: vec![wit_input(b"bootstrap-blob")],
    };
    match program_entry(&tx) {
        Step::InitClient { pending, .. } => {
            assert_eq!(pending.clients.len(), 255);
            let genesis = client(0, 0x11, 500);
            assert_eq!(finish_create(&pending, &Ok(genesis)), 0);
        },
        _ => panic!("expected the bootstrap step"),
    }
}

#[test]
fn update_wraps_past_the_last_slot() {
    let type_id = vec![0x42; 32];
    let tx = TxView {
        script_hash: script_hash(),
        script_args: type_args(&type_id, 5, 0),
        first_input: None,
        inputs: vec![own(info(4)), own(client(0, 0x22, 700))],
        outputs: vec![own(info(0)), own(client(0, 0x33, 900))],
        cell_deps: vec![own(client(4, 0x22, 800))],
        witnesses: vec![wit_output(b"update-blob")],
    };
    match program_entry(&tx) {
        Step::VerifyClient(ask) => {
            assert_eq!(ask.base, client(0, 0x22, 800));
            assert_eq!(finish_client_verify(&Ok(())), 0);
        },
        _ => panic!("expected the verify step"),
    }
}

#[test]
fn reorg_accepts_whole_ring_rollback() {
    // Depth equal to the ring size: the walk covers every slot, and the
    // fork-point slot coincides with the stale tip's.
    let type_id = vec![0x42; 32];
    let tx = TxView {
        script_hash: script_hash(),
        script_args: type_args(&type_id, 3, 0),
        first_input: None,
        inputs: vec![
            own(info(0)),
            own(client(0, 0x22, 1000)),
            own(client(2, 0x23, 900)),
            own(client(1, 0x24, 800)),
        ],
        outputs: vec![
            own(info(1)),
            own(client(0, 0x55, 2000)),
            own(client(2, 0x55, 2000)),
            own(client(1, 0x55, 2000)),
        ],
        cell_deps: vec![own(client(0, 0x26, 700))],
        witnesses: vec![wit_output(b"reorg-update-blob")],
    };
    match program_entry(&tx) {
        Step::VerifyClient(ask) => {
            assert_eq!(ask.base, client(1, 0x26, 700));
            assert_eq!(ask.next, client(1, 0x55, 2000));
            assert_eq!(finish_client_verify(&Ok(())), 0);
        },
        _ => panic!("expected the verify step"),
    }
}
