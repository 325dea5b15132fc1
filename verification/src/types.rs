//! The verifier's view of a transaction, and the steps it answers with.
//!
//! The host runtime owns the transaction; a thin driver reads it through the
//! host primitives (`load_script`, `load_input`, `load_cell_data`,
//! `load_cell_type_hash`, `load_witness_args`) and hands the verifier plain
//! values.  Within one verification run repeated reads are deterministic, so
//! the view is a faithful snapshot.  Where a witness failed to load, the
//! driver records the failure code instead, and the verifier surfaces it only
//! if the operation actually needs that witness.

use crate::error::SysCode;
use vstd::prelude::*;

verus! {

/// Model of a sequence of cells.
pub open spec fn cells_model(s: Seq<CellEntry>) -> Seq<CellModel> {
    s.map_values(|c: CellEntry| c@)
}

/// Model of a sequence of witness slots.
pub open spec fn witnesses_model(
    s: Seq<Result<WitnessArgs, SysCode>>,
) -> Seq<Result<WitnessModel, SysCode>> {
    s.map_values(
        |w: Result<WitnessArgs, SysCode>|
            match w {
                Ok(a) => Ok(a@),
                Err(c) => Err(c),
            },
    )
}

/// One cell as seen on some side of the transaction.
pub struct CellEntry {
    /// Hash of the cell's type script, if it has one.
    pub type_hash: Option<Vec<u8>>,
    /// The cell's data.
    pub data: Vec<u8>,
}

/// Model of [`CellEntry`].
pub struct CellModel {
    pub type_hash: Option<Seq<u8>>,
    pub data: Seq<u8>,
}

impl View for CellEntry {
    type V = CellModel;

    open spec fn view(&self) -> CellModel {
        CellModel {
            type_hash: match self.type_hash {
                Some(h) => Some(h@),
                None => None,
            },
            data: self.data@,
        }
    }
}

/// The two fields of a witness that this verifier reads.
pub struct WitnessArgs {
    /// Carries the bootstrap on the create path.
    pub input_type: Option<Vec<u8>>,
    /// Carries the update on the update and reorg paths.
    pub output_type: Option<Vec<u8>>,
}

/// Model of [`WitnessArgs`].
pub struct WitnessModel {
    pub input_type: Option<Seq<u8>>,
    pub output_type: Option<Seq<u8>>,
}

impl View for WitnessArgs {
    type V = WitnessModel;

    open spec fn view(&self) -> WitnessModel {
        WitnessModel {
            input_type: match self.input_type {
                Some(b) => Some(b@),
                None => None,
            },
            output_type: match self.output_type {
                Some(b) => Some(b@),
                None => None,
            },
        }
    }
}

/// Snapshot of everything the verifier may read from the transaction.
pub struct TxView {
    /// Hash of the currently executing type script.
    pub script_hash: Vec<u8>,
    /// Arguments of the currently executing type script.
    pub script_args: Vec<u8>,
    /// Serialized first input of the transaction, if the transaction has one.
    pub first_input: Option<Vec<u8>>,
    /// Input cells, by transaction index.
    pub inputs: Vec<CellEntry>,
    /// Output cells, by transaction index.
    pub outputs: Vec<CellEntry>,
    /// Cell-deps, by transaction index.
    pub cell_deps: Vec<CellEntry>,
    /// Witnesses, by transaction index; a slot holds the failure code where
    /// the witness could not be loaded.
    pub witnesses: Vec<Result<WitnessArgs, SysCode>>,
}

/// Model of [`TxView`].
pub struct TxModel {
    pub script_hash: Seq<u8>,
    pub script_args: Seq<u8>,
    pub first_input: Option<Seq<u8>>,
    pub inputs: Seq<CellModel>,
    pub outputs: Seq<CellModel>,
    pub cell_deps: Seq<CellModel>,
    pub witnesses: Seq<Result<WitnessModel, SysCode>>,
}

impl View for TxView {
    type V = TxModel;

    open spec fn view(&self) -> TxModel {
        TxModel {
            script_hash: self.script_hash@,
            script_args: self.script_args@,
            first_input: match self.first_input {
                Some(b) => Some(b@),
                None => None,
            },
            inputs: cells_model(self.inputs@),
            outputs: cells_model(self.outputs@),
            cell_deps: cells_model(self.cell_deps@),
            witnesses: witnesses_model(self.witnesses@),
        }
    }
}

/// Reading the witness at `i`, as the host primitive would answer.
pub open spec fn spec_witness_at(
    ws: Seq<Result<WitnessModel, SysCode>>,
    i: int,
) -> Result<WitnessModel, SysCode> {
    if 0 <= i < ws.len() {
        ws[i]
    } else {
        Err(SysCode::IndexOutOfBound)
    }
}

pub open spec fn opt_bytes_model(o: Option<Vec<u8>>) -> Option<Seq<u8>> {
    match o {
        Some(b) => Some(b@),
        None => None,
    }
}

impl TxView {
    /// The `input_type` field of the witness at `i`.
    pub fn witness_input_type(&self, i: usize) -> (r: Result<Option<Vec<u8>>, SysCode>)
        ensures
            match r {
                Ok(o) => spec_witness_at(self@.witnesses, i as int) matches Ok(w) && w.input_type
                    == opt_bytes_model(o),
                Err(c) => spec_witness_at(self@.witnesses, i as int) == Err::<
                    WitnessModel,
                    SysCode,
                >(c),
            },
    {
        if i >= self.witnesses.len() {
            return Err(SysCode::IndexOutOfBound);
        }
        match &self.witnesses[i] {
            Ok(w) => match &w.input_type {
                Some(b) => Ok(Some(b.clone())),
                None => Ok(None),
            },
            Err(c) => Err(*c),
        }
    }

    /// The `output_type` field of the witness at `i`.
    pub fn witness_output_type(&self, i: usize) -> (r: Result<Option<Vec<u8>>, SysCode>)
        ensures
            match r {
                Ok(o) => spec_witness_at(self@.witnesses, i as int) matches Ok(w) && w.output_type
                    == opt_bytes_model(o),
                Err(c) => spec_witness_at(self@.witnesses, i as int) == Err::<
                    WitnessModel,
                    SysCode,
                >(c),
            },
    {
        if i >= self.witnesses.len() {
            return Err(SysCode::IndexOutOfBound);
        }
        match &self.witnesses[i] {
            Ok(w) => match &w.output_type {
                Some(b) => Ok(Some(b.clone())),
                None => Ok(None),
            },
            Err(c) => Err(*c),
        }
    }
}

/// What remains to be checked of a Create once the delegated bootstrap call
/// has produced the genesis client.
pub struct CreatePending {
    /// Data of the own-type client outputs, in output order (the info output
    /// comes before them and is already checked).
    pub clients: Vec<Vec<u8>>,
}

/// Model of [`CreatePending`].
pub struct CreatePendingModel {
    pub clients: Seq<Seq<u8>>,
}

impl View for CreatePending {
    type V = CreatePendingModel;

    open spec fn view(&self) -> CreatePendingModel {
        CreatePendingModel { clients: self.clients@.map_values(|v: Vec<u8>| v@) }
    }
}

/// Arguments of the delegated `verify_new_client` call.
pub struct VerifyAsk {
    /// Packed verification base: the cell-dep client, re-packed with the slot
    /// the new tip will occupy.
    pub base: Vec<u8>,
    /// Packed candidate for the new tip client.
    pub next: Vec<u8>,
    /// The update carried by the witness, forwarded verbatim.
    pub update: Vec<u8>,
    /// Chain-type flags from the script arguments.
    pub flags: u8,
}

/// Model of [`VerifyAsk`].
pub struct VerifyAskModel {
    pub base: Seq<u8>,
    pub next: Seq<u8>,
    pub update: Seq<u8>,
    pub flags: u8,
}

impl View for VerifyAsk {
    type V = VerifyAskModel;

    open spec fn view(&self) -> VerifyAskModel {
        VerifyAskModel {
            base: self.base@,
            next: self.next@,
            update: self.update@,
            flags: self.flags,
        }
    }
}

/// Answer of the entry function: either a verdict, or the delegated call the
/// driver must perform before the verdict can be reached.
pub enum Step {
    /// The exit byte itself: zero accepts the transaction, anything else
    /// rejects it.
    Exit(i8),
    /// Run the delegated bootstrap over the witness-borne bytes, then finish
    /// the Create with [`crate::create::finish_create`].
    InitClient { bootstrap: Vec<u8>, pending: CreatePending },
    /// Run the delegated client verification, then map its outcome with
    /// [`crate::entry::finish_client_verify`].
    VerifyClient(VerifyAsk),
}

/// Model of [`Step`].
pub enum StepModel {
    Exit(i8),
    InitClient { bootstrap: Seq<u8>, pending: CreatePendingModel },
    VerifyClient(VerifyAskModel),
}

impl View for Step {
    type V = StepModel;

    open spec fn view(&self) -> StepModel {
        match self {
            Step::Exit(c) => StepModel::Exit(*c),
            Step::InitClient { bootstrap, pending } => StepModel::InitClient {
                bootstrap: bootstrap@,
                pending: pending@,
            },
            Step::VerifyClient(ask) => StepModel::VerifyClient(ask@),
        }
    }
}

} // verus!
