//! Error taxonomy and the exit-code encoder.
//!
//! The program's only user-visible surface is a signed exit byte: `0` on
//! success, otherwise a stable code in fixed ranges so failures can be
//! diagnosed from logs alone: `0x01..=0x0f` runtime and codec, `0x10..=0x1f`
//! dispatch, `0x20..=0x37` create, `0x38..=0x3f` destroy, `0x40..=0x4f`
//! update, `0x50..=0x5f` reorg, and `0x60..=0x7f` failures surfaced from the
//! delegated header-chain verifier, re-based by `0x60`.

use vstd::prelude::*;

verus! {

/// A host primitive failed while the driver assembled the transaction view.
#[derive(Clone, Copy, PartialEq, Eq, Structural, Debug)]
pub enum SysCode {
    IndexOutOfBound,
    ItemMissing,
    LengthNotEnough,
    Encoding,
    Unknown,
}

/// Failures raised by the verifier itself (not by the delegated
/// header-chain checks).
#[derive(Clone, Copy, PartialEq, Eq, Structural, Debug)]
pub enum InternalError {
    // 0x01..=0x0f: system or codec errors surfaced from host primitives.
    IndexOutOfBound,
    ItemMissing,
    LengthNotEnough,
    Encoding,
    Unknown,
    // 0x10..=0x1f: the transaction shape fits no operation.
    UnknownOperation,
    // 0x20..=0x37: create.
    CreateNotEnoughCells,
    CreateShouldBeOrdered,
    CreateCellsCountNotMatched,
    CreateIncorrectUniqueId,
    CreateBadInfoCellData,
    CreateInfoIndexShouldBeZero,
    CreateWitnessIsNotExisted,
    CreateBadClientCellData,
    CreateNewClientIsIncorrect,
    // 0x38..=0x3f: destroy.
    DestroyNotEnoughCells,
    // 0x40..=0x4f: update.
    UpdateInputInfoNotFound,
    UpdateInputClientNotFound,
    UpdateInputClientIdIsMismatch,
    UpdateOutputInfoNotFound,
    UpdateOutputClientNotFound,
    UpdateOutputInfoChanged,
    UpdateCellDepMoreThanOne,
    UpdateCellDepNotFound,
    UpdateCellDepClientNotFound,
    UpdateCellDepClientIdIsMismatch,
    UpdateWitnessIsNotExisted,
    // 0x50..=0x5f: reorg.
    ReorgInputInfoDuplicated,
    ReorgInputMalformed,
    ReorgInputInfoNotFound,
    ReorgInputClientNotEnough,
    ReorgInputTipClientNotFound,
    ReorgInputClientIdsIsMismatch,
    ReorgNotBetterChain,
    ReorgOutputMalformed,
    ReorgOutputInfoDuplicated,
    ReorgOutputInfoNotFound,
    ReorgOutputTipClientNotFound,
    ReorgOutputClientIdsIsMismatch,
    ReorgNewClientIsIncorrect,
    ReorgCellDepMoreThanOne,
    ReorgCellDepClientNotFound,
    ReorgCellDepClientIdIsMismatch,
}

/// Any failure the program can exit with.
#[derive(Clone, Copy, PartialEq, Eq, Structural, Debug)]
pub enum Error {
    /// A check of the verifier itself failed.
    Internal(InternalError),
    /// The delegated bootstrap (genesis client initialization) failed;
    /// carries the collaborator's error ordinal.
    Bootstrap(u8),
    /// The delegated update verification failed; carries the collaborator's
    /// error ordinal.
    Update(u8),
}

/// The sys-error range of [`InternalError`], as reported by a host primitive.
pub open spec fn spec_sys_error(c: SysCode) -> InternalError {
    match c {
        SysCode::IndexOutOfBound => InternalError::IndexOutOfBound,
        SysCode::ItemMissing => InternalError::ItemMissing,
        SysCode::LengthNotEnough => InternalError::LengthNotEnough,
        SysCode::Encoding => InternalError::Encoding,
        SysCode::Unknown => InternalError::Unknown,
    }
}

pub fn sys_error(c: SysCode) -> (r: InternalError)
    ensures
        r == spec_sys_error(c),
{
    match c {
        SysCode::IndexOutOfBound => InternalError::IndexOutOfBound,
        SysCode::ItemMissing => InternalError::ItemMissing,
        SysCode::LengthNotEnough => InternalError::LengthNotEnough,
        SysCode::Encoding => InternalError::Encoding,
        SysCode::Unknown => InternalError::Unknown,
    }
}

/// Stable exit byte of each internal failure.
pub open spec fn spec_internal_code(e: InternalError) -> i8 {
    match e {
        InternalError::IndexOutOfBound => 0x01,
        InternalError::ItemMissing => 0x02,
        InternalError::LengthNotEnough => 0x03,
        InternalError::Encoding => 0x04,
        InternalError::Unknown => 0x05,
        InternalError::UnknownOperation => 0x10,
        InternalError::CreateNotEnoughCells => 0x20,
        InternalError::CreateShouldBeOrdered => 0x21,
        InternalError::CreateCellsCountNotMatched => 0x22,
        InternalError::CreateIncorrectUniqueId => 0x23,
        InternalError::CreateBadInfoCellData => 0x24,
        InternalError::CreateInfoIndexShouldBeZero => 0x25,
        InternalError::CreateWitnessIsNotExisted => 0x26,
        InternalError::CreateBadClientCellData => 0x27,
        InternalError::CreateNewClientIsIncorrect => 0x28,
        InternalError::DestroyNotEnoughCells => 0x3f,
        InternalError::UpdateInputInfoNotFound => 0x40,
        InternalError::UpdateInputClientNotFound => 0x41,
        InternalError::UpdateInputClientIdIsMismatch => 0x42,
        InternalError::UpdateOutputInfoNotFound => 0x43,
        InternalError::UpdateOutputClientNotFound => 0x44,
        InternalError::UpdateOutputInfoChanged => 0x45,
        InternalError::UpdateCellDepMoreThanOne => 0x46,
        InternalError::UpdateCellDepNotFound => 0x47,
        InternalError::UpdateCellDepClientNotFound => 0x48,
        InternalError::UpdateCellDepClientIdIsMismatch => 0x49,
        InternalError::UpdateWitnessIsNotExisted => 0x4a,
        InternalError::ReorgInputInfoDuplicated => 0x50,
        InternalError::ReorgInputMalformed => 0x51,
        InternalError::ReorgInputInfoNotFound => 0x52,
        InternalError::ReorgInputClientNotEnough => 0x53,
        InternalError::ReorgInputTipClientNotFound => 0x54,
        InternalError::ReorgInputClientIdsIsMismatch => 0x55,
        InternalError::ReorgNotBetterChain => 0x56,
        InternalError::ReorgOutputMalformed => 0x57,
        InternalError::ReorgOutputInfoDuplicated => 0x58,
        InternalError::ReorgOutputInfoNotFound => 0x59,
        InternalError::ReorgOutputTipClientNotFound => 0x5a,
        InternalError::ReorgOutputClientIdsIsMismatch => 0x5b,
        InternalError::ReorgNewClientIsIncorrect => 0x5c,
        InternalError::ReorgCellDepMoreThanOne => 0x5d,
        InternalError::ReorgCellDepClientNotFound => 0x5e,
        InternalError::ReorgCellDepClientIdIsMismatch => 0x5f,
    }
}

/// Exit byte of a delegated failure: the collaborator's ordinal re-based by
/// `0x60`, clamped into the delegated range `0x60..=0x7f`.
pub open spec fn spec_delegated_code(e: u8) -> i8 {
    if e <= 0x1f {
        (0x60 + e) as i8
    } else {
        0x7f
    }
}

/// Exit byte of any failure.
pub open spec fn spec_error_code(e: Error) -> i8 {
    match e {
        Error::Internal(i) => spec_internal_code(i),
        Error::Bootstrap(o) => spec_delegated_code(o),
        Error::Update(o) => spec_delegated_code(o),
    }
}

impl InternalError {
    /// Stable exit byte of this failure.
    pub fn code(self) -> (r: i8)
        ensures
            r == spec_internal_code(self),
    {
        match self {
            InternalError::IndexOutOfBound => 0x01,
            InternalError::ItemMissing => 0x02,
            InternalError::LengthNotEnough => 0x03,
            InternalError::Encoding => 0x04,
            InternalError::Unknown => 0x05,
            InternalError::UnknownOperation => 0x10,
            InternalError::CreateNotEnoughCells => 0x20,
            InternalError::CreateShouldBeOrdered => 0x21,
            InternalError::CreateCellsCountNotMatched => 0x22,
            InternalError::CreateIncorrectUniqueId => 0x23,
            InternalError::CreateBadInfoCellData => 0x24,
            InternalError::CreateInfoIndexShouldBeZero => 0x25,
            InternalError::CreateWitnessIsNotExisted => 0x26,
            InternalError::CreateBadClientCellData => 0x27,
            InternalError::CreateNewClientIsIncorrect => 0x28,
            InternalError::DestroyNotEnoughCells => 0x3f,
            InternalError::UpdateInputInfoNotFound => 0x40,
            InternalError::UpdateInputClientNotFound => 0x41,
            InternalError::UpdateInputClientIdIsMismatch => 0x42,
            InternalError::UpdateOutputInfoNotFound => 0x43,
            InternalError::UpdateOutputClientNotFound => 0x44,
            InternalError::UpdateOutputInfoChanged => 0x45,
            InternalError::UpdateCellDepMoreThanOne => 0x46,
            InternalError::UpdateCellDepNotFound => 0x47,
            InternalError::UpdateCellDepClientNotFound => 0x48,
            InternalError::UpdateCellDepClientIdIsMismatch => 0x49,
            InternalError::UpdateWitnessIsNotExisted => 0x4a,
            InternalError::ReorgInputInfoDuplicated => 0x50,
            InternalError::ReorgInputMalformed => 0x51,
            InternalError::ReorgInputInfoNotFound => 0x52,
            InternalError::ReorgInputClientNotEnough => 0x53,
            InternalError::ReorgInputTipClientNotFound => 0x54,
            InternalError::ReorgInputClientIdsIsMismatch => 0x55,
            InternalError::ReorgNotBetterChain => 0x56,
            InternalError::ReorgOutputMalformed => 0x57,
            InternalError::ReorgOutputInfoDuplicated => 0x58,
            InternalError::ReorgOutputInfoNotFound => 0x59,
            InternalError::ReorgOutputTipClientNotFound => 0x5a,
            InternalError::ReorgOutputClientIdsIsMismatch => 0x5b,
            InternalError::ReorgNewClientIsIncorrect => 0x5c,
            InternalError::ReorgCellDepMoreThanOne => 0x5d,
            InternalError::ReorgCellDepClientNotFound => 0x5e,
            InternalError::ReorgCellDepClientIdIsMismatch => 0x5f,
        }
    }
}

impl Error {
    /// Exit byte of this failure.
    pub fn exit_code(self) -> (r: i8)
        ensures
            r == spec_error_code(self),
    {
        match self {
            Error::Internal(i) => i.code(),
            Error::Bootstrap(o) => delegated_code(o),
            Error::Update(o) => delegated_code(o),
        }
    }
}

/// Re-base a delegated error ordinal into the exit range `0x60..=0x7f`.
pub fn delegated_code(e: u8) -> (r: i8)
    ensures
        r == spec_delegated_code(e),
{
    if e <= 0x1f {
        (0x60 + e) as i8
    } else {
        0x7f
    }
}

/// Every internal failure exits with a code in `0x01..=0x5f`; delegated
/// failures exit in `0x60..=0x7f`; success is `0`.  The ranges never collide.
pub proof fn lemma_exit_ranges(e: Error)
    ensures
        0x01 <= spec_error_code(e) <= 0x7f,
        match e {
            Error::Internal(_) => 0x01 <= spec_error_code(e) <= 0x5f,
            _ => 0x60 <= spec_error_code(e) <= 0x7f,
        },
{
}

} // verus!
