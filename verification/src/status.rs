use vstd::prelude::*;

verus! {

/// A failure reported by ddss through a negative status code.
///
/// The variants follow the error codes of the DDS interface (`dll.h`);
/// every negative code that is not one of them is an
/// [`DdsError::UnknownFault`].
#[derive(Debug, Clone, Copy, PartialEq, Eq)]
pub enum DdsError {
    /// General error, and any negative code without a meaning of its own.
    UnknownFault,
    /// Zero cards (code -2).
    ZeroCards,
    /// Target exceeds number of tricks (code -3).
    TargetTooHigh,
    /// Cards duplicated (code -4).
    DuplicateCards,
    /// Target is less than -1 (code -5).
    TargetWrongLo,
    /// Target is higher than 13 (code -7).
    TargetWrongHi,
    /// Solutions parameter is less than 1 (code -8).
    SolnsWrongLo,
    /// Solutions parameter is higher than 3 (code -9).
    SolnsWrongHi,
    /// Too many cards (code -10).
    TooManyCards,
    /// currentTrickSuit or currentTrickRank has wrong data (code -12).
    SuitOrRank,
    /// Played card also remains in a hand (code -13).
    PlayedCard,
    /// Wrong number of remaining cards in a hand (code -14).
    CardCount,
    /// Thread index is not 0 .. maximum (code -15).
    ThreadIndex,
    /// Mode parameter is less than 0 (code -16).
    ModeWrongLo,
    /// Mode parameter is higher than 2 (code -17).
    ModeWrongHi,
    /// Trump is not in 0 .. 4 (code -18).
    TrumpWrong,
    /// First is not in 0 .. 2 (code -19).
    FirstWrong,
    /// AnalysePlay input error (code -98).
    PlayFault,
    /// PBN string error (code -99).
    PbnFault,
    /// Too many boards requested (code -101).
    TooManyBoards,
    /// Could not create threads (code -102).
    ThreadCreate,
    /// Something failed waiting for thread to end (code -103).
    ThreadWait,
    /// Multi-threading system not present (code -104).
    ThreadMissing,
    /// Denomination filter vector has no entries (code -201).
    NoSuit,
    /// Too many DD tables requested (code -202).
    TooManyTables,
    /// Chunk size is less than 1 (code -301).
    ChunkSize,
}

/// The error that a negative ddss status code stands for.
pub open spec fn spec_error_of(status: i32) -> DdsError {
    if status == -2 {
        DdsError::ZeroCards
    } else if status == -3 {
        DdsError::TargetTooHigh
    } else if status == -4 {
        DdsError::DuplicateCards
    } else if status == -5 {
        DdsError::TargetWrongLo
    } else if status == -7 {
        DdsError::TargetWrongHi
    } else if status == -8 {
        DdsError::SolnsWrongLo
    } else if status == -9 {
        DdsError::SolnsWrongHi
    } else if status == -10 {
        DdsError::TooManyCards
    } else if status == -12 {
        DdsError::SuitOrRank
    } else if status == -13 {
        DdsError::PlayedCard
    } else if status == -14 {
        DdsError::CardCount
    } else if status == -15 {
        DdsError::ThreadIndex
    } else if status == -16 {
        DdsError::ModeWrongLo
    } else if status == -17 {
        DdsError::ModeWrongHi
    } else if status == -18 {
        DdsError::TrumpWrong
    } else if status == -19 {
        DdsError::FirstWrong
    } else if status == -98 {
        DdsError::PlayFault
    } else if status == -99 {
        DdsError::PbnFault
    } else if status == -101 {
        DdsError::TooManyBoards
    } else if status == -102 {
        DdsError::ThreadCreate
    } else if status == -103 {
        DdsError::ThreadWait
    } else if status == -104 {
        DdsError::ThreadMissing
    } else if status == -201 {
        DdsError::NoSuit
    } else if status == -202 {
        DdsError::TooManyTables
    } else if status == -301 {
        DdsError::ChunkSize
    } else {
        DdsError::UnknownFault
    }
}

/// Classifies a ddss status code: non-negative codes mean success, negative
/// ones name the failure.
pub fn check(status: i32) -> (res: Result<(), DdsError>)
    ensures
        res is Ok <==> status >= 0,
        res matches Err(e) ==> e == spec_error_of(status),
{
    if status >= 0 {
        return Ok(());
    }
    let err = match status {
        -2 => DdsError::ZeroCards,
        -3 => DdsError::TargetTooHigh,
        -4 => DdsError::DuplicateCards,
        -5 => DdsError::TargetWrongLo,
        -7 => DdsError::TargetWrongHi,
        -8 => DdsError::SolnsWrongLo,
        -9 => DdsError::SolnsWrongHi,
        -10 => DdsError::TooManyCards,
        -12 => DdsError::SuitOrRank,
        -13 => DdsError::PlayedCard,
        -14 => DdsError::CardCount,
        -15 => DdsError::ThreadIndex,
        -16 => DdsError::ModeWrongLo,
        -17 => DdsError::ModeWrongHi,
        -18 => DdsError::TrumpWrong,
        -19 => DdsError::FirstWrong,
        -98 => DdsError::PlayFault,
        -99 => DdsError::PbnFault,
        -101 => DdsError::TooManyBoards,
        -102 => DdsError::ThreadCreate,
        -103 => DdsError::ThreadWait,
        -104 => DdsError::ThreadMissing,
        -201 => DdsError::NoSuit,
        -202 => DdsError::TooManyTables,
        -301 => DdsError::ChunkSize,
        _ => DdsError::UnknownFault,
    };
    Err(err)
}

} // verus!
