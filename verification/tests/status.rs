use ddss::{check, DdsError};

#[test]
fn check_accepts_non_negative_status() {
    assert_eq!(check(0), Ok(()));
    assert_eq!(check(1), Ok(()));
    assert_eq!(check(i32::MAX), Ok(()));
}

#[test]
fn check_names_every_known_code() {
    let table = [
        (-2, DdsError::ZeroCards),
        (-3, DdsError::TargetTooHigh),
        (-4, DdsError::DuplicateCards),
        (-5, DdsError::TargetWrongLo),
        (-7, DdsError::TargetWrongHi),
        (-8, DdsError::SolnsWrongLo),
        (-9, DdsError::SolnsWrongHi),
        (-10, DdsError::TooManyCards),
        (-12, DdsError::SuitOrRank),
        (-13, DdsError::PlayedCard),
        (-14, DdsError::CardCount),
        (-15, DdsError::ThreadIndex),
        (-16, DdsError::ModeWrongLo),
        (-17, DdsError::ModeWrongHi),
        (-18, DdsError::TrumpWrong),
        (-19, DdsError::FirstWrong),
        (-98, DdsError::PlayFault),
        (-99, DdsError::PbnFault),
        (-101, DdsError::TooManyBoards),
        (-102, DdsError::ThreadCreate),
        (-103, DdsError::ThreadWait),
        (-104, DdsError::ThreadMissing),
        (-201, DdsError::NoSuit),
        (-202, DdsError::TooManyTables),
        (-301, DdsError::ChunkSize),
    ];
    for (code, err) in table {
        assert_eq!(check(code), Err(err));
    }
}

#[test]
fn check_maps_other_negative_codes_to_unknown_fault() {
    for code in [-1, -6, -11, -20, -100, -300, -302, i32::MIN] {
        assert_eq!(check(code), Err(DdsError::UnknownFault));
    }
}
