use ddss::{thread_target, to_request, try_thread_target, PoolConflict, UNINIT};

#[test]
fn thread_target_configures_once() {
    assert_eq!(thread_target(None, UNINIT), Some(0));
    assert_eq!(thread_target(Some(6), UNINIT), Some(6));
}

#[test]
fn thread_target_accepts_matching_or_indifferent_requests() {
    assert_eq!(thread_target(None, 0), None);
    assert_eq!(thread_target(None, 6), None);
    assert_eq!(thread_target(Some(6), 6), None);
}

#[test]
fn try_thread_target_reports_conflicting_cap() {
    assert_eq!(
        try_thread_target(Some(2), 6),
        Err(PoolConflict {
            applied: 6,
            requested: 2
        })
    );
}

#[test]
fn try_thread_target_reports_cap_after_auto() {
    assert_eq!(
        try_thread_target(Some(6), 0),
        Err(PoolConflict {
            applied: 0,
            requested: 6
        })
    );
}

#[test]
fn try_thread_target_agrees_with_thread_target() {
    assert_eq!(try_thread_target(None, UNINIT), Ok(Some(0)));
    assert_eq!(try_thread_target(Some(3), UNINIT), Ok(Some(3)));
    assert_eq!(try_thread_target(None, 3), Ok(None));
    assert_eq!(try_thread_target(Some(3), 3), Ok(None));
}

#[test]
fn none_never_conflicts() {
    for applied in [UNINIT, 0, 1, 6, i32::MAX] {
        assert!(try_thread_target(None, applied).is_ok());
    }
}

/// A run of requests configures the pool once: the first request picks the
/// size and every later one that is accepted leaves it alone.
#[test]
fn run_of_requests_configures_once() {
    let mut applied = UNINIT;
    let mut configured = Vec::new();
    for want in [Some(2), None, Some(2), None] {
        if let Some(t) = thread_target(want, applied) {
            configured.push(t);
            applied = t;
        }
    }
    assert_eq!(configured, vec![2]);
    assert_eq!(applied, 2);
    assert!(try_thread_target(Some(3), applied).is_err());
}

#[test]
fn to_request_passes_small_caps_through() {
    assert_eq!(to_request(1), 1);
    assert_eq!(to_request(6), 6);
    assert_eq!(to_request(i32::MAX as usize), i32::MAX);
}

#[test]
fn to_request_saturates_oversized_caps() {
    assert_eq!(to_request(i32::MAX as usize + 1), i32::MAX);
    assert_eq!(to_request(usize::MAX), i32::MAX);
}
