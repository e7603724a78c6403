use vstd::prelude::*;

verus! {

/// Sentinel for the applied thread count: the pool has not been configured.
pub const UNINIT: i32 = -1;

/// `want` asks for a cap that differs from the one the pool already has.
pub open spec fn is_conflict(want: Option<i32>, applied: i32) -> bool {
    match want {
        Some(n) => applied != UNINIT && n != applied,
        None => false,
    }
}

/// What to pass to `SetMaxThreads`, if anything, for a request that does
/// not conflict with the current configuration.
pub open spec fn spec_thread_target(want: Option<i32>, applied: i32) -> Option<i32> {
    if applied == UNINIT {
        match want {
            Some(n) => Some(n),
            None => Some(0),
        }
    } else {
        None
    }
}

/// The applied configuration once a request has been served.
pub open spec fn applied_after(want: Option<i32>, applied: i32) -> i32 {
    match spec_thread_target(want, applied) {
        Some(t) => t,
        None => applied,
    }
}

/// Decides what to pass to `SetMaxThreads`, if anything.
///
/// `want` is `Some(n)` to request a thread cap or `None` when the caller has
/// no preference; `applied` is the configuration already in place, or
/// [`UNINIT`].  The first call picks the size (0 means auto-detect) and later
/// calls may only repeat it.  A request for a different cap after the pool
/// has been configured is refused by `requires`; [`try_thread_target`]
/// reports it instead.
pub fn thread_target(want: Option<i32>, applied: i32) -> (target: Option<i32>)
    requires
        !is_conflict(want, applied),
    ensures
        target == spec_thread_target(want, applied),
{
    match want {
        None => {
            if applied == UNINIT {
                Some(0)
            } else {
                None
            }
        },
        Some(n) => {
            if applied == UNINIT {
                Some(n)
            } else {
                None
            }
        },
    }
}

/// A request for a thread cap that differs from the configured one.
#[derive(Debug, Clone, Copy, PartialEq, Eq)]
pub struct PoolConflict {
    /// The configuration in place (0 means no maximum).
    pub applied: i32,
    /// The cap that was asked for.
    pub requested: i32,
}

/// [`thread_target`] for every request: a conflicting request is reported
/// as an error that names both values instead of being ruled out.
pub fn try_thread_target(want: Option<i32>, applied: i32) -> (res: Result<Option<i32>, PoolConflict>)
    ensures
        res is Err <==> is_conflict(want, applied),
        res is Err <==> (applied != UNINIT && want is Some && want->0 != applied),
        res matches Ok(t) ==> t == spec_thread_target(want, applied),
        res matches Err(e) ==> e.applied == applied && want == Some(e.requested),
{
    match want {
        Some(n) => {
            if applied != UNINIT && n != applied {
                return Err(PoolConflict { applied, requested: n });
            }
        },
        None => {},
    }
    Ok(thread_target(want, applied))
}

/// Maps a requested cap to ddss's `SetMaxThreads` argument, saturating
/// requests that do not fit in an `i32` at `i32::MAX` (ddss clamps the
/// value to the detected core count anyway).
pub fn to_request(threads: usize) -> (n: i32)
    requires
        threads != 0,
    ensures
        threads <= i32::MAX ==> n == threads,
        threads > i32::MAX ==> n == i32::MAX,
        n >= 1,
{
    if threads <= 0x7fff_ffffusize {
        threads as i32
    } else {
        i32::MAX
    }
}

/// Once the pool is configured it accepts exactly one cap, the configured
/// one: every request for another cap is a conflict, and of two accepted
/// caps both are the same.
pub proof fn lemma_configured_pool_accepts_one_cap(applied: i32, n: i32, m: i32)
    requires
        applied != UNINIT,
    ensures
        !is_conflict(Some(applied), applied),
        n != applied ==> is_conflict(Some(n), applied),
        !is_conflict(Some(n), applied) && !is_conflict(Some(m), applied) ==> n == m,
{
}

/// A pool configured by a first request for cap `n` refuses every later
/// request for a cap other than `n`, and accepts `n` itself.
pub proof fn lemma_first_cap_fixes_later_requests(n: i32, m: i32)
    requires
        n != UNINIT,
    ensures
        applied_after(Some(n), UNINIT) == n,
        is_conflict(Some(m), applied_after(Some(n), UNINIT)) <==> m != n,
{
}

/// A request without preference is never refused.
pub proof fn lemma_no_preference_never_conflicts(applied: i32)
    ensures
        !is_conflict(None, applied),
        applied != UNINIT ==> spec_thread_target(None, applied) is None,
{
}

/// The first request of the process configures the pool: with the requested
/// cap, or with 0 (auto-detect) when there is no preference.
pub proof fn lemma_first_request_configures(want: Option<i32>)
    ensures
        !is_conflict(want, UNINIT),
        spec_thread_target(want, UNINIT) == Some(
            match want {
                Some(n) => n,
                None => 0i32,
            },
        ),
{
}

/// Repeating the configured value is free: it is accepted and does not
/// touch the pool.
pub proof fn lemma_repeated_request_is_free(n: i32)
    requires
        n != UNINIT,
    ensures
        !is_conflict(Some(n), n),
        spec_thread_target(Some(n), n) is None,
        applied_after(Some(n), n) == n,
{
}

/// The applied configuration after serving `reqs` in order, starting from
/// `applied`.
pub open spec fn applied_after_all(applied: i32, reqs: Seq<Option<i32>>) -> i32
    decreases reqs.len(),
{
    if reqs.len() == 0 {
        applied
    } else {
        applied_after(reqs.last(), applied_after_all(applied, reqs.drop_last()))
    }
}

/// Every request of `reqs` is served without conflict, and none asks for
/// the sentinel value itself.
pub open spec fn served_without_conflict(applied: i32, reqs: Seq<Option<i32>>) -> bool {
    forall|i: int|
        0 <= i < reqs.len() ==> {
            &&& !is_conflict(#[trigger] reqs[i], applied_after_all(applied, reqs.take(i)))
            &&& reqs[i] != Some(UNINIT)
        }
}

/// The pool is configured at most once per process: of a run of requests
/// that are all served, only the first may call `SetMaxThreads`, and the
/// configuration it picks holds for the rest of the run.
pub proof fn lemma_configured_at_most_once(applied: i32, reqs: Seq<Option<i32>>)
    requires
        served_without_conflict(applied, reqs),
    ensures
        forall|i: int|
            1 <= i < reqs.len() ==> spec_thread_target(
                #[trigger] reqs[i],
                applied_after_all(applied, reqs.take(i)),
            ) is None,
        reqs.len() >= 1 ==> applied_after_all(applied, reqs) == applied_after(reqs[0], applied),
{
    assert forall|i: int| 1 <= i < reqs.len() implies spec_thread_target(
        #[trigger] reqs[i],
        applied_after_all(applied, reqs.take(i)),
    ) is None by {
        lemma_prefix_served(applied, reqs, i);
        lemma_configured_state(applied, reqs.take(i));
    }
    if reqs.len() >= 1 {
        lemma_configured_state(applied, reqs);
        let first = reqs.take(1);
        assert(first.drop_last() =~= Seq::<Option<i32>>::empty());
        assert(first.last() == reqs[0]);
        assert(applied_after_all(applied, first.drop_last()) == applied);
        assert(applied_after_all(applied, first) == applied_after(reqs[0], applied));
    }
}

/// A prefix of a run that is served without conflict is served without
/// conflict too.
proof fn lemma_prefix_served(applied: i32, reqs: Seq<Option<i32>>, j: int)
    requires
        served_without_conflict(applied, reqs),
        0 <= j <= reqs.len(),
    ensures
        served_without_conflict(applied, reqs.take(j)),
{
    let p = reqs.take(j);
    assert forall|i: int| 0 <= i < p.len() implies {
        &&& !is_conflict(#[trigger] p[i], applied_after_all(applied, p.take(i)))
        &&& p[i] != Some(UNINIT)
    } by {
        assert(p.take(i) =~= reqs.take(i));
        assert(p[i] == reqs[i]);
    }
}

/// After at least one served request the pool is configured, with the value
/// picked by the first request.
proof fn lemma_configured_state(applied: i32, reqs: Seq<Option<i32>>)
    requires
        reqs.len() >= 1,
        served_without_conflict(applied, reqs),
    ensures
        applied_after_all(applied, reqs) != UNINIT,
        applied_after_all(applied, reqs) == applied_after_all(applied, reqs.take(1)),
    decreases reqs.len(),
{
    let prefix = reqs.drop_last();
    let k = reqs.len() - 1;
    assert(reqs.take(k) =~= prefix);
    if reqs.len() == 1 {
        assert(reqs.take(1) =~= reqs);
        assert(prefix.len() == 0);
        assert(!is_conflict(reqs[0], applied));
    } else {
        lemma_prefix_served(applied, reqs, k);
        lemma_configured_state(applied, prefix);
        assert(prefix.take(1) =~= reqs.take(1));
        assert(!is_conflict(reqs[k], applied_after_all(applied, reqs.take(k))));
    }
}

} // verus!
