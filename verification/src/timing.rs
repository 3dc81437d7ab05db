use vstd::prelude::*;

use core::time::Duration;

verus! {

/// Relies on std::time::SystemTime::now and duration_since: the number of
/// nanoseconds since the UNIX epoch, saturated into a u64, and 0 for a clock
/// set before the epoch. Nothing is assumed of the value: the clock may jump.
#[verifier::external_body]
pub(crate) fn now_nanos() -> u64 {
    match std::time::SystemTime::now().duration_since(std::time::UNIX_EPOCH) {
        Ok(d) => u64::try_from(d.as_nanos()).unwrap_or(u64::MAX),
        Err(_) => 0,
    }
}

/// Relies on core::time::Duration::as_nanos: the duration as a nanosecond
/// count, saturated into a u64.
#[verifier::external_body]
pub(crate) fn duration_to_nanos(d: Duration) -> u64 {
    u64::try_from(d.as_nanos()).unwrap_or(u64::MAX)
}

/// Determines when a select operation should time out. Instants are clock
/// readings in nanoseconds, as returned by the clock behind `now_nanos`.
#[derive(Clone, Copy, PartialEq, Eq, Structural)]
pub(crate) enum Timeout {
    /// No blocking.
    Now,
    /// Block forever.
    Never,
    /// Time out after the time instant.
    At(u64),
}

/// Sleeps until the clock reaches `when`, parking on a parker that nobody can
/// wake early.
pub(crate) fn sleep_until(when: u64) {
    let p = crate::context::parker_new();
    let mut fuel: u64 = crate::context::RETRY_FUEL;
    loop
        decreases fuel,
    {
        let now = now_nanos();
        if now >= when || fuel == 0 {
            return;
        }
        crate::context::park_timeout_nanos(&p, when - now);
        fuel = fuel - 1;
    }
}

/// The earlier of two optional deadlines, where `None` means no deadline.
pub open spec fn min_opt(a: Option<u64>, b: Option<u64>) -> Option<u64> {
    match a {
        Option::None => b,
        Option::Some(x) => match b {
            Option::None => Option::Some(x),
            Option::Some(y) => if x <= y {
                Option::Some(x)
            } else {
                Option::Some(y)
            },
        },
    }
}

/// The earliest of an initial optional deadline and a sequence of optional
/// deadlines reported by the handles.
pub open spec fn fold_min(init: Option<u64>, ds: Seq<Option<u64>>) -> Option<u64>
    decreases ds.len(),
{
    if ds.len() == 0 {
        init
    } else {
        min_opt(fold_min(init, ds.drop_last()), ds.last())
    }
}

/// The earlier of two optional deadlines.
pub(crate) fn min_opt_exec(a: Option<u64>, b: Option<u64>) -> (r: Option<u64>)
    ensures
        r == min_opt(a, b),
{
    match a {
        Option::None => b,
        Option::Some(x) => match b {
            Option::None => Option::Some(x),
            Option::Some(y) => if x <= y {
                Option::Some(x)
            } else {
                Option::Some(y)
            },
        },
    }
}

/// Computes the effective deadline of a blocking select: the earliest of the
/// caller's deadline and every deadline a handle imposed.
pub fn earliest_deadline(init: Option<u64>, ds: &Vec<Option<u64>>) -> (r: Option<u64>)
    ensures
        r == fold_min(init, ds@),
{
    let mut acc: Option<u64> = init;
    let n = ds.len();
    let mut k: usize = 0;
    while k < n
        invariant
            n == ds@.len(),
            k <= n,
            acc == fold_min(init, ds@.take(k as int)),
        decreases n - k,
    {
        acc = min_opt_exec(acc, ds[k]);
        proof {
            assert(ds@.take(k + 1).drop_last() =~= ds@.take(k as int));
            assert(ds@.take(k + 1).last() == ds@[k as int]);
        }
        k = k + 1;
    }
    proof {
        assert(ds@.take(n as int) =~= ds@);
    }
    acc
}

/// The effective deadline is never later than the caller's deadline, never
/// later than any deadline a handle imposed, and is one of them; there is no
/// deadline at all only when neither the caller nor any handle imposed one.
pub proof fn lemma_fold_min_is_min(init: Option<u64>, ds: Seq<Option<u64>>)
    ensures
        forall|j: int|
            0 <= j < ds.len() && (#[trigger] ds[j]) is Some ==> fold_min(init, ds) is Some
                && fold_min(init, ds)->Some_0 <= ds[j]->Some_0,
        init is Some ==> fold_min(init, ds) is Some && fold_min(init, ds)->Some_0
            <= init->Some_0,
        fold_min(init, ds) is Some ==> fold_min(init, ds) == init || exists|j: int|
            0 <= j < ds.len() && ds[j] == fold_min(init, ds),
    decreases ds.len(),
{
    if ds.len() > 0 {
        lemma_fold_min_is_min(init, ds.drop_last());
        assert(forall|j: int|
            0 <= j < ds.len() - 1 ==> (#[trigger] ds[j]) == ds.drop_last()[j]);
    }
}

} // verus!
