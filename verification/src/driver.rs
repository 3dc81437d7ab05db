use vstd::prelude::*;

use crate::context::{cpu_relax, parker_new, sleep_forever, unparker_of, Context, RETRY_FUEL};
use crate::handle::{SelectHandle, Token};
use crate::ops::{Operation, Selected};
use crate::shuffle::shuffle_entries;
use crate::timing::{earliest_deadline, now_nanos, sleep_until, Timeout};

verus! {

/// Whether `(i, p)` is the caller-assigned index and endpoint address of one
/// of the entries of the handle list.
pub open spec fn entry_of<H>(entries: Seq<(H, usize, usize)>, i: usize, p: usize) -> bool {
    exists|k: int|
        0 <= k < entries.len() && (#[trigger] entries[k]).1 == i && entries[k].2 == p
}

/// The positions whose registration attempt returned `false` (meaning the
/// context was enqueued on that endpoint), in order: exactly the positions
/// the driver owes an unregistration.
pub open spec fn false_positions(results: Seq<bool>) -> Seq<usize>
    decreases results.len(),
{
    if results.len() == 0 {
        Seq::empty()
    } else {
        let rest = false_positions(results.drop_last());
        if results.last() == false {
            rest.push((results.len() - 1) as usize)
        } else {
            rest
        }
    }
}

/// Registration/unregistration balance: over one blocking round, a position
/// is unregistered exactly once when its registration returned `false`, and
/// never otherwise. Together with the round's contract — the sequence of
/// unregistered positions equals `false_positions` of the sequence of
/// registration results — this balances every successful registration with
/// exactly one unregistration.
pub proof fn lemma_registration_balance(results: Seq<bool>, pos: usize)
    requires
        results.len() <= usize::MAX,
    ensures
        false_positions(results).to_multiset().count(pos) == if pos < results.len()
            && results[pos as int] == false {
            1nat
        } else {
            0nat
        },
    decreases results.len(),
{
    broadcast use vstd::seq_lib::group_to_multiset_ensures;
    broadcast use vstd::multiset::group_multiset_axioms;

    if results.len() > 0 {
        let rest = results.drop_last();
        lemma_registration_balance(rest, pos);
        assert(forall|j: int| 0 <= j < rest.len() ==> rest[j] == results[j]);
        if results.last() == false {
            let q = (results.len() - 1) as usize;
            assert(false_positions(results) == false_positions(rest).push(q));
            assert(false_positions(rest).push(q).to_multiset() =~= false_positions(
                rest,
            ).to_multiset().insert(q));
            if pos == q {
                assert(false_positions(rest).to_multiset().count(pos) == 0nat);
            }
        } else {
            assert(false_positions(results) == false_positions(rest));
        }
    }
}

/// One pass of non-blocking attempts over all entries: returns the index and
/// endpoint address of the first entry whose `try_select` succeeded, with the
/// token populated by that handle.
fn poll_entries<H: SelectHandle + Copy>(
    handles: &Vec<(H, usize, usize)>,
    token: &mut Token,
) -> (r: Option<(usize, usize)>)
    ensures
        r matches Some(ip) ==> entry_of(handles@, ip.0, ip.1),
{
    let n = handles.len();
    let mut k: usize = 0;
    while k < n
        invariant
            n == handles@.len(),
            k <= n,
        decreases n - k,
    {
        let (h, i, p) = handles[k];
        if h.try_select(token) {
            return Some((i, p));
        }
        k = k + 1;
    }
    None
}

/// Snapshots the `state` counter of every entry's channel.
fn read_states<H: SelectHandle + Copy>(handles: &Vec<(H, usize, usize)>) -> (r: Vec<usize>)
    ensures
        r@.len() == handles@.len(),
{
    let n = handles.len();
    let mut states: Vec<usize> = Vec::new();
    let mut k: usize = 0;
    while k < n
        invariant
            n == handles@.len(),
            k <= n,
            states@.len() == k,
        decreases n - k,
    {
        let (h, _, _) = handles[k];
        states.push(h.state());
        k = k + 1;
    }
    states
}

/// Whether two snapshots of the channel states differ anywhere.
fn states_differ(a: &Vec<usize>, b: &Vec<usize>) -> (r: bool)
    requires
        a@.len() == b@.len(),
    ensures
        r <==> a@ != b@,
{
    let n = a.len();
    let mut k: usize = 0;
    while k < n
        invariant
            n == a@.len(),
            a@.len() == b@.len(),
            k <= n,
            forall|j: int| 0 <= j < k ==> a@[j] == b@[j],
        decreases n - k,
    {
        if a[k] != b[k] {
            return true;
        }
        k = k + 1;
    }
    proof {
        assert(a@ =~= b@);
    }
    false
}

/// Non-blocking selection over the whole list: keeps retrying as long as some
/// channel shows activity, and reports failure only once a full pass found
/// nothing ready and no channel state changed since the previous pass. This
/// keeps a non-blocking select from failing spuriously while a peer is in the
/// middle of an operation.
///
/// For a list of more than one entry, a failure comes with ghost evidence of
/// quiescence: the two consecutive state snapshots, one per entry, that were
/// found equal after the last failed pass. (The flag marks the astronomic
/// retry bound instead, which no real execution reaches.)
fn poll_until_quiet<H: SelectHandle + Copy>(
    handles: &Vec<(H, usize, usize)>,
    token: &mut Token,
) -> (r: (Option<(usize, usize)>, Ghost<(Seq<usize>, Seq<usize>, bool)>))
    ensures
        r.0 matches Some(ip) ==> entry_of(handles@, ip.0, ip.1),
        handles@.len() > 1 && r.0 is None && !r.1@.2 ==> r.1@.0 == r.1@.1 && r.1@.0.len()
            == handles@.len(),
{
    if handles.len() <= 1 {
        return (poll_entries(handles, token), Ghost((Seq::empty(), Seq::empty(), false)));
    }
    let mut states = read_states(handles);
    let mut fuel: u64 = RETRY_FUEL;
    loop
        invariant
            states@.len() == handles@.len(),
        decreases fuel,
    {
        if let Some(ip) = poll_entries(handles, token) {
            return (Some(ip), Ghost((Seq::empty(), Seq::empty(), false)));
        }
        let current = read_states(handles);
        if !states_differ(&states, &current) {
            return (None, Ghost((states@, current@, false)));
        }
        states = current;
        if fuel == 0 {
            return (None, Ghost((Seq::empty(), Seq::empty(), true)));
        }
        fuel = fuel - 1;
    }
}

/// Mints one operation identifier per entry, from the addresses of the
/// elements of `stamps`, which stay alive (and pinned) for the whole round.
fn mint_operations(stamps: &mut Vec<u64>, n: usize) -> (ops: Vec<Operation>)
    requires
        old(stamps)@.len() == n,
        vstd::layout::size_of::<u64>() > 0,
    ensures
        ops@.len() == n,
        forall|j: int| 0 <= j < n ==> (#[trigger] ops@[j]).wf(),
{
    let mut ops: Vec<Operation> = Vec::new();
    let mut k: usize = 0;
    while k < n
        invariant
            stamps@.len() == n,
            k <= n,
            ops@.len() == k,
            forall|j: int| 0 <= j < k ==> (#[trigger] ops@[j]).wf(),
        decreases n - k,
    {
        let slot = &mut stamps[k];
        let op = Operation::hook(slot);
        ops.push(op);
        k = k + 1;
    }
    ops
}

/// One blocking round of `run_select`: register every entry until one is
/// found ready or a peer commits, park until an outcome or the deadline,
/// unregister exactly the registered prefix, and resolve the outcome.
///
/// Besides the selected entry (if any), the round reports ghost evidence of
/// the protocol's discipline: the sequence of registration results and the
/// sequence of unregistered positions (the round unregisters exactly the
/// positions whose registration returned `false`), and whether the round
/// parked (it never parks when some registration found its endpoint already
/// ready: such an endpoint is claimed without waiting).
#[allow(unused_variables)]
fn block_round<H: SelectHandle + Copy>(
    handles: &Vec<(H, usize, usize)>,
    token: &mut Token,
    timeout: Timeout,
) -> (r: (Option<(usize, usize)>, Ghost<Seq<bool>>, Ghost<Seq<usize>>, Ghost<bool>))
    requires
        handles@.len() > 0,
        !(timeout is Now),
    ensures
        r.0 matches Some(ip) ==> entry_of(handles@, ip.0, ip.1),
        r.2@ == false_positions(r.1@),
        forall|j: int| 0 <= j < r.2@.len() ==> (#[trigger] r.2@[j]) < handles@.len(),
        (exists|j: int| 0 <= j < r.1@.len() && r.1@[j]) ==> !r.3@,
{
    let n = handles.len();
    if core::mem::size_of::<u64>() == 0 {
        // The operation identities below are addresses of 8-byte stamps;
        // this check only teaches the verifier that such a stamp has real
        // storage, and the round is skipped on the impossible outcome.
        return (None, Ghost(Seq::empty()), Ghost(Seq::empty()), Ghost(false));
    }
    let parker = parker_new();
    let cx = Context::new(unparker_of(&parker));

    // Stable per-entry locations whose addresses identify this round's
    // pending operations; they stay alive until the round is over.
    let mut stamps: Vec<u64> = Vec::new();
    let mut f: usize = 0;
    while f < n
        invariant
            f <= n,
            stamps@.len() == f,
        decreases n - f,
    {
        stamps.push(0);
        f = f + 1;
    }
    let ops = mint_operations(&mut stamps, n);

    let mut sel = Selected::Waiting;
    let mut registered: Vec<usize> = Vec::new();
    let ghost mut reg_results: Seq<bool> = Seq::empty();
    let mut ready_at: Option<usize> = None;

    // Register all operations, stopping as soon as one is found ready or a
    // peer commits an outcome.
    let mut stop = false;
    let mut k: usize = 0;
    while k < n && !stop
        invariant
            n == handles@.len(),
            ops@.len() == n,
            forall|j: int| 0 <= j < n ==> (#[trigger] ops@[j]).wf(),
            k <= n,
            reg_results.len() == k,
            registered@ == false_positions(reg_results),
            forall|j: int| 0 <= j < registered@.len() ==> (#[trigger] registered@[j]) < n,
            ready_at matches Some(pos) ==> pos < n,
            (exists|j: int| 0 <= j < reg_results.len() && reg_results[j]) ==> stop && sel
                != Selected::Waiting,
        decreases n - k,
    {
        let (h, i, p) = handles[k];
        let res = h.register(ops[k], &cx);
        proof {
            let prev = reg_results;
            reg_results = reg_results.push(res);
            assert(reg_results.drop_last() =~= prev);
        }
        if res {
            // The operation is ready and the context was not enqueued: try
            // aborting the select to claim it for ourselves.
            sel = match cx.try_select(Selected::Aborted) {
                Ok(()) => {
                    ready_at = Some(k);
                    Selected::Aborted
                },
                Err(s) => s,
            };
            stop = true;
        } else {
            registered.push(k);
            // If a peer has already selected one of the operations, stop
            // registering.
            sel = cx.selected();
            if sel != Selected::Waiting {
                stop = true;
            }
        }
        k = k + 1;
    }

    let ghost mut parked: bool = false;
    if sel == Selected::Waiting {
        // Check with each operation for how long we are allowed to block,
        // and compute the earliest deadline.
        let init: Option<u64> = match timeout {
            Timeout::Now => None,
            Timeout::Never => None,
            Timeout::At(when) => Some(when),
        };
        let mut ds: Vec<Option<u64>> = Vec::new();
        let mut d: usize = 0;
        while d < n
            invariant
                n == handles@.len(),
                d <= n,
            decreases n - d,
        {
            let (h, _, _) = handles[d];
            ds.push(h.deadline());
            d = d + 1;
        }
        let deadline = earliest_deadline(init, &ds);
        // Block the current thread.
        proof {
            parked = true;
        }
        sel = cx.wait_until(&parker, deadline);
    }

    // Unregister exactly the operations whose registration enqueued us.
    let ghost mut unregs: Seq<usize> = Seq::empty();
    let m = registered.len();
    let mut u: usize = 0;
    while u < m
        invariant
            n == handles@.len(),
            ops@.len() == n,
            m == registered@.len(),
            forall|j: int| 0 <= j < registered@.len() ==> (#[trigger] registered@[j]) < n,
            u <= m,
            unregs == registered@.take(u as int),
        decreases m - u,
    {
        let pos = registered[u];
        let (h, _, _) = handles[pos];
        h.unregister(ops[pos]);
        proof {
            unregs = unregs.push(pos);
            assert(unregs =~= registered@.take(u + 1));
        }
        u = u + 1;
    }
    proof {
        assert(unregs =~= registered@);
    }

    let outcome: Option<(usize, usize)> = match sel {
        Selected::Waiting => {
            // Not reachable: the wait above only returns a claimed slot.
            None
        },
        Selected::Aborted => {
            // If an operation became ready during registration, try
            // selecting it now.
            match ready_at {
                Some(pos) => {
                    let (h, i, p) = handles[pos];
                    if h.try_select(token) {
                        Some((i, p))
                    } else {
                        None
                    }
                },
                None => None,
            }
        },
        Selected::Disconnected => {
            // The outer loop will rediscover the disconnected endpoint by
            // polling.
            None
        },
        Selected::Operation(op) => {
            // Find the selected operation and finish the hand-off.
            let mut found: Option<(usize, usize)> = None;
            let mut w: usize = 0;
            while w < n
                invariant
                    n == handles@.len(),
                    ops@.len() == n,
                    w <= n,
                    found matches Some(ip) ==> entry_of(handles@, ip.0, ip.1),
                decreases n - w,
            {
                if ops[w] == op {
                    let (h, i, p) = handles[w];
                    if h.accept(token, &cx) {
                        found = Some((i, p));
                        break ;
                    }
                }
                w = w + 1;
            }
            found
        },
    };
    (outcome, Ghost(reg_results), Ghost(unregs), Ghost(parked))
}

/// Whether `i` is the caller-assigned index of one of the entries of the
/// handle list.
pub open spec fn index_among<H>(entries: Seq<(H, usize, usize)>, i: usize) -> bool {
    exists|k: int| 0 <= k < entries.len() && (#[trigger] entries[k]).1 == i
}

/// One pass of readiness probes over all entries: returns the index of the
/// first entry whose endpoint can proceed without blocking.
fn poll_ready_once<H: SelectHandle + Copy>(handles: &Vec<(H, usize, usize)>) -> (r: Option<
    usize,
>)
    ensures
        r matches Some(i) ==> index_among(handles@, i),
{
    let n = handles.len();
    let mut k: usize = 0;
    while k < n
        invariant
            n == handles@.len(),
            k <= n,
        decreases n - k,
    {
        let (h, i, _) = handles[k];
        if h.is_ready() {
            return Some(i);
        }
        k = k + 1;
    }
    None
}

/// One blocking round of `run_ready`: watch every entry until one is found
/// ready or a peer signals readiness, park until an outcome or the deadline,
/// unwatch exactly the watched prefix, and report the ready index if a peer
/// named one.
///
/// As in `block_round`, the ghost results tie the unwatched positions to the
/// positions whose watch returned `false`, and witness that the round never
/// parks when some watch found its endpoint already ready.
#[allow(unused_variables)]
fn watch_round<H: SelectHandle + Copy>(
    handles: &Vec<(H, usize, usize)>,
    timeout: Timeout,
) -> (r: (Option<usize>, Ghost<Seq<bool>>, Ghost<Seq<usize>>, Ghost<bool>))
    requires
        handles@.len() > 0,
        !(timeout is Now),
    ensures
        r.0 matches Some(i) ==> index_among(handles@, i),
        r.2@ == false_positions(r.1@),
        forall|j: int| 0 <= j < r.2@.len() ==> (#[trigger] r.2@[j]) < handles@.len(),
        (exists|j: int| 0 <= j < r.1@.len() && r.1@[j]) ==> !r.3@,
{
    let n = handles.len();
    if core::mem::size_of::<u64>() == 0 {
        // As in the selecting round: the check only teaches the verifier
        // that an 8-byte stamp has real storage.
        return (None, Ghost(Seq::empty()), Ghost(Seq::empty()), Ghost(false));
    }
    let parker = parker_new();
    let cx = Context::new(unparker_of(&parker));

    let mut stamps: Vec<u64> = Vec::new();
    let mut f: usize = 0;
    while f < n
        invariant
            f <= n,
            stamps@.len() == f,
        decreases n - f,
    {
        stamps.push(0);
        f = f + 1;
    }
    let ops = mint_operations(&mut stamps, n);

    let mut sel = Selected::Waiting;
    let mut registered: Vec<usize> = Vec::new();
    let ghost mut watch_results: Seq<bool> = Seq::empty();

    // Begin watching all operations, stopping as soon as one is found ready
    // or a peer signals one.
    let mut stop = false;
    let mut k: usize = 0;
    while k < n && !stop
        invariant
            n == handles@.len(),
            ops@.len() == n,
            forall|j: int| 0 <= j < n ==> (#[trigger] ops@[j]).wf(),
            k <= n,
            watch_results.len() == k,
            registered@ == false_positions(watch_results),
            forall|j: int| 0 <= j < registered@.len() ==> (#[trigger] registered@[j]) < n,
            (exists|j: int| 0 <= j < watch_results.len() && watch_results[j]) ==> stop
                && sel != Selected::Waiting,
        decreases n - k,
    {
        let (h, i, p) = handles[k];
        let res = h.watch(ops[k], &cx);
        proof {
            let prev = watch_results;
            watch_results = watch_results.push(res);
            assert(watch_results.drop_last() =~= prev);
        }
        if res {
            // The operation is ready: record it as the outcome, unless a
            // peer beat us to the slot.
            sel = match cx.try_select(Selected::Operation(ops[k])) {
                Ok(()) => Selected::Operation(ops[k]),
                Err(s) => s,
            };
            stop = true;
        } else {
            registered.push(k);
            // If a peer has already signalled one of the operations, stop
            // watching.
            sel = cx.selected();
            if sel != Selected::Waiting {
                stop = true;
            }
        }
        k = k + 1;
    }

    let ghost mut parked: bool = false;
    if sel == Selected::Waiting {
        let init: Option<u64> = match timeout {
            Timeout::Now => None,
            Timeout::Never => None,
            Timeout::At(when) => Some(when),
        };
        let mut ds: Vec<Option<u64>> = Vec::new();
        let mut d: usize = 0;
        while d < n
            invariant
                n == handles@.len(),
                d <= n,
            decreases n - d,
        {
            let (h, _, _) = handles[d];
            ds.push(h.deadline());
            d = d + 1;
        }
        let deadline = earliest_deadline(init, &ds);
        // Block the current thread.
        proof {
            parked = true;
        }
        sel = cx.wait_until(&parker, deadline);
    }

    // Unwatch exactly the operations whose watch enqueued us.
    let ghost mut unwatched: Seq<usize> = Seq::empty();
    let m = registered.len();
    let mut u: usize = 0;
    while u < m
        invariant
            n == handles@.len(),
            ops@.len() == n,
            m == registered@.len(),
            forall|j: int| 0 <= j < registered@.len() ==> (#[trigger] registered@[j]) < n,
            u <= m,
            unwatched == registered@.take(u as int),
        decreases m - u,
    {
        let pos = registered[u];
        let (h, _, _) = handles[pos];
        h.unwatch(ops[pos]);
        proof {
            unwatched = unwatched.push(pos);
            assert(unwatched =~= registered@.take(u + 1));
        }
        u = u + 1;
    }
    proof {
        assert(unwatched =~= registered@);
    }

    let outcome: Option<usize> = match sel {
        Selected::Waiting => None,
        Selected::Aborted => None,
        Selected::Disconnected => None,
        Selected::Operation(op) => {
            // A peer named the ready operation: report its index, with no
            // reservation to finish.
            let mut found: Option<usize> = None;
            let mut w: usize = 0;
            while w < n
                invariant
                    n == handles@.len(),
                    ops@.len() == n,
                    w <= n,
                    found matches Some(i) ==> index_among(handles@, i),
                decreases n - w,
            {
                if ops[w] == op {
                    let (h, i, p) = handles[w];
                    found = Some(i);
                    break ;
                }
                w = w + 1;
            }
            found
        },
    };
    (outcome, Ghost(watch_results), Ghost(unwatched), Ghost(parked))
}

/// Runs until one of the operations becomes ready, potentially blocking the
/// current thread, and reports its caller-assigned index; nothing is
/// reserved or executed. The handle list is only permuted.
///
/// As in `run_select`, the ghost result carries every blocking round's
/// evidence: each round unwatches exactly the positions whose watch returned
/// `false`, and never parks after a watch found its endpoint already ready.
pub(crate) fn run_ready<H: SelectHandle + Copy>(
    handles: &mut Vec<(H, usize, usize)>,
    timeout: Timeout,
) -> (r: (Option<usize>, Ghost<Seq<(Seq<bool>, Seq<usize>, bool)>>))
    ensures
        final(handles)@.len() == old(handles)@.len(),
        final(handles)@.to_multiset() == old(handles)@.to_multiset(),
        forall|x: (H, usize, usize)|
            final(handles)@.contains(x) <==> old(handles)@.contains(x),
        r.0 matches Some(i) ==> index_among(final(handles)@, i),
        old(handles)@.len() == 0 ==> r.0 is None,
        timeout is Never && old(handles)@.len() > 0 ==> r.0 is Some,
        forall|j: int|
            0 <= j < r.1@.len() ==> (#[trigger] r.1@[j]).1 == false_positions(r.1@[j].0),
        forall|j: int|
            0 <= j < r.1@.len() && (exists|q: int|
                0 <= q < (#[trigger] r.1@[j]).0.len() && r.1@[j].0[q]) ==> !r.1@[j].2,
{
    let ghost mut round_logs: Seq<(Seq<bool>, Seq<usize>, bool)> = Seq::empty();
    if handles.len() == 0 {
        // Wait until the timeout and return.
        match timeout {
            Timeout::Now => {
                return (None, Ghost(round_logs));
            },
            Timeout::Never => {
                // Nothing can ever become ready: sleep forever. The call
                // never returns; the value below only closes the branch.
                sleep_forever();
                return (None, Ghost(round_logs));
            },
            Timeout::At(when) => {
                sleep_until(when);
                return (None, Ghost(round_logs));
            },
        }
    }

    // Shuffle the operations for fairness.
    shuffle_entries(handles);

    let mut fuel: u64 = RETRY_FUEL;
    loop
        invariant
            handles@.len() == old(handles)@.len(),
            handles@.to_multiset() == old(handles)@.to_multiset(),
            forall|x: (H, usize, usize)| handles@.contains(x) <==> old(handles)@.contains(x),
            handles@.len() > 0,
            forall|j: int|
                0 <= j < round_logs.len() ==> (#[trigger] round_logs[j]).1
                    == false_positions(round_logs[j].0),
            forall|j: int|
                0 <= j < round_logs.len() && (exists|q: int|
                    0 <= q < (#[trigger] round_logs[j]).0.len() && round_logs[j].0[q])
                    ==> !round_logs[j].2,
        decreases fuel,
    {
        // Poll with a short growing backoff before committing to a blocking
        // wait.
        let mut round: u32 = 0;
        let mut found: Option<usize> = None;
        while round < 16 && found.is_none()
            invariant
                handles@.len() > 0,
                found matches Some(i) ==> index_among(handles@, i),
            decreases 16 - round,
        {
            found = poll_ready_once(handles);
            if found.is_none() {
                let spins = 16 * (round + 1);
                let mut s: u32 = 0;
                while s < spins
                    decreases spins - s,
                {
                    cpu_relax();
                    s = s + 1;
                }
            }
            round = round + 1;
        }
        if let Some(i) = found {
            return (Some(i), Ghost(round_logs));
        }

        // Check for timeout.
        match timeout {
            Timeout::Now => {
                return (None, Ghost(round_logs));
            },
            Timeout::Never => {},
            Timeout::At(when) => {
                if now_nanos() >= when {
                    return (None, Ghost(round_logs));
                }
            },
        }

        // Watch, park and resolve one blocking round.
        let (res, watch_log, unwatch_log, parked) = watch_round(handles, timeout);
        proof {
            round_logs = round_logs.push((watch_log@, unwatch_log@, parked@));
        }
        if let Some(i) = res {
            return (Some(i), Ghost(round_logs));
        }

        if fuel == 0 {
            // The spurious-wakeup bound ran out; in practice this is never
            // reached.
            match timeout {
                Timeout::At(_) => {
                    return (None, Ghost(round_logs));
                },
                _ => {
                    sleep_forever();
                    // Never reached; the index below satisfies the contract
                    // should it ever be.
                    let (_, i, _) = handles[0];
                    return (Some(i), Ghost(round_logs));
                },
            }
        }
        fuel = fuel - 1;
    }
}

/// Runs until one of the operations is selected, potentially blocking the
/// current thread.
///
/// A successful result names an entry of the (shuffled) handle list: its
/// caller-assigned index, its endpoint address, and the token its flavor
/// populated, to be consumed by the flavor's `read` or `write`. The list
/// itself is only permuted: no entry is lost and none is invented.
///
/// The first ghost result collects the evidence of every blocking round, in
/// order: its registration results, the positions it unregistered, and
/// whether it parked. The contract carries the protocol's discipline across
/// the whole call: every round unregisters exactly the positions whose
/// registration returned `false`, and no round parks after a registration
/// found its endpoint already ready. The second ghost result carries the
/// quiescence evidence of the final non-blocking pass: a failure over more
/// than one entry comes only after two consecutive per-entry state snapshots
/// were found equal (unless the astronomic retry bound ran out, which the
/// flag marks and no real execution reaches).
pub(crate) fn run_select<H: SelectHandle + Copy>(
    handles: &mut Vec<(H, usize, usize)>,
    timeout: Timeout,
) -> (r: (
    Option<(Token, usize, usize)>,
    Ghost<Seq<(Seq<bool>, Seq<usize>, bool)>>,
    Ghost<(Seq<usize>, Seq<usize>, bool)>,
))
    ensures
        final(handles)@.len() == old(handles)@.len(),
        final(handles)@.to_multiset() == old(handles)@.to_multiset(),
        forall|x: (H, usize, usize)|
            final(handles)@.contains(x) <==> old(handles)@.contains(x),
        r.0 matches Some(t) ==> entry_of(final(handles)@, t.1, t.2),
        old(handles)@.len() == 0 ==> r.0 is None,
        timeout is Never && old(handles)@.len() > 0 ==> r.0 is Some,
        forall|j: int|
            0 <= j < r.1@.len() ==> (#[trigger] r.1@[j]).1 == false_positions(r.1@[j].0),
        forall|j: int|
            0 <= j < r.1@.len() && (exists|q: int|
                0 <= q < (#[trigger] r.1@[j]).0.len() && r.1@[j].0[q]) ==> !r.1@[j].2,
        r.0 is None && old(handles)@.len() > 1 && !r.2@.2 ==> r.2@.0 == r.2@.1
            && r.2@.0.len() == old(handles)@.len(),
{
    let ghost mut round_logs: Seq<(Seq<bool>, Seq<usize>, bool)> = Seq::empty();
    if handles.len() == 0 {
        // Wait until the timeout and return.
        match timeout {
            Timeout::Now => {
                return (None, Ghost(round_logs), Ghost((Seq::empty(), Seq::empty(), false)));
            },
            Timeout::Never => {
                // Nothing can ever become ready: sleep forever. The call
                // never returns; the value below only closes the branch.
                sleep_forever();
                return (None, Ghost(round_logs), Ghost((Seq::empty(), Seq::empty(), false)));
            },
            Timeout::At(when) => {
                sleep_until(when);
                return (None, Ghost(round_logs), Ghost((Seq::empty(), Seq::empty(), false)));
            },
        }
    }

    // Shuffle the operations for fairness.
    shuffle_entries(handles);

    let mut token = Token::default();

    if timeout == Timeout::Now {
        // Is this a non-blocking select?
        let (polled, quiet) = poll_until_quiet(handles, &mut token);
        return match polled {
            Some((i, p)) => (Some((token, i, p)), Ghost(round_logs), quiet),
            None => (None, Ghost(round_logs), quiet),
        };
    }

    let mut fuel: u64 = RETRY_FUEL;
    loop
        invariant
            handles@.len() == old(handles)@.len(),
            handles@.to_multiset() == old(handles)@.to_multiset(),
            forall|x: (H, usize, usize)| handles@.contains(x) <==> old(handles)@.contains(x),
            handles@.len() > 0,
            !(timeout is Now),
            forall|j: int|
                0 <= j < round_logs.len() ==> (#[trigger] round_logs[j]).1
                    == false_positions(round_logs[j].0),
            forall|j: int|
                0 <= j < round_logs.len() && (exists|q: int|
                    0 <= q < (#[trigger] round_logs[j]).0.len() && round_logs[j].0[q])
                    ==> !round_logs[j].2,
        decreases fuel,
    {
        // Try selecting one of the operations without blocking.
        if let Some((i, p)) = poll_entries(handles, &mut token) {
            return (
                Some((token, i, p)),
                Ghost(round_logs),
                Ghost((Seq::empty(), Seq::empty(), false)),
            );
        }

        // Register, park and resolve one blocking round.
        let (res, reg_log, unreg_log, parked) = block_round(handles, &mut token, timeout);
        proof {
            round_logs = round_logs.push((reg_log@, unreg_log@, parked@));
        }
        if let Some((i, p)) = res {
            return (
                Some((token, i, p)),
                Ghost(round_logs),
                Ghost((Seq::empty(), Seq::empty(), false)),
            );
        }

        // Check for timeout.
        match timeout {
            Timeout::Now => {},
            Timeout::Never => {},
            Timeout::At(when) => {
                if now_nanos() >= when {
                    // Fall back to one final non-blocking select, so that the
                    // whole call appears from the outside as a single poll at
                    // the deadline.
                    let (polled, quiet) = poll_until_quiet(handles, &mut token);
                    return match polled {
                        Some((i, p)) => (Some((token, i, p)), Ghost(round_logs), quiet),
                        None => (None, Ghost(round_logs), quiet),
                    };
                }
            },
        }

        if fuel == 0 {
            // The spurious-wakeup bound ran out; in practice this is never
            // reached.
            match timeout {
                Timeout::At(_) => {
                    let (polled, quiet) = poll_until_quiet(handles, &mut token);
                    return match polled {
                        Some((i, p)) => (Some((token, i, p)), Ghost(round_logs), quiet),
                        None => (None, Ghost(round_logs), quiet),
                    };
                },
                _ => {
                    sleep_forever();
                    // Never reached; the entry below satisfies the contract
                    // should it ever be.
                    let (_, i, p) = handles[0];
                    return (
                        Some((token, i, p)),
                        Ghost(round_logs),
                        Ghost((Seq::empty(), Seq::empty(), false)),
                    );
                },
            }
        }
        fuel = fuel - 1;
    }
}

} // verus!
