use vstd::prelude::*;

use crate::ops::Selected;
use std::sync::Arc;
use core::sync::atomic::AtomicUsize;
use crossbeam_utils::sync::{Parker, Unparker};

verus! {

/// A thread parking primitive of crossbeam-utils: `park` blocks the calling
/// thread until the parker's token is made available by its unparker.
#[verifier::external_type_specification]
#[verifier::external_body]
pub struct ExParker(Parker);

/// The waking side of a crossbeam-utils parker; it can be cloned and handed
/// to peer threads.
#[verifier::external_type_specification]
#[verifier::external_body]
pub struct ExUnparker(Unparker);

/// Relies on crossbeam_utils::sync::Parker::new: creates a parker whose token
/// is initially absent.
#[verifier::external_body]
pub(crate) fn parker_new() -> Parker {
    Parker::new()
}

/// Relies on crossbeam_utils::sync::Parker::unparker: hands out an owned copy
/// of the unparker associated with this parker.
#[verifier::external_body]
pub(crate) fn unparker_of(p: &Parker) -> Unparker {
    p.unparker().clone()
}

/// Relies on crossbeam_utils::sync::Parker::park: blocks the calling thread
/// until the parker's token is available, then consumes the token.
#[verifier::external_body]
pub(crate) fn park(p: &Parker) {
    p.park();
}

/// Relies on crossbeam_utils::sync::Parker::park_timeout: blocks like `park`,
/// but for at most the given number of nanoseconds.
#[verifier::external_body]
pub(crate) fn park_timeout_nanos(p: &Parker, nanos: u64) {
    p.park_timeout(core::time::Duration::from_nanos(nanos));
}

/// Relies on crossbeam_utils::sync::Unparker::unpark: makes the token of the
/// associated parker available, waking its thread if it is parked.
#[verifier::external_body]
pub(crate) fn unpark(u: &Unparker) {
    u.unpark();
}

/// Relies on crossbeam_utils::sync::Parker::park: the parker below is private
/// to this call and its unparker is never handed out, so no thread can ever
/// provide its token and the call never returns.
#[verifier::external_body]
pub(crate) fn sleep_forever() {
    let p = Parker::new();
    loop {
        p.park();
    }
}

/// Relies on core::hint::spin_loop: a calming hint to the processor inside a
/// busy-wait loop.
#[verifier::external_body]
pub(crate) fn cpu_relax() {
    core::hint::spin_loop();
}

/// Relies on core::sync::atomic::AtomicUsize::load (acquire ordering): returns
/// the value some thread stored; nothing more is known, since peers may write
/// the slot at any time.
#[verifier::external_body]
fn load_usize(a: &AtomicUsize) -> usize {
    a.load(core::sync::atomic::Ordering::Acquire)
}

/// Relies on core::sync::atomic::AtomicUsize::store (release ordering).
#[verifier::external_body]
fn store_usize(a: &AtomicUsize, v: usize) {
    a.store(v, core::sync::atomic::Ordering::Release)
}

/// Relies on core::sync::atomic::AtomicUsize::compare_exchange (acquire and
/// release ordering): on success the returned previous value equals
/// `current`, and the strong variant fails only when the observed value
/// differs from `current`.
#[verifier::external_body]
fn cas_usize(a: &AtomicUsize, current: usize, new: usize) -> (r: Result<usize, usize>)
    ensures
        r matches Ok(prev) ==> prev == current,
        r matches Err(prev) ==> prev != current,
{
    a.compare_exchange(
        current,
        new,
        core::sync::atomic::Ordering::AcqRel,
        core::sync::atomic::Ordering::Acquire,
    )
}

/// How many times a blocking wait lets itself be woken spuriously before it
/// gives up and aborts itself; in practice this bound is never reached.
pub(crate) const RETRY_FUEL: u64 = 0xffff_ffff_ffff_ffff;

struct ContextInner {
    /// The selection slot: holds the encoding of a `Selected` value.
    select: AtomicUsize,
    /// Wakes the selecting thread after a peer has claimed the slot.
    unparker: Unparker,
}

/// Thread-local context used by the select machinery: one selection slot,
/// shared with every peer that might complete one of the selector's pending
/// operations, plus the means to wake the selector.
///
/// Cloning a context shares the same selection slot.
#[derive(Clone)]
pub struct Context {
    inner: Arc<ContextInner>,
}

impl Context {
    /// Creates a fresh context whose selection slot holds `Waiting` and whose
    /// wakeups go through the given unparker.
    pub fn new(unparker: Unparker) -> Context {
        Context {
            inner: Arc::new(
                ContextInner { select: AtomicUsize::new(0), unparker },
            ),
        }
    }

    /// Attempts to commit `desired` as the outcome of the current select.
    ///
    /// This is the single serialization point among all peers racing on this
    /// selector: the slot moves away from `Waiting` exactly once per select.
    /// On failure the observed state is returned, and it is never `Waiting`,
    /// because the slot only fails a compare-and-swap after it has already
    /// been claimed.
    pub fn try_select(&self, desired: Selected) -> (r: Result<(), Selected>)
        requires
            desired.wf(),
            !(desired is Waiting),
        ensures
            r matches Err(s) ==> s.wf() && !(s is Waiting),
    {
        match cas_usize(&self.inner.select, 0, desired.into_usize()) {
            Ok(_) => Ok(()),
            Err(prev) => Err(Selected::from(prev)),
        }
    }

    /// Returns the current state of the selection slot.
    pub fn selected(&self) -> (s: Selected)
        ensures
            s.wf(),
    {
        Selected::from(load_usize(&self.inner.select))
    }

    /// Wakes the thread that owns this context.
    pub fn unpark(&self) {
        unpark(&self.inner.unparker);
    }

    /// Puts the selection slot back to `Waiting`, ready for the next select.
    /// Only the owning thread may call this, after the previous select has
    /// fully resolved.
    pub fn reset(&self) {
        store_usize(&self.inner.select, 0);
    }

    /// Parks the owning thread until the selection slot leaves `Waiting` or
    /// the deadline (a nanosecond clock reading as returned by the clock
    /// behind the timing module, `None` meaning no deadline) elapses. On
    /// timeout the context aborts itself, so the returned state is never
    /// `Waiting`: it is either the state a peer committed or `Aborted`.
    pub fn wait_until(&self, parker: &Parker, deadline: Option<u64>) -> (s: Selected)
        ensures
            s.wf(),
            !(s is Waiting),
    {
        let mut fuel: u64 = RETRY_FUEL;
        loop
            decreases fuel,
        {
            let sel = self.selected();
            if sel != Selected::Waiting {
                return sel;
            }
            if fuel == 0 {
                break;
            }
            match deadline {
                Option::None => park(parker),
                Option::Some(when) => {
                    let now = crate::timing::now_nanos();
                    if now >= when {
                        break;
                    }
                    park_timeout_nanos(parker, when - now);
                },
            }
            fuel = fuel - 1;
        }
        // Deadline reached (or the spurious-wakeup bound ran out): race the
        // peers for the right to abort, and accept whatever outcome the slot
        // then holds.
        match self.try_select(Selected::Aborted) {
            Ok(()) => Selected::Aborted,
            Err(s) => s,
        }
    }
}

} // verus!
