use vstd::prelude::*;

use crate::driver::{entry_of, index_among, run_ready, run_select};
use crate::handle::{RecvEndpoint, SelectHandle, SendEndpoint, Token};
use crate::timing::{duration_to_nanos, now_nanos, Timeout};
use core::time::Duration;

verus! {

/// An error returned when a non-blocking select found no operation ready.
#[derive(Clone, Copy, PartialEq, Eq, Structural, Debug)]
pub struct TrySelectError;

/// An error returned when a select with a timeout found no operation ready
/// before its deadline.
#[derive(Clone, Copy, PartialEq, Eq, Structural, Debug)]
pub struct SelectTimeoutError;

/// An error returned when a non-blocking readiness check found no operation
/// ready.
#[derive(Clone, Copy, PartialEq, Eq, Structural, Debug)]
pub struct TryReadyError;

/// An error returned when a readiness check with a timeout found no operation
/// ready before its deadline.
#[derive(Clone, Copy, PartialEq, Eq, Structural, Debug)]
pub struct ReadyTimeoutError;

/// An error returned when completing a send on a disconnected channel; the
/// message comes back to the caller.
#[derive(Clone, Copy, PartialEq, Eq, Debug)]
pub struct SendError<T>(pub T);

/// An error returned when completing a receive on a channel that is
/// disconnected and empty.
#[derive(Clone, Copy, PartialEq, Eq, Structural, Debug)]
pub struct RecvError;

/// A list of select entries is well formed when every caller-assigned index
/// is a valid position of the list and no two entries share an index; the
/// builder assigns indexes 0, 1, 2, … in insertion order, and shuffling only
/// permutes the entries, so a reported index identifies one entry
/// unambiguously.
pub open spec fn entries_wf<H>(entries: Seq<(H, usize, usize)>) -> bool {
    &&& forall|k: int| 0 <= k < entries.len() ==> (#[trigger] entries[k]).1 < entries.len()
    &&& forall|k1: int, k2: int|
        0 <= k1 < k2 < entries.len() ==> (#[trigger] entries[k1]).1 != (
        #[trigger] entries[k2]).1
}

/// An element that stands at two positions of a sequence is counted at least
/// twice by its multiset.
proof fn lemma_duplicate_counts_twice<H>(s: Seq<(H, usize, usize)>, k1: int, k2: int)
    requires
        0 <= k1 < k2 < s.len(),
        s[k1] == s[k2],
    ensures
        s.to_multiset().count(s[k1]) >= 2,
{
    broadcast use vstd::seq_lib::group_to_multiset_ensures;
    broadcast use vstd::multiset::group_multiset_axioms;

    let x = s[k1];
    let rest = s.remove(k1);
    assert(rest.to_multiset() =~= s.to_multiset().remove(x));
    assert(rest[k2 - 1] == x);
    assert(rest.contains(x));
    assert(rest.to_multiset().count(x) > 0);
}

/// A multiset that counts an element at least twice puts it at two distinct
/// positions of the sequence.
proof fn lemma_two_positions<H>(s: Seq<(H, usize, usize)>, x: (H, usize, usize)) -> (r: (
    int,
    int,
))
    requires
        s.to_multiset().count(x) >= 2,
    ensures
        0 <= r.0 < s.len(),
        0 <= r.1 < s.len(),
        r.0 != r.1,
        s[r.0] == x,
        s[r.1] == x,
{
    broadcast use vstd::seq_lib::group_to_multiset_ensures;
    broadcast use vstd::multiset::group_multiset_axioms;

    assert(s.contains(x));
    let j1 = choose|j: int| 0 <= j < s.len() && s[j] == x;
    let rest = s.remove(j1);
    assert(rest.to_multiset() =~= s.to_multiset().remove(x));
    assert(rest.to_multiset().count(x) > 0);
    assert(rest.contains(x));
    let jr = choose|j: int| 0 <= j < rest.len() && rest[j] == x;
    let j2: int = if jr < j1 {
        jr
    } else {
        jr + 1
    };
    assert(s[j2] == x);
    (j1, j2)
}

/// Well-formedness survives any permutation of the entries.
proof fn lemma_entries_wf_preserved<H>(
    pre: Seq<(H, usize, usize)>,
    post: Seq<(H, usize, usize)>,
)
    requires
        entries_wf(pre),
        post.len() == pre.len(),
        pre.to_multiset() == post.to_multiset(),
    ensures
        entries_wf(post),
{
    broadcast use vstd::seq_lib::group_to_multiset_ensures;
    broadcast use vstd::multiset::group_multiset_axioms;

    assert forall|k: int| 0 <= k < post.len() implies (#[trigger] post[k]).1 < post.len() by {
        assert(post.contains(post[k]));
        assert(pre.to_multiset().count(post[k]) > 0);
        assert(pre.contains(post[k]));
        let j = choose|j: int| 0 <= j < pre.len() && pre[j] == post[k];
        assert(pre[j].1 < pre.len());
    }
    assert forall|k1: int, k2: int|
        0 <= k1 < k2 < post.len() implies (#[trigger] post[k1]).1 != (
    #[trigger] post[k2]).1 by {
        if post[k1].1 == post[k2].1 {
            if post[k1] == post[k2] {
                // The same triple twice in the permutation means it was
                // twice in the original, whose indexes are distinct.
                lemma_duplicate_counts_twice(post, k1, k2);
                let (j1, j2) = lemma_two_positions(pre, post[k1]);
                if j1 < j2 {
                    assert(pre[j1].1 != pre[j2].1);
                } else {
                    assert(pre[j2].1 != pre[j1].1);
                }
            } else {
                // Two different triples with one index were both among the
                // original entries, whose indexes are distinct.
                assert(post.contains(post[k1]));
                assert(pre.to_multiset().count(post[k1]) > 0);
                assert(pre.contains(post[k1]));
                assert(post.contains(post[k2]));
                assert(pre.to_multiset().count(post[k2]) > 0);
                assert(pre.contains(post[k2]));
                let j1 = choose|j: int| 0 <= j < pre.len() && pre[j] == post[k1];
                let j2 = choose|j: int| 0 <= j < pre.len() && pre[j] == post[k2];
                if j1 < j2 {
                    assert(pre[j1].1 != pre[j2].1);
                } else {
                    assert(pre[j2].1 != pre[j1].1);
                }
            }
        }
    }
}

/// Selects from a set of channel operations.
///
/// `Select` accumulates send and receive operations over endpoints of one
/// handle type (typically shared references to an endpoint enum), waits
/// until any one of them becomes ready, and executes exactly one. If several
/// operations are ready at once, a random one among them is selected.
///
/// An operation is considered ready when it does not have to block, which
/// includes an operation that will merely fail because its channel is
/// disconnected.
#[derive(Clone)]
pub struct Select<H> {
    /// The participating operations: handle, caller-assigned index, endpoint
    /// address.
    handles: Vec<(H, usize, usize)>,
}

impl<H> Select<H> {
    /// The recorded entries: handle, caller-assigned index, endpoint address.
    pub closed spec fn entries(self) -> Seq<(H, usize, usize)> {
        self.handles@
    }

    /// The number of added operations.
    pub open spec fn count(self) -> nat {
        self.entries().len()
    }

    /// Every caller-assigned index stays a valid position of the list.
    pub open spec fn wf(self) -> bool {
        entries_wf(self.entries())
    }
}

impl<H: SelectHandle + Copy> Select<H> {
    /// Creates an empty list of channel operations for selection.
    pub fn new() -> (s: Select<H>)
        ensures
            s.wf(),
            s.count() == 0,
    {
        Select { handles: Vec::new() }
    }

    /// Adds a send operation and returns its caller-visible index. The
    /// handle should be the sending side of a channel.
    pub fn send(&mut self, s: H) -> (i: usize)
        requires
            old(self).wf(),
        ensures
            final(self).wf(),
            i == old(self).count(),
            final(self).count() == old(self).count() + 1,
            final(self).entries()[i as int].0 == s,
            final(self).entries()[i as int].1 == i,
            final(self).entries()[i as int].2 == s.id(),
            forall|k: int| 0 <= k < i ==> final(self).entries()[k] == old(self).entries()[k],
    {
        let i = self.handles.len();
        let ptr = s.addr();
        self.handles.push((s, i, ptr));
        i
    }

    /// Adds a receive operation and returns its caller-visible index. The
    /// handle should be the receiving side of a channel.
    pub fn recv(&mut self, r: H) -> (i: usize)
        requires
            old(self).wf(),
        ensures
            final(self).wf(),
            i == old(self).count(),
            final(self).count() == old(self).count() + 1,
            final(self).entries()[i as int].0 == r,
            final(self).entries()[i as int].1 == i,
            final(self).entries()[i as int].2 == r.id(),
            forall|k: int| 0 <= k < i ==> final(self).entries()[k] == old(self).entries()[k],
    {
        let i = self.handles.len();
        let ptr = r.addr();
        self.handles.push((r, i, ptr));
        i
    }

    /// Attempts to select one of the operations without blocking.
    ///
    /// On success the returned operation names one of the added entries: its
    /// index is the one `send`/`recv` handed out for it, below the number of
    /// entries, and it must be completed with [`SelectedOperation::send`] or
    /// [`SelectedOperation::recv`] on the same endpoint. With no entries, or
    /// none ready, an error is returned.
    pub fn try_select(&mut self) -> (r: Result<SelectedOperation, TrySelectError>)
        requires
            old(self).wf(),
        ensures
            final(self).wf(),
            final(self).count() == old(self).count(),
            final(self).entries().to_multiset() == old(self).entries().to_multiset(),
            forall|x: (H, usize, usize)|
                final(self).entries().contains(x) <==> old(self).entries().contains(x),
            r matches Ok(op) ==> op.idx() < final(self).count() && entry_of(
                final(self).entries(),
                op.idx(),
                op.endpoint(),
            ),
            old(self).count() == 0 ==> r is Err,
    {
        let (r, _, _) = run_select(&mut self.handles, Timeout::Now);
        proof {
            lemma_entries_wf_preserved(old(self).entries(), self.entries());
        }
        match r {
            None => Err(TrySelectError),
            Some((token, index, ptr)) => {
                proof {
                    lemma_selected_index_bounded(self.entries(), index, ptr);
                }
                Ok(SelectedOperation { token, index, ptr })
            },
        }
    }

    /// Blocks until one of the operations becomes ready and selects it.
    ///
    /// The returned operation names one of the added entries and must be
    /// completed on the same endpoint. At least one operation must have been
    /// added.
    pub fn select(&mut self) -> (r: SelectedOperation)
        requires
            old(self).wf(),
            old(self).count() > 0,
        ensures
            final(self).wf(),
            final(self).count() == old(self).count(),
            final(self).entries().to_multiset() == old(self).entries().to_multiset(),
            forall|x: (H, usize, usize)|
                final(self).entries().contains(x) <==> old(self).entries().contains(x),
            r.idx() < final(self).count(),
            entry_of(final(self).entries(), r.idx(), r.endpoint()),
    {
        let (res, _, _) = run_select(&mut self.handles, Timeout::Never);
        proof {
            lemma_entries_wf_preserved(old(self).entries(), self.entries());
        }
        match res {
            Some((token, index, ptr)) => {
                proof {
                    lemma_selected_index_bounded(self.entries(), index, ptr);
                }
                SelectedOperation { token, index, ptr }
            },
            None => {
                // A blocking select without a deadline always selects an
                // entry, so this arm cannot be taken.
                proof {
                    assert(false);
                }
                SelectedOperation { token: Token::default(), index: 0, ptr: 0 }
            },
        }
    }

    /// Blocks for a limited time until one of the operations becomes ready
    /// and selects it.
    ///
    /// On success the returned operation names one of the added entries and
    /// must be completed on the same endpoint. With no entries, or none
    /// becoming ready within the timeout, an error is returned.
    pub fn select_timeout(&mut self, timeout: Duration) -> (r: Result<
        SelectedOperation,
        SelectTimeoutError,
    >)
        requires
            old(self).wf(),
        ensures
            final(self).wf(),
            final(self).count() == old(self).count(),
            final(self).entries().to_multiset() == old(self).entries().to_multiset(),
            forall|x: (H, usize, usize)|
                final(self).entries().contains(x) <==> old(self).entries().contains(x),
            r matches Ok(op) ==> op.idx() < final(self).count() && entry_of(
                final(self).entries(),
                op.idx(),
                op.endpoint(),
            ),
            old(self).count() == 0 ==> r is Err,
    {
        let d = duration_to_nanos(timeout);
        let now = now_nanos();
        let when = if now <= u64::MAX - d {
            now + d
        } else {
            u64::MAX
        };
        let (r, _, _) = run_select(&mut self.handles, Timeout::At(when));
        proof {
            lemma_entries_wf_preserved(old(self).entries(), self.entries());
        }
        match r {
            None => Err(SelectTimeoutError),
            Some((token, index, ptr)) => {
                proof {
                    lemma_selected_index_bounded(self.entries(), index, ptr);
                }
                Ok(SelectedOperation { token, index, ptr })
            },
        }
    }

    /// Attempts to find a ready operation without blocking. On success the
    /// returned index is one that `send`/`recv` handed out; nothing is
    /// reserved or executed.
    pub fn try_ready(&mut self) -> (r: Result<usize, TryReadyError>)
        requires
            old(self).wf(),
        ensures
            final(self).wf(),
            final(self).count() == old(self).count(),
            final(self).entries().to_multiset() == old(self).entries().to_multiset(),
            forall|x: (H, usize, usize)|
                final(self).entries().contains(x) <==> old(self).entries().contains(x),
            r matches Ok(i) ==> i < final(self).count() && index_among(
                final(self).entries(),
                i,
            ),
            old(self).count() == 0 ==> r is Err,
    {
        let (r, _) = run_ready(&mut self.handles, Timeout::Now);
        proof {
            lemma_entries_wf_preserved(old(self).entries(), self.entries());
        }
        match r {
            None => Err(TryReadyError),
            Some(index) => {
                proof {
                    lemma_ready_index_bounded(self.entries(), index);
                }
                Ok(index)
            },
        }
    }

    /// Blocks until one of the operations becomes ready and returns its
    /// index; nothing is reserved or executed. At least one operation must
    /// have been added.
    pub fn ready(&mut self) -> (r: usize)
        requires
            old(self).wf(),
            old(self).count() > 0,
        ensures
            final(self).wf(),
            final(self).count() == old(self).count(),
            final(self).entries().to_multiset() == old(self).entries().to_multiset(),
            forall|x: (H, usize, usize)|
                final(self).entries().contains(x) <==> old(self).entries().contains(x),
            r < final(self).count(),
            index_among(final(self).entries(), r),
    {
        let (res, _) = run_ready(&mut self.handles, Timeout::Never);
        proof {
            lemma_entries_wf_preserved(old(self).entries(), self.entries());
        }
        match res {
            Some(index) => {
                proof {
                    lemma_ready_index_bounded(self.entries(), index);
                }
                index
            },
            None => {
                // A blocking readiness wait without a deadline always names
                // an entry, so this arm cannot be taken.
                proof {
                    assert(false);
                }
                0
            },
        }
    }

    /// Blocks for a limited time until one of the operations becomes ready
    /// and returns its index; nothing is reserved or executed. With no
    /// entries, or none becoming ready within the timeout, an error is
    /// returned.
    pub fn ready_timeout(&mut self, timeout: Duration) -> (r: Result<usize, ReadyTimeoutError>)
        requires
            old(self).wf(),
        ensures
            final(self).wf(),
            final(self).count() == old(self).count(),
            final(self).entries().to_multiset() == old(self).entries().to_multiset(),
            forall|x: (H, usize, usize)|
                final(self).entries().contains(x) <==> old(self).entries().contains(x),
            r matches Ok(i) ==> i < final(self).count() && index_among(
                final(self).entries(),
                i,
            ),
            old(self).count() == 0 ==> r is Err,
    {
        let d = duration_to_nanos(timeout);
        let now = now_nanos();
        let when = if now <= u64::MAX - d {
            now + d
        } else {
            u64::MAX
        };
        let (r, _) = run_ready(&mut self.handles, Timeout::At(when));
        proof {
            lemma_entries_wf_preserved(old(self).entries(), self.entries());
        }
        match r {
            None => Err(ReadyTimeoutError),
            Some(index) => {
                proof {
                    lemma_ready_index_bounded(self.entries(), index);
                }
                Ok(index)
            },
        }
    }
}

/// In a well-formed entry list, the index of a selected entry is a valid
/// position count.
proof fn lemma_selected_index_bounded<H>(entries: Seq<(H, usize, usize)>, i: usize, p: usize)
    requires
        entries_wf(entries),
        entry_of(entries, i, p),
    ensures
        i < entries.len(),
{
    let k = choose|k: int|
        0 <= k < entries.len() && (#[trigger] entries[k]).1 == i && entries[k].2 == p;
    assert(entries[k].1 < entries.len());
}

/// In a well-formed entry list, a reported ready index is a valid position
/// count.
proof fn lemma_ready_index_bounded<H>(entries: Seq<(H, usize, usize)>, i: usize)
    requires
        entries_wf(entries),
        index_among(entries, i),
    ensures
        i < entries.len(),
{
    let k = choose|k: int| 0 <= k < entries.len() && (#[trigger] entries[k]).1 == i;
    assert(entries[k].1 < entries.len());
}

/// Turns the flavor's low-level send result into the public one: success
/// passes through, and a disconnected channel hands the message back.
pub fn finish_send<T>(res: Result<(), T>) -> (r: Result<(), SendError<T>>)
    ensures
        res is Ok ==> r is Ok,
        res matches Err(m) ==> r == Result::<(), SendError<T>>::Err(SendError(m)),
{
    match res {
        Ok(()) => Ok(()),
        Err(m) => Err(SendError(m)),
    }
}

/// Turns the flavor's low-level receive result into the public one: a
/// received message passes through, and a disconnected empty channel becomes
/// `RecvError`.
pub fn finish_recv<T>(res: Result<T, ()>) -> (r: Result<T, RecvError>)
    ensures
        res matches Ok(m) ==> r == Result::<T, RecvError>::Ok(m),
        res is Err ==> r == Result::<T, RecvError>::Err(RecvError),
{
    match res {
        Ok(m) => Ok(m),
        Err(()) => Err(RecvError),
    }
}

/// A selected operation that needs to be completed.
///
/// To complete the operation, call [`SelectedOperation::send`] or
/// [`SelectedOperation::recv`] with the same endpoint that was added to the
/// `Select`: completion consumes this value, so the operation is finished at
/// most once. Failing to complete a selected operation leaks the reservation
/// its flavor made and can deadlock peers waiting on it; a destructor that
/// aborts on such a drop is not available to verified code, so the leak goes
/// undetected at run time and completion stays the caller's obligation.
#[must_use]
pub struct SelectedOperation {
    /// Token needed to complete the operation.
    token: Token,
    /// The index of the selected operation.
    index: usize,
    /// The address of the selected endpoint.
    ptr: usize,
}

impl SelectedOperation {
    /// The caller-assigned index of the selected operation.
    pub closed spec fn idx(self) -> usize {
        self.index
    }

    /// The address of the selected endpoint.
    pub closed spec fn endpoint(self) -> usize {
        self.ptr
    }

    /// Returns the index of the selected operation.
    pub fn index(&self) -> (i: usize)
        ensures
            i == self.idx(),
    {
        self.index
    }

    /// Completes the send operation.
    ///
    /// The endpoint must be the very one whose `send` entry was selected:
    /// completing with any other endpoint is a usage error, excluded by the
    /// contract. (Verified code cannot abort the way the unverified
    /// implementation would; an unverified caller that presents a foreign
    /// endpoint anyway gets its message handed back untouched, and nothing is
    /// written anywhere.) Success passes through from the flavor's `write`;
    /// every failure returns the caller's own message as `SendError`.
    pub fn send<T, S: SendEndpoint<T>>(self, s: &S, msg: T) -> (r: Result<(), SendError<T>>)
        requires
            s.id() == self.endpoint(),
        ensures
            r matches Err(e) ==> e == SendError(msg),
    {
        if s.addr() != self.ptr {
            return Err(SendError(msg));
        }
        let mut token = self.token;
        finish_send(s.write(&mut token, msg))
    }

    /// Completes the receive operation.
    ///
    /// The endpoint must be the very one whose `recv` entry was selected:
    /// completing with any other endpoint is a usage error, excluded by the
    /// contract. (Verified code cannot abort the way the unverified
    /// implementation would; an unverified caller that presents a foreign
    /// endpoint anyway gets `RecvError` back, and nothing is read from
    /// anywhere.) A received message passes through from the flavor's
    /// `read`; a channel that is disconnected and empty yields `RecvError`.
    pub fn recv<T, R: RecvEndpoint<T>>(self, r: &R) -> (res: Result<T, RecvError>)
        requires
            r.id() == self.endpoint(),
        ensures
            res matches Err(e) ==> e == RecvError,
    {
        if r.addr() != self.ptr {
            return Err(RecvError);
        }
        let mut token = self.token;
        finish_recv(r.read(&mut token))
    }
}

} // verus!
