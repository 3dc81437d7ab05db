use vstd::prelude::*;

verus! {

/// Identifier associated with an operation by a specific thread on a specific
/// channel endpoint.
///
/// The value is the address of a location that is alive for the whole duration
/// of the select call, so it is unique among the pending operations of all
/// live selectors and cheap for peers to compare and exchange.
#[derive(Clone, Copy, PartialEq, Eq, Structural)]
pub struct Operation(pub usize);

/// Relies on the conversion of a reference to the address it points to. A
/// live reference to a value of non-zero size points into a real
/// allocation, and no allocation occupies the first bytes of the address
/// space, so the address never collides with the three sentinel values 0,
/// 1 and 2. A reference to a zero-sized value carries no such guarantee
/// (it may be dangling-aligned at exactly those addresses), so the
/// precondition excludes zero-sized referents.
#[verifier::external_body]
pub(crate) fn ref_addr<T>(r: &T) -> (a: usize)
    requires
        vstd::layout::size_of::<T>() > 0,
    ensures
        a > 2,
{
    core::ptr::from_ref(r).addr()
}

impl Operation {
    /// The integer value of this operation identifier.
    pub open spec fn id(self) -> usize {
        self.0
    }

    /// An operation identifier is well formed when it cannot collide with the
    /// three sentinel encodings 0, 1 and 2 of `Selected`.
    pub open spec fn wf(self) -> bool {
        self.id() > 2
    }

    /// Creates an operation identifier from a mutable reference.
    ///
    /// The reference should point to a variable that is specific to the thread
    /// and the operation, and is alive for the entire duration of the select
    /// or blocking operation. The referent must have non-zero size: only then
    /// is its address guaranteed to stay clear of the sentinel encodings.
    pub fn hook<T>(r: &mut T) -> (op: Operation)
        requires
            vstd::layout::size_of::<T>() > 0,
        ensures
            op.wf(),
            *final(r) == *old(r),
    {
        let val = ref_addr(&*r);
        Operation(val)
    }
}

/// Current state of a select or a blocking operation.
#[derive(Clone, Copy, PartialEq, Eq, Structural)]
pub enum Selected {
    /// Still waiting for an operation.
    Waiting,
    /// The attempt to block the current thread has been aborted.
    Aborted,
    /// An operation became ready because a channel is disconnected.
    Disconnected,
    /// An operation became ready because a message can be sent or received.
    Operation(Operation),
}

/// The single machine word that encodes a `Selected` state inside a context's
/// selection slot: the three sentinels take 0, 1 and 2, and an operation is
/// stored as its own identifier value.
pub open spec fn encode(s: Selected) -> usize {
    match s {
        Selected::Waiting => 0,
        Selected::Aborted => 1,
        Selected::Disconnected => 2,
        Selected::Operation(op) => op.id(),
    }
}

/// The `Selected` state that a machine word decodes to.
pub open spec fn decode(v: usize) -> Selected {
    if v == 0 {
        Selected::Waiting
    } else if v == 1 {
        Selected::Aborted
    } else if v == 2 {
        Selected::Disconnected
    } else {
        Selected::Operation(Operation(v))
    }
}

impl Selected {
    /// A state is well formed when the operation it may carry cannot collide
    /// with the sentinel encodings.
    pub open spec fn wf(self) -> bool {
        match self {
            Selected::Operation(op) => op.wf(),
            _ => true,
        }
    }

    /// Encodes this state as a machine word, for storage in a selection slot.
    pub fn into_usize(self) -> (v: usize)
        ensures
            v == encode(self),
    {
        match self {
            Selected::Waiting => 0,
            Selected::Aborted => 1,
            Selected::Disconnected => 2,
            Selected::Operation(Operation(val)) => val,
        }
    }
}

impl From<usize> for Selected {
    /// Decodes a machine word read from a selection slot.
    fn from(val: usize) -> (s: Selected) {
        if val == 0 {
            Selected::Waiting
        } else if val == 1 {
            Selected::Aborted
        } else if val == 2 {
            Selected::Disconnected
        } else {
            Selected::Operation(Operation(val))
        }
    }
}

impl vstd::std_specs::convert::FromSpecImpl<usize> for Selected {
    open spec fn obeys_from_spec() -> bool {
        true
    }

    open spec fn from_spec(v: usize) -> Selected {
        decode(v)
    }
}

/// Decoding always yields a well-formed state: a word above 2 decodes to an
/// operation identifier that cannot collide with the sentinels.
pub proof fn lemma_decode_wf(v: usize)
    ensures
        decode(v).wf(),
{
}

/// Decoding is a right inverse of encoding: a well-formed state survives a
/// round trip through its selection-slot word unchanged.
pub proof fn lemma_decode_encode(s: Selected)
    requires
        s.wf(),
    ensures
        decode(encode(s)) == s,
{
}

/// Encoding is a right inverse of decoding: every machine word survives a
/// round trip through the decoded state unchanged.
pub proof fn lemma_encode_decode(v: usize)
    ensures
        encode(decode(v)) == v,
{
}

/// One compare-and-swap attempt against a selection slot: the attempt writes
/// `desired` only when the slot still holds `Waiting`; otherwise the slot is
/// unchanged.
pub open spec fn slot_step(state: Selected, desired: Selected) -> Selected {
    if state is Waiting {
        desired
    } else {
        state
    }
}

/// The value of a selection slot that started at `Waiting` after a sequence of
/// compare-and-swap attempts, in the order the slot serialized them.
pub open spec fn slot_after(attempts: Seq<Selected>) -> Selected
    decreases attempts.len(),
{
    if attempts.len() == 0 {
        Selected::Waiting
    } else {
        slot_step(slot_after(attempts.drop_last()), attempts.last())
    }
}

/// Attempt `j` wins the slot exactly when every earlier attempt left the slot
/// at `Waiting`.
pub open spec fn attempt_wins(attempts: Seq<Selected>, j: int) -> bool {
    0 <= j < attempts.len() && slot_after(attempts.take(j)) is Waiting
}

/// Once some attempt has moved the slot away from `Waiting`, it keeps the
/// value that attempt installed through every later attempt.
pub proof fn lemma_slot_stable(attempts: Seq<Selected>, j: int, k: int)
    requires
        0 <= j <= k <= attempts.len(),
        !(slot_after(attempts.take(j)) is Waiting),
    ensures
        slot_after(attempts.take(k)) == slot_after(attempts.take(j)),
    decreases k - j,
{
    if j < k {
        lemma_slot_stable(attempts, j, k - 1);
        assert(attempts.take(k).drop_last() =~= attempts.take(k - 1));
    }
}

/// Single winner: for one select call, at most one of the competing peers (or
/// the selector itself, aborting on its deadline) ever moves the selection
/// slot away from `Waiting`. Every attempt asks for a non-`Waiting` value, so
/// after a winning attempt no later attempt can win.
pub proof fn lemma_single_winner(attempts: Seq<Selected>, i: int, j: int)
    requires
        forall|k: int| 0 <= k < attempts.len() ==> !((#[trigger] attempts[k]) is Waiting),
        0 <= i < j < attempts.len(),
        attempt_wins(attempts, i),
    ensures
        !attempt_wins(attempts, j),
{
    assert(attempts.take(i + 1).drop_last() =~= attempts.take(i));
    assert(attempts.take(i + 1).last() == attempts[i]);
    assert(!(slot_after(attempts.take(i + 1)) is Waiting));
    lemma_slot_stable(attempts, i + 1, j);
}

/// The slot value after any number of non-`Waiting` attempts is either still
/// `Waiting`, with no attempt having won, or exactly the value asked for by a
/// winning attempt.
pub proof fn lemma_winner_value(attempts: Seq<Selected>)
    requires
        forall|k: int| 0 <= k < attempts.len() ==> !((#[trigger] attempts[k]) is Waiting),
    ensures
        slot_after(attempts) is Waiting ==> forall|j: int|
            0 <= j < attempts.len() ==> !(#[trigger] attempt_wins(attempts, j)),
        !(slot_after(attempts) is Waiting) ==> exists|j: int|
            attempt_wins(attempts, j) && slot_after(attempts) == attempts[j],
    decreases attempts.len(),
{
    if attempts.len() > 0 {
        let prefix = attempts.drop_last();
        lemma_winner_value(prefix);
        assert(attempts.take(attempts.len() - 1) =~= prefix);
        if slot_after(prefix) is Waiting {
            assert(attempt_wins(attempts, attempts.len() - 1));
            assert(slot_after(attempts) == attempts.last());
        } else {
            let j = choose|j: int|
                attempt_wins(prefix, j) && slot_after(prefix) == prefix[j];
            assert(prefix.take(j) =~= attempts.take(j));
            assert(attempt_wins(attempts, j));
        }
        if slot_after(attempts) is Waiting {
            assert(forall|j: int|
                0 <= j < attempts.len() ==> !(#[trigger] attempt_wins(attempts, j))) by {
                assert forall|j: int| 0 <= j < attempts.len() implies !(#[trigger] attempt_wins(
                    attempts,
                    j,
                )) by {
                    if attempt_wins(attempts, j) {
                        assert(attempts.take(j + 1).drop_last() =~= attempts.take(j));
                        assert(!(slot_after(attempts.take(j + 1)) is Waiting));
                        lemma_slot_stable(attempts, j + 1, attempts.len() as int);
                        assert(attempts.take(attempts.len() as int) =~= attempts);
                    }
                }
            }
        }
    }
}

} // verus!
