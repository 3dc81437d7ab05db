use vstd::prelude::*;

use crate::context::Context;
use crate::ops::Operation;

verus! {

/// Temporary data that gets initialized during select or a blocking
/// operation, and is consumed by a flavor's `read` or `write`.
///
/// The driver never looks inside: a flavor stashes whatever it needs to
/// finish the operation later, typically the address of a reserved slot or
/// entry (with 0 standing for a disconnected channel) and a sequence number
/// or flavor-local discriminant.
pub struct Token {
    /// Address of the slot or entry the flavor reserved; 0 when the channel
    /// was found disconnected.
    pub slot: usize,
    /// Sequence number or stamp of the reservation.
    pub stamp: usize,
    /// Flavor-local discriminant.
    pub tag: usize,
}

impl Default for Token {
    /// An empty token, not yet populated by any flavor.
    fn default() -> (t: Token)
        ensures
            t.slot == 0 && t.stamp == 0 && t.tag == 0,
    {
        Token { slot: 0, stamp: 0, tag: 0 }
    }
}

/// A receiver or a sender that can participate in select.
///
/// This is a handle that assists select in executing an operation,
/// registration, deciding on the appropriate deadline for blocking, etc.
/// Channel flavors implement it; the driver is verified against this
/// interface for every implementation.
pub trait SelectHandle {
    /// The identity of the endpoint: the address of the endpoint value
    /// itself. The select builder records it, and a completion call must
    /// present the endpoint with the same identity again.
    spec fn id(&self) -> usize;

    /// Returns the endpoint's identity. Implementations return
    /// `endpoint_addr(self)`.
    fn addr(&self) -> (a: usize)
        ensures
            a == self.id(),
    ;

    /// Attempts to select an operation and returns `true` on success,
    /// populating the token for the later completion call.
    fn try_select(&self, token: &mut Token) -> bool;

    /// Returns a deadline for the operation, if there is one, as a
    /// nanosecond clock reading.
    fn deadline(&self) -> Option<u64>;

    /// Registers an operation for execution and returns `true` if it is now
    /// ready. When it returns `true` the context has not been enqueued; when
    /// it returns `false` the caller owes exactly one `unregister`.
    fn register(&self, oper: Operation, cx: &Context) -> bool;

    /// Unregisters an operation for execution; a no-op if the operation is
    /// not enqueued.
    fn unregister(&self, oper: Operation);

    /// Attempts to select the operation the thread got woken up for and
    /// returns `true` on success, populating the token. May return `false`
    /// when the wakeup was stale.
    fn accept(&self, token: &mut Token, cx: &Context) -> bool;

    /// Returns `true` if the operation can be executed without blocking.
    fn is_ready(&self) -> bool;

    /// Registers the operation for readiness notification (without reserving
    /// anything) and returns `true` if it is now ready.
    fn watch(&self, oper: Operation, cx: &Context) -> bool;

    /// Unregisters the operation from readiness notification; a no-op if the
    /// operation is not enqueued.
    fn unwatch(&self, oper: Operation);

    /// Returns the current state of the opposite side of the channel,
    /// typically a message counter: while peers make progress this keeps
    /// changing, and a non-blocking select keeps retrying as long as it does.
    fn state(&self) -> usize;
}

impl<'h, T: SelectHandle> SelectHandle for &'h T {
    open spec fn id(&self) -> usize {
        (**self).id()
    }

    fn addr(&self) -> (a: usize) {
        (**self).addr()
    }

    fn try_select(&self, token: &mut Token) -> bool {
        (**self).try_select(token)
    }

    fn deadline(&self) -> Option<u64> {
        (**self).deadline()
    }

    fn register(&self, oper: Operation, cx: &Context) -> bool {
        (**self).register(oper, cx)
    }

    fn unregister(&self, oper: Operation) {
        (**self).unregister(oper)
    }

    fn accept(&self, token: &mut Token, cx: &Context) -> bool {
        (**self).accept(token, cx)
    }

    fn is_ready(&self) -> bool {
        (**self).is_ready()
    }

    fn watch(&self, oper: Operation, cx: &Context) -> bool {
        (**self).watch(oper, cx)
    }

    fn unwatch(&self, oper: Operation) {
        (**self).unwatch(oper)
    }

    fn state(&self) -> usize {
        (**self).state()
    }
}

/// The address of the referent, for endpoint identity: what the select
/// builder stores for an endpoint, and what a completion call compares
/// against. Never one of the sentinel values 0, 1 and 2; the referent must
/// have non-zero size (every real channel endpoint does), since a reference
/// to a zero-sized value may sit at a sentinel address.
pub fn endpoint_addr<T>(r: &T) -> (a: usize)
    requires
        vstd::layout::size_of::<T>() > 0,
    ensures
        a > 2,
{
    crate::ops::ref_addr(r)
}

/// The sending side of a channel flavor: consumes the token deposited by
/// `try_select` or `accept` and writes one message.
pub trait SendEndpoint<T>: SelectHandle {
    /// Completes a selected send with the reservation in `token`. Success
    /// means the message was handed over; when the channel is (or became)
    /// disconnected, the very message comes back to the caller.
    fn write(&self, token: &mut Token, msg: T) -> (r: Result<(), T>)
        ensures
            r matches Err(m) ==> m == msg,
    ;
}

/// The receiving side of a channel flavor: consumes the token deposited by
/// `try_select` or `accept` and reads one message.
pub trait RecvEndpoint<T>: SelectHandle {
    /// Completes a selected receive with the reservation in `token`. Fails
    /// when the channel is disconnected and empty.
    fn read(&self, token: &mut Token) -> Result<T, ()>;
}

} // verus!
