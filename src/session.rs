//! Stream sessions: the decisions that bridge one long-lived client
//! connection and one hub subscription. The caller runs the connection; it
//! asks here what to do next and does it.

use vstd::prelude::*;
use crate::board::{ConflictKind, EngineError};
use crate::hub::{Delivery, Hub, HubView, Subscription};
use crate::identity::Token;

verus! {

/// What a session does next.
#[derive(Debug)]
pub enum SessionStep {
    /// Send this message, one event in its transport form.
    Send(String),
    /// Nothing to send yet: wait for the next publish.
    Wait,
    /// End the session: the subscription is gone, or fell behind and was
    /// dropped, so the transport must be closed.
    Close,
}

/// Opens a session for an identity check's outcome. A failed check is
/// returned as it is, before any subscription is made; otherwise the session
/// gets a new subscription (`Conflict(DuplicateId)` once every subscription
/// id is used up).
pub fn open_session(hub: &mut Hub, identity: Result<Token, EngineError>) -> (r: Result<
    Subscription,
    EngineError,
>)
    requires
        old(hub).wf(),
    ensures
        final(hub).wf(),
        identity is Err ==> r == Err::<Subscription, EngineError>(identity->Err_0) && final(hub)@ == old(
            hub,
        )@,
        identity is Ok && old(hub)@.next_id == u64::MAX ==> r == Err::<Subscription, EngineError>(
            EngineError::Conflict(ConflictKind::DuplicateId),
        ) && final(hub)@ == old(hub)@,
        identity is Ok && old(hub)@.next_id < u64::MAX ==> r == Ok::<Subscription, EngineError>(
            Subscription { id: old(hub)@.next_id },
        ) && final(hub)@ == old(hub)@.subscribe(),
{
    if let Err(e) = identity {
        return Err(e);
    }
    match hub.subscribe() {
        Some(s) => Ok(s),
        None => Err(EngineError::Conflict(ConflictKind::DuplicateId)),
    }
}

/// The next step of session `sub`: send the oldest waiting event, wait, or
/// close when the subscription is gone or was dropped for falling behind.
pub fn next_step(hub: &mut Hub, sub: Subscription) -> (r: SessionStep)
    requires
        old(hub).wf(),
    ensures
        final(hub).wf(),
        ({
            let m = old(hub)@;
            if !m.is_subscribed(sub.id) {
                r is Close && final(hub)@ == m
            } else if m.lagged(sub.id) {
                r is Close && final(hub)@ == (HubView { pending: m.pending.remove(sub.id), ..m })
            } else if m.pending[sub.id] == 0 {
                r is Wait && final(hub)@ == m
            } else {
                &&& r is Send
                &&& r->Send_0@ == m.backlog(sub.id)[0].json()
                &&& final(hub)@ == (HubView {
                    pending: m.pending.insert(sub.id, (m.pending[sub.id] - 1) as nat),
                    ..m
                })
            }
        }),
{
    match hub.recv(sub) {
        Delivery::Event(e) => SessionStep::Send(e.to_json()),
        Delivery::Empty => SessionStep::Wait,
        Delivery::Lagged => SessionStep::Close,
        Delivery::Closed => SessionStep::Close,
    }
}

} // verus!
