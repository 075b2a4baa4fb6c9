//! Dispatch channel decisions: when a dispatch is settled by a publication
//! result, by an incoming reply, or by the deadline. The surrounding loop
//! performs the transport work and reports each event here.

use vstd::prelude::*;
use crate::message::{Action, Message, opt_bytes_view};

verus! {

/// What a dispatch hands back to its caller.
pub enum DispatchOutcome {
    /// Publication succeeded and no reply was awaited.
    Sent,
    /// The correlated reply.
    Reply(Message),
    /// The deadline passed with no matching reply: an outcome, not an
    /// error.
    NoResponse,
    /// The transport refused the publication.
    PublishRejected,
}

/// One dispatch in flight: what was sent and how its reply correlates.
pub struct DispatchState {
    pub sent_id: Option<Vec<u8>>,
    pub sent_action: Action,
    pub correlate: bool,
    pub deadline: u64,
}

/// What the surrounding loop reports to the dispatch logic.
pub enum DispatchEvent {
    PublishOk,
    PublishFailed,
    /// A decoded incoming direct message, with its arrival time.
    Incoming(Message, u64),
    /// The clock reached the given time with nothing to deliver.
    Tick(u64),
}

pub enum DispatchStep {
    Continue,
    Done(DispatchOutcome),
}

/// The replies this client recognizes for each action it sends; a refusal
/// is recognized everywhere.
pub open spec fn recognized_reply(sent: Action, got: Action) -> bool {
    ||| got == Action::CantDo
    ||| match sent {
        Action::NewOrder => got == Action::PayInvoice || got == Action::WaitingSellerToPay
            || got == Action::WaitingBuyerInvoice,
        Action::TakeSell => got == Action::AddInvoice || got == Action::WaitingSellerToPay
            || got == Action::PayInvoice,
        Action::TakeBuy => got == Action::PayInvoice || got == Action::WaitingBuyerInvoice,
        Action::AddInvoice => got == Action::WaitingSellerToPay || got
            == Action::BuyerInvoiceAccepted,
        Action::FiatSent => got == Action::FiatSentOk,
        Action::Release => got == Action::Released,
        Action::Cancel => got == Action::Canceled,
        Action::RateUser => got == Action::RateReceived,
        Action::Dispute => got == Action::DisputeInitiatedByYou,
        Action::AdminCancel => got == Action::AdminCanceled,
        Action::AdminSettle => got == Action::AdminSettled,
        Action::AdminTakeDispute => got == Action::AdminTookDispute,
        _ => false,
    }
}

/// A reply matches when the dispatch awaited one, the ids agree, and the
/// action is a recognized reply to what was sent.
pub open spec fn reply_matches(sent_id: Option<Seq<u8>>, sent_action: Action, m: Message) -> bool {
    &&& sent_id is Some
    &&& m@.id == sent_id
    &&& recognized_reply(sent_action, m.action)
}

/// The decision taken for each event.
pub open spec fn dispatch_step_spec(st: DispatchState, ev: DispatchEvent) -> DispatchStep {
    match ev {
        DispatchEvent::PublishOk => if st.correlate {
            DispatchStep::Continue
        } else {
            DispatchStep::Done(DispatchOutcome::Sent)
        },
        DispatchEvent::PublishFailed => DispatchStep::Done(DispatchOutcome::PublishRejected),
        DispatchEvent::Incoming(m, t) => if t <= st.deadline && st.correlate && reply_matches(
            opt_bytes_view(st.sent_id),
            st.sent_action,
            m,
        ) {
            DispatchStep::Done(DispatchOutcome::Reply(m))
        } else {
            DispatchStep::Continue
        },
        DispatchEvent::Tick(t) => if t >= st.deadline {
            DispatchStep::Done(DispatchOutcome::NoResponse)
        } else {
            DispatchStep::Continue
        },
    }
}

/// Open a dispatch: remember the correlation id and action of the outgoing
/// message, and fix the deadline once and for all.
pub fn start_dispatch(sent_id: Option<Vec<u8>>, sent_action: Action, correlate: bool, now: u64, timeout: u64) -> (r:
    DispatchState)
    requires
        now + timeout <= u64::MAX,
    ensures
        r.sent_id == sent_id,
        r.sent_action == sent_action,
        r.correlate == correlate,
        r.deadline == now + timeout,
{
    DispatchState { sent_id, sent_action, correlate, deadline: now + timeout }
}

/// Compare two byte strings.
fn bytes_eq(a: &[u8], b: &[u8]) -> (r: bool)
    ensures
        r <==> a@ == b@,
{
    if a.len() != b.len() {
        return false;
    }
    let mut i: usize = 0;
    while i < a.len()
        invariant
            a@.len() == b@.len(),
            i <= a@.len(),
            forall|t: int| 0 <= t < i ==> a@[t] == b@[t],
        decreases a@.len() - i,
    {
        if a[i] != b[i] {
            return false;
        }
        i += 1;
    }
    proof {
        assert(a@ =~= b@);
    }
    true
}

/// Whether `got` is a recognized reply to `sent`.
pub fn is_recognized_reply(sent: Action, got: Action) -> (r: bool)
    ensures
        r == recognized_reply(sent, got),
{
    if got == Action::CantDo {
        return true;
    }
    match sent {
        Action::NewOrder => got == Action::PayInvoice || got == Action::WaitingSellerToPay || got
            == Action::WaitingBuyerInvoice,
        Action::TakeSell => got == Action::AddInvoice || got == Action::WaitingSellerToPay || got
            == Action::PayInvoice,
        Action::TakeBuy => got == Action::PayInvoice || got == Action::WaitingBuyerInvoice,
        Action::AddInvoice => got == Action::WaitingSellerToPay || got
            == Action::BuyerInvoiceAccepted,
        Action::FiatSent => got == Action::FiatSentOk,
        Action::Release => got == Action::Released,
        Action::Cancel => got == Action::Canceled,
        Action::RateUser => got == Action::RateReceived,
        Action::Dispute => got == Action::DisputeInitiatedByYou,
        Action::AdminCancel => got == Action::AdminCanceled,
        Action::AdminSettle => got == Action::AdminSettled,
        Action::AdminTakeDispute => got == Action::AdminTookDispute,
        _ => false,
    }
}

/// Decide the next move of a dispatch in flight.
pub fn dispatch_step(st: &DispatchState, ev: DispatchEvent) -> (r: DispatchStep)
    ensures
        r == dispatch_step_spec(*st, ev),
{
    match ev {
        DispatchEvent::PublishOk => {
            if st.correlate {
                DispatchStep::Continue
            } else {
                DispatchStep::Done(DispatchOutcome::Sent)
            }
        },
        DispatchEvent::PublishFailed => DispatchStep::Done(DispatchOutcome::PublishRejected),
        DispatchEvent::Incoming(m, t) => {
            let matches_id: bool = match (&st.sent_id, &m.id) {
                (Some(x), Some(y)) => bytes_eq(x.as_slice(), y.as_slice()),
                _ => false,
            };
            if t <= st.deadline && st.correlate && matches_id && is_recognized_reply(
                st.sent_action,
                m.action,
            ) {
                DispatchStep::Done(DispatchOutcome::Reply(m))
            } else {
                DispatchStep::Continue
            }
        },
        DispatchEvent::Tick(t) => {
            if t >= st.deadline {
                DispatchStep::Done(DispatchOutcome::NoResponse)
            } else {
                DispatchStep::Continue
            }
        },
    }
}

/// The outcome of driving one dispatch over a whole stream of events: the
/// first settling event decides, later traffic is never consulted.
pub open spec fn run_dispatch(st: DispatchState, events: Seq<DispatchEvent>) -> DispatchStep
    decreases events.len(),
{
    if events.len() == 0 {
        DispatchStep::Continue
    } else {
        match dispatch_step_spec(st, events[0]) {
            DispatchStep::Done(o) => DispatchStep::Done(o),
            DispatchStep::Continue => run_dispatch(st, events.drop_first()),
        }
    }
}

/// A fire-and-forget dispatch returns the moment publication succeeds,
/// whatever relay traffic follows in the stream.
pub proof fn lemma_run_fire_and_forget(st: DispatchState, events: Seq<DispatchEvent>)
    requires
        !st.correlate,
        events.len() > 0,
        events[0] == DispatchEvent::PublishOk,
    ensures
        run_dispatch(st, events) == DispatchStep::Done(DispatchOutcome::Sent),
{
}

/// A correlated dispatch that sees no matching reply in time ends in the
/// no-response outcome — not an error, and not past the first deadline
/// tick.
pub proof fn lemma_run_times_out(st: DispatchState, events: Seq<DispatchEvent>)
    requires
        st.correlate,
        forall|i: int| 0 <= i < events.len() ==> !(#[trigger] events[i] is PublishFailed),
        forall|i: int| 0 <= i < events.len() ==> (#[trigger] events[i] matches
            DispatchEvent::Incoming(m, t) ==> !(t <= st.deadline && reply_matches(
            opt_bytes_view(st.sent_id),
            st.sent_action,
            m,
        ))),
        exists|i: int|
            0 <= i < events.len() && (#[trigger] events[i] matches DispatchEvent::Tick(t)
                && t >= st.deadline),
    ensures
        run_dispatch(st, events) == DispatchStep::Done(DispatchOutcome::NoResponse),
    decreases events.len(),
{
    let w = choose|i: int|
        0 <= i < events.len() && (#[trigger] events[i] matches DispatchEvent::Tick(t) && t
            >= st.deadline);
    let tail = events.drop_first();
    assert(forall|i: int| 0 <= i < tail.len() ==> #[trigger] tail[i] == events[i + 1]);
    match events[0] {
        DispatchEvent::PublishOk => {
            assert(w != 0);
            assert(tail[w - 1] == events[w]);
            lemma_run_times_out(st, tail);
        },
        DispatchEvent::PublishFailed => {
            assert(events[0] is PublishFailed);
        },
        DispatchEvent::Incoming(m, t) => {
            assert(w != 0);
            assert(tail[w - 1] == events[w]);
            lemma_run_times_out(st, tail);
        },
        DispatchEvent::Tick(t) => {
            if t < st.deadline {
                assert(w != 0);
                assert(tail[w - 1] == events[w]);
                lemma_run_times_out(st, tail);
            }
        },
    }
}

/// A fire-and-forget dispatch is settled the moment publication succeeds,
/// whatever traffic follows.
pub proof fn lemma_fire_and_forget(st: DispatchState)
    requires
        !st.correlate,
    ensures
        dispatch_step_spec(st, DispatchEvent::PublishOk) == DispatchStep::Done(
            DispatchOutcome::Sent,
        ),
{
}

/// Once the deadline is reached the dispatch ends in the no-response
/// outcome, which is distinct from a transport failure.
pub proof fn lemma_timeout_is_no_response(st: DispatchState, t: u64)
    requires
        t >= st.deadline,
    ensures
        dispatch_step_spec(st, DispatchEvent::Tick(t)) == DispatchStep::Done(
            DispatchOutcome::NoResponse,
        ),
        dispatch_step_spec(st, DispatchEvent::Tick(t)) != DispatchStep::Done(
            DispatchOutcome::PublishRejected,
        ),
{
}

} // verus!
