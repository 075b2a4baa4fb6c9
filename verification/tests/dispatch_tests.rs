use mostro_cli::dispatch::{
    dispatch_step, start_dispatch, DispatchEvent, DispatchOutcome, DispatchStep,
};
use mostro_cli::message::{Action, Content, Message, MessageKind};

fn reply(action: Action, id: &[u8]) -> Message {
    Message {
        kind: MessageKind::Order,
        id: Some(id.to_vec()),
        sender: Some(b"counterparty".to_vec()),
        action,
        content: Some(Content::PaymentRequest(None, b"lnbc1hold".to_vec(), None)),
    }
}

#[test]
fn fire_and_forget_ends_on_publish() {
    let st = start_dispatch(None, Action::AdminAddSolver, false, 100, 30);
    let step = dispatch_step(&st, DispatchEvent::PublishOk);
    assert!(matches!(step, DispatchStep::Done(DispatchOutcome::Sent)));
    // Later traffic cannot change an already-settled dispatch, and even the
    // step function ignores replies when none was awaited.
    let step = dispatch_step(&st, DispatchEvent::Incoming(reply(Action::CantDo, b"x"), 101));
    assert!(matches!(step, DispatchStep::Continue));
}

#[test]
fn publish_failure_is_a_dispatch_failure() {
    let st = start_dispatch(Some(b"oid".to_vec()), Action::TakeSell, true, 100, 30);
    let step = dispatch_step(&st, DispatchEvent::PublishFailed);
    assert!(matches!(step, DispatchStep::Done(DispatchOutcome::PublishRejected)));
}

#[test]
fn matching_reply_settles_the_dispatch() {
    let st = start_dispatch(Some(b"oid".to_vec()), Action::TakeSell, true, 100, 30);
    let step = dispatch_step(&st, DispatchEvent::PublishOk);
    assert!(matches!(step, DispatchStep::Continue));
    let step = dispatch_step(&st, DispatchEvent::Incoming(reply(Action::AddInvoice, b"oid"), 110));
    match step {
        DispatchStep::Done(DispatchOutcome::Reply(m)) => {
            assert_eq!(m.action, Action::AddInvoice);
            assert_eq!(m.id, Some(b"oid".to_vec()));
        }
        _ => panic!("the matching reply must settle the dispatch"),
    }
}

#[test]
fn unrelated_traffic_is_ignored() {
    let st = start_dispatch(Some(b"oid".to_vec()), Action::TakeSell, true, 100, 30);
    // Wrong id.
    let step = dispatch_step(&st, DispatchEvent::Incoming(reply(Action::AddInvoice, b"other"), 110));
    assert!(matches!(step, DispatchStep::Continue));
    // Unrecognized reply action for a take-sell.
    let step = dispatch_step(&st, DispatchEvent::Incoming(reply(Action::Released, b"oid"), 110));
    assert!(matches!(step, DispatchStep::Continue));
    // Matching but after the deadline.
    let step = dispatch_step(&st, DispatchEvent::Incoming(reply(Action::AddInvoice, b"oid"), 131));
    assert!(matches!(step, DispatchStep::Continue));
}

#[test]
fn timeout_is_no_response_not_an_error() {
    let st = start_dispatch(Some(b"oid".to_vec()), Action::TakeSell, true, 100, 30);
    let step = dispatch_step(&st, DispatchEvent::Tick(129));
    assert!(matches!(step, DispatchStep::Continue));
    let step = dispatch_step(&st, DispatchEvent::Tick(130));
    assert!(matches!(step, DispatchStep::Done(DispatchOutcome::NoResponse)));
    let step = dispatch_step(&st, DispatchEvent::Tick(500));
    assert!(matches!(step, DispatchStep::Done(DispatchOutcome::NoResponse)));
}

#[test]
fn refusal_is_recognized_for_every_command() {
    let st = start_dispatch(Some(b"oid".to_vec()), Action::FiatSent, true, 100, 30);
    let step = dispatch_step(&st, DispatchEvent::Incoming(reply(Action::CantDo, b"oid"), 110));
    assert!(matches!(step, DispatchStep::Done(DispatchOutcome::Reply(_))));
}
