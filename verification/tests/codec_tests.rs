use mostro_cli::codec::{decode, encode};
use mostro_cli::fiat::FiatRange;
use mostro_cli::message::{
    compile, Action, Command, Content, Message, MessageKind, OrderPayload, OrderSide,
};

fn sample_take_sell() -> Message {
    Message {
        kind: MessageKind::Order,
        id: Some(b"308e1272-d5f4-47e6-bd97-3998e6f2ddbb".to_vec()),
        sender: Some(b"deadbeef".to_vec()),
        action: Action::TakeSell,
        content: Some(Content::PaymentRequest(None, b"lnbc1xyz".to_vec(), Some(50))),
    }
}

#[test]
fn encoding_is_canonical_json() {
    let enc = encode(&sample_take_sell());
    let text = String::from_utf8(enc).unwrap();
    assert_eq!(
        text,
        "{\"kind\":\"order\",\"id\":\"308e1272-d5f4-47e6-bd97-3998e6f2ddbb\",\
         \"sender\":\"deadbeef\",\"action\":\"take-sell\",\
         \"content\":{\"payment_request\":[null,\"lnbc1xyz\",50]}}"
    );
}

#[test]
fn round_trip_reproduces_every_field() {
    let m = sample_take_sell();
    let enc = encode(&m);
    let back = decode(&enc).expect("canonical encoding must decode");
    assert!(matches!(back.kind, MessageKind::Order));
    assert_eq!(back.id, m.id);
    assert_eq!(back.sender, m.sender);
    assert_eq!(back.action, Action::TakeSell);
    match back.content {
        Some(Content::PaymentRequest(label, pr, amount)) => {
            assert_eq!(label, None);
            assert_eq!(pr, b"lnbc1xyz".to_vec());
            assert_eq!(amount, Some(50));
        }
        _ => panic!("wrong content"),
    }
}

#[test]
fn round_trip_of_a_compiled_dispute_take() {
    let cmd = Command::AdmTakeDispute { dispute_id: b"a-b".to_vec() };
    let m = compile(cmd, None, Some(b"cafe".to_vec()));
    let enc = encode(&m);
    let text = String::from_utf8(enc.clone()).unwrap();
    assert_eq!(
        text,
        "{\"kind\":\"dispute\",\"id\":\"a-b\",\"sender\":\"cafe\",\
         \"action\":\"admin-take-dispute\",\"content\":null}"
    );
    let back = decode(&enc).unwrap();
    assert!(matches!(back.kind, MessageKind::Dispute));
    assert_eq!(back.action, Action::AdminTakeDispute);
    assert_eq!(back.id, Some(b"a-b".to_vec()));
    assert!(back.content.is_none());
}

#[test]
fn round_trip_of_a_new_order() {
    let order = OrderPayload {
        side: OrderSide::Sell,
        amount: 0,
        fiat_code: b"EUR".to_vec(),
        fiat_range: FiatRange { min: 100, max: Some(200) },
        payment_method: b"SEPA".to_vec(),
        premium: -1,
    };
    let cmd = Command::NewOrder { order: order.clone(), invoice: None, expiration_days: 0 };
    let m = compile(cmd, Some(Content::Order(order)), Some(b"cafe".to_vec()));
    let enc = encode(&m);
    let text = String::from_utf8(enc.clone()).unwrap();
    assert_eq!(
        text,
        "{\"kind\":\"order\",\"id\":null,\"sender\":\"cafe\",\"action\":\"new-order\",\
         \"content\":{\"order\":{\"kind\":\"sell\",\"amount\":0,\"fiat_code\":\"EUR\",\
         \"min_amount\":100,\"max_amount\":200,\"payment_method\":\"SEPA\",\"premium\":-1}}}"
    );
    let back = decode(&enc).unwrap();
    assert_eq!(back.action, Action::NewOrder);
    match back.content {
        Some(Content::Order(o)) => {
            assert!(matches!(o.side, OrderSide::Sell));
            assert_eq!(o.amount, 0);
            assert_eq!(o.fiat_code, b"EUR".to_vec());
            assert_eq!(o.fiat_range.min, 100);
            assert_eq!(o.fiat_range.max, Some(200));
            assert_eq!(o.payment_method, b"SEPA".to_vec());
            assert_eq!(o.premium, -1);
        }
        _ => panic!("wrong content"),
    }
}

#[test]
fn rating_and_text_payloads_round_trip() {
    let m = Message {
        kind: MessageKind::Order,
        id: Some(b"id-1".to_vec()),
        sender: None,
        action: Action::RateUser,
        content: Some(Content::RatingUser(5)),
    };
    let enc = encode(&m);
    assert_eq!(
        String::from_utf8(enc.clone()).unwrap(),
        "{\"kind\":\"order\",\"id\":\"id-1\",\"sender\":null,\"action\":\"rate-user\",\
         \"content\":{\"rating_user\":5}}"
    );
    let back = decode(&enc).unwrap();
    assert!(matches!(back.content, Some(Content::RatingUser(5))));

    let m = Message {
        kind: MessageKind::Order,
        id: None,
        sender: None,
        action: Action::AdminAddSolver,
        content: Some(Content::TextMessage(b"npub1solver".to_vec())),
    };
    let enc = encode(&m);
    let back = decode(&enc).unwrap();
    assert_eq!(back.action, Action::AdminAddSolver);
    assert!(matches!(back.content, Some(Content::TextMessage(t)) if t == b"npub1solver".to_vec()));
}

#[test]
fn decoder_is_exact() {
    // Trailing bytes, a non-canonical number, and a broken key are refused.
    let good = encode(&sample_take_sell());
    let mut with_tail = good.clone();
    with_tail.push(b' ');
    assert!(decode(&with_tail).is_none());
    let leading_zero =
        b"{\"kind\":\"order\",\"id\":null,\"sender\":null,\"action\":\"take-buy\",\
          \"content\":{\"amount\":007}}"
            .to_vec();
    assert!(decode(&leading_zero).is_none());
    let bad_key = b"{\"kind\":\"order\",\"id\":null,\"sender\":null,\"action\":\"take-buy\",\
          \"contents\":null}"
        .to_vec();
    assert!(decode(&bad_key).is_none());
}

#[test]
fn every_action_tag_round_trips() {
    let actions = vec![
        Action::NewOrder,
        Action::TakeSell,
        Action::TakeBuy,
        Action::AddInvoice,
        Action::FiatSent,
        Action::Release,
        Action::Cancel,
        Action::RateUser,
        Action::Dispute,
        Action::AdminCancel,
        Action::AdminSettle,
        Action::AdminAddSolver,
        Action::AdminTakeDispute,
        Action::PayInvoice,
        Action::WaitingSellerToPay,
        Action::WaitingBuyerInvoice,
        Action::BuyerInvoiceAccepted,
        Action::BuyerTookOrder,
        Action::FiatSentOk,
        Action::Released,
        Action::Canceled,
        Action::AdminCanceled,
        Action::AdminSettled,
        Action::AdminTookDispute,
        Action::RateReceived,
        Action::CantDo,
        Action::DisputeInitiatedByYou,
    ];
    for a in actions {
        let m = Message {
            kind: MessageKind::Order,
            id: None,
            sender: None,
            action: a,
            content: None,
        };
        let back = decode(&encode(&m)).unwrap();
        assert_eq!(back.action, a);
    }
}

#[test]
fn compile_selects_kind_action_and_id() {
    let m = compile(
        Command::FiatSent { order_id: b"oid".to_vec() },
        None,
        Some(b"me".to_vec()),
    );
    assert!(matches!(m.kind, MessageKind::Order));
    assert_eq!(m.action, Action::FiatSent);
    assert_eq!(m.id, Some(b"oid".to_vec()));
    assert_eq!(m.sender, Some(b"me".to_vec()));
    let m = compile(Command::AdmAddSolver { npubkey: b"npub1x".to_vec() }, None, None);
    assert_eq!(m.id, None);
    assert_eq!(m.action, Action::AdminAddSolver);
}
