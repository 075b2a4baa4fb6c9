//! The protocol message model: commands, payloads, the message envelope,
//! and the compiler that maps a command to its canonical message.

use vstd::prelude::*;
use crate::fiat::FiatRange;

verus! {

/// The two message families of the protocol envelope.
#[derive(Clone, Copy, Debug, PartialEq, Eq, Structural)]
pub enum MessageKind {
    Order,
    Dispute,
}

/// Protocol action tags: the commands this client sends and the replies it
/// recognizes.
#[derive(Clone, Copy, Debug, PartialEq, Eq, Structural)]
pub enum Action {
    NewOrder,
    TakeSell,
    TakeBuy,
    AddInvoice,
    FiatSent,
    Release,
    Cancel,
    RateUser,
    Dispute,
    AdminCancel,
    AdminSettle,
    AdminAddSolver,
    AdminTakeDispute,
    PayInvoice,
    WaitingSellerToPay,
    WaitingBuyerInvoice,
    BuyerInvoiceAccepted,
    BuyerTookOrder,
    FiatSentOk,
    Released,
    Canceled,
    AdminCanceled,
    AdminSettled,
    AdminTookDispute,
    RateReceived,
    CantDo,
    DisputeInitiatedByYou,
}

/// Side of a new order.
#[derive(Clone, Copy, Debug, PartialEq, Eq, Structural)]
pub enum OrderSide {
    Buy,
    Sell,
}

/// Payload of a new-order command.
#[derive(Clone, Debug)]
pub struct OrderPayload {
    pub side: OrderSide,
    pub amount: i64,
    pub fiat_code: Vec<u8>,
    pub fiat_range: FiatRange,
    pub payment_method: Vec<u8>,
    pub premium: i64,
}

/// Payload of a message: at most one per message.
#[derive(Clone, Debug)]
pub enum Content {
    /// A plain fiat-amount override.
    Amount(u32),
    /// A resolved payment instrument: optional label, the instrument string,
    /// and an optional fiat amount.
    PaymentRequest(Option<Vec<u8>>, Vec<u8>, Option<u32>),
    /// A 1-5 rating of the counterparty.
    RatingUser(u8),
    /// A free-text payload, e.g. a solver public key being registered.
    TextMessage(Vec<u8>),
    /// The full payload of a new order.
    Order(OrderPayload),
}

/// The message envelope: family, correlation id, sender identity, action tag
/// and optional payload.
#[derive(Clone, Debug)]
pub struct Message {
    pub kind: MessageKind,
    pub id: Option<Vec<u8>>,
    pub sender: Option<Vec<u8>>,
    pub action: Action,
    pub content: Option<Content>,
}

/// Mathematical model of an order payload.
#[verifier::ext_equal]
pub struct OrderPayloadV {
    pub side: OrderSide,
    pub amount: int,
    pub fiat_code: Seq<u8>,
    pub min_amount: int,
    pub max_amount: Option<int>,
    pub payment_method: Seq<u8>,
    pub premium: int,
}

/// Mathematical model of a payload.
#[verifier::ext_equal]
pub enum ContentV {
    Amount(int),
    PaymentRequest(Option<Seq<u8>>, Seq<u8>, Option<int>),
    RatingUser(int),
    TextMessage(Seq<u8>),
    Order(OrderPayloadV),
}

/// Mathematical model of a message.
#[verifier::ext_equal]
pub struct MessageV {
    pub kind: MessageKind,
    pub id: Option<Seq<u8>>,
    pub sender: Option<Seq<u8>>,
    pub action: Action,
    pub content: Option<ContentV>,
}

pub open spec fn opt_bytes_view(o: Option<Vec<u8>>) -> Option<Seq<u8>> {
    match o {
        Some(v) => Some(v@),
        None => None,
    }
}

pub open spec fn opt_u32_view(o: Option<u32>) -> Option<int> {
    match o {
        Some(v) => Some(v as int),
        None => None,
    }
}

impl View for OrderPayload {
    type V = OrderPayloadV;

    open spec fn view(&self) -> OrderPayloadV {
        OrderPayloadV {
            side: self.side,
            amount: self.amount as int,
            fiat_code: self.fiat_code@,
            min_amount: self.fiat_range.min as int,
            max_amount: match self.fiat_range.max {
                Some(m) => Some(m as int),
                None => None,
            },
            payment_method: self.payment_method@,
            premium: self.premium as int,
        }
    }
}

impl View for Content {
    type V = ContentV;

    open spec fn view(&self) -> ContentV {
        match self {
            Content::Amount(n) => ContentV::Amount(*n as int),
            Content::PaymentRequest(l, pr, a) => ContentV::PaymentRequest(
                opt_bytes_view(*l),
                pr@,
                opt_u32_view(*a),
            ),
            Content::RatingUser(r) => ContentV::RatingUser(*r as int),
            Content::TextMessage(t) => ContentV::TextMessage(t@),
            Content::Order(o) => ContentV::Order(o@),
        }
    }
}

pub open spec fn opt_content_view(o: Option<Content>) -> Option<ContentV> {
    match o {
        Some(c) => Some(c@),
        None => None,
    }
}

impl View for Message {
    type V = MessageV;

    open spec fn view(&self) -> MessageV {
        MessageV {
            kind: self.kind,
            id: opt_bytes_view(self.id),
            sender: opt_bytes_view(self.sender),
            action: self.action,
            content: opt_content_view(self.content),
        }
    }
}

/// A command issued by the user, with the fields that matter to the message
/// compiler. Correlation ids are carried in their canonical hyphenated text
/// form.
#[derive(Clone, Debug)]
pub enum Command {
    NewOrder { order: OrderPayload, invoice: Option<Vec<u8>>, expiration_days: i64 },
    TakeSell { order_id: Vec<u8>, invoice: Option<Vec<u8>>, amount: Option<u32> },
    TakeBuy { order_id: Vec<u8>, amount: Option<u32> },
    AddInvoice { order_id: Vec<u8>, invoice: Vec<u8> },
    FiatSent { order_id: Vec<u8> },
    Release { order_id: Vec<u8> },
    Cancel { order_id: Vec<u8> },
    Rate { order_id: Vec<u8>, rating: u8 },
    Dispute { order_id: Vec<u8> },
    AdmCancel { order_id: Vec<u8> },
    AdmSettle { order_id: Vec<u8> },
    AdmAddSolver { npubkey: Vec<u8> },
    AdmTakeDispute { dispute_id: Vec<u8> },
}

/// Family selected by each command: only taking a dispute speaks on the
/// dispute channel.
pub open spec fn kind_of_command(c: Command) -> MessageKind {
    match c {
        Command::AdmTakeDispute { .. } => MessageKind::Dispute,
        _ => MessageKind::Order,
    }
}

/// Exactly one action tag per command variant.
pub open spec fn action_of_command(c: Command) -> Action {
    match c {
        Command::NewOrder { .. } => Action::NewOrder,
        Command::TakeSell { .. } => Action::TakeSell,
        Command::TakeBuy { .. } => Action::TakeBuy,
        Command::AddInvoice { .. } => Action::AddInvoice,
        Command::FiatSent { .. } => Action::FiatSent,
        Command::Release { .. } => Action::Release,
        Command::Cancel { .. } => Action::Cancel,
        Command::Rate { .. } => Action::RateUser,
        Command::Dispute { .. } => Action::Dispute,
        Command::AdmCancel { .. } => Action::AdminCancel,
        Command::AdmSettle { .. } => Action::AdminSettle,
        Command::AdmAddSolver { .. } => Action::AdminAddSolver,
        Command::AdmTakeDispute { .. } => Action::AdminTakeDispute,
    }
}

/// The correlation id a command speaks about, when it has a subject.
pub open spec fn id_of_command(c: Command) -> Option<Seq<u8>> {
    match c {
        Command::NewOrder { .. } => None,
        Command::TakeSell { order_id, .. } => Some(order_id@),
        Command::TakeBuy { order_id, .. } => Some(order_id@),
        Command::AddInvoice { order_id, .. } => Some(order_id@),
        Command::FiatSent { order_id } => Some(order_id@),
        Command::Release { order_id } => Some(order_id@),
        Command::Cancel { order_id } => Some(order_id@),
        Command::Rate { order_id, .. } => Some(order_id@),
        Command::Dispute { order_id } => Some(order_id@),
        Command::AdmCancel { order_id } => Some(order_id@),
        Command::AdmSettle { order_id } => Some(order_id@),
        Command::AdmAddSolver { .. } => None,
        Command::AdmTakeDispute { dispute_id } => Some(dispute_id@),
    }
}

/// Compile a command and a resolved payload into the canonical message.
///
/// Total for every well-formed input: family and action tag are a function
/// of the command variant alone, the id comes from the command's subject,
/// and the sender identity is the caller's master identity, independent of
/// any transport key.
pub fn compile(cmd: Command, content: Option<Content>, sender: Option<Vec<u8>>) -> (r: Message)
    ensures
        r@.kind == kind_of_command(cmd),
        r@.action == action_of_command(cmd),
        r@.id == id_of_command(cmd),
        r@.sender == opt_bytes_view(sender),
        r@.content == opt_content_view(content),
{
    let (kind, action) = match &cmd {
        Command::NewOrder { .. } => (MessageKind::Order, Action::NewOrder),
        Command::TakeSell { .. } => (MessageKind::Order, Action::TakeSell),
        Command::TakeBuy { .. } => (MessageKind::Order, Action::TakeBuy),
        Command::AddInvoice { .. } => (MessageKind::Order, Action::AddInvoice),
        Command::FiatSent { .. } => (MessageKind::Order, Action::FiatSent),
        Command::Release { .. } => (MessageKind::Order, Action::Release),
        Command::Cancel { .. } => (MessageKind::Order, Action::Cancel),
        Command::Rate { .. } => (MessageKind::Order, Action::RateUser),
        Command::Dispute { .. } => (MessageKind::Order, Action::Dispute),
        Command::AdmCancel { .. } => (MessageKind::Order, Action::AdminCancel),
        Command::AdmSettle { .. } => (MessageKind::Order, Action::AdminSettle),
        Command::AdmAddSolver { .. } => (MessageKind::Order, Action::AdminAddSolver),
        Command::AdmTakeDispute { .. } => (MessageKind::Dispute, Action::AdminTakeDispute),
    };
    let id: Option<Vec<u8>> = match cmd {
        Command::NewOrder { .. } => None,
        Command::TakeSell { order_id, .. } => Some(order_id),
        Command::TakeBuy { order_id, .. } => Some(order_id),
        Command::AddInvoice { order_id, .. } => Some(order_id),
        Command::FiatSent { order_id } => Some(order_id),
        Command::Release { order_id } => Some(order_id),
        Command::Cancel { order_id } => Some(order_id),
        Command::Rate { order_id, .. } => Some(order_id),
        Command::Dispute { order_id } => Some(order_id),
        Command::AdmCancel { order_id } => Some(order_id),
        Command::AdmSettle { order_id } => Some(order_id),
        Command::AdmAddSolver { .. } => None,
        Command::AdmTakeDispute { dispute_id } => Some(dispute_id),
    };
    Message { kind, id, sender, action, content }
}

} // verus!
