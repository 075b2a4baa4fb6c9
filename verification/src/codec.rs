//! Canonical transport encoding of messages: a deterministic JSON object
//! with stable field names, written and read by this module alone.
//!
//! The decoder is exact: it accepts precisely the canonical spellings the
//! encoder emits, and every message it returns re-encodes to the very bytes
//! it read.

use vstd::prelude::*;
use crate::digits::{
    all_digits, dec_str, is_digit, lemma_dec_str_unique, lemma_dec_str_wf,
    lemma_dec_val_of_dec_str, parse_digits_bounded, format_u64, ZERO, NINE,
};
use crate::message::{
    Action, Content, ContentV, Message, MessageKind, MessageV, OrderPayload, OrderPayloadV,
    OrderSide, opt_bytes_view, opt_content_view, opt_u32_view,
};
use crate::fiat::FiatRange;

verus! {

pub const QUOTE: u8 = 0x22;

pub const BACKSLASH: u8 = 0x5c;

pub const MINUS_SIGN: u8 = 0x2d;

/// A byte string that can stand inside a quoted field: no quote, no escape.
pub open spec fn str_ok(s: Seq<u8>) -> bool {
    forall|i: int| 0 <= i < s.len() ==> s[i] != QUOTE && #[trigger] s[i] != BACKSLASH
}

pub open spec fn wf_order(o: OrderPayloadV) -> bool {
    &&& str_ok(o.fiat_code)
    &&& str_ok(o.payment_method)
    &&& i64::MIN <= o.amount <= i64::MAX
    &&& i64::MIN <= o.premium <= i64::MAX
    &&& i64::MIN <= o.min_amount <= i64::MAX
    &&& (o.max_amount matches Some(m) ==> i64::MIN <= m <= i64::MAX)
}

pub open spec fn wf_content(c: ContentV) -> bool {
    match c {
        ContentV::Amount(n) => 0 <= n <= u32::MAX,
        ContentV::PaymentRequest(l, pr, a) => {
            &&& (l matches Some(s) ==> str_ok(s))
            &&& str_ok(pr)
            &&& (a matches Some(n) ==> 0 <= n <= u32::MAX)
        },
        ContentV::RatingUser(r) => 0 <= r <= u8::MAX,
        ContentV::TextMessage(t) => str_ok(t),
        ContentV::Order(o) => wf_order(o),
    }
}

/// A message the canonical encoding can carry faithfully.
pub open spec fn wf_message(m: MessageV) -> bool {
    &&& (m.id matches Some(s) ==> str_ok(s))
    &&& (m.sender matches Some(s) ==> str_ok(s))
    &&& (m.content matches Some(c) ==> wf_content(c))
}

pub open spec fn lit_open() -> Seq<u8> {
    seq!['{' as u8, '"' as u8, 'k' as u8, 'i' as u8, 'n' as u8, 'd' as u8, '"' as u8, ':' as u8, '"' as u8]
}

pub open spec fn lit_id() -> Seq<u8> {
    seq!['"' as u8, ',' as u8, '"' as u8, 'i' as u8, 'd' as u8, '"' as u8, ':' as u8]
}

pub open spec fn lit_sender() -> Seq<u8> {
    seq![',' as u8, '"' as u8, 's' as u8, 'e' as u8, 'n' as u8, 'd' as u8, 'e' as u8, 'r' as u8, '"' as u8, ':' as u8]
}

pub open spec fn lit_action() -> Seq<u8> {
    seq![',' as u8, '"' as u8, 'a' as u8, 'c' as u8, 't' as u8, 'i' as u8, 'o' as u8, 'n' as u8, '"' as u8, ':' as u8, '"' as u8]
}

pub open spec fn lit_content() -> Seq<u8> {
    seq!['"' as u8, ',' as u8, '"' as u8, 'c' as u8, 'o' as u8, 'n' as u8, 't' as u8, 'e' as u8, 'n' as u8, 't' as u8, '"' as u8, ':' as u8]
}

pub open spec fn lit_null() -> Seq<u8> {
    seq!['n' as u8, 'u' as u8, 'l' as u8, 'l' as u8]
}

pub open spec fn lit_amount() -> Seq<u8> {
    seq!['{' as u8, '"' as u8, 'a' as u8, 'm' as u8, 'o' as u8, 'u' as u8, 'n' as u8, 't' as u8, '"' as u8, ':' as u8]
}

pub open spec fn lit_payment_request() -> Seq<u8> {
    seq!['{' as u8, '"' as u8, 'p' as u8, 'a' as u8, 'y' as u8, 'm' as u8, 'e' as u8, 'n' as u8, 't' as u8, '_' as u8, 'r' as u8, 'e' as u8, 'q' as u8, 'u' as u8, 'e' as u8, 's' as u8, 't' as u8, '"' as u8, ':' as u8, '[' as u8]
}

pub open spec fn lit_rating_user() -> Seq<u8> {
    seq!['{' as u8, '"' as u8, 'r' as u8, 'a' as u8, 't' as u8, 'i' as u8, 'n' as u8, 'g' as u8, '_' as u8, 'u' as u8, 's' as u8, 'e' as u8, 'r' as u8, '"' as u8, ':' as u8]
}

pub open spec fn lit_text_message() -> Seq<u8> {
    seq!['{' as u8, '"' as u8, 't' as u8, 'e' as u8, 'x' as u8, 't' as u8, '_' as u8, 'm' as u8, 'e' as u8, 's' as u8, 's' as u8, 'a' as u8, 'g' as u8, 'e' as u8, '"' as u8, ':' as u8, '"' as u8]
}

pub open spec fn lit_order() -> Seq<u8> {
    seq!['{' as u8, '"' as u8, 'o' as u8, 'r' as u8, 'd' as u8, 'e' as u8, 'r' as u8, '"' as u8, ':' as u8, '{' as u8, '"' as u8, 'k' as u8, 'i' as u8, 'n' as u8, 'd' as u8, '"' as u8, ':' as u8, '"' as u8]
}

pub open spec fn lit_o_amount() -> Seq<u8> {
    seq!['"' as u8, ',' as u8, '"' as u8, 'a' as u8, 'm' as u8, 'o' as u8, 'u' as u8, 'n' as u8, 't' as u8, '"' as u8, ':' as u8]
}

pub open spec fn lit_o_fiat_code() -> Seq<u8> {
    seq![',' as u8, '"' as u8, 'f' as u8, 'i' as u8, 'a' as u8, 't' as u8, '_' as u8, 'c' as u8, 'o' as u8, 'd' as u8, 'e' as u8, '"' as u8, ':' as u8, '"' as u8]
}

pub open spec fn lit_o_min_amount() -> Seq<u8> {
    seq!['"' as u8, ',' as u8, '"' as u8, 'm' as u8, 'i' as u8, 'n' as u8, '_' as u8, 'a' as u8, 'm' as u8, 'o' as u8, 'u' as u8, 'n' as u8, 't' as u8, '"' as u8, ':' as u8]
}

pub open spec fn lit_o_max_amount() -> Seq<u8> {
    seq![',' as u8, '"' as u8, 'm' as u8, 'a' as u8, 'x' as u8, '_' as u8, 'a' as u8, 'm' as u8, 'o' as u8, 'u' as u8, 'n' as u8, 't' as u8, '"' as u8, ':' as u8]
}

pub open spec fn lit_o_payment_method() -> Seq<u8> {
    seq![',' as u8, '"' as u8, 'p' as u8, 'a' as u8, 'y' as u8, 'm' as u8, 'e' as u8, 'n' as u8, 't' as u8, '_' as u8, 'm' as u8, 'e' as u8, 't' as u8, 'h' as u8, 'o' as u8, 'd' as u8, '"' as u8, ':' as u8, '"' as u8]
}

pub open spec fn lit_o_premium() -> Seq<u8> {
    seq!['"' as u8, ',' as u8, '"' as u8, 'p' as u8, 'r' as u8, 'e' as u8, 'm' as u8, 'i' as u8, 'u' as u8, 'm' as u8, '"' as u8, ':' as u8]
}

pub open spec fn lit_close_obj2() -> Seq<u8> {
    seq!['}' as u8, '}' as u8]
}

pub open spec fn lit_pr_mid() -> Seq<u8> {
    seq![',' as u8, '"' as u8]
}

pub open spec fn lit_pr_after() -> Seq<u8> {
    seq!['"' as u8, ',' as u8]
}

pub open spec fn lit_pr_end() -> Seq<u8> {
    seq![']' as u8, '}' as u8]
}

pub open spec fn lit_close() -> Seq<u8> {
    seq!['}' as u8]
}

pub open spec fn lit_quote_close_obj() -> Seq<u8> {
    seq!['"' as u8, '}' as u8]
}

/// The wire tag of each message family.
pub open spec fn kind_str(k: MessageKind) -> Seq<u8> {
    match k {
        MessageKind::Order => seq!['o' as u8, 'r' as u8, 'd' as u8, 'e' as u8, 'r' as u8],
        MessageKind::Dispute => seq!['d' as u8, 'i' as u8, 's' as u8, 'p' as u8, 'u' as u8, 't' as u8, 'e' as u8],
    }
}

pub open spec fn side_str(s: OrderSide) -> Seq<u8> {
    match s {
        OrderSide::Buy => seq!['b' as u8, 'u' as u8, 'y' as u8],
        OrderSide::Sell => seq!['s' as u8, 'e' as u8, 'l' as u8, 'l' as u8],
    }
}

/// The wire tag of each action, in the protocol's kebab-case spelling.
pub open spec fn action_str(a: Action) -> Seq<u8> {
    match a {
        Action::NewOrder => seq!['n' as u8, 'e' as u8, 'w' as u8, '-' as u8, 'o' as u8, 'r' as u8, 'd' as u8, 'e' as u8, 'r' as u8],
        Action::TakeSell => seq!['t' as u8, 'a' as u8, 'k' as u8, 'e' as u8, '-' as u8, 's' as u8, 'e' as u8, 'l' as u8, 'l' as u8],
        Action::TakeBuy => seq!['t' as u8, 'a' as u8, 'k' as u8, 'e' as u8, '-' as u8, 'b' as u8, 'u' as u8, 'y' as u8],
        Action::AddInvoice => seq!['a' as u8, 'd' as u8, 'd' as u8, '-' as u8, 'i' as u8, 'n' as u8, 'v' as u8, 'o' as u8, 'i' as u8, 'c' as u8, 'e' as u8],
        Action::FiatSent => seq!['f' as u8, 'i' as u8, 'a' as u8, 't' as u8, '-' as u8, 's' as u8, 'e' as u8, 'n' as u8, 't' as u8],
        Action::Release => seq!['r' as u8, 'e' as u8, 'l' as u8, 'e' as u8, 'a' as u8, 's' as u8, 'e' as u8],
        Action::Cancel => seq!['c' as u8, 'a' as u8, 'n' as u8, 'c' as u8, 'e' as u8, 'l' as u8],
        Action::RateUser => seq!['r' as u8, 'a' as u8, 't' as u8, 'e' as u8, '-' as u8, 'u' as u8, 's' as u8, 'e' as u8, 'r' as u8],
        Action::Dispute => seq!['d' as u8, 'i' as u8, 's' as u8, 'p' as u8, 'u' as u8, 't' as u8, 'e' as u8],
        Action::AdminCancel => seq!['a' as u8, 'd' as u8, 'm' as u8, 'i' as u8, 'n' as u8, '-' as u8, 'c' as u8, 'a' as u8, 'n' as u8, 'c' as u8, 'e' as u8, 'l' as u8],
        Action::AdminSettle => seq!['a' as u8, 'd' as u8, 'm' as u8, 'i' as u8, 'n' as u8, '-' as u8, 's' as u8, 'e' as u8, 't' as u8, 't' as u8, 'l' as u8, 'e' as u8],
        Action::AdminAddSolver => seq!['a' as u8, 'd' as u8, 'm' as u8, 'i' as u8, 'n' as u8, '-' as u8, 'a' as u8, 'd' as u8, 'd' as u8, '-' as u8, 's' as u8, 'o' as u8, 'l' as u8, 'v' as u8, 'e' as u8, 'r' as u8],
        Action::AdminTakeDispute => seq!['a' as u8, 'd' as u8, 'm' as u8, 'i' as u8, 'n' as u8, '-' as u8, 't' as u8, 'a' as u8, 'k' as u8, 'e' as u8, '-' as u8, 'd' as u8, 'i' as u8, 's' as u8, 'p' as u8, 'u' as u8, 't' as u8, 'e' as u8],
        Action::PayInvoice => seq!['p' as u8, 'a' as u8, 'y' as u8, '-' as u8, 'i' as u8, 'n' as u8, 'v' as u8, 'o' as u8, 'i' as u8, 'c' as u8, 'e' as u8],
        Action::WaitingSellerToPay => seq!['w' as u8, 'a' as u8, 'i' as u8, 't' as u8, 'i' as u8, 'n' as u8, 'g' as u8, '-' as u8, 's' as u8, 'e' as u8, 'l' as u8, 'l' as u8, 'e' as u8, 'r' as u8, '-' as u8, 't' as u8, 'o' as u8, '-' as u8, 'p' as u8, 'a' as u8, 'y' as u8],
        Action::WaitingBuyerInvoice => seq!['w' as u8, 'a' as u8, 'i' as u8, 't' as u8, 'i' as u8, 'n' as u8, 'g' as u8, '-' as u8, 'b' as u8, 'u' as u8, 'y' as u8, 'e' as u8, 'r' as u8, '-' as u8, 'i' as u8, 'n' as u8, 'v' as u8, 'o' as u8, 'i' as u8, 'c' as u8, 'e' as u8],
        Action::BuyerInvoiceAccepted => seq!['b' as u8, 'u' as u8, 'y' as u8, 'e' as u8, 'r' as u8, '-' as u8, 'i' as u8, 'n' as u8, 'v' as u8, 'o' as u8, 'i' as u8, 'c' as u8, 'e' as u8, '-' as u8, 'a' as u8, 'c' as u8, 'c' as u8, 'e' as u8, 'p' as u8, 't' as u8, 'e' as u8, 'd' as u8],
        Action::BuyerTookOrder => seq!['b' as u8, 'u' as u8, 'y' as u8, 'e' as u8, 'r' as u8, '-' as u8, 't' as u8, 'o' as u8, 'o' as u8, 'k' as u8, '-' as u8, 'o' as u8, 'r' as u8, 'd' as u8, 'e' as u8, 'r' as u8],
        Action::FiatSentOk => seq!['f' as u8, 'i' as u8, 'a' as u8, 't' as u8, '-' as u8, 's' as u8, 'e' as u8, 'n' as u8, 't' as u8, '-' as u8, 'o' as u8, 'k' as u8],
        Action::Released => seq!['r' as u8, 'e' as u8, 'l' as u8, 'e' as u8, 'a' as u8, 's' as u8, 'e' as u8, 'd' as u8],
        Action::Canceled => seq!['c' as u8, 'a' as u8, 'n' as u8, 'c' as u8, 'e' as u8, 'l' as u8, 'e' as u8, 'd' as u8],
        Action::AdminCanceled => seq!['a' as u8, 'd' as u8, 'm' as u8, 'i' as u8, 'n' as u8, '-' as u8, 'c' as u8, 'a' as u8, 'n' as u8, 'c' as u8, 'e' as u8, 'l' as u8, 'e' as u8, 'd' as u8],
        Action::AdminSettled => seq!['a' as u8, 'd' as u8, 'm' as u8, 'i' as u8, 'n' as u8, '-' as u8, 's' as u8, 'e' as u8, 't' as u8, 't' as u8, 'l' as u8, 'e' as u8, 'd' as u8],
        Action::AdminTookDispute => seq!['a' as u8, 'd' as u8, 'm' as u8, 'i' as u8, 'n' as u8, '-' as u8, 't' as u8, 'o' as u8, 'o' as u8, 'k' as u8, '-' as u8, 'd' as u8, 'i' as u8, 's' as u8, 'p' as u8, 'u' as u8, 't' as u8, 'e' as u8],
        Action::RateReceived => seq!['r' as u8, 'a' as u8, 't' as u8, 'e' as u8, '-' as u8, 'r' as u8, 'e' as u8, 'c' as u8, 'e' as u8, 'i' as u8, 'v' as u8, 'e' as u8, 'd' as u8],
        Action::CantDo => seq!['c' as u8, 'a' as u8, 'n' as u8, 't' as u8, '-' as u8, 'd' as u8, 'o' as u8],
        Action::DisputeInitiatedByYou => seq!['d' as u8, 'i' as u8, 's' as u8, 'p' as u8, 'u' as u8, 't' as u8, 'e' as u8, '-' as u8, 'i' as u8, 'n' as u8, 'i' as u8, 't' as u8, 'i' as u8, 'a' as u8, 't' as u8, 'e' as u8, 'd' as u8, '-' as u8, 'b' as u8, 'y' as u8, '-' as u8, 'y' as u8, 'o' as u8, 'u' as u8],
    }
}

/// Decimal rendering of a signed value.
pub open spec fn int_str(i: int) -> Seq<u8> {
    if i < 0 {
        seq![MINUS_SIGN] + dec_str((-i) as nat)
    } else {
        dec_str(i as nat)
    }
}

/// A quoted string, or the null token.
pub open spec fn opt_str_enc(o: Option<Seq<u8>>) -> Seq<u8> {
    match o {
        Some(s) => seq![QUOTE] + s + seq![QUOTE],
        None => lit_null(),
    }
}

/// A non-negative number, or the null token.
pub open spec fn opt_num_enc(o: Option<int>) -> Seq<u8> {
    match o {
        Some(n) => dec_str(n as nat),
        None => lit_null(),
    }
}

/// A signed number, or the null token.
pub open spec fn opt_int_enc(o: Option<int>) -> Seq<u8> {
    match o {
        Some(n) => int_str(n),
        None => lit_null(),
    }
}

pub open spec fn order_enc(o: OrderPayloadV) -> Seq<u8> {
    lit_order() + side_str(o.side) + lit_o_amount() + int_str(o.amount) + lit_o_fiat_code()
        + o.fiat_code + lit_o_min_amount() + int_str(o.min_amount) + lit_o_max_amount()
        + opt_int_enc(o.max_amount) + lit_o_payment_method() + o.payment_method + lit_o_premium()
        + int_str(o.premium) + lit_close_obj2()
}

pub open spec fn content_enc(c: ContentV) -> Seq<u8> {
    match c {
        ContentV::Amount(n) => lit_amount() + int_str(n) + lit_close(),
        ContentV::PaymentRequest(l, pr, a) => lit_payment_request() + opt_str_enc(l) + lit_pr_mid()
            + pr + lit_pr_after() + opt_num_enc(a) + lit_pr_end(),
        ContentV::RatingUser(r) => lit_rating_user() + int_str(r) + lit_close(),
        ContentV::TextMessage(t) => lit_text_message() + t + lit_quote_close_obj(),
        ContentV::Order(o) => order_enc(o),
    }
}

pub open spec fn opt_content_enc(o: Option<ContentV>) -> Seq<u8> {
    match o {
        Some(c) => content_enc(c),
        None => lit_null(),
    }
}

/// The canonical encoding of a message.
pub open spec fn encode_spec(m: MessageV) -> Seq<u8> {
    lit_open() + kind_str(m.kind) + lit_id() + opt_str_enc(m.id) + lit_sender() + opt_str_enc(
        m.sender,
    ) + lit_action() + action_str(m.action) + lit_content() + opt_content_enc(m.content)
        + lit_close()
}

/// Append a byte slice.
fn append_slice(out: &mut Vec<u8>, s: &[u8])
    ensures
        final(out)@ == old(out)@ + s@,
{
    let mut i: usize = 0;
    proof {
        assert(out@ =~= old(out)@ + s@.take(0));
    }
    while i < s.len()
        invariant
            i <= s@.len(),
            out@ == old(out)@ + s@.take(i as int),
        decreases s@.len() - i,
    {
        let b = s[i];
        out.push(b);
        proof {
            assert(s@.take(i + 1) =~= s@.take(i as int).push(s@[i as int]));
            assert(out@ =~= old(out)@ + s@.take(i + 1));
        }
        i += 1;
    }
    proof {
        assert(s@.take(s@.len() as int) =~= s@);
    }
}

/// Append a signed decimal number.
fn append_int(out: &mut Vec<u8>, v: i64)
    ensures
        final(out)@ == old(out)@ + int_str(v as int),
{
    if v < 0 {
        out.push(MINUS_SIGN);
        let mag128: i128 = -(v as i128);
        let mag: u64 = mag128 as u64;
        proof {
            assert(out@ =~= old(out)@ + seq![MINUS_SIGN]);
        }
        format_u64(mag, out);
        proof {
            assert(old(out)@ + seq![MINUS_SIGN] + dec_str(mag as nat) =~= old(out)@ + (
            seq![MINUS_SIGN] + dec_str(mag as nat)));
        }
    } else {
        format_u64(v as u64, out);
    }
}

/// Append a quoted string or the null token.
fn append_opt_str(out: &mut Vec<u8>, o: &Option<Vec<u8>>)
    ensures
        final(out)@ == old(out)@ + opt_str_enc(opt_bytes_view(*o)),
{
    match o {
        Some(s) => {
            out.push(QUOTE);
            proof {
                assert(out@ =~= old(out)@ + seq![QUOTE]);
            }
            append_slice(out, s.as_slice());
            out.push(QUOTE);
            proof {
                assert(out@ =~= old(out)@ + (seq![QUOTE] + s@ + seq![QUOTE]));
            }
        },
        None => {
            append_null(out);
        },
    }
}

fn append_null(out: &mut Vec<u8>)
    ensures
        final(out)@ == old(out)@ + lit_null(),
{
    let a: [u8; 4] = ['n' as u8, 'u' as u8, 'l' as u8, 'l' as u8];
    append_slice(out, a.as_slice());
    proof {
        assert(a@ =~= lit_null());
    }
}

/// Append a non-negative number or the null token.
fn append_opt_num(out: &mut Vec<u8>, o: &Option<u32>)
    ensures
        final(out)@ == old(out)@ + opt_num_enc(opt_u32_view(*o)),
{
    match o {
        Some(n) => {
            format_u64(*n as u64, out);
        },
        None => {
            append_null(out);
        },
    }
}

/// Encode a message into its canonical byte string.
pub fn encode(m: &Message) -> (r: Vec<u8>)
    ensures
        r@ == encode_spec(m@),
{
    let mut out: Vec<u8> = Vec::new();
    let a_open: [u8; 9] = ['{' as u8, '"' as u8, 'k' as u8, 'i' as u8, 'n' as u8, 'd' as u8, '"' as u8, ':' as u8, '"' as u8];
    append_slice(&mut out, a_open.as_slice());
    proof {
        assert(a_open@ =~= lit_open());
        assert(out@ =~= Seq::<u8>::empty() + lit_open());
        assert(Seq::<u8>::empty() + lit_open() =~= lit_open());
    }
    match m.kind {
        MessageKind::Order => {
            let a: [u8; 5] = ['o' as u8, 'r' as u8, 'd' as u8, 'e' as u8, 'r' as u8];
            append_slice(&mut out, a.as_slice());
            proof {
                assert(a@ =~= kind_str(m.kind));
            }
        },
        MessageKind::Dispute => {
            let a: [u8; 7] = ['d' as u8, 'i' as u8, 's' as u8, 'p' as u8, 'u' as u8, 't' as u8, 'e' as u8];
            append_slice(&mut out, a.as_slice());
            proof {
                assert(a@ =~= kind_str(m.kind));
            }
        },
    }
    let ghost g1 = lit_open() + kind_str(m@.kind);
    proof {
        assert(out@ =~= g1);
    }
    let a_id: [u8; 7] = ['"' as u8, ',' as u8, '"' as u8, 'i' as u8, 'd' as u8, '"' as u8, ':' as u8];
    append_slice(&mut out, a_id.as_slice());
    proof {
        assert(a_id@ =~= lit_id());
    }
    append_opt_str(&mut out, &m.id);
    let ghost g2 = g1 + lit_id() + opt_str_enc(m@.id);
    proof {
        assert(out@ =~= g2);
    }
    let a_sender: [u8; 10] = [',' as u8, '"' as u8, 's' as u8, 'e' as u8, 'n' as u8, 'd' as u8, 'e' as u8, 'r' as u8, '"' as u8, ':' as u8];
    append_slice(&mut out, a_sender.as_slice());
    proof {
        assert(a_sender@ =~= lit_sender());
    }
    append_opt_str(&mut out, &m.sender);
    let ghost g3 = g2 + lit_sender() + opt_str_enc(m@.sender);
    proof {
        assert(out@ =~= g3);
    }
    let a_action: [u8; 11] = [',' as u8, '"' as u8, 'a' as u8, 'c' as u8, 't' as u8, 'i' as u8, 'o' as u8, 'n' as u8, '"' as u8, ':' as u8, '"' as u8];
    append_slice(&mut out, a_action.as_slice());
    proof {
        assert(a_action@ =~= lit_action());
    }
    append_action(&mut out, m.action);
    let ghost g4 = g3 + lit_action() + action_str(m@.action);
    proof {
        assert(out@ =~= g4);
    }
    let a_content: [u8; 12] = ['"' as u8, ',' as u8, '"' as u8, 'c' as u8, 'o' as u8, 'n' as u8, 't' as u8, 'e' as u8, 'n' as u8, 't' as u8, '"' as u8, ':' as u8];
    append_slice(&mut out, a_content.as_slice());
    proof {
        assert(a_content@ =~= lit_content());
    }
    match &m.content {
        Some(c) => {
            append_content(&mut out, c);
        },
        None => {
            append_null(&mut out);
        },
    }
    let ghost g5 = g4 + lit_content() + opt_content_enc(m@.content);
    proof {
        assert(out@ =~= g5);
    }
    out.push('}' as u8);
    proof {
        assert(out@ =~= g5 + lit_close());
        assert(out@ =~= encode_spec(m@));
    }
    out
}

/// Append the kebab-case tag of an action.
fn append_action(out: &mut Vec<u8>, act: Action)
    ensures
        final(out)@ == old(out)@ + action_str(act),
{
    match act {
        Action::NewOrder => {
            let tag: [u8; 9] = ['n' as u8, 'e' as u8, 'w' as u8, '-' as u8, 'o' as u8, 'r' as u8, 'd' as u8, 'e' as u8, 'r' as u8];
            append_slice(out, tag.as_slice());
            proof {
                assert(tag@ =~= action_str(act));
            }
        },
        Action::TakeSell => {
            let tag: [u8; 9] = ['t' as u8, 'a' as u8, 'k' as u8, 'e' as u8, '-' as u8, 's' as u8, 'e' as u8, 'l' as u8, 'l' as u8];
            append_slice(out, tag.as_slice());
            proof {
                assert(tag@ =~= action_str(act));
            }
        },
        Action::TakeBuy => {
            let tag: [u8; 8] = ['t' as u8, 'a' as u8, 'k' as u8, 'e' as u8, '-' as u8, 'b' as u8, 'u' as u8, 'y' as u8];
            append_slice(out, tag.as_slice());
            proof {
                assert(tag@ =~= action_str(act));
            }
        },
        Action::AddInvoice => {
            let tag: [u8; 11] = ['a' as u8, 'd' as u8, 'd' as u8, '-' as u8, 'i' as u8, 'n' as u8, 'v' as u8, 'o' as u8, 'i' as u8, 'c' as u8, 'e' as u8];
            append_slice(out, tag.as_slice());
            proof {
                assert(tag@ =~= action_str(act));
            }
        },
        Action::FiatSent => {
            let tag: [u8; 9] = ['f' as u8, 'i' as u8, 'a' as u8, 't' as u8, '-' as u8, 's' as u8, 'e' as u8, 'n' as u8, 't' as u8];
            append_slice(out, tag.as_slice());
            proof {
                assert(tag@ =~= action_str(act));
            }
        },
        Action::Release => {
            let tag: [u8; 7] = ['r' as u8, 'e' as u8, 'l' as u8, 'e' as u8, 'a' as u8, 's' as u8, 'e' as u8];
            append_slice(out, tag.as_slice());
            proof {
                assert(tag@ =~= action_str(act));
            }
        },
        Action::Cancel => {
            let tag: [u8; 6] = ['c' as u8, 'a' as u8, 'n' as u8, 'c' as u8, 'e' as u8, 'l' as u8];
            append_slice(out, tag.as_slice());
            proof {
                assert(tag@ =~= action_str(act));
            }
        },
        Action::RateUser => {
            let tag: [u8; 9] = ['r' as u8, 'a' as u8, 't' as u8, 'e' as u8, '-' as u8, 'u' as u8, 's' as u8, 'e' as u8, 'r' as u8];
            append_slice(out, tag.as_slice());
            proof {
                assert(tag@ =~= action_str(act));
            }
        },
        Action::Dispute => {
            let tag: [u8; 7] = ['d' as u8, 'i' as u8, 's' as u8, 'p' as u8, 'u' as u8, 't' as u8, 'e' as u8];
            append_slice(out, tag.as_slice());
            proof {
                assert(tag@ =~= action_str(act));
            }
        },
        Action::AdminCancel => {
            let tag: [u8; 12] = ['a' as u8, 'd' as u8, 'm' as u8, 'i' as u8, 'n' as u8, '-' as u8, 'c' as u8, 'a' as u8, 'n' as u8, 'c' as u8, 'e' as u8, 'l' as u8];
            append_slice(out, tag.as_slice());
            proof {
                assert(tag@ =~= action_str(act));
            }
        },
        Action::AdminSettle => {
            let tag: [u8; 12] = ['a' as u8, 'd' as u8, 'm' as u8, 'i' as u8, 'n' as u8, '-' as u8, 's' as u8, 'e' as u8, 't' as u8, 't' as u8, 'l' as u8, 'e' as u8];
            append_slice(out, tag.as_slice());
            proof {
                assert(tag@ =~= action_str(act));
            }
        },
        Action::AdminAddSolver => {
            let tag: [u8; 16] = ['a' as u8, 'd' as u8, 'm' as u8, 'i' as u8, 'n' as u8, '-' as u8, 'a' as u8, 'd' as u8, 'd' as u8, '-' as u8, 's' as u8, 'o' as u8, 'l' as u8, 'v' as u8, 'e' as u8, 'r' as u8];
            append_slice(out, tag.as_slice());
            proof {
                assert(tag@ =~= action_str(act));
            }
        },
        Action::AdminTakeDispute => {
            let tag: [u8; 18] = ['a' as u8, 'd' as u8, 'm' as u8, 'i' as u8, 'n' as u8, '-' as u8, 't' as u8, 'a' as u8, 'k' as u8, 'e' as u8, '-' as u8, 'd' as u8, 'i' as u8, 's' as u8, 'p' as u8, 'u' as u8, 't' as u8, 'e' as u8];
            append_slice(out, tag.as_slice());
            proof {
                assert(tag@ =~= action_str(act));
            }
        },
        Action::PayInvoice => {
            let tag: [u8; 11] = ['p' as u8, 'a' as u8, 'y' as u8, '-' as u8, 'i' as u8, 'n' as u8, 'v' as u8, 'o' as u8, 'i' as u8, 'c' as u8, 'e' as u8];
            append_slice(out, tag.as_slice());
            proof {
                assert(tag@ =~= action_str(act));
            }
        },
        Action::WaitingSellerToPay => {
            let tag: [u8; 21] = ['w' as u8, 'a' as u8, 'i' as u8, 't' as u8, 'i' as u8, 'n' as u8, 'g' as u8, '-' as u8, 's' as u8, 'e' as u8, 'l' as u8, 'l' as u8, 'e' as u8, 'r' as u8, '-' as u8, 't' as u8, 'o' as u8, '-' as u8, 'p' as u8, 'a' as u8, 'y' as u8];
            append_slice(out, tag.as_slice());
            proof {
                assert(tag@ =~= action_str(act));
            }
        },
        Action::WaitingBuyerInvoice => {
            let tag: [u8; 21] = ['w' as u8, 'a' as u8, 'i' as u8, 't' as u8, 'i' as u8, 'n' as u8, 'g' as u8, '-' as u8, 'b' as u8, 'u' as u8, 'y' as u8, 'e' as u8, 'r' as u8, '-' as u8, 'i' as u8, 'n' as u8, 'v' as u8, 'o' as u8, 'i' as u8, 'c' as u8, 'e' as u8];
            append_slice(out, tag.as_slice());
            proof {
                assert(tag@ =~= action_str(act));
            }
        },
        Action::BuyerInvoiceAccepted => {
            let tag: [u8; 22] = ['b' as u8, 'u' as u8, 'y' as u8, 'e' as u8, 'r' as u8, '-' as u8, 'i' as u8, 'n' as u8, 'v' as u8, 'o' as u8, 'i' as u8, 'c' as u8, 'e' as u8, '-' as u8, 'a' as u8, 'c' as u8, 'c' as u8, 'e' as u8, 'p' as u8, 't' as u8, 'e' as u8, 'd' as u8];
            append_slice(out, tag.as_slice());
            proof {
                assert(tag@ =~= action_str(act));
            }
        },
        Action::BuyerTookOrder => {
            let tag: [u8; 16] = ['b' as u8, 'u' as u8, 'y' as u8, 'e' as u8, 'r' as u8, '-' as u8, 't' as u8, 'o' as u8, 'o' as u8, 'k' as u8, '-' as u8, 'o' as u8, 'r' as u8, 'd' as u8, 'e' as u8, 'r' as u8];
            append_slice(out, tag.as_slice());
            proof {
                assert(tag@ =~= action_str(act));
            }
        },
        Action::FiatSentOk => {
            let tag: [u8; 12] = ['f' as u8, 'i' as u8, 'a' as u8, 't' as u8, '-' as u8, 's' as u8, 'e' as u8, 'n' as u8, 't' as u8, '-' as u8, 'o' as u8, 'k' as u8];
            append_slice(out, tag.as_slice());
            proof {
                assert(tag@ =~= action_str(act));
            }
        },
        Action::Released => {
            let tag: [u8; 8] = ['r' as u8, 'e' as u8, 'l' as u8, 'e' as u8, 'a' as u8, 's' as u8, 'e' as u8, 'd' as u8];
            append_slice(out, tag.as_slice());
            proof {
                assert(tag@ =~= action_str(act));
            }
        },
        Action::Canceled => {
            let tag: [u8; 8] = ['c' as u8, 'a' as u8, 'n' as u8, 'c' as u8, 'e' as u8, 'l' as u8, 'e' as u8, 'd' as u8];
            append_slice(out, tag.as_slice());
            proof {
                assert(tag@ =~= action_str(act));
            }
        },
        Action::AdminCanceled => {
            let tag: [u8; 14] = ['a' as u8, 'd' as u8, 'm' as u8, 'i' as u8, 'n' as u8, '-' as u8, 'c' as u8, 'a' as u8, 'n' as u8, 'c' as u8, 'e' as u8, 'l' as u8, 'e' as u8, 'd' as u8];
            append_slice(out, tag.as_slice());
            proof {
                assert(tag@ =~= action_str(act));
            }
        },
        Action::AdminSettled => {
            let tag: [u8; 13] = ['a' as u8, 'd' as u8, 'm' as u8, 'i' as u8, 'n' as u8, '-' as u8, 's' as u8, 'e' as u8, 't' as u8, 't' as u8, 'l' as u8, 'e' as u8, 'd' as u8];
            append_slice(out, tag.as_slice());
            proof {
                assert(tag@ =~= action_str(act));
            }
        },
        Action::AdminTookDispute => {
            let tag: [u8; 18] = ['a' as u8, 'd' as u8, 'm' as u8, 'i' as u8, 'n' as u8, '-' as u8, 't' as u8, 'o' as u8, 'o' as u8, 'k' as u8, '-' as u8, 'd' as u8, 'i' as u8, 's' as u8, 'p' as u8, 'u' as u8, 't' as u8, 'e' as u8];
            append_slice(out, tag.as_slice());
            proof {
                assert(tag@ =~= action_str(act));
            }
        },
        Action::RateReceived => {
            let tag: [u8; 13] = ['r' as u8, 'a' as u8, 't' as u8, 'e' as u8, '-' as u8, 'r' as u8, 'e' as u8, 'c' as u8, 'e' as u8, 'i' as u8, 'v' as u8, 'e' as u8, 'd' as u8];
            append_slice(out, tag.as_slice());
            proof {
                assert(tag@ =~= action_str(act));
            }
        },
        Action::CantDo => {
            let tag: [u8; 7] = ['c' as u8, 'a' as u8, 'n' as u8, 't' as u8, '-' as u8, 'd' as u8, 'o' as u8];
            append_slice(out, tag.as_slice());
            proof {
                assert(tag@ =~= action_str(act));
            }
        },
        Action::DisputeInitiatedByYou => {
            let tag: [u8; 24] = ['d' as u8, 'i' as u8, 's' as u8, 'p' as u8, 'u' as u8, 't' as u8, 'e' as u8, '-' as u8, 'i' as u8, 'n' as u8, 'i' as u8, 't' as u8, 'i' as u8, 'a' as u8, 't' as u8, 'e' as u8, 'd' as u8, '-' as u8, 'b' as u8, 'y' as u8, '-' as u8, 'y' as u8, 'o' as u8, 'u' as u8];
            append_slice(out, tag.as_slice());
            proof {
                assert(tag@ =~= action_str(act));
            }
        },
    }
}

/// Append an encoded payload.
fn append_content(out: &mut Vec<u8>, c: &Content)
    ensures
        final(out)@ == old(out)@ + content_enc(c@),
{
    match c {
        Content::Amount(n) => {
            let a: [u8; 10] = ['{' as u8, '"' as u8, 'a' as u8, 'm' as u8, 'o' as u8, 'u' as u8, 'n' as u8, 't' as u8, '"' as u8, ':' as u8];
            append_slice(out, a.as_slice());
            proof {
                assert(a@ =~= lit_amount());
            }
            format_u64(*n as u64, out);
            out.push('}' as u8);
            proof {
                assert(int_str(*n as int) == dec_str(*n as nat));
                assert(out@ =~= old(out)@ + (lit_amount() + int_str(*n as int) + lit_close()));
            }
        },
        Content::PaymentRequest(l, pr, amt) => {
            let a: [u8; 20] = ['{' as u8, '"' as u8, 'p' as u8, 'a' as u8, 'y' as u8, 'm' as u8, 'e' as u8, 'n' as u8, 't' as u8, '_' as u8, 'r' as u8, 'e' as u8, 'q' as u8, 'u' as u8, 'e' as u8, 's' as u8, 't' as u8, '"' as u8, ':' as u8, '[' as u8];
            append_slice(out, a.as_slice());
            proof {
                assert(a@ =~= lit_payment_request());
            }
            append_opt_str(out, l);
            out.push(',' as u8);
            out.push(QUOTE);
            append_slice(out, pr.as_slice());
            out.push(QUOTE);
            out.push(',' as u8);
            append_opt_num(out, amt);
            out.push(']' as u8);
            out.push('}' as u8);
            proof {
                assert(out@ =~= old(out)@ + (lit_payment_request() + opt_str_enc(
                    opt_bytes_view(*l),
                ) + lit_pr_mid() + pr@ + lit_pr_after() + opt_num_enc(opt_u32_view(*amt))
                    + lit_pr_end()));
            }
        },
        Content::RatingUser(r) => {
            let a: [u8; 15] = ['{' as u8, '"' as u8, 'r' as u8, 'a' as u8, 't' as u8, 'i' as u8, 'n' as u8, 'g' as u8, '_' as u8, 'u' as u8, 's' as u8, 'e' as u8, 'r' as u8, '"' as u8, ':' as u8];
            append_slice(out, a.as_slice());
            proof {
                assert(a@ =~= lit_rating_user());
            }
            format_u64(*r as u64, out);
            out.push('}' as u8);
            proof {
                assert(int_str(*r as int) == dec_str(*r as nat));
                assert(out@ =~= old(out)@ + (lit_rating_user() + int_str(*r as int) + lit_close()));
            }
        },
        Content::TextMessage(t) => {
            let a: [u8; 17] = ['{' as u8, '"' as u8, 't' as u8, 'e' as u8, 'x' as u8, 't' as u8, '_' as u8, 'm' as u8, 'e' as u8, 's' as u8, 's' as u8, 'a' as u8, 'g' as u8, 'e' as u8, '"' as u8, ':' as u8, '"' as u8];
            append_slice(out, a.as_slice());
            proof {
                assert(a@ =~= lit_text_message());
            }
            append_slice(out, t.as_slice());
            out.push(QUOTE);
            out.push('}' as u8);
            proof {
                assert(out@ =~= old(out)@ + (lit_text_message() + t@ + lit_quote_close_obj()));
            }
        },
        Content::Order(o) => {
            append_order(out, o);
        },
    }
}

/// Append an encoded order payload.
#[verifier::rlimit(60)]
fn append_order(out: &mut Vec<u8>, o: &OrderPayload)
    ensures
        final(out)@ == old(out)@ + order_enc(o@),
{
    let a_order: [u8; 18] = ['{' as u8, '"' as u8, 'o' as u8, 'r' as u8, 'd' as u8, 'e' as u8, 'r' as u8, '"' as u8, ':' as u8, '{' as u8, '"' as u8, 'k' as u8, 'i' as u8, 'n' as u8, 'd' as u8, '"' as u8, ':' as u8, '"' as u8];
    append_slice(out, a_order.as_slice());
    proof {
        assert(a_order@ =~= lit_order());
    }
    match o.side {
        OrderSide::Buy => {
            let a: [u8; 3] = ['b' as u8, 'u' as u8, 'y' as u8];
            append_slice(out, a.as_slice());
            proof {
                assert(a@ =~= side_str(o.side));
            }
        },
        OrderSide::Sell => {
            let a: [u8; 4] = ['s' as u8, 'e' as u8, 'l' as u8, 'l' as u8];
            append_slice(out, a.as_slice());
            proof {
                assert(a@ =~= side_str(o.side));
            }
        },
    }
    let ghost h1 = old(out)@ + lit_order() + side_str(o@.side);
    proof {
        assert(out@ =~= h1);
    }
    let a_amount: [u8; 11] = ['"' as u8, ',' as u8, '"' as u8, 'a' as u8, 'm' as u8, 'o' as u8, 'u' as u8, 'n' as u8, 't' as u8, '"' as u8, ':' as u8];
    append_slice(out, a_amount.as_slice());
    proof {
        assert(a_amount@ =~= lit_o_amount());
    }
    append_int(out, o.amount);
    let ghost h2 = h1 + lit_o_amount() + int_str(o@.amount);
    proof {
        assert(out@ =~= h2);
    }
    let a_fiat: [u8; 14] = [',' as u8, '"' as u8, 'f' as u8, 'i' as u8, 'a' as u8, 't' as u8, '_' as u8, 'c' as u8, 'o' as u8, 'd' as u8, 'e' as u8, '"' as u8, ':' as u8, '"' as u8];
    append_slice(out, a_fiat.as_slice());
    proof {
        assert(a_fiat@ =~= lit_o_fiat_code());
    }
    append_slice(out, o.fiat_code.as_slice());
    let ghost h3 = h2 + lit_o_fiat_code() + o@.fiat_code;
    proof {
        assert(out@ =~= h3);
    }
    let a_min: [u8; 15] = ['"' as u8, ',' as u8, '"' as u8, 'm' as u8, 'i' as u8, 'n' as u8, '_' as u8, 'a' as u8, 'm' as u8, 'o' as u8, 'u' as u8, 'n' as u8, 't' as u8, '"' as u8, ':' as u8];
    append_slice(out, a_min.as_slice());
    proof {
        assert(a_min@ =~= lit_o_min_amount());
    }
    append_int(out, o.fiat_range.min);
    let ghost h4 = h3 + lit_o_min_amount() + int_str(o@.min_amount);
    proof {
        assert(out@ =~= h4);
    }
    let a_max: [u8; 14] = [',' as u8, '"' as u8, 'm' as u8, 'a' as u8, 'x' as u8, '_' as u8, 'a' as u8, 'm' as u8, 'o' as u8, 'u' as u8, 'n' as u8, 't' as u8, '"' as u8, ':' as u8];
    append_slice(out, a_max.as_slice());
    proof {
        assert(a_max@ =~= lit_o_max_amount());
    }
    match o.fiat_range.max {
        Some(mx) => {
            append_int(out, mx);
        },
        None => {
            append_null(out);
        },
    }
    let ghost h5 = h4 + lit_o_max_amount() + opt_int_enc(o@.max_amount);
    proof {
        assert(out@ =~= h5);
    }
    let a_pm: [u8; 19] = [',' as u8, '"' as u8, 'p' as u8, 'a' as u8, 'y' as u8, 'm' as u8, 'e' as u8, 'n' as u8, 't' as u8, '_' as u8, 'm' as u8, 'e' as u8, 't' as u8, 'h' as u8, 'o' as u8, 'd' as u8, '"' as u8, ':' as u8, '"' as u8];
    append_slice(out, a_pm.as_slice());
    proof {
        assert(a_pm@ =~= lit_o_payment_method());
    }
    append_slice(out, o.payment_method.as_slice());
    let ghost h6 = h5 + lit_o_payment_method() + o@.payment_method;
    proof {
        assert(out@ =~= h6);
    }
    let a_prem: [u8; 12] = ['"' as u8, ',' as u8, '"' as u8, 'p' as u8, 'r' as u8, 'e' as u8, 'm' as u8, 'i' as u8, 'u' as u8, 'm' as u8, '"' as u8, ':' as u8];
    append_slice(out, a_prem.as_slice());
    proof {
        assert(a_prem@ =~= lit_o_premium());
    }
    append_int(out, o.premium);
    out.push('}' as u8);
    out.push('}' as u8);
    proof {
        assert(out@ =~= h6 + lit_o_premium() + int_str(o@.premium) + lit_close_obj2());
        assert(out@ =~= old(out)@ + order_enc(o@));
    }
}


/// Match a literal at position `i`.
fn expect(s: &[u8], i: usize, lit: &[u8]) -> (r: Option<usize>)
    requires
        i <= s@.len(),
    ensures
        match r {
            Some(j) => {
                &&& j == i + lit@.len()
                &&& j <= s@.len()
                &&& s@.subrange(i as int, j as int) == lit@
            },
            None => !(i + lit@.len() <= s@.len() && s@.subrange(i as int, i + lit@.len() as int)
                == lit@),
        },
{
    let n = s.len();
    if n - i < lit.len() {
        return None;
    }
    let mut k: usize = 0;
    while k < lit.len()
        invariant
            n == s@.len(),
            i + lit@.len() <= n,
            k <= lit@.len(),
            forall|t: int| 0 <= t < k ==> s@[i + t] == lit@[t],
        decreases lit@.len() - k,
    {
        if s[i + k] != lit[k] {
            proof {
                if i + lit@.len() <= s@.len() && s@.subrange(i as int, i + lit@.len() as int)
                    == lit@ {
                    assert(s@.subrange(i as int, i + lit@.len() as int)[k as int] == s@[i + k]);
                }
            }
            return None;
        }
        k += 1;
    }
    proof {
        assert(s@.subrange(i as int, (i + lit@.len()) as int) =~= lit@);
    }
    Some(i + lit.len())
}

/// A quote-delimited field body standing at a position.
pub open spec fn str_at(s: Seq<u8>, i: int, x: Seq<u8>) -> bool {
    &&& str_ok(x)
    &&& i + x.len() + 1 <= s.len()
    &&& s.subrange(i, i + x.len() as int) == x
    &&& s[i + x.len() as int] == QUOTE
}

/// Read a quoted field's body up to its closing quote.
fn scan_string(s: &[u8], i: usize) -> (r: Option<(Vec<u8>, usize)>)
    requires
        i <= s@.len(),
    ensures
        match r {
            Some((v, j)) => {
                &&& i < j <= s@.len()
                &&& str_ok(v@)
                &&& s@.subrange(i as int, j as int) == v@ + seq![QUOTE]
            },
            None => forall|x: Seq<u8>| !str_at(s@, i as int, x),
        },
{
    let mut k: usize = i;
    while k < s.len()
        invariant
            i <= k <= s@.len(),
            forall|t: int| i <= t < k ==> s@[t] != QUOTE && s@[t] != BACKSLASH,
        decreases s@.len() - k,
    {
        let b = s[k];
        if b == QUOTE {
            let mut v: Vec<u8> = Vec::new();
            let mut t: usize = i;
            while t < k
                invariant
                    i <= t <= k <= s@.len(),
                    v@ == s@.subrange(i as int, t as int),
                decreases k - t,
            {
                let c = s[t];
                v.push(c);
                proof {
                    assert(s@.subrange(i as int, t + 1) =~= s@.subrange(i as int, t as int).push(
                        s@[t as int],
                    ));
                }
                t += 1;
            }
            proof {
                assert(str_ok(v@)) by {
                    assert forall|q: int| 0 <= q < v@.len() implies v@[q] != QUOTE && v@[q]
                        != BACKSLASH by {
                        assert(v@[q] == s@[i + q]);
                    }
                }
                assert(s@.subrange(i as int, (k + 1) as int) =~= v@ + seq![QUOTE]);
            }
            return Some((v, k + 1));
        }
        if b == BACKSLASH {
            proof {
                assert forall|x: Seq<u8>| !str_at(s@, i as int, x) by {
                    if str_at(s@, i as int, x) {
                        // The backslash sits before, at, or after the
                        // closing quote of the candidate; each is absurd.
                        if k < i + x.len() {
                            assert(x[k - i] == s@.subrange(i as int, i + x.len() as int)[k - i]);
                        } else if k == i + x.len() {
                        } else {
                            assert(s@[i + x.len() as int] == QUOTE);
                        }
                    }
                }
            }
            return None;
        }
        k += 1;
    }
    proof {
        assert forall|x: Seq<u8>| !str_at(s@, i as int, x) by {
            if str_at(s@, i as int, x) {
                assert(s@[i + x.len() as int] == QUOTE);
            }
        }
    }
    None
}

/// Read a canonical non-negative number no larger than the bound.
fn scan_number(s: &[u8], i: usize, bound: u64) -> (r: Option<(u64, usize)>)
    requires
        i <= s@.len(),
    ensures
        match r {
            Some((v, j)) => {
                &&& i < j <= s@.len()
                &&& v <= bound
                &&& s@.subrange(i as int, j as int) == dec_str(v as nat)
            },
            None => true,
        },
{
    if i == s.len() {
        return None;
    }
    let b0 = s[i];
    if b0 < ZERO || b0 > NINE {
        return None;
    }
    if b0 == ZERO {
        // A leading zero is canonical only as the single digit zero.
        if i + 1 < s.len() {
            let b1 = s[i + 1];
            if b1 >= ZERO && b1 <= NINE {
                return None;
            }
        }
        proof {
            lemma_dec_str_wf(0);
            assert(dec_str(0) =~= seq![ZERO]);
            assert(s@.subrange(i as int, (i + 1) as int) =~= seq![ZERO]);
        }
        return Some((0, i + 1));
    }
    let mut k: usize = i + 1;
    loop
        invariant
            i < k <= s@.len(),
            forall|t: int| i <= t < k ==> is_digit(s@[t]),
        ensures
            i < k <= s@.len(),
            forall|t: int| i <= t < k ==> is_digit(s@[t]),
        decreases s@.len() - k,
    {
        if k == s.len() {
            break;
        }
        let b = s[k];
        if b < ZERO || b > NINE {
            break;
        }
        k += 1;
    }
    let v = match parse_digits_bounded(s, i, k, bound) {
        Some(v) => v,
        None => {
            return None;
        },
    };
    proof {
        let digits = s@.subrange(i as int, k as int);
        lemma_dec_str_wf(v as nat);
        lemma_dec_val_of_dec_str(v as nat);
        assert(digits[0] == s@[i as int]);
        lemma_dec_str_unique(digits, dec_str(v as nat));
    }
    Some((v, k))
}

/// Read a canonical signed number that fits an `i64`.
fn scan_int(s: &[u8], i: usize) -> (r: Option<(i64, usize)>)
    requires
        i <= s@.len(),
    ensures
        match r {
            Some((v, j)) => {
                &&& i < j <= s@.len()
                &&& s@.subrange(i as int, j as int) == int_str(v as int)
            },
            None => true,
        },
{
    if i < s.len() && s[i] == MINUS_SIGN {
        match scan_number(s, i + 1, 9223372036854775808u64) {
            Some((v, j)) => {
                if v == 0 {
                    return None;
                }
                let value: i64 = if v == 9223372036854775808u64 {
                    i64::MIN
                } else {
                    -(v as i64)
                };
                proof {
                    assert(value as int == -(v as int));
                    assert(s@.subrange(i as int, j as int) =~= seq![MINUS_SIGN] + s@.subrange(
                        (i + 1) as int,
                        j as int,
                    ));
                }
                Some((value, j))
            },
            None => None,
        }
    } else {
        match scan_number(s, i, 0x7fff_ffff_ffff_ffffu64) {
            Some((v, j)) => Some((v as i64, j)),
            None => None,
        }
    }
}

/// Read a quoted string or the null token.
fn scan_opt_str(s: &[u8], i: usize) -> (r: Option<(Option<Vec<u8>>, usize)>)
    requires
        i <= s@.len(),
    ensures
        match r {
            Some((o, j)) => {
                &&& i <= j <= s@.len()
                &&& s@.subrange(i as int, j as int) == opt_str_enc(opt_bytes_view(o))
                &&& (o matches Some(v) ==> str_ok(v@))
            },
            None => true,
        },
{
    let a_null: [u8; 4] = ['n' as u8, 'u' as u8, 'l' as u8, 'l' as u8];
    if let Some(j) = expect(s, i, a_null.as_slice()) {
        proof {
            assert(a_null@ =~= lit_null());
        }
        return Some((None, j));
    }
    if i < s.len() && s[i] == QUOTE {
        match scan_string(s, i + 1) {
            Some((v, j)) => {
                proof {
                    assert(s@.subrange(i as int, j as int) =~= seq![QUOTE] + s@.subrange(
                        (i + 1) as int,
                        j as int,
                    ));
                    assert(s@.subrange(i as int, j as int) =~= seq![QUOTE] + v@ + seq![QUOTE]);
                }
                Some((Some(v), j))
            },
            None => None,
        }
    } else {
        None
    }
}

/// Read a non-negative number that fits a `u32`, or the null token.
fn scan_opt_num(s: &[u8], i: usize) -> (r: Option<(Option<u32>, usize)>)
    requires
        i <= s@.len(),
    ensures
        match r {
            Some((o, j)) => {
                &&& i <= j <= s@.len()
                &&& s@.subrange(i as int, j as int) == opt_num_enc(opt_u32_view(o))
            },
            None => true,
        },
{
    let a_null: [u8; 4] = ['n' as u8, 'u' as u8, 'l' as u8, 'l' as u8];
    if let Some(j) = expect(s, i, a_null.as_slice()) {
        proof {
            assert(a_null@ =~= lit_null());
        }
        return Some((None, j));
    }
    match scan_number(s, i, 0xffff_ffffu64) {
        Some((v, j)) => Some((Some(v as u32), j)),
        None => None,
    }
}

/// Read a signed number or the null token.
fn scan_opt_int(s: &[u8], i: usize) -> (r: Option<(Option<i64>, usize)>)
    requires
        i <= s@.len(),
    ensures
        match r {
            Some((o, j)) => {
                &&& i <= j <= s@.len()
                &&& s@.subrange(i as int, j as int) == opt_int_enc(
                    match o {
                        Some(v) => Some(v as int),
                        None => None,
                    },
                )
            },
            None => true,
        },
{
    let a_null: [u8; 4] = ['n' as u8, 'u' as u8, 'l' as u8, 'l' as u8];
    if let Some(j) = expect(s, i, a_null.as_slice()) {
        proof {
            assert(a_null@ =~= lit_null());
        }
        return Some((None, j));
    }
    match scan_int(s, i) {
        Some((v, j)) => Some((Some(v), j)),
        None => None,
    }
}

/// Read the kebab-case tag of an action, longest tags first so that a tag
/// that is a prefix of another cannot shadow it.
fn scan_action(s: &[u8], i: usize) -> (r: Option<(Action, usize)>)
    requires
        i <= s@.len(),
    ensures
        match r {
            Some((a, j)) => {
                &&& i <= j <= s@.len()
                &&& s@.subrange(i as int, j as int) == action_str(a)
            },
            None => true,
        },
{
    let a_0: [u8; 24] = ['d' as u8, 'i' as u8, 's' as u8, 'p' as u8, 'u' as u8, 't' as u8, 'e' as u8, '-' as u8, 'i' as u8, 'n' as u8, 'i' as u8, 't' as u8, 'i' as u8, 'a' as u8, 't' as u8, 'e' as u8, 'd' as u8, '-' as u8, 'b' as u8, 'y' as u8, '-' as u8, 'y' as u8, 'o' as u8, 'u' as u8];
    if let Some(j) = expect(s, i, a_0.as_slice()) {
        proof {
            assert(a_0@ =~= action_str(Action::DisputeInitiatedByYou));
        }
        return Some((Action::DisputeInitiatedByYou, j));
    }
    let a_1: [u8; 22] = ['b' as u8, 'u' as u8, 'y' as u8, 'e' as u8, 'r' as u8, '-' as u8, 'i' as u8, 'n' as u8, 'v' as u8, 'o' as u8, 'i' as u8, 'c' as u8, 'e' as u8, '-' as u8, 'a' as u8, 'c' as u8, 'c' as u8, 'e' as u8, 'p' as u8, 't' as u8, 'e' as u8, 'd' as u8];
    if let Some(j) = expect(s, i, a_1.as_slice()) {
        proof {
            assert(a_1@ =~= action_str(Action::BuyerInvoiceAccepted));
        }
        return Some((Action::BuyerInvoiceAccepted, j));
    }
    let a_2: [u8; 21] = ['w' as u8, 'a' as u8, 'i' as u8, 't' as u8, 'i' as u8, 'n' as u8, 'g' as u8, '-' as u8, 's' as u8, 'e' as u8, 'l' as u8, 'l' as u8, 'e' as u8, 'r' as u8, '-' as u8, 't' as u8, 'o' as u8, '-' as u8, 'p' as u8, 'a' as u8, 'y' as u8];
    if let Some(j) = expect(s, i, a_2.as_slice()) {
        proof {
            assert(a_2@ =~= action_str(Action::WaitingSellerToPay));
        }
        return Some((Action::WaitingSellerToPay, j));
    }
    let a_3: [u8; 21] = ['w' as u8, 'a' as u8, 'i' as u8, 't' as u8, 'i' as u8, 'n' as u8, 'g' as u8, '-' as u8, 'b' as u8, 'u' as u8, 'y' as u8, 'e' as u8, 'r' as u8, '-' as u8, 'i' as u8, 'n' as u8, 'v' as u8, 'o' as u8, 'i' as u8, 'c' as u8, 'e' as u8];
    if let Some(j) = expect(s, i, a_3.as_slice()) {
        proof {
            assert(a_3@ =~= action_str(Action::WaitingBuyerInvoice));
        }
        return Some((Action::WaitingBuyerInvoice, j));
    }
    let a_4: [u8; 18] = ['a' as u8, 'd' as u8, 'm' as u8, 'i' as u8, 'n' as u8, '-' as u8, 't' as u8, 'a' as u8, 'k' as u8, 'e' as u8, '-' as u8, 'd' as u8, 'i' as u8, 's' as u8, 'p' as u8, 'u' as u8, 't' as u8, 'e' as u8];
    if let Some(j) = expect(s, i, a_4.as_slice()) {
        proof {
            assert(a_4@ =~= action_str(Action::AdminTakeDispute));
        }
        return Some((Action::AdminTakeDispute, j));
    }
    let a_5: [u8; 18] = ['a' as u8, 'd' as u8, 'm' as u8, 'i' as u8, 'n' as u8, '-' as u8, 't' as u8, 'o' as u8, 'o' as u8, 'k' as u8, '-' as u8, 'd' as u8, 'i' as u8, 's' as u8, 'p' as u8, 'u' as u8, 't' as u8, 'e' as u8];
    if let Some(j) = expect(s, i, a_5.as_slice()) {
        proof {
            assert(a_5@ =~= action_str(Action::AdminTookDispute));
        }
        return Some((Action::AdminTookDispute, j));
    }
    let a_6: [u8; 16] = ['a' as u8, 'd' as u8, 'm' as u8, 'i' as u8, 'n' as u8, '-' as u8, 'a' as u8, 'd' as u8, 'd' as u8, '-' as u8, 's' as u8, 'o' as u8, 'l' as u8, 'v' as u8, 'e' as u8, 'r' as u8];
    if let Some(j) = expect(s, i, a_6.as_slice()) {
        proof {
            assert(a_6@ =~= action_str(Action::AdminAddSolver));
        }
        return Some((Action::AdminAddSolver, j));
    }
    let a_7: [u8; 16] = ['b' as u8, 'u' as u8, 'y' as u8, 'e' as u8, 'r' as u8, '-' as u8, 't' as u8, 'o' as u8, 'o' as u8, 'k' as u8, '-' as u8, 'o' as u8, 'r' as u8, 'd' as u8, 'e' as u8, 'r' as u8];
    if let Some(j) = expect(s, i, a_7.as_slice()) {
        proof {
            assert(a_7@ =~= action_str(Action::BuyerTookOrder));
        }
        return Some((Action::BuyerTookOrder, j));
    }
    let a_8: [u8; 14] = ['a' as u8, 'd' as u8, 'm' as u8, 'i' as u8, 'n' as u8, '-' as u8, 'c' as u8, 'a' as u8, 'n' as u8, 'c' as u8, 'e' as u8, 'l' as u8, 'e' as u8, 'd' as u8];
    if let Some(j) = expect(s, i, a_8.as_slice()) {
        proof {
            assert(a_8@ =~= action_str(Action::AdminCanceled));
        }
        return Some((Action::AdminCanceled, j));
    }
    let a_9: [u8; 13] = ['a' as u8, 'd' as u8, 'm' as u8, 'i' as u8, 'n' as u8, '-' as u8, 's' as u8, 'e' as u8, 't' as u8, 't' as u8, 'l' as u8, 'e' as u8, 'd' as u8];
    if let Some(j) = expect(s, i, a_9.as_slice()) {
        proof {
            assert(a_9@ =~= action_str(Action::AdminSettled));
        }
        return Some((Action::AdminSettled, j));
    }
    let a_10: [u8; 13] = ['r' as u8, 'a' as u8, 't' as u8, 'e' as u8, '-' as u8, 'r' as u8, 'e' as u8, 'c' as u8, 'e' as u8, 'i' as u8, 'v' as u8, 'e' as u8, 'd' as u8];
    if let Some(j) = expect(s, i, a_10.as_slice()) {
        proof {
            assert(a_10@ =~= action_str(Action::RateReceived));
        }
        return Some((Action::RateReceived, j));
    }
    let a_11: [u8; 12] = ['a' as u8, 'd' as u8, 'm' as u8, 'i' as u8, 'n' as u8, '-' as u8, 'c' as u8, 'a' as u8, 'n' as u8, 'c' as u8, 'e' as u8, 'l' as u8];
    if let Some(j) = expect(s, i, a_11.as_slice()) {
        proof {
            assert(a_11@ =~= action_str(Action::AdminCancel));
        }
        return Some((Action::AdminCancel, j));
    }
    let a_12: [u8; 12] = ['a' as u8, 'd' as u8, 'm' as u8, 'i' as u8, 'n' as u8, '-' as u8, 's' as u8, 'e' as u8, 't' as u8, 't' as u8, 'l' as u8, 'e' as u8];
    if let Some(j) = expect(s, i, a_12.as_slice()) {
        proof {
            assert(a_12@ =~= action_str(Action::AdminSettle));
        }
        return Some((Action::AdminSettle, j));
    }
    let a_13: [u8; 12] = ['f' as u8, 'i' as u8, 'a' as u8, 't' as u8, '-' as u8, 's' as u8, 'e' as u8, 'n' as u8, 't' as u8, '-' as u8, 'o' as u8, 'k' as u8];
    if let Some(j) = expect(s, i, a_13.as_slice()) {
        proof {
            assert(a_13@ =~= action_str(Action::FiatSentOk));
        }
        return Some((Action::FiatSentOk, j));
    }
    let a_14: [u8; 11] = ['a' as u8, 'd' as u8, 'd' as u8, '-' as u8, 'i' as u8, 'n' as u8, 'v' as u8, 'o' as u8, 'i' as u8, 'c' as u8, 'e' as u8];
    if let Some(j) = expect(s, i, a_14.as_slice()) {
        proof {
            assert(a_14@ =~= action_str(Action::AddInvoice));
        }
        return Some((Action::AddInvoice, j));
    }
    let a_15: [u8; 11] = ['p' as u8, 'a' as u8, 'y' as u8, '-' as u8, 'i' as u8, 'n' as u8, 'v' as u8, 'o' as u8, 'i' as u8, 'c' as u8, 'e' as u8];
    if let Some(j) = expect(s, i, a_15.as_slice()) {
        proof {
            assert(a_15@ =~= action_str(Action::PayInvoice));
        }
        return Some((Action::PayInvoice, j));
    }
    let a_16: [u8; 9] = ['n' as u8, 'e' as u8, 'w' as u8, '-' as u8, 'o' as u8, 'r' as u8, 'd' as u8, 'e' as u8, 'r' as u8];
    if let Some(j) = expect(s, i, a_16.as_slice()) {
        proof {
            assert(a_16@ =~= action_str(Action::NewOrder));
        }
        return Some((Action::NewOrder, j));
    }
    let a_17: [u8; 9] = ['t' as u8, 'a' as u8, 'k' as u8, 'e' as u8, '-' as u8, 's' as u8, 'e' as u8, 'l' as u8, 'l' as u8];
    if let Some(j) = expect(s, i, a_17.as_slice()) {
        proof {
            assert(a_17@ =~= action_str(Action::TakeSell));
        }
        return Some((Action::TakeSell, j));
    }
    let a_18: [u8; 9] = ['f' as u8, 'i' as u8, 'a' as u8, 't' as u8, '-' as u8, 's' as u8, 'e' as u8, 'n' as u8, 't' as u8];
    if let Some(j) = expect(s, i, a_18.as_slice()) {
        proof {
            assert(a_18@ =~= action_str(Action::FiatSent));
        }
        return Some((Action::FiatSent, j));
    }
    let a_19: [u8; 9] = ['r' as u8, 'a' as u8, 't' as u8, 'e' as u8, '-' as u8, 'u' as u8, 's' as u8, 'e' as u8, 'r' as u8];
    if let Some(j) = expect(s, i, a_19.as_slice()) {
        proof {
            assert(a_19@ =~= action_str(Action::RateUser));
        }
        return Some((Action::RateUser, j));
    }
    let a_20: [u8; 8] = ['t' as u8, 'a' as u8, 'k' as u8, 'e' as u8, '-' as u8, 'b' as u8, 'u' as u8, 'y' as u8];
    if let Some(j) = expect(s, i, a_20.as_slice()) {
        proof {
            assert(a_20@ =~= action_str(Action::TakeBuy));
        }
        return Some((Action::TakeBuy, j));
    }
    let a_21: [u8; 8] = ['r' as u8, 'e' as u8, 'l' as u8, 'e' as u8, 'a' as u8, 's' as u8, 'e' as u8, 'd' as u8];
    if let Some(j) = expect(s, i, a_21.as_slice()) {
        proof {
            assert(a_21@ =~= action_str(Action::Released));
        }
        return Some((Action::Released, j));
    }
    let a_22: [u8; 8] = ['c' as u8, 'a' as u8, 'n' as u8, 'c' as u8, 'e' as u8, 'l' as u8, 'e' as u8, 'd' as u8];
    if let Some(j) = expect(s, i, a_22.as_slice()) {
        proof {
            assert(a_22@ =~= action_str(Action::Canceled));
        }
        return Some((Action::Canceled, j));
    }
    let a_23: [u8; 7] = ['r' as u8, 'e' as u8, 'l' as u8, 'e' as u8, 'a' as u8, 's' as u8, 'e' as u8];
    if let Some(j) = expect(s, i, a_23.as_slice()) {
        proof {
            assert(a_23@ =~= action_str(Action::Release));
        }
        return Some((Action::Release, j));
    }
    let a_24: [u8; 7] = ['d' as u8, 'i' as u8, 's' as u8, 'p' as u8, 'u' as u8, 't' as u8, 'e' as u8];
    if let Some(j) = expect(s, i, a_24.as_slice()) {
        proof {
            assert(a_24@ =~= action_str(Action::Dispute));
        }
        return Some((Action::Dispute, j));
    }
    let a_25: [u8; 7] = ['c' as u8, 'a' as u8, 'n' as u8, 't' as u8, '-' as u8, 'd' as u8, 'o' as u8];
    if let Some(j) = expect(s, i, a_25.as_slice()) {
        proof {
            assert(a_25@ =~= action_str(Action::CantDo));
        }
        return Some((Action::CantDo, j));
    }
    let a_26: [u8; 6] = ['c' as u8, 'a' as u8, 'n' as u8, 'c' as u8, 'e' as u8, 'l' as u8];
    if let Some(j) = expect(s, i, a_26.as_slice()) {
        proof {
            assert(a_26@ =~= action_str(Action::Cancel));
        }
        return Some((Action::Cancel, j));
    }
    None
}

/// Splitting a slice of a byte string at an interior point splits its
/// contents.
proof fn lemma_glue(s: Seq<u8>, a: int, b: int, c: int)
    requires
        0 <= a <= b <= c <= s.len(),
    ensures
        s.subrange(a, c) == s.subrange(a, b) + s.subrange(b, c),
{
    assert(s.subrange(a, c) =~= s.subrange(a, b) + s.subrange(b, c));
}

/// Read the front half of an encoded order payload: tag, side, amount,
/// fiat code and minimum amount.
#[verifier::rlimit(100)]
fn scan_order_front(s: &[u8], i: usize) -> (r: Option<(OrderSide, i64, Vec<u8>, i64, usize)>)
    requires
        i <= s@.len(),
    ensures
        match r {
            Some((side, amount, fiat_code, min_amount, j)) => {
                &&& i <= j <= s@.len()
                &&& str_ok(fiat_code@)
                &&& s@.subrange(i as int, j as int) == lit_order() + side_str(side)
                    + lit_o_amount() + int_str(amount as int) + lit_o_fiat_code() + fiat_code@
                    + lit_o_min_amount() + int_str(min_amount as int)
            },
            None => true,
        },
{
    let a_order: [u8; 18] = ['{' as u8, QUOTE, 'o' as u8, 'r' as u8, 'd' as u8, 'e' as u8, 'r' as u8, QUOTE, ':' as u8, '{' as u8, QUOTE, 'k' as u8, 'i' as u8, 'n' as u8, 'd' as u8, QUOTE, ':' as u8, QUOTE];
    let i1 = match expect(s, i, a_order.as_slice()) {
        Some(j) => j,
        None => {
            return None;
        },
    };
    proof {
        assert(a_order@ =~= lit_order());
    }
    let a_buy: [u8; 3] = ['b' as u8, 'u' as u8, 'y' as u8];
    let a_sell: [u8; 4] = ['s' as u8, 'e' as u8, 'l' as u8, 'l' as u8];
    let (side, i2): (OrderSide, usize) = if let Some(j) = expect(s, i1, a_sell.as_slice()) {
        (OrderSide::Sell, j)
    } else if let Some(j) = expect(s, i1, a_buy.as_slice()) {
        (OrderSide::Buy, j)
    } else {
        return None;
    };
    proof {
        assert(a_sell@ =~= side_str(OrderSide::Sell));
        assert(a_buy@ =~= side_str(OrderSide::Buy));
        lemma_glue(s@, i as int, i1 as int, i2 as int);
    }
    let ghost p2 = lit_order() + side_str(side);
    assert(s@.subrange(i as int, i2 as int) == p2);
    let a_o_amount: [u8; 11] = [QUOTE, ',' as u8, QUOTE, 'a' as u8, 'm' as u8, 'o' as u8, 'u' as u8, 'n' as u8, 't' as u8, QUOTE, ':' as u8];
    let i3 = match expect(s, i2, a_o_amount.as_slice()) {
        Some(j) => j,
        None => {
            return None;
        },
    };
    let (amount, i4) = match scan_int(s, i3) {
        Some(x) => x,
        None => {
            return None;
        },
    };
    proof {
        assert(a_o_amount@ =~= lit_o_amount());
        lemma_glue(s@, i as int, i2 as int, i3 as int);
        lemma_glue(s@, i as int, i3 as int, i4 as int);
    }
    let ghost p4 = p2 + lit_o_amount() + int_str(amount as int);
    assert(s@.subrange(i as int, i4 as int) == p4);
    let a_o_fiat: [u8; 14] = [',' as u8, QUOTE, 'f' as u8, 'i' as u8, 'a' as u8, 't' as u8, '_' as u8, 'c' as u8, 'o' as u8, 'd' as u8, 'e' as u8, QUOTE, ':' as u8, QUOTE];
    let i5 = match expect(s, i4, a_o_fiat.as_slice()) {
        Some(j) => j,
        None => {
            return None;
        },
    };
    let (fiat_code, i6) = match scan_string(s, i5) {
        Some(x) => x,
        None => {
            return None;
        },
    };
    proof {
        assert(a_o_fiat@ =~= lit_o_fiat_code());
        lemma_glue(s@, i as int, i4 as int, i5 as int);
        lemma_glue(s@, i as int, i5 as int, i6 as int);
    }
    // The closing quote of the fiat code opens the next key's literal.
    let ghost p6 = p4 + lit_o_fiat_code() + (fiat_code@ + seq![QUOTE]);
    assert(s@.subrange(i as int, i6 as int) == p6);
    let a_o_min_tail: [u8; 14] = [',' as u8, QUOTE, 'm' as u8, 'i' as u8, 'n' as u8, '_' as u8, 'a' as u8, 'm' as u8, 'o' as u8, 'u' as u8, 'n' as u8, 't' as u8, QUOTE, ':' as u8];
    let i7 = match expect(s, i6, a_o_min_tail.as_slice()) {
        Some(j) => j,
        None => {
            return None;
        },
    };
    let (min_amount, i8) = match scan_int(s, i7) {
        Some(x) => x,
        None => {
            return None;
        },
    };
    proof {
        lemma_glue(s@, i as int, i6 as int, i7 as int);
        lemma_glue(s@, i as int, i7 as int, i8 as int);
        assert(seq![QUOTE] + a_o_min_tail@ =~= lit_o_min_amount());
        assert(p6 + a_o_min_tail@ + int_str(min_amount as int) =~= p4 + lit_o_fiat_code()
            + fiat_code@ + lit_o_min_amount() + int_str(min_amount as int));
    }
    assert(s@.subrange(i as int, i8 as int) == p4 + lit_o_fiat_code() + fiat_code@
        + lit_o_min_amount() + int_str(min_amount as int));
    Some((side, amount, fiat_code, min_amount, i8))
}

/// Read an encoded order payload.
#[verifier::rlimit(100)]
fn scan_order(s: &[u8], i: usize) -> (r: Option<(OrderPayload, usize)>)
    requires
        i <= s@.len(),
    ensures
        match r {
            Some((o, j)) => {
                &&& i <= j <= s@.len()
                &&& s@.subrange(i as int, j as int) == order_enc(o@)
                &&& wf_order(o@)
            },
            None => true,
        },
{
    let (side, amount, fiat_code, min_amount, i8) = match scan_order_front(s, i) {
        Some(x) => x,
        None => {
            return None;
        },
    };
    let ghost p8 = lit_order() + side_str(side) + lit_o_amount() + int_str(amount as int)
        + lit_o_fiat_code() + fiat_code@ + lit_o_min_amount() + int_str(min_amount as int);
    let a_o_max: [u8; 14] = [',' as u8, QUOTE, 'm' as u8, 'a' as u8, 'x' as u8, '_' as u8, 'a' as u8, 'm' as u8, 'o' as u8, 'u' as u8, 'n' as u8, 't' as u8, QUOTE, ':' as u8];
    let i9 = match expect(s, i8, a_o_max.as_slice()) {
        Some(j) => j,
        None => {
            return None;
        },
    };
    let (max_amount, i10) = match scan_opt_int(s, i9) {
        Some(x) => x,
        None => {
            return None;
        },
    };
    proof {
        assert(a_o_max@ =~= lit_o_max_amount());
        lemma_glue(s@, i as int, i8 as int, i9 as int);
        lemma_glue(s@, i as int, i9 as int, i10 as int);
    }
    let ghost max_v: Option<int> = match max_amount {
        Some(v) => Some(v as int),
        None => None,
    };
    let ghost p10 = p8 + lit_o_max_amount() + opt_int_enc(max_v);
    assert(s@.subrange(i as int, i10 as int) == p10);
    let a_o_pm: [u8; 19] = [',' as u8, QUOTE, 'p' as u8, 'a' as u8, 'y' as u8, 'm' as u8, 'e' as u8, 'n' as u8, 't' as u8, '_' as u8, 'm' as u8, 'e' as u8, 't' as u8, 'h' as u8, 'o' as u8, 'd' as u8, QUOTE, ':' as u8, QUOTE];
    let i11 = match expect(s, i10, a_o_pm.as_slice()) {
        Some(j) => j,
        None => {
            return None;
        },
    };
    let (payment_method, i12) = match scan_string(s, i11) {
        Some(x) => x,
        None => {
            return None;
        },
    };
    proof {
        assert(a_o_pm@ =~= lit_o_payment_method());
        lemma_glue(s@, i as int, i10 as int, i11 as int);
        lemma_glue(s@, i as int, i11 as int, i12 as int);
    }
    let ghost p12 = p10 + lit_o_payment_method() + (payment_method@ + seq![QUOTE]);
    assert(s@.subrange(i as int, i12 as int) == p12);
    let a_o_prem_tail: [u8; 11] = [',' as u8, QUOTE, 'p' as u8, 'r' as u8, 'e' as u8, 'm' as u8, 'i' as u8, 'u' as u8, 'm' as u8, QUOTE, ':' as u8];
    let i13 = match expect(s, i12, a_o_prem_tail.as_slice()) {
        Some(j) => j,
        None => {
            return None;
        },
    };
    let (premium, i14) = match scan_int(s, i13) {
        Some(x) => x,
        None => {
            return None;
        },
    };
    let a_close2: [u8; 2] = ['}' as u8, '}' as u8];
    let i15 = match expect(s, i14, a_close2.as_slice()) {
        Some(j) => j,
        None => {
            return None;
        },
    };
    let o = OrderPayload {
        side,
        amount,
        fiat_code,
        fiat_range: FiatRange { min: min_amount, max: max_amount },
        payment_method,
        premium,
    };
    proof {
        assert(a_close2@ =~= lit_close_obj2());
        lemma_glue(s@, i as int, i12 as int, i13 as int);
        lemma_glue(s@, i as int, i13 as int, i14 as int);
        lemma_glue(s@, i as int, i14 as int, i15 as int);
        assert(o@.max_amount == max_v);
        assert(s@.subrange(i as int, i15 as int) == p12 + a_o_prem_tail@ + int_str(premium as int)
            + lit_close_obj2());
        assert(p12 + a_o_prem_tail@ + int_str(premium as int) + lit_close_obj2() =~= order_enc(
            o@,
        ));
    }
    Some((o, i15))
}

/// Read an encoded payload.
#[verifier::rlimit(100)]
fn scan_content(s: &[u8], i: usize) -> (r: Option<(Content, usize)>)
    requires
        i <= s@.len(),
    ensures
        match r {
            Some((c, j)) => {
                &&& i <= j <= s@.len()
                &&& s@.subrange(i as int, j as int) == content_enc(c@)
                &&& wf_content(c@)
            },
            None => true,
        },
{
    let a_amount: [u8; 10] = ['{' as u8, QUOTE, 'a' as u8, 'm' as u8, 'o' as u8, 'u' as u8, 'n' as u8, 't' as u8, QUOTE, ':' as u8];
    if let Some(j) = expect(s, i, a_amount.as_slice()) {
        proof {
            assert(a_amount@ =~= lit_amount());
        }
        let (v, j2) = match scan_number(s, j, 0xffff_ffffu64) {
            Some(x) => x,
            None => {
                return None;
            },
        };
        let j3 = match expect_byte(s, j2, '}' as u8) {
            Some(x) => x,
            None => {
                return None;
            },
        };
        let c = Content::Amount(v as u32);
        proof {
            assert(s@.subrange(i as int, j3 as int) =~= s@.subrange(i as int, j as int)
                + s@.subrange(j as int, j2 as int) + s@.subrange(j2 as int, j3 as int));
            assert(int_str(v as int) == dec_str(v as nat));
            assert(s@.subrange(i as int, j3 as int) =~= lit_amount() + int_str(v as int)
                + lit_close());
        }
        return Some((c, j3));
    }
    let a_pr: [u8; 20] = ['{' as u8, QUOTE, 'p' as u8, 'a' as u8, 'y' as u8, 'm' as u8, 'e' as u8, 'n' as u8, 't' as u8, '_' as u8, 'r' as u8, 'e' as u8, 'q' as u8, 'u' as u8, 'e' as u8, 's' as u8, 't' as u8, QUOTE, ':' as u8, '[' as u8];
    if let Some(j) = expect(s, i, a_pr.as_slice()) {
        proof {
            assert(a_pr@ =~= lit_payment_request());
        }
        let (label, j2) = match scan_opt_str(s, j) {
            Some(x) => x,
            None => {
                return None;
            },
        };
        let a_pr_mid: [u8; 2] = [',' as u8, QUOTE];
        let j3 = match expect(s, j2, a_pr_mid.as_slice()) {
            Some(x) => x,
            None => {
                return None;
            },
        };
        let (pr, j4) = match scan_string(s, j3) {
            Some(x) => x,
            None => {
                return None;
            },
        };
        let j5 = match expect_byte(s, j4, ',' as u8) {
            Some(x) => x,
            None => {
                return None;
            },
        };
        let (amt, j6) = match scan_opt_num(s, j5) {
            Some(x) => x,
            None => {
                return None;
            },
        };
        let a_pr_end: [u8; 2] = [']' as u8, '}' as u8];
        let j7 = match expect(s, j6, a_pr_end.as_slice()) {
            Some(x) => x,
            None => {
                return None;
            },
        };
        let c = Content::PaymentRequest(label, pr, amt);
        proof {
            assert(a_pr_mid@ =~= lit_pr_mid());
            assert(a_pr_end@ =~= lit_pr_end());
            assert(s@.subrange(i as int, j7 as int) =~= s@.subrange(i as int, j as int)
                + s@.subrange(j as int, j2 as int) + s@.subrange(j2 as int, j3 as int)
                + s@.subrange(j3 as int, j4 as int) + s@.subrange(j4 as int, j5 as int)
                + s@.subrange(j5 as int, j6 as int) + s@.subrange(j6 as int, j7 as int));
            assert(s@.subrange(j4 as int, j5 as int) =~= seq![',' as u8]);
            assert(s@.subrange(j3 as int, j4 as int) == pr@ + seq![QUOTE]);
            assert(seq![QUOTE] + seq![',' as u8] =~= lit_pr_after());
            assert(s@.subrange(i as int, j7 as int) =~= lit_payment_request() + opt_str_enc(
                opt_bytes_view(label),
            ) + lit_pr_mid() + pr@ + lit_pr_after() + opt_num_enc(opt_u32_view(amt))
                + lit_pr_end());
        }
        return Some((c, j7));
    }
    let a_rating: [u8; 15] = ['{' as u8, QUOTE, 'r' as u8, 'a' as u8, 't' as u8, 'i' as u8, 'n' as u8, 'g' as u8, '_' as u8, 'u' as u8, 's' as u8, 'e' as u8, 'r' as u8, QUOTE, ':' as u8];
    if let Some(j) = expect(s, i, a_rating.as_slice()) {
        proof {
            assert(a_rating@ =~= lit_rating_user());
        }
        let (v, j2) = match scan_number(s, j, 255u64) {
            Some(x) => x,
            None => {
                return None;
            },
        };
        let j3 = match expect_byte(s, j2, '}' as u8) {
            Some(x) => x,
            None => {
                return None;
            },
        };
        let c = Content::RatingUser(v as u8);
        proof {
            assert(s@.subrange(i as int, j3 as int) =~= s@.subrange(i as int, j as int)
                + s@.subrange(j as int, j2 as int) + s@.subrange(j2 as int, j3 as int));
            assert(int_str(v as int) == dec_str(v as nat));
            assert(s@.subrange(i as int, j3 as int) =~= lit_rating_user() + int_str(v as int)
                + lit_close());
        }
        return Some((c, j3));
    }
    let a_text: [u8; 17] = ['{' as u8, QUOTE, 't' as u8, 'e' as u8, 'x' as u8, 't' as u8, '_' as u8, 'm' as u8, 'e' as u8, 's' as u8, 's' as u8, 'a' as u8, 'g' as u8, 'e' as u8, QUOTE, ':' as u8, QUOTE];
    if let Some(j) = expect(s, i, a_text.as_slice()) {
        proof {
            assert(a_text@ =~= lit_text_message());
        }
        let (t, j2) = match scan_string(s, j) {
            Some(x) => x,
            None => {
                return None;
            },
        };
        let j3 = match expect_byte(s, j2, '}' as u8) {
            Some(x) => x,
            None => {
                return None;
            },
        };
        let c = Content::TextMessage(t);
        proof {
            assert(s@.subrange(i as int, j3 as int) =~= s@.subrange(i as int, j as int)
                + s@.subrange(j as int, j2 as int) + s@.subrange(j2 as int, j3 as int));
            assert(s@.subrange(j as int, j2 as int) == t@ + seq![QUOTE]);
            assert(s@.subrange(j2 as int, j3 as int) =~= seq!['}' as u8]);
            assert(seq![QUOTE] + seq!['}' as u8] =~= lit_quote_close_obj());
            assert(s@.subrange(i as int, j3 as int) =~= lit_text_message() + t@
                + lit_quote_close_obj());
        }
        return Some((c, j3));
    }
    match scan_order(s, i) {
        Some((o, j)) => Some((Content::Order(o), j)),
        None => None,
    }
}

/// Match a single byte.
fn expect_byte(s: &[u8], i: usize, b: u8) -> (r: Option<usize>)
    requires
        i <= s@.len(),
    ensures
        match r {
            Some(j) => {
                &&& j == i + 1
                &&& j <= s@.len()
                &&& s@.subrange(i as int, j as int) == seq![b]
            },
            None => !(i < s@.len() && s@[i as int] == b),
        },
{
    if i < s.len() && s[i] == b {
        proof {
            assert(s@.subrange(i as int, (i + 1) as int) =~= seq![b]);
        }
        Some(i + 1)
    } else {
        None
    }
}

/// Decode a canonical message encoding.
///
/// Exact by construction: whenever a message comes back, its canonical
/// encoding is precisely the input, so decoding reproduces every field the
/// encoder wrote.
#[verifier::rlimit(100)]
pub fn decode(s: &[u8]) -> (r: Option<Message>)
    ensures
        match r {
            Some(m) => {
                &&& wf_message(m@)
                &&& encode_spec(m@) == s@
                &&& forall|mv: MessageV|
                    wf_message(mv) && #[trigger] encode_spec(mv) == s@ ==> m@ == mv
            },
            None => true,
        },
{
    let a_open: [u8; 9] = ['{' as u8, QUOTE, 'k' as u8, 'i' as u8, 'n' as u8, 'd' as u8, QUOTE, ':' as u8, QUOTE];
    let i1 = match expect(s, 0, a_open.as_slice()) {
        Some(j) => j,
        None => {
            return None;
        },
    };
    proof {
        assert(a_open@ =~= lit_open());
    }
    let a_kind_order: [u8; 5] = ['o' as u8, 'r' as u8, 'd' as u8, 'e' as u8, 'r' as u8];
    let a_kind_dispute: [u8; 7] = ['d' as u8, 'i' as u8, 's' as u8, 'p' as u8, 'u' as u8, 't' as u8, 'e' as u8];
    let (kind, i2): (MessageKind, usize) = if let Some(j) = expect(s, i1, a_kind_order.as_slice()) {
        (MessageKind::Order, j)
    } else if let Some(j) = expect(s, i1, a_kind_dispute.as_slice()) {
        (MessageKind::Dispute, j)
    } else {
        return None;
    };
    proof {
        assert(a_kind_order@ =~= kind_str(MessageKind::Order));
        assert(a_kind_dispute@ =~= kind_str(MessageKind::Dispute));
        assert(s@.subrange(0, i2 as int) =~= s@.subrange(0, i1 as int) + s@.subrange(
            i1 as int,
            i2 as int,
        ));
    }
    let ghost q2 = lit_open() + kind_str(kind);
    assert(s@.subrange(0, i2 as int) == q2);
    let a_id: [u8; 7] = [QUOTE, ',' as u8, QUOTE, 'i' as u8, 'd' as u8, QUOTE, ':' as u8];
    let i3 = match expect(s, i2, a_id.as_slice()) {
        Some(j) => j,
        None => {
            return None;
        },
    };
    let (id, i4) = match scan_opt_str(s, i3) {
        Some(x) => x,
        None => {
            return None;
        },
    };
    proof {
        assert(a_id@ =~= lit_id());
        assert(s@.subrange(0, i4 as int) =~= s@.subrange(0, i2 as int) + s@.subrange(
            i2 as int,
            i3 as int,
        ) + s@.subrange(i3 as int, i4 as int));
    }
    let ghost q4 = q2 + lit_id() + opt_str_enc(opt_bytes_view(id));
    assert(s@.subrange(0, i4 as int) == q4);
    let a_sender: [u8; 10] = [',' as u8, QUOTE, 's' as u8, 'e' as u8, 'n' as u8, 'd' as u8, 'e' as u8, 'r' as u8, QUOTE, ':' as u8];
    let i5 = match expect(s, i4, a_sender.as_slice()) {
        Some(j) => j,
        None => {
            return None;
        },
    };
    let (sender, i6) = match scan_opt_str(s, i5) {
        Some(x) => x,
        None => {
            return None;
        },
    };
    proof {
        assert(a_sender@ =~= lit_sender());
        assert(s@.subrange(0, i6 as int) =~= s@.subrange(0, i4 as int) + s@.subrange(
            i4 as int,
            i5 as int,
        ) + s@.subrange(i5 as int, i6 as int));
    }
    let ghost q6 = q4 + lit_sender() + opt_str_enc(opt_bytes_view(sender));
    assert(s@.subrange(0, i6 as int) == q6);
    let a_action: [u8; 11] = [',' as u8, QUOTE, 'a' as u8, 'c' as u8, 't' as u8, 'i' as u8, 'o' as u8, 'n' as u8, QUOTE, ':' as u8, QUOTE];
    let i7 = match expect(s, i6, a_action.as_slice()) {
        Some(j) => j,
        None => {
            return None;
        },
    };
    let (action, i8) = match scan_action(s, i7) {
        Some(x) => x,
        None => {
            return None;
        },
    };
    proof {
        assert(a_action@ =~= lit_action());
        assert(s@.subrange(0, i8 as int) =~= s@.subrange(0, i6 as int) + s@.subrange(
            i6 as int,
            i7 as int,
        ) + s@.subrange(i7 as int, i8 as int));
    }
    let ghost q8 = q6 + lit_action() + action_str(action);
    assert(s@.subrange(0, i8 as int) == q8);
    let a_content: [u8; 12] = [QUOTE, ',' as u8, QUOTE, 'c' as u8, 'o' as u8, 'n' as u8, 't' as u8, 'e' as u8, 'n' as u8, 't' as u8, QUOTE, ':' as u8];
    let i9 = match expect(s, i8, a_content.as_slice()) {
        Some(j) => j,
        None => {
            return None;
        },
    };
    proof {
        assert(a_content@ =~= lit_content());
    }
    let a_null: [u8; 4] = ['n' as u8, 'u' as u8, 'l' as u8, 'l' as u8];
    let (content, i10): (Option<Content>, usize) = if let Some(j) = expect(
        s,
        i9,
        a_null.as_slice(),
    ) {
        proof {
            assert(a_null@ =~= lit_null());
        }
        (None, j)
    } else {
        match scan_content(s, i9) {
            Some((c, j)) => (Some(c), j),
            None => {
                return None;
            },
        }
    };
    proof {
        assert(s@.subrange(0, i10 as int) =~= s@.subrange(0, i8 as int) + s@.subrange(
            i8 as int,
            i9 as int,
        ) + s@.subrange(i9 as int, i10 as int));
    }
    let ghost q10 = q8 + lit_content() + opt_content_enc(opt_content_view(content));
    assert(s@.subrange(0, i10 as int) == q10);
    let i11 = match expect_byte(s, i10, '}' as u8) {
        Some(j) => j,
        None => {
            return None;
        },
    };
    if i11 != s.len() {
        return None;
    }
    let m = Message { kind, id, sender, action, content };
    proof {
        assert(s@.subrange(i10 as int, i11 as int) =~= lit_close());
        assert(s@.subrange(0, i11 as int) =~= s@.subrange(0, i10 as int) + s@.subrange(
            i10 as int,
            i11 as int,
        ));
        assert(s@ =~= s@.subrange(0, s@.len() as int));
        assert(encode_spec(m@) =~= q10 + lit_close());
        assert(encode_spec(m@) == s@);
        assert forall|mv: MessageV| wf_message(mv) && #[trigger] encode_spec(mv) == s@ implies m@
            == mv by {
            lemma_encoding_injective(m@, mv);
        }
    }
    Some(m)
}



/// Equal concatenations with an equal head have equal tails.
proof fn lemma_cancel(a: Seq<u8>, b: Seq<u8>, c: Seq<u8>)
    requires
        a + b == a + c,
    ensures
        b == c,
{
    assert(b =~= (a + b).skip(a.len() as int));
    assert(c =~= (a + c).skip(a.len() as int));
}

/// Two tokens free of a terminator byte, each followed by that byte, split
/// an equal concatenation identically.
proof fn lemma_token(x1: Seq<u8>, r1: Seq<u8>, x2: Seq<u8>, r2: Seq<u8>, t: u8)
    requires
        x1 + r1 == x2 + r2,
        forall|i: int| 0 <= i < x1.len() ==> #[trigger] x1[i] != t,
        forall|i: int| 0 <= i < x2.len() ==> #[trigger] x2[i] != t,
        r1.len() > 0,
        r2.len() > 0,
        r1[0] == t,
        r2[0] == t,
    ensures
        x1 == x2,
        r1 == r2,
{
    if x1.len() < x2.len() {
        assert((x1 + r1)[x1.len() as int] == r1[0]);
        assert((x2 + r2)[x1.len() as int] == x2[x1.len() as int]);
    } else if x2.len() < x1.len() {
        assert((x2 + r2)[x2.len() as int] == r2[0]);
        assert((x1 + r1)[x2.len() as int] == x1[x2.len() as int]);
    } else {
        assert(x1 =~= x2) by {
            assert forall|i: int| 0 <= i < x1.len() implies x1[i] == x2[i] by {
                assert((x1 + r1)[i] == x1[i]);
                assert((x2 + r2)[i] == x2[i]);
            }
        }
        lemma_cancel(x1, r1, r2);
    }
}

/// Two digit runs, each followed by a non-digit, split an equal
/// concatenation identically.
proof fn lemma_digits_token(x1: Seq<u8>, r1: Seq<u8>, x2: Seq<u8>, r2: Seq<u8>)
    requires
        x1 + r1 == x2 + r2,
        all_digits(x1),
        all_digits(x2),
        r1.len() > 0,
        r2.len() > 0,
        !is_digit(r1[0]),
        !is_digit(r2[0]),
    ensures
        x1 == x2,
        r1 == r2,
{
    if x1.len() < x2.len() {
        assert((x1 + r1)[x1.len() as int] == r1[0]);
        assert((x2 + r2)[x1.len() as int] == x2[x1.len() as int]);
        assert(is_digit(x2[x1.len() as int]));
    } else if x2.len() < x1.len() {
        assert((x2 + r2)[x2.len() as int] == r2[0]);
        assert((x1 + r1)[x2.len() as int] == x1[x2.len() as int]);
        assert(is_digit(x1[x2.len() as int]));
    } else {
        assert(x1 =~= x2) by {
            assert forall|i: int| 0 <= i < x1.len() implies x1[i] == x2[i] by {
                assert((x1 + r1)[i] == x1[i]);
                assert((x2 + r2)[i] == x2[i]);
            }
        }
        lemma_cancel(x1, r1, r2);
    }
}

/// Canonically rendered numbers followed by non-digits split an equal
/// concatenation identically.
proof fn lemma_num_token(v1: nat, r1: Seq<u8>, v2: nat, r2: Seq<u8>)
    requires
        dec_str(v1) + r1 == dec_str(v2) + r2,
        r1.len() > 0,
        r2.len() > 0,
        !is_digit(r1[0]),
        !is_digit(r2[0]),
    ensures
        v1 == v2,
        r1 == r2,
{
    lemma_dec_str_wf(v1);
    lemma_dec_str_wf(v2);
    lemma_digits_token(dec_str(v1), r1, dec_str(v2), r2);
    lemma_dec_val_of_dec_str(v1);
    lemma_dec_val_of_dec_str(v2);
}

/// Signed renderings followed by non-digits split an equal concatenation
/// identically. The sign byte is no digit, so the two sides agree on it.
proof fn lemma_int_token(v1: int, r1: Seq<u8>, v2: int, r2: Seq<u8>)
    requires
        int_str(v1) + r1 == int_str(v2) + r2,
        r1.len() > 0,
        r2.len() > 0,
        !is_digit(r1[0]),
        !is_digit(r2[0]),
    ensures
        v1 == v2,
        r1 == r2,
{
    lemma_dec_str_wf((-v1) as nat);
    lemma_dec_str_wf((-v2) as nat);
    lemma_dec_str_wf(v1 as nat);
    lemma_dec_str_wf(v2 as nat);
    if v1 < 0 && v2 < 0 {
        assert(int_str(v1) + r1 =~= seq![MINUS_SIGN] + (dec_str((-v1) as nat) + r1));
        assert(int_str(v2) + r2 =~= seq![MINUS_SIGN] + (dec_str((-v2) as nat) + r2));
        lemma_cancel(seq![MINUS_SIGN], dec_str((-v1) as nat) + r1, dec_str((-v2) as nat) + r2);
        lemma_num_token((-v1) as nat, r1, (-v2) as nat, r2);
    } else if v1 >= 0 && v2 >= 0 {
        lemma_num_token(v1 as nat, r1, v2 as nat, r2);
    } else if v1 < 0 {
        assert((int_str(v1) + r1)[0] == MINUS_SIGN);
        assert((int_str(v2) + r2)[0] == dec_str(v2 as nat)[0]);
        assert(is_digit(dec_str(v2 as nat)[0]));
    } else {
        assert((int_str(v2) + r2)[0] == MINUS_SIGN);
        assert((int_str(v1) + r1)[0] == dec_str(v1 as nat)[0]);
        assert(is_digit(dec_str(v1 as nat)[0]));
    }
}

/// Optional quoted strings split an equal concatenation identically: the
/// first byte fixes the branch, the quotes delimit the contents.
proof fn lemma_optstr_token(o1: Option<Seq<u8>>, r1: Seq<u8>, o2: Option<Seq<u8>>, r2: Seq<u8>)
    requires
        opt_str_enc(o1) + r1 == opt_str_enc(o2) + r2,
        o1 matches Some(x) ==> str_ok(x),
        o2 matches Some(x) ==> str_ok(x),
    ensures
        o1 == o2,
        r1 == r2,
{
    match (o1, o2) {
        (None, None) => {
            lemma_cancel(lit_null(), r1, r2);
        },
        (Some(x1), Some(x2)) => {
            assert(opt_str_enc(o1) + r1 =~= seq![QUOTE] + (x1 + (seq![QUOTE] + r1)));
            assert(opt_str_enc(o2) + r2 =~= seq![QUOTE] + (x2 + (seq![QUOTE] + r2)));
            lemma_cancel(seq![QUOTE], x1 + (seq![QUOTE] + r1), x2 + (seq![QUOTE] + r2));
            lemma_token(x1, seq![QUOTE] + r1, x2, seq![QUOTE] + r2, QUOTE);
            lemma_cancel(seq![QUOTE], r1, r2);
        },
        (None, Some(x2)) => {
            assert((opt_str_enc(o1) + r1)[0] == 'n' as u8);
            assert((opt_str_enc(o2) + r2)[0] == QUOTE);
        },
        (Some(x1), None) => {
            assert((opt_str_enc(o2) + r2)[0] == 'n' as u8);
            assert((opt_str_enc(o1) + r1)[0] == QUOTE);
        },
    }
}

/// Optional non-negative numbers followed by non-digits split an equal
/// concatenation identically.
proof fn lemma_optnum_token(o1: Option<int>, r1: Seq<u8>, o2: Option<int>, r2: Seq<u8>)
    requires
        opt_num_enc(o1) + r1 == opt_num_enc(o2) + r2,
        o1 matches Some(n) ==> n >= 0,
        o2 matches Some(n) ==> n >= 0,
        r1.len() > 0,
        r2.len() > 0,
        !is_digit(r1[0]),
        !is_digit(r2[0]),
    ensures
        o1 == o2,
        r1 == r2,
{
    match (o1, o2) {
        (None, None) => {
            lemma_cancel(lit_null(), r1, r2);
        },
        (Some(n1), Some(n2)) => {
            lemma_num_token(n1 as nat, r1, n2 as nat, r2);
        },
        (None, Some(n2)) => {
            lemma_dec_str_wf(n2 as nat);
            assert((opt_num_enc(o1) + r1)[0] == 'n' as u8);
            assert((opt_num_enc(o2) + r2)[0] == dec_str(n2 as nat)[0]);
            assert(is_digit(dec_str(n2 as nat)[0]));
        },
        (Some(n1), None) => {
            lemma_dec_str_wf(n1 as nat);
            assert((opt_num_enc(o2) + r2)[0] == 'n' as u8);
            assert((opt_num_enc(o1) + r1)[0] == dec_str(n1 as nat)[0]);
            assert(is_digit(dec_str(n1 as nat)[0]));
        },
    }
}

/// Optional signed numbers followed by non-digits split an equal
/// concatenation identically.
proof fn lemma_optint_token(o1: Option<int>, r1: Seq<u8>, o2: Option<int>, r2: Seq<u8>)
    requires
        opt_int_enc(o1) + r1 == opt_int_enc(o2) + r2,
        r1.len() > 0,
        r2.len() > 0,
        !is_digit(r1[0]),
        !is_digit(r2[0]),
    ensures
        o1 == o2,
        r1 == r2,
{
    match (o1, o2) {
        (None, None) => {
            lemma_cancel(lit_null(), r1, r2);
        },
        (Some(n1), Some(n2)) => {
            lemma_int_token(n1, r1, n2, r2);
        },
        (None, Some(n2)) => {
            lemma_dec_str_wf(n2 as nat);
            assert((opt_int_enc(o1) + r1)[0] == 'n' as u8);
            if n2 < 0 {
                assert((opt_int_enc(o2) + r2)[0] == MINUS_SIGN);
            } else {
                assert((opt_int_enc(o2) + r2)[0] == dec_str(n2 as nat)[0]);
                assert(is_digit(dec_str(n2 as nat)[0]));
            }
        },
        (Some(n1), None) => {
            lemma_dec_str_wf(n1 as nat);
            assert((opt_int_enc(o2) + r2)[0] == 'n' as u8);
            if n1 < 0 {
                assert((opt_int_enc(o1) + r1)[0] == MINUS_SIGN);
            } else {
                assert((opt_int_enc(o1) + r1)[0] == dec_str(n1 as nat)[0]);
                assert(is_digit(dec_str(n1 as nat)[0]));
            }
        },
    }
}

/// No action tag holds a quote.
proof fn lemma_action_no_quote(a: Action)
    ensures
        forall|i: int| 0 <= i < action_str(a).len() ==> #[trigger] action_str(a)[i] != QUOTE,
{
    match a {
        Action::NewOrder => {
            assert forall|i: int| 0 <= i < action_str(a).len() implies #[trigger] action_str(a)[i]
                != QUOTE by {}
        },
        Action::TakeSell => {
            assert forall|i: int| 0 <= i < action_str(a).len() implies #[trigger] action_str(a)[i]
                != QUOTE by {}
        },
        Action::TakeBuy => {
            assert forall|i: int| 0 <= i < action_str(a).len() implies #[trigger] action_str(a)[i]
                != QUOTE by {}
        },
        Action::AddInvoice => {
            assert forall|i: int| 0 <= i < action_str(a).len() implies #[trigger] action_str(a)[i]
                != QUOTE by {}
        },
        Action::FiatSent => {
            assert forall|i: int| 0 <= i < action_str(a).len() implies #[trigger] action_str(a)[i]
                != QUOTE by {}
        },
        Action::Release => {
            assert forall|i: int| 0 <= i < action_str(a).len() implies #[trigger] action_str(a)[i]
                != QUOTE by {}
        },
        Action::Cancel => {
            assert forall|i: int| 0 <= i < action_str(a).len() implies #[trigger] action_str(a)[i]
                != QUOTE by {}
        },
        Action::RateUser => {
            assert forall|i: int| 0 <= i < action_str(a).len() implies #[trigger] action_str(a)[i]
                != QUOTE by {}
        },
        Action::Dispute => {
            assert forall|i: int| 0 <= i < action_str(a).len() implies #[trigger] action_str(a)[i]
                != QUOTE by {}
        },
        Action::AdminCancel => {
            assert forall|i: int| 0 <= i < action_str(a).len() implies #[trigger] action_str(a)[i]
                != QUOTE by {}
        },
        Action::AdminSettle => {
            assert forall|i: int| 0 <= i < action_str(a).len() implies #[trigger] action_str(a)[i]
                != QUOTE by {}
        },
        Action::AdminAddSolver => {
            assert forall|i: int| 0 <= i < action_str(a).len() implies #[trigger] action_str(a)[i]
                != QUOTE by {}
        },
        Action::AdminTakeDispute => {
            assert forall|i: int| 0 <= i < action_str(a).len() implies #[trigger] action_str(a)[i]
                != QUOTE by {}
        },
        Action::PayInvoice => {
            assert forall|i: int| 0 <= i < action_str(a).len() implies #[trigger] action_str(a)[i]
                != QUOTE by {}
        },
        Action::WaitingSellerToPay => {
            assert forall|i: int| 0 <= i < action_str(a).len() implies #[trigger] action_str(a)[i]
                != QUOTE by {}
        },
        Action::WaitingBuyerInvoice => {
            assert forall|i: int| 0 <= i < action_str(a).len() implies #[trigger] action_str(a)[i]
                != QUOTE by {}
        },
        Action::BuyerInvoiceAccepted => {
            assert forall|i: int| 0 <= i < action_str(a).len() implies #[trigger] action_str(a)[i]
                != QUOTE by {}
        },
        Action::BuyerTookOrder => {
            assert forall|i: int| 0 <= i < action_str(a).len() implies #[trigger] action_str(a)[i]
                != QUOTE by {}
        },
        Action::FiatSentOk => {
            assert forall|i: int| 0 <= i < action_str(a).len() implies #[trigger] action_str(a)[i]
                != QUOTE by {}
        },
        Action::Released => {
            assert forall|i: int| 0 <= i < action_str(a).len() implies #[trigger] action_str(a)[i]
                != QUOTE by {}
        },
        Action::Canceled => {
            assert forall|i: int| 0 <= i < action_str(a).len() implies #[trigger] action_str(a)[i]
                != QUOTE by {}
        },
        Action::AdminCanceled => {
            assert forall|i: int| 0 <= i < action_str(a).len() implies #[trigger] action_str(a)[i]
                != QUOTE by {}
        },
        Action::AdminSettled => {
            assert forall|i: int| 0 <= i < action_str(a).len() implies #[trigger] action_str(a)[i]
                != QUOTE by {}
        },
        Action::AdminTookDispute => {
            assert forall|i: int| 0 <= i < action_str(a).len() implies #[trigger] action_str(a)[i]
                != QUOTE by {}
        },
        Action::RateReceived => {
            assert forall|i: int| 0 <= i < action_str(a).len() implies #[trigger] action_str(a)[i]
                != QUOTE by {}
        },
        Action::CantDo => {
            assert forall|i: int| 0 <= i < action_str(a).len() implies #[trigger] action_str(a)[i]
                != QUOTE by {}
        },
        Action::DisputeInitiatedByYou => {
            assert forall|i: int| 0 <= i < action_str(a).len() implies #[trigger] action_str(a)[i]
                != QUOTE by {}
        },
    }
}

/// Distinct actions carry distinct tags.
proof fn lemma_action_str_injective(a1: Action, a2: Action)
    requires
        action_str(a1) == action_str(a2),
    ensures
        a1 == a2,
{
    assert(action_str(Action::NewOrder).len() == 9);
    assert(action_str(Action::TakeSell).len() == 9);
    assert(action_str(Action::TakeBuy).len() == 8);
    assert(action_str(Action::AddInvoice).len() == 11);
    assert(action_str(Action::FiatSent).len() == 9);
    assert(action_str(Action::Release).len() == 7);
    assert(action_str(Action::Cancel).len() == 6);
    assert(action_str(Action::RateUser).len() == 9);
    assert(action_str(Action::Dispute).len() == 7);
    assert(action_str(Action::AdminCancel).len() == 12);
    assert(action_str(Action::AdminSettle).len() == 12);
    assert(action_str(Action::AdminAddSolver).len() == 16);
    assert(action_str(Action::AdminTakeDispute).len() == 18);
    assert(action_str(Action::PayInvoice).len() == 11);
    assert(action_str(Action::WaitingSellerToPay).len() == 21);
    assert(action_str(Action::WaitingBuyerInvoice).len() == 21);
    assert(action_str(Action::BuyerInvoiceAccepted).len() == 22);
    assert(action_str(Action::BuyerTookOrder).len() == 16);
    assert(action_str(Action::FiatSentOk).len() == 12);
    assert(action_str(Action::Released).len() == 8);
    assert(action_str(Action::Canceled).len() == 8);
    assert(action_str(Action::AdminCanceled).len() == 14);
    assert(action_str(Action::AdminSettled).len() == 13);
    assert(action_str(Action::AdminTookDispute).len() == 18);
    assert(action_str(Action::RateReceived).len() == 13);
    assert(action_str(Action::CantDo).len() == 7);
    assert(action_str(Action::DisputeInitiatedByYou).len() == 24);
    assert(action_str(Action::NewOrder)[0] == 'n' as u8);
    assert(action_str(Action::TakeSell)[0] == 't' as u8);
    assert(action_str(Action::TakeBuy)[0] == 't' as u8);
    assert(action_str(Action::AddInvoice)[0] == 'a' as u8);
    assert(action_str(Action::FiatSent)[0] == 'f' as u8);
    assert(action_str(Action::Release)[0] == 'r' as u8);
    assert(action_str(Action::Cancel)[0] == 'c' as u8);
    assert(action_str(Action::RateUser)[0] == 'r' as u8);
    assert(action_str(Action::Dispute)[0] == 'd' as u8);
    assert(action_str(Action::AdminCancel)[0] == 'a' as u8);
    assert(action_str(Action::AdminSettle)[0] == 'a' as u8);
    assert(action_str(Action::AdminAddSolver)[0] == 'a' as u8);
    assert(action_str(Action::AdminTakeDispute)[0] == 'a' as u8);
    assert(action_str(Action::PayInvoice)[0] == 'p' as u8);
    assert(action_str(Action::WaitingSellerToPay)[0] == 'w' as u8);
    assert(action_str(Action::WaitingBuyerInvoice)[0] == 'w' as u8);
    assert(action_str(Action::BuyerInvoiceAccepted)[0] == 'b' as u8);
    assert(action_str(Action::BuyerTookOrder)[0] == 'b' as u8);
    assert(action_str(Action::FiatSentOk)[0] == 'f' as u8);
    assert(action_str(Action::Released)[0] == 'r' as u8);
    assert(action_str(Action::Canceled)[0] == 'c' as u8);
    assert(action_str(Action::AdminCanceled)[0] == 'a' as u8);
    assert(action_str(Action::AdminSettled)[0] == 'a' as u8);
    assert(action_str(Action::AdminTookDispute)[0] == 'a' as u8);
    assert(action_str(Action::RateReceived)[0] == 'r' as u8);
    assert(action_str(Action::CantDo)[0] == 'c' as u8);
    assert(action_str(Action::DisputeInitiatedByYou)[0] == 'd' as u8);
    assert(action_str(Action::AdminCancel)[6] == 'c' as u8);
    assert(action_str(Action::AdminSettle)[6] == 's' as u8);
    assert(action_str(Action::AdminTakeDispute)[7] == 'a' as u8);
    assert(action_str(Action::AdminTookDispute)[7] == 'o' as u8);
    assert(action_str(Action::WaitingSellerToPay)[8] == 's' as u8);
    assert(action_str(Action::WaitingBuyerInvoice)[8] == 'b' as u8);
}


/// No family tag holds a quote.
proof fn lemma_kind_no_quote(k: MessageKind)
    ensures
        forall|i: int| 0 <= i < kind_str(k).len() ==> #[trigger] kind_str(k)[i] != QUOTE,
{
    match k {
        MessageKind::Order => {
            assert forall|i: int| 0 <= i < kind_str(k).len() implies #[trigger] kind_str(k)[i]
                != QUOTE by {}
        },
        MessageKind::Dispute => {
            assert forall|i: int| 0 <= i < kind_str(k).len() implies #[trigger] kind_str(k)[i]
                != QUOTE by {}
        },
    }
}

/// Family tags followed by quotes split an equal concatenation identically.
proof fn lemma_kind_token(k1: MessageKind, r1: Seq<u8>, k2: MessageKind, r2: Seq<u8>)
    requires
        kind_str(k1) + r1 == kind_str(k2) + r2,
        r1.len() > 0,
        r2.len() > 0,
        r1[0] == QUOTE,
        r2[0] == QUOTE,
    ensures
        k1 == k2,
        r1 == r2,
{
    lemma_kind_no_quote(k1);
    lemma_kind_no_quote(k2);
    lemma_token(kind_str(k1), r1, kind_str(k2), r2, QUOTE);
    assert(kind_str(MessageKind::Order).len() == 5);
    assert(kind_str(MessageKind::Dispute).len() == 7);
}

/// No side tag holds a quote.
proof fn lemma_side_no_quote(s: OrderSide)
    ensures
        forall|i: int| 0 <= i < side_str(s).len() ==> #[trigger] side_str(s)[i] != QUOTE,
{
    match s {
        OrderSide::Buy => {
            assert forall|i: int| 0 <= i < side_str(s).len() implies #[trigger] side_str(s)[i]
                != QUOTE by {}
        },
        OrderSide::Sell => {
            assert forall|i: int| 0 <= i < side_str(s).len() implies #[trigger] side_str(s)[i]
                != QUOTE by {}
        },
    }
}

/// Side tags followed by quotes split an equal concatenation identically.
proof fn lemma_side_token(s1: OrderSide, r1: Seq<u8>, s2: OrderSide, r2: Seq<u8>)
    requires
        side_str(s1) + r1 == side_str(s2) + r2,
        r1.len() > 0,
        r2.len() > 0,
        r1[0] == QUOTE,
        r2[0] == QUOTE,
    ensures
        s1 == s2,
        r1 == r2,
{
    lemma_side_no_quote(s1);
    lemma_side_no_quote(s2);
    lemma_token(side_str(s1), r1, side_str(s2), r2, QUOTE);
    assert(side_str(OrderSide::Buy).len() == 3);
    assert(side_str(OrderSide::Sell).len() == 4);
}

/// Action tags followed by quotes split an equal concatenation identically.
proof fn lemma_action_token(a1: Action, r1: Seq<u8>, a2: Action, r2: Seq<u8>)
    requires
        action_str(a1) + r1 == action_str(a2) + r2,
        r1.len() > 0,
        r2.len() > 0,
        r1[0] == QUOTE,
        r2[0] == QUOTE,
    ensures
        a1 == a2,
        r1 == r2,
{
    lemma_action_no_quote(a1);
    lemma_action_no_quote(a2);
    lemma_token(action_str(a1), r1, action_str(a2), r2, QUOTE);
    lemma_action_str_injective(a1, a2);
}

/// Concatenation of byte strings associates.
proof fn lemma_assoc(a: Seq<u8>, b: Seq<u8>, c: Seq<u8>)
    ensures
        (a + b) + c == a + (b + c),
{
    assert((a + b) + c =~= a + (b + c));
}

/// Encoded order payloads split an equal concatenation identically.
#[verifier::rlimit(100)]
proof fn lemma_order_token(o1: OrderPayloadV, r1: Seq<u8>, o2: OrderPayloadV, r2: Seq<u8>)
    requires
        wf_order(o1),
        wf_order(o2),
        order_enc(o1) + r1 == order_enc(o2) + r2,
    ensures
        o1 == o2,
        r1 == r2,
{
    let c1a = lit_close_obj2() + r1;
    let c1b = int_str(o1.premium) + c1a;
    let c1c = lit_o_premium() + c1b;
    let c1d = o1.payment_method + c1c;
    let c1e = lit_o_payment_method() + c1d;
    let c1f = opt_int_enc(o1.max_amount) + c1e;
    let c1g = lit_o_max_amount() + c1f;
    let c1h = int_str(o1.min_amount) + c1g;
    let c1i = lit_o_min_amount() + c1h;
    let c1j = o1.fiat_code + c1i;
    let c1k = lit_o_fiat_code() + c1j;
    let c1l = int_str(o1.amount) + c1k;
    let c1m = lit_o_amount() + c1l;
    let c1n = side_str(o1.side) + c1m;
    let l1_2 = lit_order() + side_str(o1.side);
    let l1_3 = l1_2 + lit_o_amount();
    let l1_4 = l1_3 + int_str(o1.amount);
    let l1_5 = l1_4 + lit_o_fiat_code();
    let l1_6 = l1_5 + o1.fiat_code;
    let l1_7 = l1_6 + lit_o_min_amount();
    let l1_8 = l1_7 + int_str(o1.min_amount);
    let l1_9 = l1_8 + lit_o_max_amount();
    let l1_10 = l1_9 + opt_int_enc(o1.max_amount);
    let l1_11 = l1_10 + lit_o_payment_method();
    let l1_12 = l1_11 + o1.payment_method;
    let l1_13 = l1_12 + lit_o_premium();
    let l1_14 = l1_13 + int_str(o1.premium);
    assert(order_enc(o1) == l1_14 + lit_close_obj2());
    lemma_assoc(l1_14, lit_close_obj2(), r1);
    lemma_assoc(l1_13, int_str(o1.premium), c1a);
    lemma_assoc(l1_12, lit_o_premium(), c1b);
    lemma_assoc(l1_11, o1.payment_method, c1c);
    lemma_assoc(l1_10, lit_o_payment_method(), c1d);
    lemma_assoc(l1_9, opt_int_enc(o1.max_amount), c1e);
    lemma_assoc(l1_8, lit_o_max_amount(), c1f);
    lemma_assoc(l1_7, int_str(o1.min_amount), c1g);
    lemma_assoc(l1_6, lit_o_min_amount(), c1h);
    lemma_assoc(l1_5, o1.fiat_code, c1i);
    lemma_assoc(l1_4, lit_o_fiat_code(), c1j);
    lemma_assoc(l1_3, int_str(o1.amount), c1k);
    lemma_assoc(l1_2, lit_o_amount(), c1l);
    lemma_assoc(lit_order(), side_str(o1.side), c1m);
    assert(order_enc(o1) + r1 == lit_order() + c1n);
    let c2a = lit_close_obj2() + r2;
    let c2b = int_str(o2.premium) + c2a;
    let c2c = lit_o_premium() + c2b;
    let c2d = o2.payment_method + c2c;
    let c2e = lit_o_payment_method() + c2d;
    let c2f = opt_int_enc(o2.max_amount) + c2e;
    let c2g = lit_o_max_amount() + c2f;
    let c2h = int_str(o2.min_amount) + c2g;
    let c2i = lit_o_min_amount() + c2h;
    let c2j = o2.fiat_code + c2i;
    let c2k = lit_o_fiat_code() + c2j;
    let c2l = int_str(o2.amount) + c2k;
    let c2m = lit_o_amount() + c2l;
    let c2n = side_str(o2.side) + c2m;
    let l2_2 = lit_order() + side_str(o2.side);
    let l2_3 = l2_2 + lit_o_amount();
    let l2_4 = l2_3 + int_str(o2.amount);
    let l2_5 = l2_4 + lit_o_fiat_code();
    let l2_6 = l2_5 + o2.fiat_code;
    let l2_7 = l2_6 + lit_o_min_amount();
    let l2_8 = l2_7 + int_str(o2.min_amount);
    let l2_9 = l2_8 + lit_o_max_amount();
    let l2_10 = l2_9 + opt_int_enc(o2.max_amount);
    let l2_11 = l2_10 + lit_o_payment_method();
    let l2_12 = l2_11 + o2.payment_method;
    let l2_13 = l2_12 + lit_o_premium();
    let l2_14 = l2_13 + int_str(o2.premium);
    assert(order_enc(o2) == l2_14 + lit_close_obj2());
    lemma_assoc(l2_14, lit_close_obj2(), r2);
    lemma_assoc(l2_13, int_str(o2.premium), c2a);
    lemma_assoc(l2_12, lit_o_premium(), c2b);
    lemma_assoc(l2_11, o2.payment_method, c2c);
    lemma_assoc(l2_10, lit_o_payment_method(), c2d);
    lemma_assoc(l2_9, opt_int_enc(o2.max_amount), c2e);
    lemma_assoc(l2_8, lit_o_max_amount(), c2f);
    lemma_assoc(l2_7, int_str(o2.min_amount), c2g);
    lemma_assoc(l2_6, lit_o_min_amount(), c2h);
    lemma_assoc(l2_5, o2.fiat_code, c2i);
    lemma_assoc(l2_4, lit_o_fiat_code(), c2j);
    lemma_assoc(l2_3, int_str(o2.amount), c2k);
    lemma_assoc(l2_2, lit_o_amount(), c2l);
    lemma_assoc(lit_order(), side_str(o2.side), c2m);
    assert(order_enc(o2) + r2 == lit_order() + c2n);
    lemma_cancel(lit_order(), c1n, c2n);
    assert(c1m[0] == QUOTE && c2m[0] == QUOTE);
    lemma_side_token(o1.side, c1m, o2.side, c2m);
    lemma_cancel(lit_o_amount(), c1l, c2l);
    assert(c1k[0] == ',' as u8 && c2k[0] == ',' as u8);
    lemma_int_token(o1.amount, c1k, o2.amount, c2k);
    lemma_cancel(lit_o_fiat_code(), c1j, c2j);
    assert(c1i[0] == QUOTE && c2i[0] == QUOTE);
    lemma_token(o1.fiat_code, c1i, o2.fiat_code, c2i, QUOTE);
    lemma_cancel(lit_o_min_amount(), c1h, c2h);
    assert(c1g[0] == ',' as u8 && c2g[0] == ',' as u8);
    lemma_int_token(o1.min_amount, c1g, o2.min_amount, c2g);
    lemma_cancel(lit_o_max_amount(), c1f, c2f);
    assert(c1e[0] == ',' as u8 && c2e[0] == ',' as u8);
    lemma_optint_token(o1.max_amount, c1e, o2.max_amount, c2e);
    lemma_cancel(lit_o_payment_method(), c1d, c2d);
    assert(c1c[0] == QUOTE && c2c[0] == QUOTE);
    lemma_token(o1.payment_method, c1c, o2.payment_method, c2c, QUOTE);
    lemma_cancel(lit_o_premium(), c1b, c2b);
    assert(c1a[0] == '}' as u8 && c2a[0] == '}' as u8);
    lemma_int_token(o1.premium, c1a, o2.premium, c2a);
    lemma_cancel(lit_close_obj2(), r1, r2);
    assert(o1 =~= o2);
}

/// A braced number payload splits identically.
proof fn lemma_braced_num_token(
    head: Seq<u8>,
    n1: int,
    r1: Seq<u8>,
    n2: int,
    r2: Seq<u8>,
)
    requires
        head + int_str(n1) + lit_close() + r1 == head + int_str(n2) + lit_close() + r2,
    ensures
        n1 == n2,
        r1 == r2,
{
    let t1 = int_str(n1) + (lit_close() + r1);
    lemma_assoc(head + int_str(n1), lit_close(), r1);
    lemma_assoc(head, int_str(n1), lit_close() + r1);
    assert(head + int_str(n1) + lit_close() + r1 == head + t1);
    let t2 = int_str(n2) + (lit_close() + r2);
    lemma_assoc(head + int_str(n2), lit_close(), r2);
    lemma_assoc(head, int_str(n2), lit_close() + r2);
    assert(head + int_str(n2) + lit_close() + r2 == head + t2);
    lemma_cancel(head, t1, t2);
    assert((lit_close() + r1)[0] == '}' as u8 && (lit_close() + r2)[0] == '}' as u8);
    lemma_int_token(n1, lit_close() + r1, n2, lit_close() + r2);
    lemma_cancel(lit_close(), r1, r2);
}

/// A payment-request payload splits identically.
#[verifier::rlimit(100)]
proof fn lemma_pr_token(
    l1: Option<Seq<u8>>,
    p1: Seq<u8>,
    a1: Option<int>,
    r1: Seq<u8>,
    l2: Option<Seq<u8>>,
    p2: Seq<u8>,
    a2: Option<int>,
    r2: Seq<u8>,
)
    requires
        wf_content(ContentV::PaymentRequest(l1, p1, a1)),
        wf_content(ContentV::PaymentRequest(l2, p2, a2)),
        content_enc(ContentV::PaymentRequest(l1, p1, a1)) + r1 == content_enc(
            ContentV::PaymentRequest(l2, p2, a2),
        ) + r2,
    ensures
        l1 == l2,
        p1 == p2,
        a1 == a2,
        r1 == r2,
{
    let u1a = lit_pr_end() + r1;
    let u1b = opt_num_enc(a1) + u1a;
    let u1c = lit_pr_after() + u1b;
    let u1d = p1 + u1c;
    let u1e = lit_pr_mid() + u1d;
    let u1f = opt_str_enc(l1) + u1e;
    let k1_2 = lit_payment_request() + opt_str_enc(l1);
    let k1_3 = k1_2 + lit_pr_mid();
    let k1_4 = k1_3 + p1;
    let k1_5 = k1_4 + lit_pr_after();
    let k1_6 = k1_5 + opt_num_enc(a1);
    assert(content_enc(ContentV::PaymentRequest(l1, p1, a1)) == k1_6 + lit_pr_end());
    lemma_assoc(k1_6, lit_pr_end(), r1);
    lemma_assoc(k1_5, opt_num_enc(a1), u1a);
    lemma_assoc(k1_4, lit_pr_after(), u1b);
    lemma_assoc(k1_3, p1, u1c);
    lemma_assoc(k1_2, lit_pr_mid(), u1d);
    lemma_assoc(lit_payment_request(), opt_str_enc(l1), u1e);
    assert(content_enc(ContentV::PaymentRequest(l1, p1, a1)) + r1 == lit_payment_request() + u1f);
    let u2a = lit_pr_end() + r2;
    let u2b = opt_num_enc(a2) + u2a;
    let u2c = lit_pr_after() + u2b;
    let u2d = p2 + u2c;
    let u2e = lit_pr_mid() + u2d;
    let u2f = opt_str_enc(l2) + u2e;
    let k2_2 = lit_payment_request() + opt_str_enc(l2);
    let k2_3 = k2_2 + lit_pr_mid();
    let k2_4 = k2_3 + p2;
    let k2_5 = k2_4 + lit_pr_after();
    let k2_6 = k2_5 + opt_num_enc(a2);
    assert(content_enc(ContentV::PaymentRequest(l2, p2, a2)) == k2_6 + lit_pr_end());
    lemma_assoc(k2_6, lit_pr_end(), r2);
    lemma_assoc(k2_5, opt_num_enc(a2), u2a);
    lemma_assoc(k2_4, lit_pr_after(), u2b);
    lemma_assoc(k2_3, p2, u2c);
    lemma_assoc(k2_2, lit_pr_mid(), u2d);
    lemma_assoc(lit_payment_request(), opt_str_enc(l2), u2e);
    assert(content_enc(ContentV::PaymentRequest(l2, p2, a2)) + r2 == lit_payment_request() + u2f);
    lemma_cancel(lit_payment_request(), u1f, u2f);
    lemma_optstr_token(l1, u1e, l2, u2e);
    lemma_cancel(lit_pr_mid(), u1d, u2d);
    assert(u1c[0] == QUOTE && u2c[0] == QUOTE);
    lemma_token(p1, u1c, p2, u2c, QUOTE);
    lemma_cancel(lit_pr_after(), u1b, u2b);
    assert(u1a[0] == ']' as u8 && u2a[0] == ']' as u8);
    lemma_optnum_token(a1, u1a, a2, u2a);
    lemma_cancel(lit_pr_end(), r1, r2);
}

/// A text payload splits identically.
proof fn lemma_text_token(x1: Seq<u8>, r1: Seq<u8>, x2: Seq<u8>, r2: Seq<u8>)
    requires
        str_ok(x1),
        str_ok(x2),
        lit_text_message() + x1 + lit_quote_close_obj() + r1 == lit_text_message() + x2
            + lit_quote_close_obj() + r2,
    ensures
        x1 == x2,
        r1 == r2,
{
    let t1 = x1 + (lit_quote_close_obj() + r1);
    lemma_assoc(lit_text_message() + x1, lit_quote_close_obj(), r1);
    lemma_assoc(lit_text_message(), x1, lit_quote_close_obj() + r1);
    let t2 = x2 + (lit_quote_close_obj() + r2);
    lemma_assoc(lit_text_message() + x2, lit_quote_close_obj(), r2);
    lemma_assoc(lit_text_message(), x2, lit_quote_close_obj() + r2);
    lemma_cancel(lit_text_message(), t1, t2);
    assert((lit_quote_close_obj() + r1)[0] == QUOTE);
    assert((lit_quote_close_obj() + r2)[0] == QUOTE);
    lemma_token(x1, lit_quote_close_obj() + r1, x2, lit_quote_close_obj() + r2, QUOTE);
    lemma_cancel(lit_quote_close_obj(), r1, r2);
}

/// Encoded payloads split an equal concatenation identically: the third
/// byte names the payload kind, and each kind delimits its own fields.
#[verifier::rlimit(100)]
proof fn lemma_content_token(c1: ContentV, r1: Seq<u8>, c2: ContentV, r2: Seq<u8>)
    requires
        wf_content(c1),
        wf_content(c2),
        content_enc(c1) + r1 == content_enc(c2) + r2,
    ensures
        c1 == c2,
        r1 == r2,
{
    match (c1, c2) {
        (ContentV::Amount(n1), ContentV::Amount(n2)) => {
            lemma_braced_num_token(lit_amount(), n1, r1, n2, r2);
        },
        (ContentV::RatingUser(n1), ContentV::RatingUser(n2)) => {
            lemma_braced_num_token(lit_rating_user(), n1, r1, n2, r2);
        },
        (ContentV::TextMessage(x1), ContentV::TextMessage(x2)) => {
            lemma_text_token(x1, r1, x2, r2);
        },
        (ContentV::PaymentRequest(l1, p1, a1), ContentV::PaymentRequest(l2, p2, a2)) => {
            lemma_pr_token(l1, p1, a1, r1, l2, p2, a2, r2);
            assert(c1 =~= c2);
        },
        (ContentV::Order(o1), ContentV::Order(o2)) => {
            lemma_order_token(o1, r1, o2, r2);
        },
        _ => {
            // Different payload kinds: the byte after the opening brace and
            // quote differs.
            let h1 = (content_enc(c1) + r1)[2];
            let h2 = (content_enc(c2) + r2)[2];
            match c1 {
                ContentV::Amount(_) => {
                    assert(h1 == 'a' as u8);
                },
                ContentV::PaymentRequest(_, _, _) => {
                    assert(h1 == 'p' as u8);
                },
                ContentV::RatingUser(_) => {
                    assert(h1 == 'r' as u8);
                },
                ContentV::TextMessage(_) => {
                    assert(h1 == 't' as u8);
                },
                ContentV::Order(_) => {
                    assert(h1 == 'o' as u8);
                },
            }
            match c2 {
                ContentV::Amount(_) => {
                    assert(h2 == 'a' as u8);
                },
                ContentV::PaymentRequest(_, _, _) => {
                    assert(h2 == 'p' as u8);
                },
                ContentV::RatingUser(_) => {
                    assert(h2 == 'r' as u8);
                },
                ContentV::TextMessage(_) => {
                    assert(h2 == 't' as u8);
                },
                ContentV::Order(_) => {
                    assert(h2 == 'o' as u8);
                },
            }
            assert(h1 == h2);
            assert(false);
        },
    }
}

/// Every encoded payload opens with a brace.
proof fn lemma_content_head(c: ContentV)
    ensures
        content_enc(c).len() > 0,
        content_enc(c)[0] == '{' as u8,
{
    match c {
        ContentV::Amount(_) => {},
        ContentV::PaymentRequest(_, _, _) => {},
        ContentV::RatingUser(_) => {},
        ContentV::TextMessage(_) => {},
        ContentV::Order(_) => {},
    }
}

/// One canonical encoding, one message: two well-formed messages with the
/// same canonical encoding are the same message, so decoding the encoding
/// of a message can reproduce no other.
#[verifier::rlimit(100)]
pub proof fn lemma_encoding_injective(m1: MessageV, m2: MessageV)
    requires
        wf_message(m1),
        wf_message(m2),
        encode_spec(m1) == encode_spec(m2),
    ensures
        m1 == m2,
{
    let c1a = opt_content_enc(m1.content) + lit_close();
    let c1b = lit_content() + c1a;
    let c1c = action_str(m1.action) + c1b;
    let c1d = lit_action() + c1c;
    let c1e = opt_str_enc(m1.sender) + c1d;
    let c1f = lit_sender() + c1e;
    let c1g = opt_str_enc(m1.id) + c1f;
    let c1h = lit_id() + c1g;
    let c1i = kind_str(m1.kind) + c1h;
    let e1_2 = lit_open() + kind_str(m1.kind);
    let e1_3 = e1_2 + lit_id();
    let e1_4 = e1_3 + opt_str_enc(m1.id);
    let e1_5 = e1_4 + lit_sender();
    let e1_6 = e1_5 + opt_str_enc(m1.sender);
    let e1_7 = e1_6 + lit_action();
    let e1_8 = e1_7 + action_str(m1.action);
    let e1_9 = e1_8 + lit_content();
    let e1_10 = e1_9 + opt_content_enc(m1.content);
    assert(encode_spec(m1) == e1_10 + lit_close());
    lemma_assoc(e1_9, opt_content_enc(m1.content), lit_close());
    lemma_assoc(e1_8, lit_content(), c1a);
    lemma_assoc(e1_7, action_str(m1.action), c1b);
    lemma_assoc(e1_6, lit_action(), c1c);
    lemma_assoc(e1_5, opt_str_enc(m1.sender), c1d);
    lemma_assoc(e1_4, lit_sender(), c1e);
    lemma_assoc(e1_3, opt_str_enc(m1.id), c1f);
    lemma_assoc(e1_2, lit_id(), c1g);
    lemma_assoc(lit_open(), kind_str(m1.kind), c1h);
    assert(encode_spec(m1) == lit_open() + c1i);
    let c2a = opt_content_enc(m2.content) + lit_close();
    let c2b = lit_content() + c2a;
    let c2c = action_str(m2.action) + c2b;
    let c2d = lit_action() + c2c;
    let c2e = opt_str_enc(m2.sender) + c2d;
    let c2f = lit_sender() + c2e;
    let c2g = opt_str_enc(m2.id) + c2f;
    let c2h = lit_id() + c2g;
    let c2i = kind_str(m2.kind) + c2h;
    let e2_2 = lit_open() + kind_str(m2.kind);
    let e2_3 = e2_2 + lit_id();
    let e2_4 = e2_3 + opt_str_enc(m2.id);
    let e2_5 = e2_4 + lit_sender();
    let e2_6 = e2_5 + opt_str_enc(m2.sender);
    let e2_7 = e2_6 + lit_action();
    let e2_8 = e2_7 + action_str(m2.action);
    let e2_9 = e2_8 + lit_content();
    let e2_10 = e2_9 + opt_content_enc(m2.content);
    assert(encode_spec(m2) == e2_10 + lit_close());
    lemma_assoc(e2_9, opt_content_enc(m2.content), lit_close());
    lemma_assoc(e2_8, lit_content(), c2a);
    lemma_assoc(e2_7, action_str(m2.action), c2b);
    lemma_assoc(e2_6, lit_action(), c2c);
    lemma_assoc(e2_5, opt_str_enc(m2.sender), c2d);
    lemma_assoc(e2_4, lit_sender(), c2e);
    lemma_assoc(e2_3, opt_str_enc(m2.id), c2f);
    lemma_assoc(e2_2, lit_id(), c2g);
    lemma_assoc(lit_open(), kind_str(m2.kind), c2h);
    assert(encode_spec(m2) == lit_open() + c2i);
    lemma_cancel(lit_open(), c1i, c2i);
    assert(c1h[0] == QUOTE && c2h[0] == QUOTE);
    lemma_kind_token(m1.kind, c1h, m2.kind, c2h);
    lemma_cancel(lit_id(), c1g, c2g);
    lemma_optstr_token(m1.id, c1f, m2.id, c2f);
    lemma_cancel(lit_sender(), c1e, c2e);
    lemma_optstr_token(m1.sender, c1d, m2.sender, c2d);
    lemma_cancel(lit_action(), c1c, c2c);
    assert(c1b[0] == QUOTE && c2b[0] == QUOTE);
    lemma_action_token(m1.action, c1b, m2.action, c2b);
    lemma_cancel(lit_content(), c1a, c2a);
    match (m1.content, m2.content) {
        (None, None) => {},
        (Some(x1), Some(x2)) => {
            lemma_content_token(x1, lit_close(), x2, lit_close());
        },
        (None, Some(x2)) => {
            lemma_content_head(x2);
            assert(c1a[0] == 'n' as u8);
            assert(c2a[0] == '{' as u8);
        },
        (Some(x1), None) => {
            lemma_content_head(x1);
            assert(c2a[0] == 'n' as u8);
            assert(c1a[0] == '{' as u8);
        },
    }
    assert(m1 =~= m2);
}

} // verus!
