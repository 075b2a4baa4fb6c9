//! Payment instrument resolver: classifies a user-supplied payment string as
//! a reusable static address or a single-use invoice, validates it, and
//! builds the message payload.

use vstd::prelude::*;
use crate::message::{Content, ContentV};
use lightning_invoice::{Bolt11Invoice, Bolt11ParseError, Currency, ParseOrSemanticError};

verus! {

/// Classification of an invoice string by the decoder.
#[derive(Clone, Copy, Debug, PartialEq, Eq, Structural)]
pub enum InvoiceDecode {
    /// Structurally valid: creation time, expiry window, and whether the
    /// invoice is for the main network.
    Parsed { timestamp_secs: u64, expiry_secs: u64, mainnet: bool },
    /// The string failed bech32-level validation (checksum or character
    /// set).
    BadChecksum,
    /// Any other malformed input.
    Malformed,
}

/// Why a supplied instrument was rejected.
#[derive(Clone, Copy, Debug, PartialEq, Eq, Structural)]
pub enum InstrumentError {
    BadChecksum,
    Malformed,
    WrongNetwork,
    Expired,
}

/// What the static-address validator answers on the given bytes.
pub uninterp spec fn addr_ok(s: Seq<u8>) -> bool;

/// What the invoice decoder answers on the given bytes.
pub uninterp spec fn invoice_decode_of(s: Seq<u8>) -> InvoiceDecode;

/// Relies on lnurl's `LightningAddress::from_str`: syntactic validation of a
/// `user@domain` static address, with no network contact. Bytes that are not
/// UTF-8 are no address.
#[verifier::external_body]
fn check_lightning_address(s: &[u8]) -> (r: bool)
    ensures
        r == addr_ok(s@),
{
    match core::str::from_utf8(s) {
        Ok(t) => t.parse::<lnurl::lightning_address::LightningAddress>().is_ok(),
        Err(_) => false,
    }
}

/// Relies on lightning-invoice's `Bolt11Invoice` parser: bech32 checksum,
/// invoice structure and signature; the creation time, expiry window and
/// currency are read off the parsed invoice.
#[verifier::external_body]
fn decode_bolt11(s: &[u8]) -> (r: InvoiceDecode)
    ensures
        r == invoice_decode_of(s@),
{
    let t = match core::str::from_utf8(s) {
        Ok(t) => t,
        Err(_) => return InvoiceDecode::Malformed,
    };
    match t.parse::<Bolt11Invoice>() {
        Ok(v) => InvoiceDecode::Parsed {
            timestamp_secs: v.duration_since_epoch().as_secs(),
            expiry_secs: v.expiry_time().as_secs(),
            mainnet: matches!(v.currency(), Currency::Bitcoin),
        },
        Err(ParseOrSemanticError::ParseError(Bolt11ParseError::Bech32Error(_))) => InvoiceDecode::BadChecksum,
        Err(_) => InvoiceDecode::Malformed,
    }
}

/// An invoice is expired when its creation time plus its expiry window does
/// not reach past `now`.
pub open spec fn invoice_expired(ts: int, expiry: int, now: int) -> bool {
    ts + expiry <= now
}

/// The verdict on an invoice string at time `now`, for a given decoder
/// answer.
pub open spec fn invoice_verdict(d: InvoiceDecode, now: int) -> Result<(), InstrumentError> {
    match d {
        InvoiceDecode::Parsed { timestamp_secs, expiry_secs, mainnet } => if !mainnet {
            Err(InstrumentError::WrongNetwork)
        } else if invoice_expired(timestamp_secs as int, expiry_secs as int, now) {
            Err(InstrumentError::Expired)
        } else {
            Ok(())
        },
        InvoiceDecode::BadChecksum => Err(InstrumentError::BadChecksum),
        InvoiceDecode::Malformed => Err(InstrumentError::Malformed),
    }
}

/// The verdict on an invoice string at time `now`.
pub open spec fn check_invoice_spec(s: Seq<u8>, now: int) -> Result<(), InstrumentError> {
    invoice_verdict(invoice_decode_of(s), now)
}

/// Validate an invoice string: structure, network, and expiry against `now`
/// (seconds since the epoch). Each cause of rejection is reported
/// distinctly.
pub fn check_invoice(s: &[u8], now: u64) -> (r: Result<(), InstrumentError>)
    ensures
        r == check_invoice_spec(s@, now as int),
{
    match decode_bolt11(s) {
        InvoiceDecode::Parsed { timestamp_secs, expiry_secs, mainnet } => {
            if !mainnet {
                Err(InstrumentError::WrongNetwork)
            } else {
                let end: u128 = timestamp_secs as u128 + expiry_secs as u128;
                if end <= now as u128 {
                    Err(InstrumentError::Expired)
                } else {
                    Ok(())
                }
            }
        },
        InvoiceDecode::BadChecksum => Err(InstrumentError::BadChecksum),
        InvoiceDecode::Malformed => Err(InstrumentError::Malformed),
    }
}

/// What resolving a raw instrument (plus an optional amount) yields: the
/// payload to send, and the non-fatal issue to surface, if any.
pub open spec fn resolve_spec(inv: Option<Seq<u8>>, amount: Option<int>, now: int) -> (Option<
    ContentV,
>, Option<InstrumentError>) {
    let base: Option<ContentV> = match inv {
        Some(s) => if addr_ok(s) {
            Some(ContentV::PaymentRequest(None, s, None))
        } else if check_invoice_spec(s, now) is Ok {
            Some(ContentV::PaymentRequest(None, s, None))
        } else {
            None
        },
        None => None,
    };
    let issue: Option<InstrumentError> = match inv {
        Some(s) => if addr_ok(s) {
            None
        } else {
            match check_invoice_spec(s, now) {
                Ok(_) => None,
                Err(e) => Some(e),
            }
        },
        None => None,
    };
    let merged: Option<ContentV> = match amount {
        Some(a) => match base {
            Some(ContentV::PaymentRequest(l, s, _)) => Some(ContentV::PaymentRequest(l, s, Some(a))),
            None => Some(ContentV::Amount(a)),
            _ => None,
        },
        None => base,
    };
    (merged, issue)
}

/// Resolve a user-supplied payment instrument.
///
/// A syntactically valid static address is accepted as it stands and the
/// invoice decoder is never consulted for it; otherwise the string must be a
/// valid, mainnet, unexpired invoice. A rejected instrument is a non-fatal
/// issue: the payload is dropped and the cause is reported. A supplied
/// amount is folded into the payment request, or stands alone when no
/// instrument was given.
pub fn resolve_instrument(invoice: &Option<Vec<u8>>, amount: Option<u32>, now: u64) -> (r: (
    Option<Content>,
    Option<InstrumentError>,
))
    ensures
        (crate::message::opt_content_view(r.0), r.1) == resolve_spec(
            crate::message::opt_bytes_view(*invoice),
            match amount {
                Some(a) => Some(a as int),
                None => None,
            },
            now as int,
        ),
{
    let mut content: Option<Content> = None;
    let mut issue: Option<InstrumentError> = None;
    match invoice {
        Some(raw) => {
            if check_lightning_address(raw.as_slice()) {
                content = Some(Content::PaymentRequest(None, clone_bytes(raw), None));
            } else {
                match check_invoice(raw.as_slice(), now) {
                    Ok(_) => {
                        content = Some(Content::PaymentRequest(None, clone_bytes(raw), None));
                    },
                    Err(e) => {
                        issue = Some(e);
                    },
                }
            }
        },
        None => {},
    }
    let merged: Option<Content> = match amount {
        Some(a) => match content {
            Some(Content::PaymentRequest(l, s, _)) => Some(Content::PaymentRequest(l, s, Some(a))),
            None => Some(Content::Amount(a)),
            _ => None,
        },
        None => content,
    };
    (merged, issue)
}

/// Copy a byte string.
fn clone_bytes(v: &Vec<u8>) -> (r: Vec<u8>)
    ensures
        r@ == v@,
{
    let mut out: Vec<u8> = Vec::new();
    let mut i: usize = 0;
    while i < v.len()
        invariant
            i <= v@.len(),
            out@ == v@.take(i as int),
        decreases v@.len() - i,
    {
        let b = v[i];
        out.push(b);
        proof {
            assert(v@.take(i + 1) =~= v@.take(i as int).push(v@[i as int]));
        }
        i += 1;
    }
    proof {
        assert(v@.take(v@.len() as int) =~= v@);
    }
    out
}

/// A valid static address resolves by itself: the verdict does not depend
/// on the clock, so the invoice decoder's answer plays no part in it.
pub proof fn lemma_address_short_circuit(s: Seq<u8>, amount: Option<int>, now1: int, now2: int)
    requires
        addr_ok(s),
    ensures
        resolve_spec(Some(s), amount, now1) == resolve_spec(Some(s), amount, now2),
        resolve_spec(Some(s), amount, now1).1 is None,
        amount is None ==> resolve_spec(Some(s), amount, now1).0 == Some(
            ContentV::PaymentRequest(None, s, None),
        ),
{
}

} // verus!
