use mostro_cli::instrument::{check_invoice, resolve_instrument, InstrumentError};
use mostro_cli::message::Content;

// A well-known mainnet invoice from 2017 with the default one-hour expiry:
// long expired by now, but structurally valid and correctly signed.
const EXPIRED_MAINNET: &str = "lnbc1pvjluezsp5zyg3zyg3zyg3zyg3zyg3zyg3zyg3zyg3zyg3zyg3zyg3zyg3zygspp5qqqsyqcyq5rqwzqfqqqsyqcyq5rqwzqfqqqsyqcyq5rqwzqfqypqdpl2pkx2ctnv5sxxmmwwd5kgetjypeh2ursdae8g6twvus8g6rfwvs8qun0dfjkxaq9qrsgq357wnc5r2ueh7ck6q93dj32dlqnls087fxdwk8qakdyafkq3yap9us6v52vjjsrvywa6rt52cm9r9zqt8r2t7mlcwspyetp5h2tztugp9lfyql";

// The same string with its last character changed: the checksum no longer
// matches.
fn broken_checksum() -> String {
    let mut s = EXPIRED_MAINNET.to_string();
    s.pop();
    s.push('m');
    s
}

// A testnet invoice from the same suite: wrong network for this client.
const TESTNET_INVOICE: &str = "lntb20m1pvjluezsp5zyg3zyg3zyg3zyg3zyg3zyg3zyg3zyg3zyg3zyg3zyg3zyg3zygshp58yjmdan79s6qqdhdzgynm4zwqd5d7xmw5fk98klysy043l2ahrqspp5qqqsyqcyq5rqwzqfqqqsyqcyq5rqwzqfqqqsyqcyq5rqwzqfqypqfpp3x9et2e20v6pu37c5d9vax37wxq72un989qrsgqdj545axuxtnfemtpwkc45hx9d2ft7x04mt8q7y6t0k2dge9e7h8kpy9p34ytyslj3yu569aalz2xdk8xkd7ltxqld94u8h2esmsmacgpghe9k8";

const NOW_2026: u64 = 1_760_000_000;

#[test]
fn expired_invoice_has_its_own_cause() {
    let verdict = check_invoice(EXPIRED_MAINNET.as_bytes(), NOW_2026);
    assert!(matches!(verdict, Err(InstrumentError::Expired)));
}

#[test]
fn checksum_failure_is_distinct_from_expiry() {
    let broken = broken_checksum();
    let verdict = check_invoice(broken.as_bytes(), NOW_2026);
    assert!(matches!(verdict, Err(InstrumentError::BadChecksum)));
}

#[test]
fn wrong_network_is_reported() {
    let verdict = check_invoice(TESTNET_INVOICE.as_bytes(), NOW_2026);
    assert!(matches!(verdict, Err(InstrumentError::WrongNetwork)));
}

#[test]
fn unexpired_invoice_is_accepted() {
    // One second after creation the one-hour window is still open.
    let verdict = check_invoice(EXPIRED_MAINNET.as_bytes(), 1_496_314_659);
    assert!(verdict.is_ok());
}

#[test]
fn static_address_short_circuits_the_decoder() {
    let addr = b"satoshi@example.com".to_vec();
    let (content_then, issue_then) = resolve_instrument(&Some(addr.clone()), None, 0);
    let (content_now, issue_now) = resolve_instrument(&Some(addr.clone()), None, NOW_2026);
    assert!(issue_then.is_none());
    assert!(issue_now.is_none());
    match (content_then, content_now) {
        (
            Some(Content::PaymentRequest(None, a, None)),
            Some(Content::PaymentRequest(None, b, None)),
        ) => {
            assert_eq!(a, addr);
            assert_eq!(b, addr);
        }
        _ => panic!("address must resolve as a payment request at any time"),
    }
}

#[test]
fn rejected_instrument_is_a_nonfatal_issue() {
    // Not bech32 at all: rejected at the encoding level.
    let garbage = b"neither address nor invoice".to_vec();
    let (content, issue) = resolve_instrument(&Some(garbage), None, NOW_2026);
    assert!(content.is_none());
    assert!(matches!(issue, Some(InstrumentError::BadChecksum)));
    // Valid bech32, but no invoice: a checksum-correct address has the
    // wrong prefix.
    let not_invoice = b"bc1qw508d6qejxtdg4y5r3zarvary0c5xw7kv8f3t4".to_vec();
    let (content, issue) = resolve_instrument(&Some(not_invoice), None, NOW_2026);
    assert!(content.is_none());
    assert!(matches!(issue, Some(InstrumentError::Malformed)));
}

#[test]
fn amount_merges_into_the_resolved_instrument() {
    let addr = b"satoshi@example.com".to_vec();
    let (content, issue) = resolve_instrument(&Some(addr.clone()), Some(42), NOW_2026);
    assert!(issue.is_none());
    assert!(
        matches!(content, Some(Content::PaymentRequest(None, a, Some(42))) if a == addr)
    );
    let (content, issue) = resolve_instrument(&None, Some(42), NOW_2026);
    assert!(issue.is_none());
    assert!(matches!(content, Some(Content::Amount(42))));
}

#[test]
fn failed_instrument_with_amount_falls_back_to_bare_amount() {
    // The rejected invoice leaves no instrument, so the amount stands alone.
    let broken = broken_checksum().into_bytes();
    let (content, issue) = resolve_instrument(&Some(broken), Some(42), NOW_2026);
    assert!(matches!(issue, Some(InstrumentError::BadChecksum)));
    assert!(matches!(content, Some(Content::Amount(42))));
}
