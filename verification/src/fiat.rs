//! Fiat range parser: turns a `"min-max"` or single-amount byte string into a
//! validated amount range.

use vstd::prelude::*;
use crate::digits::{all_digits, dec_val, is_digit, parse_digits_bounded};

verus! {

/// ASCII code of the range separator.
pub const HYPHEN: u8 = 0x2d;

/// ASCII code of an explicit plus sign.
pub const PLUS: u8 = 0x2b;

/// A validated fiat amount range: a single amount, or a pair with
/// `min < max`.
#[derive(Clone, Copy, Debug)]
pub struct FiatRange {
    pub min: i64,
    pub max: Option<i64>,
}

#[derive(Clone, Copy, Debug)]
pub enum FiatError {
    /// The input splits into more than two fields.
    WrongAmountSyntax,
    /// A field does not parse as an integer.
    InvalidNumber,
    /// Both fields parse but the first is not below the second.
    InvalidRangeOrder,
}

impl FiatError {
    /// A short human-readable account of the error, fixed per variant.
    pub fn describe(&self) -> (r: &'static str)
        ensures
            r@ == match *self {
                FiatError::WrongAmountSyntax => "Wrong amount syntax"@,
                FiatError::InvalidNumber => "Fiat amount is not a number"@,
                FiatError::InvalidRangeOrder => "Range of values must be 100-200 for example..."@,
            },
    {
        match self {
            FiatError::WrongAmountSyntax => "Wrong amount syntax",
            FiatError::InvalidNumber => "Fiat amount is not a number",
            FiatError::InvalidRangeOrder => "Range of values must be 100-200 for example...",
        }
    }
}

pub open spec fn contains_byte(s: Seq<u8>, b: u8) -> bool {
    exists|i: int| 0 <= i < s.len() && s[i] == b
}

/// Index of the first occurrence of `b` in `s`, or -1.
pub open spec fn find_byte(s: Seq<u8>, b: u8) -> int
    decreases s.len(),
{
    if s.len() == 0 {
        -1
    } else if s[0] == b {
        0
    } else {
        let r = find_byte(s.drop_first(), b);
        if r < 0 {
            -1
        } else {
            r + 1
        }
    }
}

pub proof fn lemma_find_byte(s: Seq<u8>, b: u8)
    ensures
        find_byte(s, b) == -1 ==> !contains_byte(s, b),
        find_byte(s, b) != -1 ==> {
            &&& 0 <= find_byte(s, b) < s.len()
            &&& s[find_byte(s, b)] == b
            &&& forall|j: int| 0 <= j < find_byte(s, b) ==> s[j] != b
        },
    decreases s.len(),
{
    if s.len() == 0 {
    } else if s[0] == b {
    } else {
        let t = s.drop_first();
        lemma_find_byte(t, b);
        assert(forall|i: int| 0 < i < s.len() ==> s[i] == t[i - 1]);
        if find_byte(t, b) == -1 {
            assert forall|i: int| 0 <= i < s.len() implies s[i] != b by {
                if i > 0 {
                    assert(s[i] == t[i - 1]);
                }
            }
        }
    }
}

/// Value of one field: an optional leading plus sign, then decimal digits,
/// with a value that fits an `i64`.
pub open spec fn field_val(f: Seq<u8>) -> Option<int> {
    let body = if f.len() > 0 && f[0] == PLUS {
        f.drop_first()
    } else {
        f
    };
    if body.len() > 0 && all_digits(body) && dec_val(body) <= i64::MAX as nat {
        Some(dec_val(body) as int)
    } else {
        None
    }
}

/// What the fiat range parser returns on any input.
pub open spec fn fiat_spec(s: Seq<u8>) -> Result<FiatRange, FiatError> {
    if contains_byte(s, HYPHEN) {
        let h = find_byte(s, HYPHEN);
        let head = s.take(h);
        let tail = s.skip(h + 1);
        if contains_byte(tail, HYPHEN) {
            Err(FiatError::WrongAmountSyntax)
        } else {
            match (field_val(head), field_val(tail)) {
                (Some(mn), Some(mx)) => if mn >= mx {
                    Err(FiatError::InvalidRangeOrder)
                } else {
                    Ok(
                        (FiatRange {
                            min: mn as i64,
                            max: Some(mx as i64),
                        }),
                    )
                },
                _ => Err(FiatError::InvalidNumber),
            }
        }
    } else {
        match field_val(s) {
            Some(v) => Ok(
                (FiatRange { min: v as i64, max: None }),
            ),
            None => Err(FiatError::InvalidNumber),
        }
    }
}

/// First occurrence of `b` at or after `from`.
fn find_byte_from(s: &[u8], b: u8, from: usize) -> (r: Option<usize>)
    requires
        from <= s@.len(),
    ensures
        match r {
            Some(i) => {
                &&& from <= i < s@.len()
                &&& s@[i as int] == b
                &&& forall|j: int| from <= j < i ==> s@[j] != b
            },
            None => forall|j: int| from <= j < s@.len() ==> s@[j] != b,
        },
{
    let mut i: usize = from;
    while i < s.len()
        invariant
            from <= i <= s@.len(),
            forall|j: int| from <= j < i ==> s@[j] != b,
        decreases s@.len() - i,
    {
        if s[i] == b {
            return Some(i);
        }
        i += 1;
    }
    None
}

/// Parse one field of the range, spanning `s[start..end]`.
fn parse_field(s: &[u8], start: usize, end: usize) -> (r: Option<i64>)
    requires
        start <= end <= s@.len(),
    ensures
        match r {
            Some(v) => field_val(s@.subrange(start as int, end as int)) == Some(v as int),
            None => field_val(s@.subrange(start as int, end as int)) is None,
        },
{
    let ghost f = s@.subrange(start as int, end as int);
    let mut st: usize = start;
    if st < end && s[st] == PLUS {
        st += 1;
        proof {
            assert(f.drop_first() =~= s@.subrange(st as int, end as int));
        }
    } else {
        proof {
            assert(f =~= s@.subrange(st as int, end as int));
        }
    }
    let r = parse_digits_bounded(s, st, end, i64::MAX as u64);
    match r {
        Some(v) => Some(v as i64),
        None => None,
    }
}

/// Parse a fiat amount or `"min-max"` range.
///
/// A single field parses as one amount; exactly two fields parse as a range
/// that must satisfy `min < max`; anything else is a validation error. Never
/// panics, whatever the input.
pub fn check_fiat_range(s: &[u8]) -> (r: Result<FiatRange, FiatError>)
    ensures
        r == fiat_spec(s@),
{
    proof {
        lemma_find_byte(s@, HYPHEN);
    }
    let n = s.len();
    match find_byte_from(s, HYPHEN, 0) {
        None => {
            proof {
                assert(s@.subrange(0, s@.len() as int) =~= s@);
            }
            match parse_field(s, 0, s.len()) {
                Some(v) => Ok(FiatRange { min: v, max: None }),
                None => Err(FiatError::InvalidNumber),
            }
        },
        Some(h) => {
            proof {
                // The first hyphen the loop found is the first one the spec
                // names.
                assert(contains_byte(s@, HYPHEN));
                assert(find_byte(s@, HYPHEN) == h);
            }
            let ghost tail = s@.skip(h + 1);
            assert(h < n);
            match find_byte_from(s, HYPHEN, h + 1) {
                Some(_) => {
                    assert(contains_byte(tail, HYPHEN)) by {
                        let w = choose|i: int| h + 1 <= i < s@.len() && s@[i] == HYPHEN;
                        assert(tail[w - h - 1] == s@[w]);
                    }
                    Err(FiatError::WrongAmountSyntax)
                },
                None => {
                    assert(!contains_byte(tail, HYPHEN)) by {
                        if contains_byte(tail, HYPHEN) {
                            let w = choose|i: int| 0 <= i < tail.len() && tail[i] == HYPHEN;
                            assert(s@[w + h + 1] == tail[w]);
                        }
                    }
                    proof {
                        assert(s@.take(h as int) =~= s@.subrange(0, h as int));
                        assert(tail =~= s@.subrange(h + 1, s@.len() as int));
                    }
                    match parse_field(s, 0, h) {
                        None => Err(FiatError::InvalidNumber),
                        Some(mn) => match parse_field(s, h + 1, s.len()) {
                            None => Err(FiatError::InvalidNumber),
                            Some(mx) => if mn >= mx {
                                Err(FiatError::InvalidRangeOrder)
                            } else {
                                Ok(FiatRange { min: mn, max: Some(mx) })
                            },
                        },
                    }
                },
            }
        },
    }
}

/// Any two parsable fields joined by the separator parse as a range exactly
/// when the first value is below the second, and fail with the order error
/// otherwise.
pub proof fn lemma_fiat_range_parse(a: Seq<u8>, b: Seq<u8>)
    requires
        field_val(a) is Some,
        field_val(b) is Some,
    ensures
        ({
            let input = a + seq![HYPHEN] + b;
            let mn = field_val(a)->0;
            let mx = field_val(b)->0;
            let expected: Result<FiatRange, FiatError> = if mn < mx {
                Ok((FiatRange { min: mn as i64, max: Some(mx as i64) }))
            } else {
                Err(FiatError::InvalidRangeOrder)
            };
            fiat_spec(input) == expected
        }),
{
    let input = a + seq![HYPHEN] + b;
    lemma_field_no_hyphen(a);
    lemma_field_no_hyphen(b);
    assert(input[a.len() as int] == HYPHEN);
    assert(contains_byte(input, HYPHEN));
    lemma_find_byte(input, HYPHEN);
    let h = find_byte(input, HYPHEN);
    assert(forall|j: int| 0 <= j < a.len() ==> input[j] == a[j]);
    assert(forall|j: int| 0 <= j < b.len() ==> input[a.len() + 1 + j] == b[j]);
    // The separator the spec splits on is exactly the one between a and b.
    assert(h == a.len()) by {
        if h < a.len() {
            assert(input[h] == a[h]);
        }
        if h > a.len() {
            assert(input[a.len() as int] == HYPHEN);
        }
    }
    assert(input.take(h) =~= a);
    assert(input.skip(h + 1) =~= b);
    assert(!contains_byte(b, HYPHEN));
}

/// A field that parses holds no separator byte: a plus sign or digits only.
proof fn lemma_field_no_hyphen(f: Seq<u8>)
    requires
        field_val(f) is Some,
    ensures
        !contains_byte(f, HYPHEN),
        f.len() > 0,
{
    let body = if f.len() > 0 && f[0] == PLUS {
        f.drop_first()
    } else {
        f
    };
    assert(all_digits(body));
    assert forall|i: int| 0 <= i < f.len() implies f[i] != HYPHEN by {
        if f.len() > 0 && f[0] == PLUS {
            if i > 0 {
                assert(f[i] == body[i - 1]);
                assert(is_digit(body[i - 1]));
            }
        } else {
            assert(is_digit(body[i]));
        }
    }
}

} // verus!
