//! Decimal digit strings: the mathematical value of a digit sequence, the
//! canonical decimal rendering of a number, and the facts that connect them.
//! These are shared by the fiat range parser and the message codec.

use vstd::prelude::*;

verus! {

/// ASCII code of the digit zero.
pub const ZERO: u8 = 0x30;

/// ASCII code of the digit nine.
pub const NINE: u8 = 0x39;

pub open spec fn is_digit(b: u8) -> bool {
    ZERO <= b <= NINE
}

pub open spec fn all_digits(s: Seq<u8>) -> bool {
    forall|i: int| 0 <= i < s.len() ==> is_digit(#[trigger] s[i])
}

/// Value of a digit string read most-significant-first.
pub open spec fn dec_val(s: Seq<u8>) -> nat
    decreases s.len(),
{
    if s.len() == 0 {
        0
    } else {
        (dec_val(s.drop_last()) * 10 + (s.last() - ZERO)) as nat
    }
}

/// Canonical decimal rendering of a number: no sign, no leading zero.
pub open spec fn dec_str(n: nat) -> Seq<u8>
    decreases n,
{
    if n < 10 {
        seq![(ZERO + n) as u8]
    } else {
        dec_str(n / 10).push((ZERO + n % 10) as u8)
    }
}

pub proof fn lemma_dec_val_push(s: Seq<u8>, b: u8)
    requires
        is_digit(b),
    ensures
        dec_val(s.push(b)) == dec_val(s) * 10 + (b - ZERO),
{
    assert(s.push(b).drop_last() =~= s);
    assert(s.push(b).last() == b);
    assert(dec_val(s) * 10 + (b - ZERO) >= 0) by (nonlinear_arith)
        requires
            b >= ZERO,
    ;
}

pub proof fn lemma_dec_str_wf(n: nat)
    ensures
        dec_str(n).len() >= 1,
        all_digits(dec_str(n)),
        n > 0 ==> dec_str(n)[0] != ZERO,
        n == 0 ==> dec_str(n) =~= seq![ZERO],
    decreases n,
{
    if n < 10 {
    } else {
        lemma_dec_str_wf(n / 10);
        let prev = dec_str(n / 10);
        let whole = prev.push((ZERO + n % 10) as u8);
        assert(whole[0] == prev[0]);
        assert forall|i: int| 0 <= i < whole.len() implies is_digit(#[trigger] whole[i]) by {
            if i < prev.len() {
                assert(whole[i] == prev[i]);
            }
        }
    }
}

/// Printing then reading a number gives the number back.
pub proof fn lemma_dec_val_of_dec_str(n: nat)
    ensures
        dec_val(dec_str(n)) == n,
    decreases n,
{
    if n < 10 {
        let s = dec_str(n);
        assert(s =~= seq![(ZERO + n) as u8]);
        assert(s.drop_last() =~= Seq::<u8>::empty());
        assert(dec_val(Seq::<u8>::empty()) == 0);
        assert(s.last() == (ZERO + n) as u8);
        assert(dec_val(s) == (dec_val(s.drop_last()) * 10 + (s.last() - ZERO)) as nat);
    } else {
        lemma_dec_val_of_dec_str(n / 10);
        assert(is_digit((ZERO + n % 10) as u8));
        lemma_dec_val_push(dec_str(n / 10), (ZERO + n % 10) as u8);
    }
}

/// The value of a digit string grows (weakly) as the string is extended.
pub proof fn lemma_dec_val_take_monotone(s: Seq<u8>, i: int, j: int)
    requires
        0 <= i <= j <= s.len(),
        all_digits(s),
    ensures
        dec_val(s.take(i)) <= dec_val(s.take(j)),
    decreases j - i,
{
    if i < j {
        lemma_dec_val_take_monotone(s, i, j - 1);
        assert(is_digit(s[j - 1]));
        lemma_dec_val_take_step(s, j - 1);
        assert(dec_val(s.take(j - 1)) * 10 >= dec_val(s.take(j - 1))) by (nonlinear_arith);
    }
}

pub proof fn lemma_dec_val_take_step(s: Seq<u8>, i: int)
    requires
        0 <= i < s.len(),
        is_digit(s[i]),
    ensures
        dec_val(s.take(i + 1)) == dec_val(s.take(i)) * 10 + (s[i] - ZERO),
{
    assert(s.take(i + 1).drop_last() =~= s.take(i));
    assert(s.take(i + 1).last() == s[i]);
    assert(dec_val(s.take(i)) * 10 + (s[i] - ZERO) >= 0) by (nonlinear_arith)
        requires
            s[i] >= ZERO,
    ;
}

/// Two digit strings without leading zeros that carry the same value are the
/// same string.
pub proof fn lemma_dec_str_unique(a: Seq<u8>, b: Seq<u8>)
    requires
        all_digits(a),
        all_digits(b),
        a.len() >= 1,
        b.len() >= 1,
        a.len() > 1 ==> a[0] != ZERO,
        b.len() > 1 ==> b[0] != ZERO,
        dec_val(a) == dec_val(b),
    ensures
        a =~= b,
    decreases a.len() + b.len(),
{
    if a.len() == 1 && b.len() == 1 {
        assert(is_digit(a[0]) && is_digit(b[0]));
        assert(a.drop_last() =~= Seq::<u8>::empty());
        assert(b.drop_last() =~= Seq::<u8>::empty());
        assert(a.last() == a[0] && b.last() == b[0]);
        assert(a[0] == b[0]);
    } else if a.len() > 1 && b.len() > 1 {
        let a0 = a.drop_last();
        let b0 = b.drop_last();
        assert(is_digit(a[a.len() - 1]) && is_digit(b[b.len() - 1]));
        assert(a.last() == a[a.len() - 1] && b.last() == b[b.len() - 1]);
        assert(dec_val(a0) * 10 + (a.last() - ZERO) >= 0 && dec_val(b0) * 10 + (b.last() - ZERO)
            >= 0) by (nonlinear_arith)
            requires
                a.last() >= ZERO,
                b.last() >= ZERO,
        ;
        assert(dec_val(a) == dec_val(a0) * 10 + (a.last() - ZERO));
        assert(dec_val(b) == dec_val(b0) * 10 + (b.last() - ZERO));
        assert(a.last() - ZERO < 10 && b.last() - ZERO < 10);
        assert(dec_val(a0) == dec_val(b0) && a.last() == b.last()) by (nonlinear_arith)
            requires
                dec_val(a0) * 10 + (a.last() - ZERO) == dec_val(b0) * 10 + (b.last() - ZERO),
                0 <= a.last() - ZERO < 10,
                0 <= b.last() - ZERO < 10,
        ;
        assert(a0.len() > 1 ==> a0[0] == a[0]);
        assert(b0.len() > 1 ==> b0[0] == b[0]);
        lemma_dec_str_unique(a0, b0);
        assert(a =~= a0.push(a.last()));
        assert(b =~= b0.push(b.last()));
    } else {
        // One has a single digit, the other more: the longer one has a
        // non-zero leading digit, so its value is at least 10.
        let (short, long) = if a.len() == 1 { (a, b) } else { (b, a) };
        assert(dec_val(short) < 10) by {
            assert(is_digit(short[0]));
            assert(short.last() == short[0]);
            assert(short.drop_last() =~= Seq::<u8>::empty());
            assert(dec_val(Seq::<u8>::empty()) == 0);
            assert(dec_val(short) == (dec_val(short.drop_last()) * 10 + (short.last()
                - ZERO)) as nat);
        }
        lemma_long_digit_string_at_least_ten(long);
    }
}

proof fn lemma_long_digit_string_at_least_ten(s: Seq<u8>)
    requires
        all_digits(s),
        s.len() >= 2,
        s[0] != ZERO,
    ensures
        dec_val(s) >= 10,
    decreases s.len(),
{
    let s0 = s.drop_last();
    assert(is_digit(s[s.len() - 1]));
    assert(s.last() == s[s.len() - 1]);
    assert(forall|i: int| 0 <= i < s0.len() ==> s0[i] == s[i]);
    if s0.len() >= 2 {
        lemma_long_digit_string_at_least_ten(s0);
        assert(dec_val(s0) * 10 >= 10 * 10) by (nonlinear_arith)
            requires
                dec_val(s0) >= 10,
        ;
    } else {
        assert(s0.len() == 1);
        assert(s0[0] == s[0]);
        assert(is_digit(s0[0]) && s0[0] != ZERO);
        assert(s0.last() == s0[0]);
        assert(s0.drop_last() =~= Seq::<u8>::empty());
        assert(dec_val(s0) >= 1);
    }
    assert(dec_val(s0) * 10 + (s.last() - ZERO) >= 10) by (nonlinear_arith)
        requires
            dec_val(s0) >= 1,
            s.last() >= ZERO,
    ;
}

/// Read an unsigned decimal digit string. Returns the value exactly when the
/// slice is nonempty, holds digits only, and its value fits below the bound.
pub fn parse_digits_bounded(s: &[u8], start: usize, end: usize, bound: u64) -> (r: Option<u64>)
    requires
        start <= end <= s@.len(),
    ensures
        match r {
            Some(v) => {
                &&& all_digits(s@.subrange(start as int, end as int))
                &&& start < end
                &&& dec_val(s@.subrange(start as int, end as int)) == v
                &&& v <= bound
            },
            None => {
                let field = s@.subrange(start as int, end as int);
                !(all_digits(field) && field.len() > 0 && dec_val(field) <= bound)
            },
        },
{
    let ghost field = s@.subrange(start as int, end as int);
    if start == end {
        return None;
    }
    let mut acc: u64 = 0;
    let mut i: usize = start;
    while i < end
        invariant
            start <= i <= end <= s@.len(),
            field == s@.subrange(start as int, end as int),
            all_digits(field.take(i - start)),
            acc == dec_val(field.take(i - start)),
            acc <= bound,
        decreases end - i,
    {
        let b = s[i];
        assert(field[i - start] == b);
        if b < ZERO || b > NINE {
            assert(!all_digits(field)) by {
                if all_digits(field) {
                    assert(is_digit(field[i - start]));
                }
            }
            return None;
        }
        let d: u64 = (b - ZERO) as u64;
        proof {
            lemma_dec_val_take_step(field, i - start);
        }
        let next: u128 = acc as u128 * 10 + d as u128;
        if next > bound as u128 {
            proof {
                // The value read so far already exceeds the bound, and the
                // value of a digit string only grows as it is extended.
                if all_digits(field) {
                    lemma_dec_val_take_monotone(field, i - start + 1, field.len() as int);
                    assert(field.take(field.len() as int) =~= field);
                }
            }
            return None;
        }
        acc = (next) as u64;
        i += 1;
        proof {
            let t = field.take(i - start);
            assert(t =~= field.take(i - 1 - start).push(b));
            lemma_dec_val_push(field.take(i - 1 - start), b);
            assert(all_digits(t)) by {
                assert forall|k: int| 0 <= k < t.len() implies is_digit(t[k]) by {
                    if k < t.len() - 1 {
                        assert(t[k] == field.take(i - 1 - start)[k]);
                    } else {
                        assert(t[k] == b);
                    }
                }
            }
        }
    }
    proof {
        assert(field.take(i - start) =~= field);
    }
    Some(acc)
}

/// Render a number as its canonical decimal digit string.
pub fn format_u64(n: u64, out: &mut Vec<u8>)
    ensures
        final(out)@ == old(out)@ + dec_str(n as nat),
{
    // Collect the digits most-significant-first, then append them.
    let mut ds: Vec<u8> = Vec::new();
    let mut m: u64 = n;
    loop
        invariant_except_break
            dec_str(n as nat) == dec_str(m as nat) + ds@,
        ensures
            dec_str(n as nat) == ds@,
        decreases m,
    {
        let ghost old_ds = ds@;
        let d: u8 = ZERO + (m % 10) as u8;
        ds.insert(0, d);
        proof {
            assert(ds@ =~= seq![d] + old_ds);
            if m >= 10 {
                assert(dec_str(m as nat) == dec_str((m as nat) / 10).push(d));
                assert(dec_str((m as nat) / 10).push(d) =~= dec_str((m as nat) / 10) + seq![d]);
                assert(dec_str((m as nat) / 10) + seq![d] + old_ds =~= dec_str((m as nat) / 10) + (
                seq![d] + old_ds));
            } else {
                assert(dec_str(m as nat) =~= seq![d]);
            }
        }
        if m < 10 {
            break;
        }
        m = m / 10;
    }
    let mut j: usize = 0;
    proof {
        assert(out@ =~= old(out)@ + ds@.take(0));
    }
    while j < ds.len()
        invariant
            j <= ds@.len(),
            out@ == old(out)@ + ds@.take(j as int),
            dec_str(n as nat) == ds@,
        decreases ds@.len() - j,
    {
        let b = ds[j];
        out.push(b);
        proof {
            assert(ds@.take(j + 1) =~= ds@.take(j as int).push(ds@[j as int]));
            assert(out@ =~= old(out)@ + ds@.take(j + 1));
        }
        j += 1;
    }
    proof {
        assert(ds@.take(ds@.len() as int) =~= ds@);
    }
}

} // verus!
