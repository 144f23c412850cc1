//! Parsing of input record fields: unsigned decimal integers, fixed-point
//! amounts with up to four fractional digits, and whole records.

use crate::record::TransactionRecord;
use vstd::prelude::*;

verus! {

/// Is `b` an ASCII decimal digit?
pub open spec fn is_digit(b: u8) -> bool {
    48 <= b <= 57
}

/// Does the field consist of decimal digits only?
pub open spec fn all_digits(s: Seq<u8>) -> bool {
    forall|i: int| 0 <= i < s.len() ==> is_digit(#[trigger] s[i])
}

/// The number a digit string writes, most significant digit first.
pub open spec fn digits_val(s: Seq<u8>) -> int
    decreases s.len(),
{
    if s.len() == 0 {
        0
    } else {
        digits_val(s.drop_last()) * 10 + (s.last() - 48)
    }
}

/// Ten to the `n`th.
pub open spec fn pow10(n: nat) -> int
    decreases n,
{
    if n == 0 {
        1
    } else {
        10 * pow10((n - 1) as nat)
    }
}

/// A digit string writes a non-negative number.
pub proof fn lemma_digits_val_nonneg(s: Seq<u8>)
    requires
        all_digits(s),
    ensures
        digits_val(s) >= 0,
    decreases s.len(),
{
    if s.len() > 0 {
        assert(all_digits(s.drop_last())) by {
            assert(forall|i: int|
                0 <= i < s.drop_last().len() ==> s.drop_last()[i] == #[trigger] s[i]);
        }
        lemma_digits_val_nonneg(s.drop_last());
    }
}

/// A digit string of length `n` writes a number below ten to the `n`th.
pub proof fn lemma_digits_val_bound(s: Seq<u8>)
    requires
        all_digits(s),
    ensures
        0 <= digits_val(s) < pow10(s.len()),
    decreases s.len(),
{
    if s.len() > 0 {
        assert(all_digits(s.drop_last())) by {
            assert(forall|i: int|
                0 <= i < s.drop_last().len() ==> s.drop_last()[i] == #[trigger] s[i]);
        }
        lemma_digits_val_bound(s.drop_last());
    }
}

/// Extending a digit string to the right never shrinks its value.
pub proof fn lemma_digits_val_grows(s: Seq<u8>, i: int, j: int)
    requires
        all_digits(s),
        0 <= i <= j <= s.len(),
    ensures
        digits_val(s.subrange(0, i)) <= digits_val(s.subrange(0, j)),
    decreases j - i,
{
    if i < j {
        lemma_digits_val_grows(s, i, j - 1);
        let p = s.subrange(0, j);
        assert(p.drop_last() =~= s.subrange(0, j - 1));
        assert(all_digits(s.subrange(0, j - 1))) by {
            assert(forall|k: int|
                0 <= k < j - 1 ==> s.subrange(0, j - 1)[k] == #[trigger] s[k]);
        }
        lemma_digits_val_nonneg(s.subrange(0, j - 1));
    }
}

/// Read an unsigned decimal integer, `end` exclusive, out of a slice of a
/// field.  Returns the value exactly when the range is all digits and the
/// value fits below the fixed-point range; digit strings are read with any
/// number of leading zeros.
fn digits_value(s: &[u8], start: usize, end: usize) -> (r: Option<u64>)
    requires
        start <= end <= s@.len(),
    ensures
        ({
            let part = s@.subrange(start as int, end as int);
            if all_digits(part) && digits_val(part) <= i64::MAX {
                r == Some(digits_val(part) as u64)
            } else {
                r is None
            }
        }),
{
    let ghost part = s@.subrange(start as int, end as int);
    let mut acc: u64 = 0;
    let mut i: usize = start;
    while i < end
        invariant
            start <= i <= end <= s@.len(),
            part == s@.subrange(start as int, end as int),
            all_digits(part.subrange(0, i - start)),
            acc == digits_val(part.subrange(0, i - start)),
            acc <= i64::MAX as u64,
        decreases end - i,
    {
        let b = s[i];
        proof {
            assert(part[i - start] == s@[i as int]);
        }
        if b < 48 || b > 57 {
            proof {
                assert(!is_digit(part[i - start]));
            }
            return None;
        }
        let d = (b - 48) as u64;
        let wide: u128 = (acc as u128) * 10 + d as u128;
        proof {
            let pre = part.subrange(0, i - start);
            let ext = part.subrange(0, i + 1 - start);
            assert(ext.drop_last() =~= pre);
            assert(ext.last() == part[i - start]);
            assert(all_digits(ext)) by {
                assert(forall|k: int| 0 <= k < ext.len() ==> ext[k] == #[trigger] part[k]);
            }
            assert(wide == digits_val(ext));
        }
        if wide > i64::MAX as u128 {
            proof {
                if all_digits(part) && digits_val(part) <= i64::MAX {
                    lemma_digits_val_grows(part, i + 1 - start, part.len() as int);
                    assert(part.subrange(0, part.len() as int) =~= part);
                }
            }
            return None;
        }
        acc = wide as u64;
        i += 1;
    }
    proof {
        assert(part.subrange(0, part.len() as int) =~= part);
        lemma_digits_val_nonneg(part);
    }
    Some(acc)
}

/// Parse a client identifier: a non-empty run of decimal digits whose value
/// fits in sixteen bits; anything else is refused.
pub fn parse_u16(s: &[u8]) -> (r: Option<u16>)
    ensures
        if s@.len() > 0 && all_digits(s@) && digits_val(s@) <= u16::MAX {
            r == Some(digits_val(s@) as u16)
        } else {
            r is None
        },
{
    if s.len() == 0 {
        return None;
    }
    proof {
        assert(s@.subrange(0, s@.len() as int) =~= s@);
        if all_digits(s@) {
            lemma_digits_val_nonneg(s@);
        }
    }
    match digits_value(s, 0, s.len()) {
        Some(v) => if v <= u16::MAX as u64 {
            Some(v as u16)
        } else {
            None
        },
        None => None,
    }
}

/// Parse a transaction identifier: a non-empty run of decimal digits whose
/// value fits in thirty-two bits; anything else is refused.
pub fn parse_u32(s: &[u8]) -> (r: Option<u32>)
    ensures
        if s@.len() > 0 && all_digits(s@) && digits_val(s@) <= u32::MAX {
            r == Some(digits_val(s@) as u32)
        } else {
            r is None
        },
{
    if s.len() == 0 {
        return None;
    }
    proof {
        assert(s@.subrange(0, s@.len() as int) =~= s@);
        if all_digits(s@) {
            lemma_digits_val_nonneg(s@);
        }
    }
    match digits_value(s, 0, s.len()) {
        Some(v) => if v <= u32::MAX as u64 {
            Some(v as u32)
        } else {
            None
        },
        None => None,
    }
}

/// The first position of a decimal point, scanning from `i`.
pub open spec fn find_dot(s: Seq<u8>, i: int) -> Option<int>
    decreases s.len() - i,
{
    if i < 0 || i >= s.len() {
        None
    } else if s[i] == 46 {
        Some(i)
    } else {
        find_dot(s, i + 1)
    }
}

/// The fixed-point value an amount field writes: digits, optionally
/// followed by a decimal point and up to four fractional digits, scaled to
/// ten-thousandths.  `None` where the field does not have that shape.
pub open spec fn units_spec(s: Seq<u8>) -> Option<int> {
    match find_dot(s, 0) {
        None => if s.len() > 0 && all_digits(s) {
            Some(digits_val(s) * 10000)
        } else {
            None
        },
        Some(p) => {
            let ip = s.subrange(0, p);
            let fp = s.subrange(p + 1, s.len() as int);
            if p > 0 && all_digits(ip) && all_digits(fp) && fp.len() <= 4 {
                Some(digits_val(ip) * 10000 + digits_val(fp) * pow10((4 - fp.len()) as nat))
            } else {
                None
            }
        },
    }
}

/// Ten to a small power, for scaling fractional digits.
fn pow10_small(n: usize) -> (r: u64)
    requires
        n <= 4,
    ensures
        r == pow10(n as nat),
{
    let r: u64 = if n == 0 {
        1
    } else if n == 1 {
        10
    } else if n == 2 {
        100
    } else if n == 3 {
        1000
    } else {
        10000
    };
    proof {
assert(pow10(0) == 1);
        assert(pow10(1) == 10);
        assert(pow10(2) == 100);
        assert(pow10(3) == 1000);
        assert(pow10(4) == 10000);
    }
    r
}

/// Parse an amount field into fixed-point units (ten-thousandths).  Returns
/// the exact value the field writes whenever it fits the fixed-point range;
/// a malformed or out-of-range field is refused.  A parsed amount is never
/// negative: the grammar has no sign.
pub fn parse_units(s: &[u8]) -> (r: Option<i64>)
    ensures
        match units_spec(s@) {
            Some(v) => if v <= i64::MAX {
                r == Some(v as i64)
            } else {
                r is None
            },
            None => r is None,
        },
        r matches Some(v) ==> v >= 0,
{
    let n = s.len();
    let mut j: usize = 0;
    let mut dotpos: Option<usize> = None;
    while j < n
        invariant
            0 <= j <= n,
            n == s@.len(),
            match dotpos {
                Some(p) => p < j && s@[p as int] == 46 && find_dot(s@, 0) == Some(p as int),
                None => (forall|k: int| 0 <= k < j ==> s@[k] != 46) && find_dot(s@, 0)
                    == find_dot(s@, j as int),
            },
        decreases n - j,
    {
        if dotpos.is_none() && s[j] == 46 {
            dotpos = Some(j);
        }
        j += 1;
    }
    match dotpos {
        None => {
            proof {
                assert(find_dot(s@, 0) is None);
            }
            if n == 0 {
                return None;
            }
            proof {
                assert(s@.subrange(0, n as int) =~= s@);
            }
            match digits_value(s, 0, n) {
                None => {
                    proof {
                        if all_digits(s@) {
                            // the whole field is digits, so the value itself
                            // must have been out of range
                            lemma_digits_val_nonneg(s@);
                        }
                    }
                    None
                },
                Some(v) => {
                    proof {
                        lemma_digits_val_nonneg(s@);
                    }
                    let total: u128 = (v as u128) * 10000;
                    if total > i64::MAX as u128 {
                        None
                    } else {
                        Some(total as i64)
                    }
                },
            }
        },
        Some(p) => {
            let fplen = n - p - 1;
            if p == 0 || fplen > 4 {
                return None;
            }
            let ghost ip = s@.subrange(0, p as int);
            let ghost fp = s@.subrange(p as int + 1, n as int);
            match digits_value(s, 0, p) {
                None => {
                    proof {
                        if all_digits(ip) {
                            lemma_digits_val_nonneg(ip);
                            if all_digits(fp) {
                                lemma_digits_val_bound(fp);
                                assert(pow10(0) == 1);
                                assert(pow10(1) == 10);
                                assert(pow10(2) == 100);
                                assert(pow10(3) == 1000);
                                assert(pow10(4) == 10000);
                            }
                        }
                    }
                    None
                },
                Some(ipv) => {
                    match digits_value(s, p + 1, n) {
                        None => {
                            proof {
                                if all_digits(fp) {
                                    lemma_digits_val_bound(fp);
                                    assert(pow10(0) == 1);
                                    assert(pow10(1) == 10);
                                    assert(pow10(2) == 100);
                                    assert(pow10(3) == 1000);
                                    assert(pow10(4) == 10000);
                                }
                            }
                            None
                        },
                        Some(fpv) => {
                            proof {
                                lemma_digits_val_bound(fp);
                                assert(pow10(0) == 1);
                                assert(pow10(1) == 10);
                                assert(pow10(2) == 100);
                                assert(pow10(3) == 1000);
                                assert(pow10(4) == 10000);
                                assert(fp.len() == fplen);
                                assert(fplen == 0 || fplen == 1 || fplen == 2 || fplen == 3
                                    || fplen == 4);
                                assert(pow10(fp.len()) <= 10000);
                                assert(pow10((4 - fp.len()) as nat) <= 10000);
                                lemma_digits_val_nonneg(ip);
                            }
                            let scale = pow10_small(4 - fplen);
                            proof {
                                assert(fpv as int * scale as int <= 9999 * 10000)
                                    by (nonlinear_arith)
                                    requires
                                        0 <= fpv as int <= 9999,
                                        0 <= scale as int <= 10000,
                                ;
                            }
                            let frac: u64 = fpv * scale;
                            let total: u128 = (ipv as u128) * 10000 + frac as u128;
                            if total > i64::MAX as u128 {
                                None
                            } else {
                                Some(total as i64)
                            }
                        },
                    }
                },
            }
        },
    }
}

/// The bytes of the `deposit` keyword.
pub open spec fn kw_deposit() -> Seq<u8> {
    seq![100u8, 101u8, 112u8, 111u8, 115u8, 105u8, 116u8]
}

/// The bytes of the `withdrawal` keyword.
pub open spec fn kw_withdrawal() -> Seq<u8> {
    seq![119u8, 105u8, 116u8, 104u8, 100u8, 114u8, 97u8, 119u8, 97u8, 108u8]
}

/// The bytes of the `dispute` keyword.
pub open spec fn kw_dispute() -> Seq<u8> {
    seq![100u8, 105u8, 115u8, 112u8, 117u8, 116u8, 101u8]
}

/// The bytes of the `resolve` keyword.
pub open spec fn kw_resolve() -> Seq<u8> {
    seq![114u8, 101u8, 115u8, 111u8, 108u8, 118u8, 101u8]
}

/// The bytes of the `chargeback` keyword.
pub open spec fn kw_chargeback() -> Seq<u8> {
    seq![99u8, 104u8, 97u8, 114u8, 103u8, 101u8, 98u8, 97u8, 99u8, 107u8]
}

fn is_kw_deposit(s: &[u8]) -> (r: bool)
    ensures
        r == (s@ == kw_deposit()),
{
    if s.len() != 7 {
        return false;
    }
    let r = s[0] == 100 && s[1] == 101 && s[2] == 112 && s[3] == 111 && s[4] == 115 && s[5] == 105
        && s[6] == 116;
    proof {
        if r {
            assert(s@ =~= kw_deposit());
        } else if s@ == kw_deposit() {
            assert(s@[0] == 100 && s@[1] == 101 && s@[2] == 112 && s@[3] == 111 && s@[4] == 115
                && s@[5] == 105 && s@[6] == 116);
        }
    }
    r
}

fn is_kw_withdrawal(s: &[u8]) -> (r: bool)
    ensures
        r == (s@ == kw_withdrawal()),
{
    if s.len() != 10 {
        return false;
    }
    let r = s[0] == 119 && s[1] == 105 && s[2] == 116 && s[3] == 104 && s[4] == 100 && s[5] == 114
        && s[6] == 97 && s[7] == 119 && s[8] == 97 && s[9] == 108;
    proof {
        if r {
            assert(s@ =~= kw_withdrawal());
        } else if s@ == kw_withdrawal() {
            assert(s@[0] == 119 && s@[1] == 105 && s@[2] == 116 && s@[3] == 104 && s@[4] == 100
                && s@[5] == 114 && s@[6] == 97 && s@[7] == 119 && s@[8] == 97 && s@[9] == 108);
        }
    }
    r
}

fn is_kw_dispute(s: &[u8]) -> (r: bool)
    ensures
        r == (s@ == kw_dispute()),
{
    if s.len() != 7 {
        return false;
    }
    let r = s[0] == 100 && s[1] == 105 && s[2] == 115 && s[3] == 112 && s[4] == 117 && s[5] == 116
        && s[6] == 101;
    proof {
        if r {
            assert(s@ =~= kw_dispute());
        } else if s@ == kw_dispute() {
            assert(s@[0] == 100 && s@[1] == 105 && s@[2] == 115 && s@[3] == 112 && s@[4] == 117
                && s@[5] == 116 && s@[6] == 101);
        }
    }
    r
}

fn is_kw_resolve(s: &[u8]) -> (r: bool)
    ensures
        r == (s@ == kw_resolve()),
{
    if s.len() != 7 {
        return false;
    }
    let r = s[0] == 114 && s[1] == 101 && s[2] == 115 && s[3] == 111 && s[4] == 108 && s[5] == 118
        && s[6] == 101;
    proof {
        if r {
            assert(s@ =~= kw_resolve());
        } else if s@ == kw_resolve() {
            assert(s@[0] == 114 && s@[1] == 101 && s@[2] == 115 && s@[3] == 111 && s@[4] == 108
                && s@[5] == 118 && s@[6] == 101);
        }
    }
    r
}

fn is_kw_chargeback(s: &[u8]) -> (r: bool)
    ensures
        r == (s@ == kw_chargeback()),
{
    if s.len() != 10 {
        return false;
    }
    let r = s[0] == 99 && s[1] == 104 && s[2] == 97 && s[3] == 114 && s[4] == 103 && s[5] == 101
        && s[6] == 98 && s[7] == 97 && s[8] == 99 && s[9] == 107;
    proof {
        if r {
            assert(s@ =~= kw_chargeback());
        } else if s@ == kw_chargeback() {
            assert(s@[0] == 99 && s@[1] == 104 && s@[2] == 97 && s@[3] == 114 && s@[4] == 103
                && s@[5] == 101 && s@[6] == 98 && s@[7] == 97 && s@[8] == 99 && s@[9] == 107);
        }
    }
    r
}

/// Why a record could not be read from its fields.
#[derive(Clone, Copy, Debug, PartialEq, Eq, Structural)]
pub enum ParseError {
    /// The type field is none of the five record keywords.
    UnknownKind,
    /// The client field is not a sixteen-bit decimal number.
    BadClient,
    /// The transaction field is not a thirty-two-bit decimal number.
    BadTx,
    /// The amount field of a deposit or withdrawal is malformed or out of
    /// range.
    BadAmount,
    /// A deposit or withdrawal arrived without an amount field.
    MissingAmount,
}

/// The record four trimmed fields spell, or the exact reason none does.  An
/// amount field on a dispute, resolve or chargeback is ignored; an absent
/// amount is an empty field.
pub open spec fn record_spec(
    kind: Seq<u8>,
    client: Seq<u8>,
    tx: Seq<u8>,
    amount: Seq<u8>,
) -> Result<TransactionRecord, ParseError> {
    if !(kind == kw_deposit() || kind == kw_withdrawal() || kind == kw_dispute() || kind
        == kw_resolve() || kind == kw_chargeback()) {
        Err(ParseError::UnknownKind)
    } else if !(client.len() > 0 && all_digits(client) && digits_val(client) <= u16::MAX) {
        Err(ParseError::BadClient)
    } else if !(tx.len() > 0 && all_digits(tx) && digits_val(tx) <= u32::MAX) {
        Err(ParseError::BadTx)
    } else {
        let c = digits_val(client) as u16;
        let t = digits_val(tx) as u32;
        if kind == kw_deposit() || kind == kw_withdrawal() {
            if amount.len() == 0 {
                Err(ParseError::MissingAmount)
            } else {
                match units_spec(amount) {
                    Some(v) => if v <= i64::MAX {
                        if kind == kw_deposit() {
                            Ok(TransactionRecord::Deposit { client: c, tx: t, amount: v as i64 })
                        } else {
                            Ok(
                                TransactionRecord::Withdrawal {
                                    client: c,
                                    tx: t,
                                    amount: v as i64,
                                },
                            )
                        }
                    } else {
                        Err(ParseError::BadAmount)
                    },
                    None => Err(ParseError::BadAmount),
                }
            }
        } else if kind == kw_dispute() {
            Ok(TransactionRecord::Dispute { client: c, tx: t })
        } else if kind == kw_resolve() {
            Ok(TransactionRecord::Resolve { client: c, tx: t })
        } else {
            Ok(TransactionRecord::Chargeback { client: c, tx: t })
        }
    }
}

/// Read one record from its four trimmed fields.  Returns exactly the
/// record the fields spell, or the first reason (type, then client, then
/// transaction, then amount) they spell none; a parsed record is always
/// well-formed.
pub fn parse_record(kind: &[u8], client: &[u8], tx: &[u8], amount: &[u8]) -> (r: Result<
    TransactionRecord,
    ParseError,
>)
    ensures
        r == record_spec(kind@, client@, tx@, amount@),
        r matches Ok(rec) ==> rec.wf(),
{
    let k_dep = is_kw_deposit(kind);
    let k_wd = is_kw_withdrawal(kind);
    let k_di = is_kw_dispute(kind);
    let k_re = is_kw_resolve(kind);
    let k_cb = is_kw_chargeback(kind);
    if !(k_dep || k_wd || k_di || k_re || k_cb) {
        return Err(ParseError::UnknownKind);
    }
    let c = match parse_u16(client) {
        Some(c) => c,
        None => {
            return Err(ParseError::BadClient);
        },
    };
    let t = match parse_u32(tx) {
        Some(t) => t,
        None => {
            return Err(ParseError::BadTx);
        },
    };
    if k_dep || k_wd {
        if amount.len() == 0 {
            return Err(ParseError::MissingAmount);
        }
        match parse_units(amount) {
            Some(a) => if k_dep {
                Ok(TransactionRecord::Deposit { client: c, tx: t, amount: a })
            } else {
                Ok(TransactionRecord::Withdrawal { client: c, tx: t, amount: a })
            },
            None => Err(ParseError::BadAmount),
        }
    } else if k_di {
        Ok(TransactionRecord::Dispute { client: c, tx: t })
    } else if k_re {
        Ok(TransactionRecord::Resolve { client: c, tx: t })
    } else {
        Ok(TransactionRecord::Chargeback { client: c, tx: t })
    }
}

} // verus!
