use vstd::prelude::*;
use vstd::string::StrSliceExecFns;
use crate::client::{is_monetary, ClientId};
use crate::transaction::{Transaction, TransactionId};

verus! {

// ---------------------------------------------------------------------------
// The grammar of one input line, as specification functions over the line's
// characters: fields are separated by commas, id and amount fields are
// trimmed of surrounding whitespace and read as decimal numerals.
// ---------------------------------------------------------------------------

/// The comma separated fields of `s`. A line always has at least one field;
/// an empty line has exactly one, itself empty.
pub open spec fn split_fields(s: Seq<char>) -> Seq<Seq<char>>
    decreases s.len(),
{
    if s.len() == 0 {
        seq![Seq::<char>::empty()]
    } else if s[0] == ',' {
        seq![Seq::<char>::empty()] + split_fields(s.skip(1))
    } else {
        let rest = split_fields(s.skip(1));
        seq![seq![s[0]] + rest[0]] + rest.skip(1)
    }
}

/// The whitespace characters stripped from both ends of a field.
pub open spec fn is_space(c: char) -> bool {
    c == ' ' || c == '\t' || c == '\r' || c == '\n'
}

/// `s` without its leading whitespace.
pub open spec fn trim_front(s: Seq<char>) -> Seq<char>
    decreases s.len(),
{
    if s.len() > 0 && is_space(s[0]) {
        trim_front(s.skip(1))
    } else {
        s
    }
}

/// `s` without its trailing whitespace.
pub open spec fn trim_back(s: Seq<char>) -> Seq<char>
    decreases s.len(),
{
    if s.len() > 0 && is_space(s[s.len() - 1]) {
        trim_back(s.take(s.len() - 1))
    } else {
        s
    }
}

/// `s` without whitespace on either end.
pub open spec fn trimmed(s: Seq<char>) -> Seq<char> {
    trim_back(trim_front(s))
}

/// Is `c` a decimal digit?
pub open spec fn is_digit(c: char) -> bool {
    48 <= c as u32 <= 57
}

/// The value of the digit `c`.
pub open spec fn digit_val(c: char) -> int {
    c as u32 - 48
}

/// Is `s` made of decimal digits only?
pub open spec fn all_digits(s: Seq<char>) -> bool {
    forall|i: int| 0 <= i < s.len() ==> is_digit(#[trigger] s[i])
}

/// The value of the digit string `s`, most significant digit first.
pub open spec fn digits_val(s: Seq<char>) -> nat
    decreases s.len(),
{
    if s.len() == 0 {
        0
    } else {
        (digits_val(s.take(s.len() - 1)) * 10 + digit_val(s[s.len() - 1])) as nat
    }
}

/// The value of `s` read as an unsigned decimal numeral: an optional leading
/// `+`, then one or more digits.
pub open spec fn parse_nat(s: Seq<char>) -> Option<nat> {
    let t = if s.len() > 0 && s[0] == '+' {
        s.skip(1)
    } else {
        s
    };
    if t.len() > 0 && all_digits(t) {
        Some(digits_val(t))
    } else {
        None
    }
}

/// A field read as a `u16`: trimmed, then an unsigned numeral in range.
pub open spec fn parse_u16(s: Seq<char>) -> Option<u16> {
    match parse_nat(trimmed(s)) {
        Some(n) => if n <= u16::MAX {
            Some(n as u16)
        } else {
            None
        },
        None => None,
    }
}

/// A field read as a `u32`: trimmed, then an unsigned numeral in range.
pub open spec fn parse_u32(s: Seq<char>) -> Option<u32> {
    match parse_nat(trimmed(s)) {
        Some(n) => if n <= u32::MAX {
            Some(n as u32)
        } else {
            None
        },
        None => None,
    }
}

/// A field read as an `i64`: trimmed, then an optionally signed decimal
/// numeral in range.
pub open spec fn parse_i64(s: Seq<char>) -> Option<i64> {
    let t = trimmed(s);
    if t.len() > 0 && t[0] == '-' {
        let d = t.skip(1);
        if d.len() > 0 && all_digits(d) && digits_val(d) <= 0x8000000000000000 {
            Some((-(digits_val(d) as int)) as i64)
        } else {
            None
        }
    } else {
        match parse_nat(t) {
            Some(n) => if n <= i64::MAX {
                Some(n as i64)
            } else {
                None
            },
            None => None,
        }
    }
}

// ---------------------------------------------------------------------------
// Lemmas connecting the specification functions above to the left-to-right
// scans that the executable code performs.
// ---------------------------------------------------------------------------

/// A line always splits into at least one field.
proof fn lemma_split_fields_len(s: Seq<char>)
    ensures
        split_fields(s).len() >= 1,
    decreases s.len(),
{
    if s.len() > 0 && s[0] != ',' {
        lemma_split_fields_len(s.skip(1));
    }
}

/// Splitting a suffix that starts with a comma-free stretch: the stretch is
/// the first field, and a comma after it separates it from the fields of the
/// rest.
proof fn lemma_split_no_comma_prefix(s: Seq<char>, i: int, j: int)
    requires
        0 <= i <= j <= s.len(),
        forall|t: int| i <= t < j ==> s[t] != ',',
    ensures
        j == s.len() ==> split_fields(s.skip(i)) == seq![s.subrange(i, j)],
        j < s.len() && s[j] == ',' ==> split_fields(s.skip(i)) == seq![s.subrange(i, j)]
            + split_fields(s.skip(j + 1)),
    decreases j - i,
{
    if i == j {
        if j == s.len() {
            assert(s.skip(i) =~= Seq::<char>::empty());
            assert(s.subrange(i, j) =~= Seq::<char>::empty());
        } else if s[j] == ',' {
            assert(s.skip(i)[0] == ',');
            assert(s.skip(i).skip(1) =~= s.skip(j + 1));
            assert(s.subrange(i, j) =~= Seq::<char>::empty());
            assert(split_fields(s.skip(i)) =~~= seq![s.subrange(i, j)] + split_fields(
                s.skip(j + 1),
            ));
        }
    } else {
        lemma_split_no_comma_prefix(s, i + 1, j);
        lemma_split_fields_len(s.skip(i + 1));
        assert(s.skip(i)[0] == s[i]);
        assert(s.skip(i).skip(1) =~= s.skip(i + 1));
        let rest = split_fields(s.skip(i + 1));
        if j == s.len() {
            assert(rest == seq![s.subrange(i + 1, j)]);
            assert(seq![s[i]] + s.subrange(i + 1, j) =~= s.subrange(i, j));
            assert(split_fields(s.skip(i)) =~~= seq![s.subrange(i, j)]);
        } else if s[j] == ',' {
            assert(rest == seq![s.subrange(i + 1, j)] + split_fields(s.skip(j + 1)));
            assert(rest[0] == s.subrange(i + 1, j));
            assert(seq![s[i]] + s.subrange(i + 1, j) =~= s.subrange(i, j));
            assert(rest.skip(1) =~~= split_fields(s.skip(j + 1)));
            assert(split_fields(s.skip(i)) =~~= seq![s.subrange(i, j)] + split_fields(
                s.skip(j + 1),
            ));
        }
    }
}

/// Reading more digits can only increase the value of a digit string.
proof fn lemma_digits_val_prefix_le(s: Seq<char>, j: int)
    requires
        0 <= j <= s.len(),
        all_digits(s),
    ensures
        digits_val(s.take(j)) <= digits_val(s),
    decreases s.len() - j,
{
    if j == s.len() {
        assert(s.take(j) =~= s);
    } else {
        lemma_digits_val_prefix_le(s, j + 1);
        assert(s.take(j + 1).take(j) =~= s.take(j));
        assert(digits_val(s.take(j + 1)) == (digits_val(s.take(j)) * 10 + digit_val(
            s.take(j + 1)[j],
        )) as nat);
        assert(digits_val(s.take(j)) * 10 >= digits_val(s.take(j)));
    }
}

// ---------------------------------------------------------------------------
// Executable scanning helpers.
// ---------------------------------------------------------------------------

/// Compare two strings character by character.
fn str_eq(a: &str, b: &str) -> (r: bool)
    ensures
        r == (a@ == b@),
{
    let na = a.unicode_len();
    let nb = b.unicode_len();
    if na != nb {
        return false;
    }
    let mut i: usize = 0;
    while i < na
        invariant
            i <= na,
            na == a@.len(),
            na == b@.len(),
            forall|t: int| 0 <= t < i ==> a@[t] == b@[t],
        decreases na - i,
    {
        if a.get_char(i) != b.get_char(i) {
            return false;
        }
        i = i + 1;
    }
    proof {
        assert(a@ =~= b@);
    }
    true
}

/// Split a line into its comma separated fields.
fn split_commas<'a>(s: &'a str) -> (r: Vec<&'a str>)
    ensures
        r@.len() == split_fields(s@).len(),
        forall|t: int| 0 <= t < r@.len() ==> (#[trigger] r@[t])@ == split_fields(s@)[t],
{
    let n = s.unicode_len();
    let mut fields: Vec<&'a str> = Vec::new();
    let mut start: usize = 0;
    let mut j: usize = 0;
    proof {
        assert(s@.skip(0) =~= s@);
        assert(split_fields(s@).skip(0) =~= split_fields(s@));
    }
    loop
        invariant_except_break
            forall|t: int| start <= t < j ==> s@[t] != ',',
            split_fields(s@.skip(start as int)) == split_fields(s@).skip(fields@.len() as int),
        invariant
            start <= j <= n,
            n == s@.len(),
            fields@.len() <= split_fields(s@).len(),
            forall|t: int| 0 <= t < fields@.len() ==> (#[trigger] fields@[t])@ == split_fields(
                s@,
            )[t],
        ensures
            fields@.len() == split_fields(s@).len(),
        decreases n - j,
    {
        let ghost len_before = fields@.len() as int;
        if j == n {
            let f = s.substring_char(start, n);
            proof {
                lemma_split_no_comma_prefix(s@, start as int, n as int);
                assert(split_fields(s@).skip(len_before) =~= seq![s@.subrange(start as int, n as int)]);
                assert(split_fields(s@).len() == len_before + 1);
                assert(split_fields(s@)[len_before] == split_fields(s@).skip(len_before)[0]);
                assert(split_fields(s@)[len_before] == s@.subrange(start as int, n as int));
            }
            fields.push(f);
            break ;
        }
        let c = s.get_char(j);
        if c == ',' {
            let f = s.substring_char(start, j);
            proof {
                lemma_split_no_comma_prefix(s@, start as int, j as int);
                lemma_split_fields_len(s@.skip(j as int + 1));
                assert(split_fields(s@).skip(len_before)[0] == split_fields(s@)[len_before]);
                assert(split_fields(s@)[len_before] == s@.subrange(start as int, j as int));
                assert(split_fields(s@).skip(len_before).skip(1) =~~= split_fields(s@).skip(
                    len_before + 1,
                ));
                assert((seq![s@.subrange(start as int, j as int)] + split_fields(
                    s@.skip(j as int + 1),
                )).skip(1) =~~= split_fields(s@.skip(j as int + 1)));
                assert(split_fields(s@.skip(j as int + 1)) =~~= split_fields(s@).skip(
                    len_before + 1,
                ));
            }
            fields.push(f);
            start = j + 1;
        }
        j = j + 1;
    }
    fields
}

/// Is `c` one of the whitespace characters trimmed from a field?
fn is_space_char(c: char) -> (r: bool)
    ensures
        r == is_space(c),
{
    c == ' ' || c == '\t' || c == '\r' || c == '\n'
}

/// Strip whitespace from both ends of a field.
fn trim_str<'a>(s: &'a str) -> (r: &'a str)
    ensures
        r@ == trimmed(s@),
{
    let n = s.unicode_len();
    let mut a: usize = 0;
    proof {
        assert(s@.skip(0) =~= s@);
    }
    while a < n && is_space_char(s.get_char(a))
        invariant
            a <= n,
            n == s@.len(),
            trim_front(s@) == trim_front(s@.skip(a as int)),
        decreases n - a,
    {
        proof {
            assert(s@.skip(a as int).skip(1) =~= s@.skip(a as int + 1));
        }
        a = a + 1;
    }
    proof {
        assert(trim_front(s@.skip(a as int)) == s@.skip(a as int));
    }
    let mut b: usize = n;
    while b > a && is_space_char(s.get_char(b - 1))
        invariant
            a <= b <= n,
            n == s@.len(),
            trim_back(s@.skip(a as int)) == trim_back(s@.subrange(a as int, b as int)),
        decreases b,
    {
        proof {
            assert(s@.subrange(a as int, b as int).take(b - a - 1) =~= s@.subrange(
                a as int,
                b as int - 1,
            ));
        }
        b = b - 1;
    }
    proof {
        assert(trim_back(s@.subrange(a as int, b as int)) == s@.subrange(a as int, b as int));
        assert(s@.skip(a as int) =~= s@.subrange(a as int, n as int));
    }
    s.substring_char(a, b)
}

/// Read the digits of `t` from position `from` on as an unsigned numeral of
/// value at most `max`.
fn parse_digits(t: &str, from: usize, max: u64) -> (r: Option<u64>)
    requires
        from <= t@.len(),
    ensures
        r is Some <==> (from < t@.len() && all_digits(t@.skip(from as int)) && digits_val(
            t@.skip(from as int),
        ) <= max),
        r matches Some(v) ==> v == digits_val(t@.skip(from as int)),
{
    let n = t.unicode_len();
    if from == n {
        return None;
    }
    let ghost digits = t@.skip(from as int);
    let mut acc: u64 = 0;
    let mut k: usize = from;
    while k < n
        invariant
            from <= k <= n,
            n == t@.len(),
            digits == t@.skip(from as int),
            forall|u: int| from <= u < k ==> is_digit(#[trigger] t@[u]),
            acc <= max,
            acc as nat == digits_val(t@.subrange(from as int, k as int)),
        decreases n - k,
    {
        let c = t.get_char(k);
        let v = c as u32;
        proof {
            assert(digits[k - from] == t@[k as int]);
        }
        if v < 48 || v > 57 {
            return None;
        }
        let d: u64 = (v - 48) as u64;
        proof {
            assert(t@.subrange(from as int, k as int + 1).take(k - from) =~= t@.subrange(
                from as int,
                k as int,
            ));
            assert(digits_val(t@.subrange(from as int, k as int + 1)) == (digits_val(
                t@.subrange(from as int, k as int),
            ) * 10 + digit_val(t@[k as int])) as nat);
            assert(t@.subrange(from as int, k as int + 1) =~= digits.take(k + 1 - from));
        }
        if acc > max / 10 {
            proof {
                assert(acc * 10 > max) by (nonlinear_arith)
                    requires
                        acc > max / 10,
                        max / 10 * 10 + max % 10 == max,
                        max % 10 < 10,
                ;
                if all_digits(digits) {
                    lemma_digits_val_prefix_le(digits, k + 1 - from);
                    assert(digits_val(digits) > max);
                }
            }
            return None;
        }
        proof {
            assert(acc * 10 <= max) by (nonlinear_arith)
                requires
                    acc <= max / 10,
                    max / 10 * 10 + max % 10 == max,
                    max % 10 < 10,
            ;
        }
        let acc10: u64 = acc * 10;
        if d > max - acc10 {
            proof {
                if all_digits(digits) {
                    lemma_digits_val_prefix_le(digits, k + 1 - from);
                    assert(digits_val(digits) > max);
                }
            }
            return None;
        }
        acc = acc10 + d;
        k = k + 1;
    }
    proof {
        assert(t@.subrange(from as int, n as int) =~= digits);
    }
    Some(acc)
}

/// A field read as a `u16`.
fn parse_u16_field(f: &str) -> (r: Option<u16>)
    ensures
        r == parse_u16(f@),
{
    let t = trim_str(f);
    let n = t.unicode_len();
    let from: usize = if n > 0 && t.get_char(0) == '+' {
        1
    } else {
        0
    };
    proof {
        if !(n > 0 && t@[0] == '+') {
            assert(t@.skip(0) =~= t@);
        }
    }
    match parse_digits(t, from, 65535) {
        Some(v) => Some(v as u16),
        None => None,
    }
}

/// A field read as a `u32`.
fn parse_u32_field(f: &str) -> (r: Option<u32>)
    ensures
        r == parse_u32(f@),
{
    let t = trim_str(f);
    let n = t.unicode_len();
    let from: usize = if n > 0 && t.get_char(0) == '+' {
        1
    } else {
        0
    };
    proof {
        if !(n > 0 && t@[0] == '+') {
            assert(t@.skip(0) =~= t@);
        }
    }
    match parse_digits(t, from, 4294967295) {
        Some(v) => Some(v as u32),
        None => None,
    }
}

/// A field read as an `i64`.
fn parse_i64_field(f: &str) -> (r: Option<i64>)
    ensures
        r == parse_i64(f@),
{
    let t = trim_str(f);
    let n = t.unicode_len();
    if n > 0 && t.get_char(0) == '-' {
        match parse_digits(t, 1, 0x8000000000000000u64) {
            Some(v) => {
                let neg = if v == 0x8000000000000000u64 {
                    i64::MIN
                } else {
                    -(v as i64)
                };
                proof {
                    assert(neg as int == -(digits_val(t@.skip(1)) as int));
                }
                Some(neg)
            },
            None => None,
        }
    } else {
        let from: usize = if n > 0 && t.get_char(0) == '+' {
            1
        } else {
            0
        };
        proof {
            if !(n > 0 && t@[0] == '+') {
                assert(t@.skip(0) =~= t@);
            }
        }
        match parse_digits(t, from, 9223372036854775807u64) {
            Some(v) => Some(v as i64),
            None => None,
        }
    }
}

// ---------------------------------------------------------------------------
// Record-level parsing.
// ---------------------------------------------------------------------------

/// A warning type for an invalid line.
#[derive(Debug, PartialEq, Eq)]
pub struct InvalidTransactionLineWarning {}

/// The views of a vector of string fields.
pub open spec fn field_views(v: Seq<&str>) -> Seq<Seq<char>> {
    Seq::new(v.len(), |i: int| v[i]@)
}

/// The client id and transaction id carried by the second and third field of
/// a record.
pub open spec fn parse_ids_spec(fields: Seq<Seq<char>>) -> Option<(TransactionId, ClientId)> {
    if fields.len() >= 3 {
        match (parse_u16(fields[1]), parse_u32(fields[2])) {
            (Some(client), Some(tx)) => Some((TransactionId(tx), ClientId(client))),
            _ => None,
        }
    } else {
        None
    }
}

/// A deposit or withdrawal record: ids, then an amount in the fourth field.
pub open spec fn parse_monetary_spec(fields: Seq<Seq<char>>, deposit: bool) -> Option<
    (TransactionId, ClientId, Transaction),
> {
    if fields.len() >= 4 {
        match (parse_ids_spec(fields), parse_i64(fields[3])) {
            (Some(ids), Some(amount)) => Some(
                (
                    ids.0,
                    ids.1,
                    if deposit {
                        Transaction::Deposit(amount)
                    } else {
                        Transaction::Withdrawal(amount)
                    },
                ),
            ),
            _ => None,
        }
    } else {
        None
    }
}

/// A dispute, resolve or chargeback record: the transaction id field names
/// the referenced transaction, and the record itself gets the reserved id
/// `0`.
pub open spec fn parse_reference_spec(fields: Seq<Seq<char>>, kind: int) -> Option<
    (TransactionId, ClientId, Transaction),
> {
    match parse_ids_spec(fields) {
        Some(ids) => Some(
            (
                TransactionId(0),
                ids.1,
                if kind == 0 {
                    Transaction::Dispute(ids.0)
                } else if kind == 1 {
                    Transaction::Resolve(ids.0)
                } else {
                    Transaction::Chargeback(ids.0)
                },
            ),
        ),
        None => None,
    }
}

/// What a line holds: the record kind named by its first field, then the
/// fields that kind uses. Lines with an unknown keyword, missing fields or
/// unreadable numbers carry nothing.
pub open spec fn parse_line_spec(s: Seq<char>) -> Option<(TransactionId, ClientId, Transaction)> {
    let fields = split_fields(s);
    if fields[0] == "deposit"@ {
        parse_monetary_spec(fields, true)
    } else if fields[0] == "withdrawal"@ {
        parse_monetary_spec(fields, false)
    } else if fields[0] == "dispute"@ {
        parse_reference_spec(fields, 0)
    } else if fields[0] == "resolve"@ {
        parse_reference_spec(fields, 1)
    } else if fields[0] == "chargeback"@ {
        parse_reference_spec(fields, 2)
    } else {
        None
    }
}

/// How many fields a record of this kind uses; any further field is extra.
pub open spec fn record_width(t: Transaction) -> int {
    if is_monetary(t) {
        4
    } else {
        3
    }
}

/// Read the client id and the transaction id fields of a record.
pub fn parse_ids(fields: &Vec<&str>) -> (r: Result<
    (TransactionId, ClientId),
    InvalidTransactionLineWarning,
>)
    ensures
        match r {
            Ok(ids) => parse_ids_spec(field_views(fields@)) == Some(ids),
            Err(_) => parse_ids_spec(field_views(fields@)) is None,
        },
{
    if fields.len() < 3 {
        return Err(InvalidTransactionLineWarning {});
    }
    let client = match parse_u16_field(fields[1]) {
        Some(c) => c,
        None => {
            return Err(InvalidTransactionLineWarning {});
        },
    };
    let tx = match parse_u32_field(fields[2]) {
        Some(t) => t,
        None => {
            return Err(InvalidTransactionLineWarning {});
        },
    };
    Ok((TransactionId(tx), ClientId(client)))
}

fn parse_deposit(fields: &Vec<&str>) -> (r: Result<
    (TransactionId, ClientId, Transaction),
    InvalidTransactionLineWarning,
>)
    ensures
        match r {
            Ok(p) => parse_monetary_spec(field_views(fields@), true) == Some(p),
            Err(_) => parse_monetary_spec(field_views(fields@), true) is None,
        },
{
    let ids = match parse_ids(fields) {
        Ok(ids) => ids,
        Err(w) => {
            return Err(w);
        },
    };
    if fields.len() < 4 {
        return Err(InvalidTransactionLineWarning {});
    }
    match parse_i64_field(fields[3]) {
        Some(amount) => Ok((ids.0, ids.1, Transaction::Deposit(amount))),
        None => Err(InvalidTransactionLineWarning {}),
    }
}

fn parse_withdrawal(fields: &Vec<&str>) -> (r: Result<
    (TransactionId, ClientId, Transaction),
    InvalidTransactionLineWarning,
>)
    ensures
        match r {
            Ok(p) => parse_monetary_spec(field_views(fields@), false) == Some(p),
            Err(_) => parse_monetary_spec(field_views(fields@), false) is None,
        },
{
    let ids = match parse_ids(fields) {
        Ok(ids) => ids,
        Err(w) => {
            return Err(w);
        },
    };
    if fields.len() < 4 {
        return Err(InvalidTransactionLineWarning {});
    }
    match parse_i64_field(fields[3]) {
        Some(amount) => Ok((ids.0, ids.1, Transaction::Withdrawal(amount))),
        None => Err(InvalidTransactionLineWarning {}),
    }
}

fn parse_dispute(fields: &Vec<&str>) -> (r: Result<
    (TransactionId, ClientId, Transaction),
    InvalidTransactionLineWarning,
>)
    ensures
        match r {
            Ok(p) => parse_reference_spec(field_views(fields@), 0) == Some(p),
            Err(_) => parse_reference_spec(field_views(fields@), 0) is None,
        },
{
    match parse_ids(fields) {
        Ok(ids) => Ok((TransactionId::default(), ids.1, Transaction::Dispute(ids.0))),
        Err(w) => Err(w),
    }
}

fn parse_resolve(fields: &Vec<&str>) -> (r: Result<
    (TransactionId, ClientId, Transaction),
    InvalidTransactionLineWarning,
>)
    ensures
        match r {
            Ok(p) => parse_reference_spec(field_views(fields@), 1) == Some(p),
            Err(_) => parse_reference_spec(field_views(fields@), 1) is None,
        },
{
    match parse_ids(fields) {
        Ok(ids) => Ok((TransactionId::default(), ids.1, Transaction::Resolve(ids.0))),
        Err(w) => Err(w),
    }
}

fn parse_chargeback(fields: &Vec<&str>) -> (r: Result<
    (TransactionId, ClientId, Transaction),
    InvalidTransactionLineWarning,
>)
    ensures
        match r {
            Ok(p) => parse_reference_spec(field_views(fields@), 2) == Some(p),
            Err(_) => parse_reference_spec(field_views(fields@), 2) is None,
        },
{
    match parse_ids(fields) {
        Ok(ids) => Ok((TransactionId::default(), ids.1, Transaction::Chargeback(ids.0))),
        Err(w) => Err(w),
    }
}

/// Parse one input line into a record.
///
/// On success the result also says whether the line carried extra fields
/// beyond the ones its record kind uses; such a line is still valid, the
/// caller may warn about it.
pub fn parse_line(line: &str) -> (r: Result<
    (TransactionId, ClientId, Transaction, bool),
    InvalidTransactionLineWarning,
>)
    ensures
        match r {
            Ok(p) => parse_line_spec(line@) == Some((p.0, p.1, p.2)) && (p.3 <==> split_fields(
                line@,
            ).len() > record_width(p.2)),
            Err(_) => parse_line_spec(line@) is None,
        },
{
    let fields = split_commas(line);
    proof {
        lemma_split_fields_len(line@);
        assert(field_views(fields@) =~~= split_fields(line@));
    }
    let keyword = fields[0];
    let parsed = if str_eq(keyword, "deposit") {
        parse_deposit(&fields)
    } else if str_eq(keyword, "withdrawal") {
        parse_withdrawal(&fields)
    } else if str_eq(keyword, "dispute") {
        parse_dispute(&fields)
    } else if str_eq(keyword, "resolve") {
        parse_resolve(&fields)
    } else if str_eq(keyword, "chargeback") {
        parse_chargeback(&fields)
    } else {
        Err(InvalidTransactionLineWarning {})
    };
    match parsed {
        Ok(p) => {
            let width: usize = match p.2 {
                Transaction::Deposit(_) | Transaction::Withdrawal(_) => 4,
                _ => 3,
            };
            Ok((p.0, p.1, p.2, fields.len() > width))
        },
        Err(w) => Err(w),
    }
}

} // verus!
