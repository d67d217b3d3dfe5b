use vstd::prelude::*;
use vstd::string::StringExecFns;
use crate::client::ClientState;

verus! {

/// The decimal digit character for `d`.
pub open spec fn dec_digit(d: int) -> char
    recommends
        0 <= d < 10,
{
    if d == 0 {
        '0'
    } else if d == 1 {
        '1'
    } else if d == 2 {
        '2'
    } else if d == 3 {
        '3'
    } else if d == 4 {
        '4'
    } else if d == 5 {
        '5'
    } else if d == 6 {
        '6'
    } else if d == 7 {
        '7'
    } else if d == 8 {
        '8'
    } else {
        '9'
    }
}

/// The decimal numeral of `n`, most significant digit first, no leading
/// zeroes (except for the numeral of zero itself).
pub open spec fn dec_nat(n: nat) -> Seq<char>
    decreases n,
{
    if n < 10 {
        seq![dec_digit(n as int)]
    } else {
        dec_nat(n / 10).push(dec_digit((n % 10) as int))
    }
}

/// The decimal numeral of `n`, with a leading minus sign when negative.
pub open spec fn dec_int(n: int) -> Seq<char> {
    if n < 0 {
        seq!['-'] + dec_nat((-n) as nat)
    } else {
        dec_nat(n as nat)
    }
}

/// The rendering of a boolean.
pub open spec fn bool_str(b: bool) -> Seq<char> {
    if b {
        "true"@
    } else {
        "false"@
    }
}

/// One report row for an account: `available, held, total, locked`.
pub open spec fn client_row(c: ClientState) -> Seq<char> {
    dec_int(c.available) + ", "@ + dec_int(c.held) + ", "@ + dec_int(c.total()) + ", "@ + bool_str(
        c.locked,
    )
}

/// The report rows of all accounts whose client id is below `n`, in
/// ascending id order, each row ending in a newline.
pub open spec fn report_rows(m: Map<u16, ClientState>, n: int) -> Seq<char>
    decreases n,
{
    if n <= 0 {
        Seq::<char>::empty()
    } else {
        report_rows(m, n - 1) + if m.contains_key((n - 1) as u16) {
            dec_int(n - 1) + ", "@ + client_row(m[(n - 1) as u16]) + "\n"@
        } else {
            Seq::<char>::empty()
        }
    }
}

/// The full report: a header row followed by one row per known account,
/// accounts sorted ascending by client id.
pub open spec fn report(m: Map<u16, ClientState>) -> Seq<char> {
    "client, available, held, total, locked\n"@ + report_rows(m, 0x10000)
}

/// The one-character string for the decimal digit `d`.
fn digit_str(d: u8) -> (r: &'static str)
    requires
        d < 10,
    ensures
        r@ == seq![dec_digit(d as int)],
{
    proof {
        reveal_strlit("0");
        reveal_strlit("1");
        reveal_strlit("2");
        reveal_strlit("3");
        reveal_strlit("4");
        reveal_strlit("5");
        reveal_strlit("6");
        reveal_strlit("7");
        reveal_strlit("8");
        reveal_strlit("9");
    }
    let r = match d {
        0 => "0",
        1 => "1",
        2 => "2",
        3 => "3",
        4 => "4",
        5 => "5",
        6 => "6",
        7 => "7",
        8 => "8",
        _ => "9",
    };
    proof {
        assert(r@ =~= seq![dec_digit(d as int)]);
    }
    r
}

/// Append the decimal numeral of `n` to `s`.
pub fn push_dec_u128(s: &mut String, n: u128)
    ensures
        final(s)@ == old(s)@ + dec_nat(n as nat),
    decreases n,
{
    if n < 10 {
        s.append(digit_str(n as u8));
        proof {
            assert(s@ =~= old(s)@ + dec_nat(n as nat));
        }
    } else {
        push_dec_u128(s, n / 10);
        s.append(digit_str((n % 10) as u8));
        proof {
            assert(s@ =~= old(s)@ + dec_nat(n as nat));
        }
    }
}

/// Append the decimal numeral of `n` to `s`, minus sign included when `n` is
/// negative.
pub fn push_dec_i128(s: &mut String, n: i128)
    ensures
        final(s)@ == old(s)@ + dec_int(n as int),
{
    if n < 0 {
        s.append("-");
        let magnitude: u128 = ((-(n + 1)) as u128) + 1;
        proof {
            assert(magnitude as int == -(n as int));
        }
        push_dec_u128(s, magnitude);
        proof {
            reveal_strlit("-");
            assert(s@ =~= old(s)@ + dec_int(n as int));
        }
    } else {
        push_dec_u128(s, n as u128);
    }
}

} // verus!
