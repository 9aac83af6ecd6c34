//! Verified text building: decimal digits, zero-padded fields, and the
//! fixed four-decimal rendering used by the CSV rows.

use vstd::prelude::*;
use vstd::string::StringExecFns;

verus! {

/// The ASCII digit character for a value in `0 ..= 9`.
pub open spec fn digit_char(d: int) -> char {
    if d == 0 {
        '0'
    } else if d == 1 {
        '1'
    } else if d == 2 {
        '2'
    } else if d == 3 {
        '3'
    } else if d == 4 {
        '4'
    } else if d == 5 {
        '5'
    } else if d == 6 {
        '6'
    } else if d == 7 {
        '7'
    } else if d == 8 {
        '8'
    } else {
        '9'
    }
}

/// The ordinary decimal rendering of a natural number, no leading zeros.
pub open spec fn dec_chars(n: nat) -> Seq<char>
    decreases n,
{
    if n < 10 {
        seq![digit_char(n as int)]
    } else {
        dec_chars(n / 10) + seq![digit_char((n % 10) as int)]
    }
}

/// A two-digit zero-padded field, as in `%m`, `%d`, `%H`, `%M`, `%S`.
pub open spec fn pad2_chars(n: int) -> Seq<char> {
    seq![digit_char(n / 10), digit_char(n % 10)]
}

/// A four-digit zero-padded field: the year of `%Y`, and the fractional
/// part of a four-decimal number.
pub open spec fn pad4_chars(n: int) -> Seq<char> {
    seq![
        digit_char(n / 1000),
        digit_char((n / 100) % 10),
        digit_char((n / 10) % 10),
        digit_char(n % 10),
    ]
}

/// A value held in ten-thousandths, rendered with exactly four decimal
/// places, as `format!("{:.4}", ..)` renders an exact decimal.
pub open spec fn fixed4_chars(v: int) -> Seq<char> {
    let a = if v < 0 {
        -v
    } else {
        v
    };
    let sign: Seq<char> = if v < 0 {
        seq!['-']
    } else {
        Seq::empty()
    };
    sign + dec_chars((a / 10000) as nat) + seq!['.'] + pad4_chars(a % 10000)
}

/// Appends the single digit `d`.
pub fn push_digit(s: &mut String, d: u8)
    requires
        d < 10,
    ensures
        final(s)@ == old(s)@ + seq![digit_char(d as int)],
{
    match d {
        0 => {
            proof {
                reveal_strlit("0");
            }
            s.append("0");
        },
        1 => {
            proof {
                reveal_strlit("1");
            }
            s.append("1");
        },
        2 => {
            proof {
                reveal_strlit("2");
            }
            s.append("2");
        },
        3 => {
            proof {
                reveal_strlit("3");
            }
            s.append("3");
        },
        4 => {
            proof {
                reveal_strlit("4");
            }
            s.append("4");
        },
        5 => {
            proof {
                reveal_strlit("5");
            }
            s.append("5");
        },
        6 => {
            proof {
                reveal_strlit("6");
            }
            s.append("6");
        },
        7 => {
            proof {
                reveal_strlit("7");
            }
            s.append("7");
        },
        8 => {
            proof {
                reveal_strlit("8");
            }
            s.append("8");
        },
        _ => {
            proof {
                reveal_strlit("9");
            }
            s.append("9");
        },
    }
    proof {
        assert(final(s)@ =~= old(s)@ + seq![digit_char(d as int)]);
    }
}

/// Appends the decimal rendering of `n`, no leading zeros.
pub fn push_u64(s: &mut String, n: u64)
    ensures
        final(s)@ == old(s)@ + dec_chars(n as nat),
    decreases n,
{
    if n >= 10 {
        push_u64(s, n / 10);
        push_digit(s, (n % 10) as u8);
        proof {
            assert(final(s)@ =~= old(s)@ + dec_chars(n as nat));
        }
    } else {
        push_digit(s, n as u8);
    }
}

/// Appends `n` as a two-digit zero-padded field.
pub fn push_2digit(s: &mut String, n: u8)
    requires
        n < 100,
    ensures
        final(s)@ == old(s)@ + pad2_chars(n as int),
{
    push_digit(s, n / 10);
    push_digit(s, n % 10);
    proof {
        assert(final(s)@ =~= old(s)@ + pad2_chars(n as int));
    }
}

/// Appends `n` as a four-digit zero-padded field.
pub fn push_4digit(s: &mut String, n: u16)
    requires
        n < 10000,
    ensures
        final(s)@ == old(s)@ + pad4_chars(n as int),
{
    push_digit(s, (n / 1000) as u8);
    push_digit(s, ((n / 100) % 10) as u8);
    push_digit(s, ((n / 10) % 10) as u8);
    push_digit(s, (n % 10) as u8);
    proof {
        assert(final(s)@ =~= old(s)@ + pad4_chars(n as int));
    }
}

/// Appends a ten-thousandths value with exactly four decimal places.
pub fn push_fixed4(s: &mut String, v: i64)
    requires
        v > i64::MIN,
    ensures
        final(s)@ == old(s)@ + fixed4_chars(v as int),
{
    let a: i64 = if v < 0 {
        proof {
            reveal_strlit("-");
        }
        s.append("-");
        -v
    } else {
        v
    };
    push_u64(s, (a / 10000) as u64);
    proof {
        reveal_strlit(".");
    }
    s.append(".");
    push_4digit(s, (a % 10000) as u16);
    proof {
        assert(final(s)@ =~= old(s)@ + fixed4_chars(v as int));
    }
}

} // verus!
