//! Decimal rendering of the integer field and timestamp values.

use vstd::prelude::*;
use vstd::string::StringExecFns;

verus! {

/// The character for one decimal digit value.
pub open spec fn digit_char(d: int) -> char {
    if d == 0 {
        '0'
    } else if d == 1 {
        '1'
    } else if d == 2 {
        '2'
    } else if d == 3 {
        '3'
    } else if d == 4 {
        '4'
    } else if d == 5 {
        '5'
    } else if d == 6 {
        '6'
    } else if d == 7 {
        '7'
    } else if d == 8 {
        '8'
    } else {
        '9'
    }
}

/// The decimal digits of `n`, most significant first, with no sign and no
/// leading zero except for `n == 0` itself.
pub open spec fn dec_digits(n: nat) -> Seq<char>
    decreases n,
{
    if n < 10 {
        seq![digit_char(n as int)]
    } else {
        dec_digits(n / 10) + seq![digit_char((n % 10) as int)]
    }
}

/// The decimal rendering of a signed value: the digits of its magnitude,
/// preceded by `-` when it is negative.
pub open spec fn signed_dec_digits(n: int) -> Seq<char> {
    if n < 0 {
        seq!['-'] + dec_digits((-n) as nat)
    } else {
        dec_digits(n as nat)
    }
}

/// Decimal digits are never whitespace, an escape, or a separator.
pub proof fn lemma_dec_digits_chars(n: nat)
    ensures
        dec_digits(n).len() > 0,
        forall|k: int|
            0 <= k < dec_digits(n).len() ==> #[trigger] dec_digits(n)[k] != ' ' && dec_digits(n)[k]
                != '\\' && dec_digits(n)[k] != '\n' && dec_digits(n)[k] != ',',
    decreases n,
{
    if n >= 10 {
        lemma_dec_digits_chars(n / 10);
    }
}

/// A signed decimal rendering holds only digits and a possible leading sign.
pub proof fn lemma_signed_dec_digits_chars(n: int)
    ensures
        signed_dec_digits(n).len() > 0,
        forall|k: int|
            0 <= k < signed_dec_digits(n).len() ==> #[trigger] signed_dec_digits(n)[k] != ' '
                && signed_dec_digits(n)[k] != '\\' && signed_dec_digits(n)[k] != '\n'
                && signed_dec_digits(n)[k] != ',',
{
    if n < 0 {
        lemma_dec_digits_chars((-n) as nat);
    } else {
        lemma_dec_digits_chars(n as nat);
    }
}

fn digit_text(d: u64) -> (r: &'static str)
    requires
        d < 10,
    ensures
        r@ == seq![digit_char(d as int)],
{
    if d == 0 {
        proof {
            reveal_strlit("0");
        }
        assert("0"@ =~= seq![digit_char(0)]);
        "0"
    } else if d == 1 {
        proof {
            reveal_strlit("1");
        }
        assert("1"@ =~= seq![digit_char(1)]);
        "1"
    } else if d == 2 {
        proof {
            reveal_strlit("2");
        }
        assert("2"@ =~= seq![digit_char(2)]);
        "2"
    } else if d == 3 {
        proof {
            reveal_strlit("3");
        }
        assert("3"@ =~= seq![digit_char(3)]);
        "3"
    } else if d == 4 {
        proof {
            reveal_strlit("4");
        }
        assert("4"@ =~= seq![digit_char(4)]);
        "4"
    } else if d == 5 {
        proof {
            reveal_strlit("5");
        }
        assert("5"@ =~= seq![digit_char(5)]);
        "5"
    } else if d == 6 {
        proof {
            reveal_strlit("6");
        }
        assert("6"@ =~= seq![digit_char(6)]);
        "6"
    } else if d == 7 {
        proof {
            reveal_strlit("7");
        }
        assert("7"@ =~= seq![digit_char(7)]);
        "7"
    } else if d == 8 {
        proof {
            reveal_strlit("8");
        }
        assert("8"@ =~= seq![digit_char(8)]);
        "8"
    } else {
        proof {
            reveal_strlit("9");
        }
        assert("9"@ =~= seq![digit_char(9)]);
        "9"
    }
}

/// Renders an unsigned 64-bit value as its decimal digits.
pub fn u64_text(n: u64) -> (r: String)
    ensures
        r@ == dec_digits(n as nat),
    decreases n,
{
    if n < 10 {
        String::from_str(digit_text(n))
    } else {
        let front = u64_text(n / 10);
        let r = front.concat(digit_text(n % 10));
        assert(n as nat / 10 == (n / 10) as nat);
        assert(n as nat % 10 == (n % 10) as nat);
        r
    }
}

/// Renders a signed 64-bit value as an optional `-` sign and decimal digits.
pub fn i64_text(n: i64) -> (r: String)
    ensures
        r@ == signed_dec_digits(n as int),
{
    if n >= 0 {
        u64_text(n as u64)
    } else {
        let m: u64 = if n == i64::MIN {
            9223372036854775808u64
        } else {
            (-n) as u64
        };
        assert(m as nat == (-(n as int)) as nat);
        proof {
            reveal_strlit("-");
        }
        assert("-"@ =~= seq!['-']);
        let mut r = String::from_str("-");
        let digits = u64_text(m);
        r.append(digits.as_str());
        r
    }
}

} // verus!
