//! Decimal rendering of collision counters, with a proved bound on the
//! number of digits so that suffixed sheet names stay within the length cap.

use vstd::prelude::*;
use vstd::string::StringExecFns;

verus! {

pub open spec fn pow10(k: nat) -> nat
    decreases k,
{
    if k == 0 {
        1
    } else {
        10 * pow10((k - 1) as nat)
    }
}

/// The character for a single decimal digit.
pub open spec fn digit_char(d: nat) -> char {
    if d == 0 {
        '0'
    } else if d == 1 {
        '1'
    } else if d == 2 {
        '2'
    } else if d == 3 {
        '3'
    } else if d == 4 {
        '4'
    } else if d == 5 {
        '5'
    } else if d == 6 {
        '6'
    } else if d == 7 {
        '7'
    } else if d == 8 {
        '8'
    } else {
        '9'
    }
}

/// The usual decimal digit string of `n`, most significant digit first.
pub open spec fn dec_str(n: nat) -> Seq<char>
    decreases n,
{
    if n < 10 {
        seq![digit_char(n)]
    } else {
        dec_str(n / 10) + seq![digit_char(n % 10)]
    }
}

proof fn lemma_dec_str_len(n: nat, k: nat)
    requires
        1 <= k,
        n < pow10(k),
    ensures
        1 <= dec_str(n).len() <= k,
    decreases n,
{
    if n < 10 {
    } else {
        assert(pow10(k) == 10 * pow10((k - 1) as nat));
        assert(k >= 2) by {
            if k == 1 {
                assert(pow10(1nat) == 10);
            }
        }
        assert(n == 10 * (n / 10) + n % 10);
        assert(n / 10 < pow10((k - 1) as nat));
        lemma_dec_str_len(n / 10, (k - 1) as nat);
    }
}

/// Any value a 64-bit counter can hold prints in at most 20 digits.
pub proof fn lemma_dec_str_len_u64(n: nat)
    requires
        n <= u64::MAX,
    ensures
        1 <= dec_str(n).len() <= 20,
{
    assert(pow10(20) == 100000000000000000000nat) by {
        reveal_with_fuel(pow10, 21);
    }
    lemma_dec_str_len(n, 20);
}

/// One of the ten decimal digit characters.
pub open spec fn is_digit_char(c: char) -> bool {
    c == '0' || c == '1' || c == '2' || c == '3' || c == '4' || c == '5' || c == '6' || c == '7'
        || c == '8' || c == '9'
}

/// Every character of a decimal rendering is a digit.
pub proof fn lemma_dec_str_digits(n: nat)
    ensures
        forall|i: int| 0 <= i < dec_str(n).len() ==> is_digit_char(#[trigger] dec_str(n)[i]),
    decreases n,
{
    if n < 10 {
        assert(dec_str(n)[0] == digit_char(n));
        assert(is_digit_char(digit_char(n)));
    } else {
        lemma_dec_str_digits(n / 10);
        assert forall|i: int| 0 <= i < dec_str(n).len() implies is_digit_char(
            #[trigger] dec_str(n)[i],
        ) by {
            if i < dec_str(n / 10).len() {
                assert(dec_str(n)[i] == dec_str(n / 10)[i]);
            } else {
                assert(dec_str(n)[i] == digit_char(n % 10));
                assert(is_digit_char(digit_char(n % 10)));
            }
        }
    }
}

/// Decimal renderings are injective: equal digit strings come from equal
/// numbers.
pub proof fn lemma_dec_str_injective(a: nat, b: nat)
    requires
        dec_str(a) == dec_str(b),
    ensures
        a == b,
    decreases a,
{
    if a < 10 && b < 10 {
        assert(dec_str(a) == seq![digit_char(a)]);
        assert(dec_str(b) == seq![digit_char(b)]);
        assert(digit_char(a) == digit_char(b)) by {
            assert(seq![digit_char(a)][0] == digit_char(a));
            assert(seq![digit_char(b)][0] == digit_char(b));
        }
        assert(a == b);
    } else if a < 10 {
        assert(dec_str(b).len() == dec_str(b / 10).len() + 1);
        assert(dec_str(b / 10).len() >= 1);
    } else if b < 10 {
        assert(dec_str(a).len() == dec_str(a / 10).len() + 1);
        assert(dec_str(a / 10).len() >= 1);
    } else {
        assert(dec_str(a) == dec_str(a / 10) + seq![digit_char(a % 10)]);
        assert(dec_str(b) == dec_str(b / 10) + seq![digit_char(b % 10)]);
        assert(digit_char(a % 10) == digit_char(b % 10)) by {
            let la = dec_str(a).len() as int;
            assert(dec_str(a)[la - 1] == digit_char(a % 10));
            assert(dec_str(b)[la - 1] == digit_char(b % 10));
        }
        assert(a % 10 == b % 10);
        assert(dec_str(a / 10) =~= dec_str(b / 10)) by {
            assert(dec_str(a / 10).len() == dec_str(a).len() - 1);
            assert(dec_str(b / 10).len() == dec_str(b).len() - 1);
            assert(forall|i: int|
                0 <= i < dec_str(a / 10).len() ==> #[trigger] dec_str(a / 10)[i] == dec_str(a)[i]);
            assert(forall|i: int|
                0 <= i < dec_str(b / 10).len() ==> #[trigger] dec_str(b / 10)[i] == dec_str(b)[i]);
        }
        lemma_dec_str_injective(a / 10, b / 10);
        assert(a == 10 * (a / 10) + a % 10);
        assert(b == 10 * (b / 10) + b % 10);
    }
}

fn digit_str(d: u64) -> (r: &'static str)
    requires
        d < 10,
    ensures
        r@ == seq![digit_char(d as nat)],
{
    let r: &'static str = if d == 0 {
        "0"
    } else if d == 1 {
        "1"
    } else if d == 2 {
        "2"
    } else if d == 3 {
        "3"
    } else if d == 4 {
        "4"
    } else if d == 5 {
        "5"
    } else if d == 6 {
        "6"
    } else if d == 7 {
        "7"
    } else if d == 8 {
        "8"
    } else {
        "9"
    };
    proof {
        reveal_strlit("0");
        reveal_strlit("1");
        reveal_strlit("2");
        reveal_strlit("3");
        reveal_strlit("4");
        reveal_strlit("5");
        reveal_strlit("6");
        reveal_strlit("7");
        reveal_strlit("8");
        reveal_strlit("9");
        assert(r@ =~= seq![digit_char(d as nat)]);
    }
    r
}

/// Renders `n` in decimal.
pub fn u64_to_dec(n: u64) -> (r: String)
    ensures
        r@ == dec_str(n as nat),
    decreases n,
{
    if n < 10 {
        digit_str(n).to_owned()
    } else {
        let mut s = u64_to_dec(n / 10);
        s.append(digit_str(n % 10));
        s
    }
}

} // verus!
