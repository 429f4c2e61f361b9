//! Decimal formatting of machine integers, shared by identifier renaming and
//! by the printers, with the facts the laws need about it.

use vstd::prelude::*;

verus! {

/// The decimal digit character for one digit value.
pub open spec fn digit_char(d: nat) -> char {
    if d == 0 {
        '0'
    } else if d == 1 {
        '1'
    } else if d == 2 {
        '2'
    } else if d == 3 {
        '3'
    } else if d == 4 {
        '4'
    } else if d == 5 {
        '5'
    } else if d == 6 {
        '6'
    } else if d == 7 {
        '7'
    } else if d == 8 {
        '8'
    } else {
        '9'
    }
}

/// The decimal rendering of a natural number, most significant digit first.
pub open spec fn dec_spec(n: nat) -> Seq<char>
    decreases n,
{
    if n < 10 {
        seq![digit_char(n)]
    } else {
        dec_spec(n / 10).push(digit_char(n % 10))
    }
}

pub proof fn lemma_dec_spec_len(n: nat)
    ensures
        dec_spec(n).len() >= 1,
    decreases n,
{
    if n >= 10 {
        lemma_dec_spec_len(n / 10);
    }
}

/// Distinct digits render as distinct characters.
pub proof fn lemma_digit_char_injective(a: nat, b: nat)
    requires
        a < 10,
        b < 10,
        a != b,
    ensures
        digit_char(a) != digit_char(b),
{
}

/// Distinct numbers have distinct decimal renderings.
pub proof fn lemma_dec_spec_injective(a: nat, b: nat)
    requires
        a != b,
    ensures
        dec_spec(a) != dec_spec(b),
    decreases a + b,
{
    if a < 10 && b < 10 {
        lemma_digit_char_injective(a, b);
        assert(dec_spec(a)[0] != dec_spec(b)[0]);
    } else if a < 10 && b >= 10 {
        lemma_dec_spec_len(b / 10);
        assert(dec_spec(b).len() >= 2);
    } else if a >= 10 && b < 10 {
        lemma_dec_spec_len(a / 10);
        assert(dec_spec(a).len() >= 2);
    } else {
        if dec_spec(a) == dec_spec(b) {
            assert(dec_spec(a).last() == dec_spec(b).last());
            assert(digit_char(a % 10) == digit_char(b % 10));
            if a % 10 != b % 10 {
                lemma_digit_char_injective(a % 10, b % 10);
            }
            assert(a % 10 == b % 10);
            assert(dec_spec(a).drop_last() =~= dec_spec(b).drop_last());
            assert(dec_spec(a).drop_last() =~= dec_spec(a / 10));
            assert(dec_spec(b).drop_last() =~= dec_spec(b / 10));
            assert(dec_spec(a / 10) == dec_spec(b / 10));
            if a / 10 != b / 10 {
                lemma_dec_spec_injective(a / 10, b / 10);
            }
            assert(a / 10 == b / 10);
            assert(a == 10 * (a / 10) + a % 10);
            assert(b == 10 * (b / 10) + b % 10);
            assert(a == b);
            assert(false);
        }
    }
}

/// The one-character string for one decimal digit.
pub fn digit_str(d: u64) -> (r: &'static str)
    requires
        d < 10,
    ensures
        r@ =~= seq![digit_char(d as nat)],
{
    proof {
        reveal_strlit("0");
        reveal_strlit("1");
        reveal_strlit("2");
        reveal_strlit("3");
        reveal_strlit("4");
        reveal_strlit("5");
        reveal_strlit("6");
        reveal_strlit("7");
        reveal_strlit("8");
        reveal_strlit("9");
    }
    if d == 0 {
        "0"
    } else if d == 1 {
        "1"
    } else if d == 2 {
        "2"
    } else if d == 3 {
        "3"
    } else if d == 4 {
        "4"
    } else if d == 5 {
        "5"
    } else if d == 6 {
        "6"
    } else if d == 7 {
        "7"
    } else if d == 8 {
        "8"
    } else {
        "9"
    }
}

/// Renders a machine integer in decimal.
pub fn format_u64(n: u64) -> (r: String)
    ensures
        r@ == dec_spec(n as nat),
    decreases n,
{
    if n < 10 {
        let r = digit_str(n).to_owned();
        assert(r@ =~= dec_spec(n as nat));
        r
    } else {
        let mut r = format_u64(n / 10);
        r.append(digit_str(n % 10));
        assert(r@ =~= dec_spec(n as nat));
        r
    }
}

} // verus!
