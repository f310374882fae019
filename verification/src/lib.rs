//! Mission generator core for a naval simulation game: a unit catalog built
//! from the game's configuration files, declarative unit selection resolved
//! into concrete units, taskforce assembly with stable per-kind ordinals, and
//! serialization of the assembled mission into the game's sectioned key/value
//! format.

pub mod config;
pub mod dir;
pub mod ini;
pub mod mission;
pub mod reusable_id;
mod rng;
pub mod selection;
pub mod strutil;
pub mod unit_db;

use vstd::prelude::*;

verus! {

/// The character for a single decimal digit.
pub open spec fn digit_char(d: nat) -> char {
    if d == 0 {
        '0'
    } else if d == 1 {
        '1'
    } else if d == 2 {
        '2'
    } else if d == 3 {
        '3'
    } else if d == 4 {
        '4'
    } else if d == 5 {
        '5'
    } else if d == 6 {
        '6'
    } else if d == 7 {
        '7'
    } else if d == 8 {
        '8'
    } else {
        '9'
    }
}

/// A number rendered as its decimal digits, most significant first.
pub open spec fn dec_spec(n: nat) -> Seq<char>
    decreases n,
{
    if n < 10 {
        seq![digit_char(n)]
    } else {
        dec_spec(n / 10).push(digit_char(n % 10))
    }
}

/// Decimal renderings are nonempty and hold digit characters alone.
pub proof fn lemma_dec_digits(n: nat)
    ensures
        dec_spec(n).len() >= 1,
        forall|i: int| 0 <= i < dec_spec(n).len() ==> '0' <= #[trigger] dec_spec(n)[i] <= '9',
    decreases n,
{
    if n >= 10 {
        lemma_dec_digits(n / 10);
        assert forall|i: int|
            0 <= i < dec_spec(n).len() implies '0' <= #[trigger] dec_spec(n)[i] <= '9' by {
            if i < dec_spec(n / 10).len() {
                assert(dec_spec(n)[i] == dec_spec(n / 10)[i]);
            } else {
                assert(dec_spec(n)[i] == digit_char(n % 10));
            }
        }
    }
}

/// A number of ten or more renders to two or more digits.
pub proof fn lemma_dec_len(n: nat)
    ensures
        n >= 10 ==> dec_spec(n).len() >= 2,
{
    if n >= 10 {
        lemma_dec_digits(n / 10);
    }
}

/// Distinct numbers render to distinct decimal strings.
pub proof fn lemma_dec_injective(a: nat, b: nat)
    ensures
        dec_spec(a) == dec_spec(b) ==> a == b,
    decreases a + b,
{
    if dec_spec(a) == dec_spec(b) {
        lemma_dec_len(a);
        lemma_dec_len(b);
        if a < 10 && b < 10 {
            assert(dec_spec(a)[0] == digit_char(a));
            assert(dec_spec(b)[0] == digit_char(b));
            assert(digit_char(a) == digit_char(b));
            assert(a == b);
        } else if a < 10 && b >= 10 {
            assert(dec_spec(a).len() == 1);
            assert(false);
        } else if a >= 10 && b < 10 {
            assert(dec_spec(b).len() == 1);
            assert(false);
        } else {
            assert(dec_spec(a).last() == digit_char(a % 10));
            assert(dec_spec(b).last() == digit_char(b % 10));
            assert(digit_char(a % 10) == digit_char(b % 10));
            assert(a % 10 == b % 10);
            assert(dec_spec(a).drop_last() =~= dec_spec(a / 10));
            assert(dec_spec(b).drop_last() =~= dec_spec(b / 10));
            assert(dec_spec(a / 10) == dec_spec(b / 10));
            lemma_dec_injective(a / 10, b / 10);
        }
    }
}

/// The string for a single decimal digit.
fn digit_str(d: usize) -> (r: &'static str)
    requires
        d < 10,
    ensures
        r@ =~= seq![digit_char(d as nat)],
{
    proof {
        reveal_strlit("0");
        reveal_strlit("1");
        reveal_strlit("2");
        reveal_strlit("3");
        reveal_strlit("4");
        reveal_strlit("5");
        reveal_strlit("6");
        reveal_strlit("7");
        reveal_strlit("8");
        reveal_strlit("9");
    }
    match d {
        0 => "0",
        1 => "1",
        2 => "2",
        3 => "3",
        4 => "4",
        5 => "5",
        6 => "6",
        7 => "7",
        8 => "8",
        _ => "9",
    }
}

/// Decimal rendering of a `usize`, matching what the standard formatter
/// prints for it.
pub fn usize_to_string(n: usize) -> (s: String)
    ensures
        s@ == dec_spec(n as nat),
    decreases n,
{
    let mut s = if n >= 10 {
        usize_to_string(n / 10)
    } else {
        String::new()
    };
    s.append(digit_str(n % 10));
    proof {
        assert(s@ =~= dec_spec(n as nat));
    }
    s
}

} // verus!
