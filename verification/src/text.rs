//! Score display text.
//!
//! The score label is rebuilt from the cumulative score whenever it changes;
//! its exact contents are part of the contract.

use vstd::prelude::*;
use vstd::string::StringExecFns;

use crate::effect::Score;

verus! {

/// The decimal digit character for `d`.
pub open spec fn dec_digit(d: int) -> Seq<char> {
    if d == 0 {
        "0"@
    } else if d == 1 {
        "1"@
    } else if d == 2 {
        "2"@
    } else if d == 3 {
        "3"@
    } else if d == 4 {
        "4"@
    } else if d == 5 {
        "5"@
    } else if d == 6 {
        "6"@
    } else if d == 7 {
        "7"@
    } else if d == 8 {
        "8"@
    } else {
        "9"@
    }
}

/// The decimal rendering of `n`, without leading zeroes, for `0 <= n < 1000`.
pub open spec fn dec_str(n: int) -> Seq<char> {
    if n < 10 {
        dec_digit(n)
    } else if n < 100 {
        dec_digit(n / 10) + dec_digit(n % 10)
    } else {
        dec_digit(n / 100) + dec_digit(n / 10 % 10) + dec_digit(n % 10)
    }
}

/// The running score label.
pub open spec fn score_text(sc: Score) -> Seq<char> {
    "Score: "@ + dec_str(sc.team02 as int) + " - "@ + dec_str(sc.team13 as int)
}

/// The label shown once the game is over.
pub open spec fn final_score_text(sc: Score) -> Seq<char> {
    "Final Score: "@ + dec_str(sc.team02 as int) + " - "@ + dec_str(sc.team13 as int)
}

/// Appends the decimal digit character for `d`.
fn push_digit(s: &mut String, d: u8)
    requires
        d < 10,
    ensures
        final(s)@ == old(s)@ + dec_digit(d as int),
{
    match d {
        0 => s.append("0"),
        1 => s.append("1"),
        2 => s.append("2"),
        3 => s.append("3"),
        4 => s.append("4"),
        5 => s.append("5"),
        6 => s.append("6"),
        7 => s.append("7"),
        8 => s.append("8"),
        _ => s.append("9"),
    }
}

/// Appends the decimal rendering of `n`.
fn push_dec(s: &mut String, n: u8)
    ensures
        final(s)@ == old(s)@ + dec_str(n as int),
{
    let ghost s0 = s@;
    if n >= 100 {
        push_digit(s, n / 100);
        push_digit(s, n / 10 % 10);
        push_digit(s, n % 10);
        proof {
            assert(s@ =~= s0 + dec_str(n as int));
        }
    } else if n >= 10 {
        push_digit(s, n / 10);
        push_digit(s, n % 10);
        proof {
            assert(s@ =~= s0 + dec_str(n as int));
        }
    } else {
        push_digit(s, n);
    }
}

/// Builds the running score label, `Score: <team02> - <team13>`.
pub fn running_score_line(sc: Score) -> (r: String)
    ensures
        r@ == score_text(sc),
{
    let mut s = String::new();
    s.append("Score: ");
    push_dec(&mut s, sc.team02);
    s.append(" - ");
    push_dec(&mut s, sc.team13);
    proof {
        assert(s@ =~= score_text(sc));
    }
    s
}

/// Builds the game-over label, `Final Score: <team02> - <team13>`.
pub fn final_score_line(sc: Score) -> (r: String)
    ensures
        r@ == final_score_text(sc),
{
    let mut s = String::new();
    s.append("Final Score: ");
    push_dec(&mut s, sc.team02);
    s.append(" - ");
    push_dec(&mut s, sc.team13);
    proof {
        assert(s@ =~= final_score_text(sc));
    }
    s
}

} // verus!
