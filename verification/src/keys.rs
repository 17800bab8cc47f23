//! Deterministic string identities for cells, used by the instance
//! equality table.

use vstd::prelude::*;
use vstd::string::StrSliceExecFns;
use vstd::string::StringExecFns;

verus! {

/// The decimal digit character for `d` (meaningful for `d < 10`).
pub open spec fn digit_char(d: nat) -> char {
    if d == 0 {
        '0'
    } else if d == 1 {
        '1'
    } else if d == 2 {
        '2'
    } else if d == 3 {
        '3'
    } else if d == 4 {
        '4'
    } else if d == 5 {
        '5'
    } else if d == 6 {
        '6'
    } else if d == 7 {
        '7'
    } else if d == 8 {
        '8'
    } else {
        '9'
    }
}

/// The decimal rendering of `n`, most significant digit first, without
/// leading zeroes (a single `'0'` for zero).
pub open spec fn dec_digits(n: nat) -> Seq<char>
    decreases n,
{
    if n < 10 {
        seq![digit_char(n)]
    } else {
        dec_digits(n / 10).push(digit_char(n % 10))
    }
}

/// The string identity of a cell in column `col` at row (or row offset)
/// `row`: the letter `A`, the column index and the row, dash-separated.
pub open spec fn cell_key_seq(col: nat, row: nat) -> Seq<char> {
    seq!['A', '-'] + dec_digits(col) + seq!['-'] + dec_digits(row)
}

/// The one-character string for the decimal digit `d`.
fn digit_str(d: usize) -> (r: &'static str)
    requires
        d < 10,
    ensures
        r@ == seq![digit_char(d as nat)],
{
    let r: &'static str = if d == 0 {
        "0"
    } else if d == 1 {
        "1"
    } else if d == 2 {
        "2"
    } else if d == 3 {
        "3"
    } else if d == 4 {
        "4"
    } else if d == 5 {
        "5"
    } else if d == 6 {
        "6"
    } else if d == 7 {
        "7"
    } else if d == 8 {
        "8"
    } else {
        "9"
    };
    proof {
        reveal_strlit("0");
        reveal_strlit("1");
        reveal_strlit("2");
        reveal_strlit("3");
        reveal_strlit("4");
        reveal_strlit("5");
        reveal_strlit("6");
        reveal_strlit("7");
        reveal_strlit("8");
        reveal_strlit("9");
        assert(r@ =~= seq![digit_char(d as nat)]);
    }
    r
}

/// The decimal rendering of `v` as a string.
pub fn dec_string(v: usize) -> (r: String)
    ensures
        r@ == dec_digits(v as nat),
    decreases v,
{
    if v < 10 {
        digit_str(v).to_owned()
    } else {
        let mut prefix = dec_string(v / 10);
        prefix.append(digit_str(v % 10));
        proof {
            assert(prefix@ =~= dec_digits(v as nat));
        }
        prefix
    }
}

/// The deterministic string identity of a cell, `A-<column>-<row>`.
pub fn cell_key(col: usize, row: usize) -> (r: String)
    ensures
        r@ == cell_key_seq(col as nat, row as nat),
{
    let mut s = "A-".to_owned();
    s.append(dec_string(col).as_str());
    s.append("-");
    s.append(dec_string(row).as_str());
    proof {
        reveal_strlit("A-");
        reveal_strlit("-");
        assert(s@ =~= cell_key_seq(col as nat, row as nat));
    }
    s
}

} // verus!
