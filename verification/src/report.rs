//! The figures of the one-line report that sums up a comparison, and how a
//! count is shown.

use vstd::prelude::*;
use vstd::string::StringExecFns;

verus! {

/// The character for the digit `d`.
pub open spec fn digit_char(d: nat) -> char {
    if d == 0 {
        '0'
    } else if d == 1 {
        '1'
    } else if d == 2 {
        '2'
    } else if d == 3 {
        '3'
    } else if d == 4 {
        '4'
    } else if d == 5 {
        '5'
    } else if d == 6 {
        '6'
    } else if d == 7 {
        '7'
    } else if d == 8 {
        '8'
    } else {
        '9'
    }
}

/// The decimal digits of `n`, most significant first; `0` for zero.
pub open spec fn decimal_digits(n: nat) -> Seq<char>
    decreases n,
{
    if n < 10 {
        seq![digit_char(n)]
    } else {
        decimal_digits(n / 10).push(digit_char(n % 10))
    }
}

/// The text of the digit `d`.
fn digit_text(d: usize) -> (s: &'static str)
    requires
        d < 10,
    ensures
        s@ == seq![digit_char(d as nat)],
{
    proof {
        reveal_strlit("0");
        reveal_strlit("1");
        reveal_strlit("2");
        reveal_strlit("3");
        reveal_strlit("4");
        reveal_strlit("5");
        reveal_strlit("6");
        reveal_strlit("7");
        reveal_strlit("8");
        reveal_strlit("9");
    }
    let s = if d == 0 {
        "0"
    } else if d == 1 {
        "1"
    } else if d == 2 {
        "2"
    } else if d == 3 {
        "3"
    } else if d == 4 {
        "4"
    } else if d == 5 {
        "5"
    } else if d == 6 {
        "6"
    } else if d == 7 {
        "7"
    } else if d == 8 {
        "8"
    } else {
        "9"
    };
    assert(s@ =~= seq![digit_char(d as nat)]);
    s
}

/// `value` in decimal notation.
pub fn decimal_string(value: usize) -> (s: String)
    ensures
        s@ == decimal_digits(value as nat),
    decreases value,
{
    if value < 10 {
        digit_text(value).to_owned()
    } else {
        let mut s = decimal_string(value / 10);
        s.append(digit_text(value % 10));
        assert(s@ =~= decimal_digits((value / 10) as nat).push(digit_char((value % 10) as nat)));
        s
    }
}

/// How a count is shown: in decimal notation, or as a dash if it is zero.
pub fn get_print_value(value: usize) -> (s: String)
    ensures
        value > 0 ==> s@ == decimal_digits(value as nat),
        value == 0 ==> s@ == "-"@,
{
    if value > 0 {
        decimal_string(value)
    } else {
        "-".to_owned()
    }
}

/// The figures of the report line.
#[derive(Clone, Copy, Debug, PartialEq, Eq, Structural)]
pub struct Summary {
    /// The number of program counters that were looked at.
    pub total_pcs: usize,
    /// The number of program counters at which some variable is improved
    /// or missing.
    pub improved_or_missing_pcs: usize,
    /// The number of variables that are improved or missing somewhere.
    pub improved_or_missing_vars: usize,
    /// The count of the earlier measurement.
    pub before_actual_count: i64,
    /// By how much the count of the later measurement is greater; 0 if it
    /// is not greater.
    pub after_delta: i128,
    /// How many improved or missing pairs the growth of the count does not
    /// account for; 0 if it accounts for all.
    pub extra: u128,
}

/// The growth of the count from `before` to `after`, or 0 if it did not
/// grow.
pub open spec fn growth(before: i64, after: i64) -> int {
    if after - before > 0 {
        after - before
    } else {
        0
    }
}

/// The figures of the report line for a comparison, where `before` and
/// `after` are the counts of the two measurements and `pairs` is the number
/// of improved or missing pairs.
pub fn summarize(
    total_pcs: usize,
    improved_or_missing_pcs: usize,
    improved_or_missing_vars: usize,
    pairs: u128,
    before: i64,
    after: i64,
) -> (s: Summary)
    ensures
        s.total_pcs == total_pcs,
        s.improved_or_missing_pcs == improved_or_missing_pcs,
        s.improved_or_missing_vars == improved_or_missing_vars,
        s.before_actual_count == before,
        s.after_delta == growth(before, after),
        s.extra == (if pairs > growth(before, after) {
            pairs - growth(before, after)
        } else {
            0
        }),
{
    let after_delta: i128 = if after > before {
        after as i128 - before as i128
    } else {
        0
    };
    let extra: u128 = if pairs > after_delta as u128 {
        pairs - after_delta as u128
    } else {
        0
    };
    Summary {
        total_pcs,
        improved_or_missing_pcs,
        improved_or_missing_vars,
        before_actual_count: before,
        after_delta,
        extra,
    }
}

} // verus!
