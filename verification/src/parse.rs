//! Strict parsing and formatting of dates in the fixed `YYYY-MM-DD` form:
//! a four-digit year, a two-digit month and a two-digit day, separated by
//! hyphens, and calendar-correct (month 13 or February 30 are rejected).

use vstd::prelude::*;

use crate::date::{days_in_month, days_in_month_of, Date};

verus! {

/// The value of a decimal digit character, or -1 for any other character.
pub open spec fn digit_of(c: char) -> int {
    if c == '0' {
        0
    } else if c == '1' {
        1
    } else if c == '2' {
        2
    } else if c == '3' {
        3
    } else if c == '4' {
        4
    } else if c == '5' {
        5
    } else if c == '6' {
        6
    } else if c == '7' {
        7
    } else if c == '8' {
        8
    } else if c == '9' {
        9
    } else {
        -1
    }
}

pub open spec fn is_digit(c: char) -> bool {
    digit_of(c) >= 0
}

/// The decimal digit character for a value from 0 through 9.
pub open spec fn digit_char(n: int) -> char {
    if n == 0 {
        '0'
    } else if n == 1 {
        '1'
    } else if n == 2 {
        '2'
    } else if n == 3 {
        '3'
    } else if n == 4 {
        '4'
    } else if n == 5 {
        '5'
    } else if n == 6 {
        '6'
    } else if n == 7 {
        '7'
    } else if n == 8 {
        '8'
    } else {
        '9'
    }
}

/// A number below 100 written as exactly two decimal digits.
pub open spec fn two_digit_chars(n: int) -> Seq<char> {
    seq![digit_char(n / 10), digit_char(n % 10)]
}

/// A number below 10000 written as exactly four decimal digits.
pub open spec fn four_digit_chars(n: int) -> Seq<char> {
    seq![
        digit_char(n / 1000),
        digit_char((n / 100) % 10),
        digit_char((n / 10) % 10),
        digit_char(n % 10),
    ]
}

/// The canonical `YYYY-MM-DD` character sequence of a date.
pub open spec fn date_chars(d: Date) -> Seq<char> {
    four_digit_chars(d.year as int) + seq!['-'] + two_digit_chars(d.month as int) + seq!['-']
        + two_digit_chars(d.day as int)
}

/// The year read from positions 0 through 3 of a `YYYY-MM-DD` sequence.
pub open spec fn parsed_year(s: Seq<char>) -> int {
    digit_of(s[0]) * 1000 + digit_of(s[1]) * 100 + digit_of(s[2]) * 10 + digit_of(s[3])
}

/// The month read from positions 5 and 6 of a `YYYY-MM-DD` sequence.
pub open spec fn parsed_month(s: Seq<char>) -> int {
    digit_of(s[5]) * 10 + digit_of(s[6])
}

/// The day read from positions 8 and 9 of a `YYYY-MM-DD` sequence.
pub open spec fn parsed_day(s: Seq<char>) -> int {
    digit_of(s[8]) * 10 + digit_of(s[9])
}

/// Whether a character sequence is a well-formed, calendar-correct date in
/// the strict `YYYY-MM-DD` form.
pub open spec fn valid_date_chars(s: Seq<char>) -> bool {
    &&& s.len() == 10
    &&& is_digit(s[0])
    &&& is_digit(s[1])
    &&& is_digit(s[2])
    &&& is_digit(s[3])
    &&& s[4] == '-'
    &&& is_digit(s[5])
    &&& is_digit(s[6])
    &&& s[7] == '-'
    &&& is_digit(s[8])
    &&& is_digit(s[9])
    &&& 1 <= parsed_month(s) <= 12
    &&& 1 <= parsed_day(s) <= days_in_month(parsed_year(s), parsed_month(s))
}

/// The date read from a valid `YYYY-MM-DD` sequence.
pub open spec fn parsed_date(s: Seq<char>) -> Date {
    Date {
        year: parsed_year(s) as u32,
        month: parsed_month(s) as u32,
        day: parsed_day(s) as u32,
    }
}

/// The value of a decimal digit character, or `None` for any other character.
fn digit_value(c: char) -> (r: Option<u32>)
    ensures
        r is Some <==> is_digit(c),
        r matches Some(v) ==> v == digit_of(c),
{
    match c {
        '0' => Some(0),
        '1' => Some(1),
        '2' => Some(2),
        '3' => Some(3),
        '4' => Some(4),
        '5' => Some(5),
        '6' => Some(6),
        '7' => Some(7),
        '8' => Some(8),
        '9' => Some(9),
        _ => None,
    }
}

/// Parses a string in the strict `YYYY-MM-DD` form into a [`Date`].
///
/// Returns `Some` exactly on valid, calendar-correct inputs, and then yields
/// the date whose components the string spells out.
pub fn parse_date(s: &str) -> (r: Option<Date>)
    ensures
        r is Some <==> valid_date_chars(s@),
        r matches Some(d) ==> d == parsed_date(s@) && d.wf(),
{
    if s.unicode_len() != 10 {
        return None;
    }
    if s.get_char(4) != '-' || s.get_char(7) != '-' {
        return None;
    }
    let y0 = digit_value(s.get_char(0));
    let y1 = digit_value(s.get_char(1));
    let y2 = digit_value(s.get_char(2));
    let y3 = digit_value(s.get_char(3));
    let m0 = digit_value(s.get_char(5));
    let m1 = digit_value(s.get_char(6));
    let d0 = digit_value(s.get_char(8));
    let d1 = digit_value(s.get_char(9));
    match (y0, y1, y2, y3, m0, m1, d0, d1) {
        (
            Some(y0),
            Some(y1),
            Some(y2),
            Some(y3),
            Some(m0),
            Some(m1),
            Some(d0),
            Some(d1),
        ) => {
            let year = y0 * 1000 + y1 * 100 + y2 * 10 + y3;
            let month = m0 * 10 + m1;
            let day = d0 * 10 + d1;
            if month < 1 || month > 12 {
                return None;
            }
            if day < 1 || day > days_in_month_of(year, month) {
                return None;
            }
            Some(Date { year, month, day })
        },
        _ => None,
    }
}

/// Appends the exactly-two-digit decimal form of `n` to `out`.
pub(crate) fn push_two_digits(out: &mut String, n: u32)
    requires
        n < 100,
    ensures
        final(out)@ == old(out)@ + two_digit_chars(n as int),
{
    out.append(digit_str(n / 10));
    out.append(digit_str(n % 10));
    proof {
        assert(out@ =~= old(out)@ + two_digit_chars(n as int));
    }
}

/// Appends the exactly-four-digit decimal form of `n` to `out`.
pub(crate) fn push_four_digits(out: &mut String, n: u32)
    requires
        n < 10000,
    ensures
        final(out)@ == old(out)@ + four_digit_chars(n as int),
{
    out.append(digit_str(n / 1000));
    out.append(digit_str((n / 100) % 10));
    out.append(digit_str((n / 10) % 10));
    out.append(digit_str(n % 10));
    proof {
        assert(out@ =~= old(out)@ + four_digit_chars(n as int));
    }
}

/// The one-character string of a decimal digit value.
fn digit_str(n: u32) -> (s: &'static str)
    requires
        n < 10,
    ensures
        s@ == seq![digit_char(n as int)],
{
    match n {
        0 => {
            proof {
                reveal_strlit("0");
            }
            let s = "0";
            proof {
                assert(s@ =~= seq![digit_char(0)]);
            }
            s
        },
        1 => {
            proof {
                reveal_strlit("1");
            }
            let s = "1";
            proof {
                assert(s@ =~= seq![digit_char(1)]);
            }
            s
        },
        2 => {
            proof {
                reveal_strlit("2");
            }
            let s = "2";
            proof {
                assert(s@ =~= seq![digit_char(2)]);
            }
            s
        },
        3 => {
            proof {
                reveal_strlit("3");
            }
            let s = "3";
            proof {
                assert(s@ =~= seq![digit_char(3)]);
            }
            s
        },
        4 => {
            proof {
                reveal_strlit("4");
            }
            let s = "4";
            proof {
                assert(s@ =~= seq![digit_char(4)]);
            }
            s
        },
        5 => {
            proof {
                reveal_strlit("5");
            }
            let s = "5";
            proof {
                assert(s@ =~= seq![digit_char(5)]);
            }
            s
        },
        6 => {
            proof {
                reveal_strlit("6");
            }
            let s = "6";
            proof {
                assert(s@ =~= seq![digit_char(6)]);
            }
            s
        },
        7 => {
            proof {
                reveal_strlit("7");
            }
            let s = "7";
            proof {
                assert(s@ =~= seq![digit_char(7)]);
            }
            s
        },
        8 => {
            proof {
                reveal_strlit("8");
            }
            let s = "8";
            proof {
                assert(s@ =~= seq![digit_char(8)]);
            }
            s
        },
        _ => {
            proof {
                reveal_strlit("9");
            }
            let s = "9";
            proof {
                assert(s@ =~= seq![digit_char(9)]);
            }
            s
        },
    }
}

/// Formats a valid date in its canonical `YYYY-MM-DD` form.
pub fn format_date(d: &Date) -> (r: String)
    requires
        d.wf(),
    ensures
        r@ == date_chars(*d),
{
    let mut out = String::new();
    push_four_digits(&mut out, d.year);
    out.append("-");
    push_two_digits(&mut out, d.month);
    out.append("-");
    push_two_digits(&mut out, d.day);
    proof {
        reveal_strlit("-");
        assert(out@ =~= date_chars(*d));
    }
    out
}


/// A digit value written as a character reads back as itself.
pub proof fn lemma_digit_char_inverse(n: int)
    requires
        0 <= n <= 9,
    ensures
        is_digit(digit_char(n)),
        digit_of(digit_char(n)) == n,
{
}

/// A number below 10000 is recovered from its four decimal digits.
pub proof fn lemma_four_digit_decomposition(n: int)
    requires
        0 <= n < 10000,
    ensures
        n == (n / 1000) * 1000 + ((n / 100) % 10) * 100 + ((n / 10) % 10) * 10 + n % 10,
{
    assert(n == (n / 1000) * 1000 + ((n / 100) % 10) * 100 + ((n / 10) % 10) * 10 + n % 10) by (nonlinear_arith)
        requires
            0 <= n < 10000,
    ;
}

/// Two numbers below 10000 with the same four-digit form are equal.
pub proof fn lemma_four_digit_chars_injective(a: int, b: int)
    requires
        0 <= a < 10000,
        0 <= b < 10000,
        four_digit_chars(a) == four_digit_chars(b),
    ensures
        a == b,
{
    assert(four_digit_chars(a)[0] == four_digit_chars(b)[0]);
    assert(four_digit_chars(a)[1] == four_digit_chars(b)[1]);
    assert(four_digit_chars(a)[2] == four_digit_chars(b)[2]);
    assert(four_digit_chars(a)[3] == four_digit_chars(b)[3]);
    lemma_digit_char_inverse(a / 1000);
    lemma_digit_char_inverse((a / 100) % 10);
    lemma_digit_char_inverse((a / 10) % 10);
    lemma_digit_char_inverse(a % 10);
    lemma_digit_char_inverse(b / 1000);
    lemma_digit_char_inverse((b / 100) % 10);
    lemma_digit_char_inverse((b / 10) % 10);
    lemma_digit_char_inverse(b % 10);
    lemma_four_digit_decomposition(a);
    lemma_four_digit_decomposition(b);
}

/// Two numbers below 100 with the same two-digit form are equal.
pub proof fn lemma_two_digit_chars_injective(a: int, b: int)
    requires
        0 <= a < 100,
        0 <= b < 100,
        two_digit_chars(a) == two_digit_chars(b),
    ensures
        a == b,
{
    assert(two_digit_chars(a)[0] == two_digit_chars(b)[0]);
    assert(two_digit_chars(a)[1] == two_digit_chars(b)[1]);
    lemma_digit_char_inverse(a / 10);
    lemma_digit_char_inverse(a % 10);
    lemma_digit_char_inverse(b / 10);
    lemma_digit_char_inverse(b % 10);
}

/// Formatting then parsing is the identity on valid dates: the canonical
/// `YYYY-MM-DD` form of a valid date is itself valid and reads back as the
/// same date.
pub proof fn lemma_format_parse_round_trip(d: Date)
    requires
        d.wf(),
    ensures
        valid_date_chars(date_chars(d)),
        parsed_date(date_chars(d)) == d,
{
    let s = date_chars(d);
    let y = d.year as int;
    let m = d.month as int;
    let dd = d.day as int;
    assert(s[0] == digit_char(y / 1000));
    assert(s[1] == digit_char((y / 100) % 10));
    assert(s[2] == digit_char((y / 10) % 10));
    assert(s[3] == digit_char(y % 10));
    assert(s[4] == '-');
    assert(s[5] == digit_char(m / 10));
    assert(s[6] == digit_char(m % 10));
    assert(s[7] == '-');
    assert(s[8] == digit_char(dd / 10));
    assert(s[9] == digit_char(dd % 10));
    lemma_digit_char_inverse(y / 1000);
    lemma_digit_char_inverse((y / 100) % 10);
    lemma_digit_char_inverse((y / 10) % 10);
    lemma_digit_char_inverse(y % 10);
    lemma_digit_char_inverse(m / 10);
    lemma_digit_char_inverse(m % 10);
    lemma_digit_char_inverse(dd / 10);
    lemma_digit_char_inverse(dd % 10);
    lemma_four_digit_decomposition(y);
    assert(parsed_year(s) == y);
    assert(parsed_month(s) == m);
    assert(parsed_day(s) == dd);
}

} // verus!
