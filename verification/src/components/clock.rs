//! The masthead clock, which writes dates and times in Roman numerals.

use vstd::prelude::*;
use crate::text::push_char;

verus! {

broadcast use vstd::string::group_string_axioms;

/// The value of the `i`-th numeral of the greedy table, largest first.
pub open spec fn numeral_value(i: int) -> nat {
    if i == 0 {
        1000
    } else if i == 1 {
        900
    } else if i == 2 {
        500
    } else if i == 3 {
        400
    } else if i == 4 {
        100
    } else if i == 5 {
        90
    } else if i == 6 {
        50
    } else if i == 7 {
        40
    } else if i == 8 {
        10
    } else if i == 9 {
        9
    } else if i == 10 {
        5
    } else if i == 11 {
        4
    } else {
        1
    }
}

/// The symbol of the `i`-th numeral of the greedy table.
pub open spec fn numeral_symbol(i: int) -> Seq<char> {
    if i == 0 {
        "m"@
    } else if i == 1 {
        "cm"@
    } else if i == 2 {
        "d"@
    } else if i == 3 {
        "cd"@
    } else if i == 4 {
        "c"@
    } else if i == 5 {
        "xc"@
    } else if i == 6 {
        "l"@
    } else if i == 7 {
        "xl"@
    } else if i == 8 {
        "x"@
    } else if i == 9 {
        "ix"@
    } else if i == 10 {
        "v"@
    } else if i == 11 {
        "iv"@
    } else {
        "i"@
    }
}

/// `n` written greedily with the numerals from the `i`-th on: as many of
/// the largest as fit, then the rest with the smaller ones.
pub open spec fn roman_from(n: nat, i: nat) -> Seq<char>
    decreases 13 - i, n,
{
    if i >= 13 {
        Seq::empty()
    } else if n >= numeral_value(i as int) {
        numeral_symbol(i as int) + roman_from((n - numeral_value(i as int)) as nat, i)
    } else {
        roman_from(n, i + 1)
    }
}

/// `n` in lower-case Roman numerals, or `○` for zero.
pub open spec fn roman(n: nat) -> Seq<char> {
    if n == 0 {
        "○"@
    } else {
        roman_from(n, 0)
    }
}

fn numeral(i: usize) -> (r: (u32, &'static str))
    requires
        i < 13,
    ensures
        r.0 == numeral_value(i as int),
        r.1@ == numeral_symbol(i as int),
{
    match i {
        0 => (1000, "m"),
        1 => (900, "cm"),
        2 => (500, "d"),
        3 => (400, "cd"),
        4 => (100, "c"),
        5 => (90, "xc"),
        6 => (50, "l"),
        7 => (40, "xl"),
        8 => (10, "x"),
        9 => (9, "ix"),
        10 => (5, "v"),
        11 => (4, "iv"),
        _ => (1, "i"),
    }
}

/// Writes `n` (below 4000) in lower-case Roman numerals; zero is `○`.
pub fn to_roman(n: u32) -> (r: String)
    requires
        n < 4000,
    ensures
        r@ == roman(n as nat),
{
    if n == 0 {
        return "○".to_owned();
    }
    let mut result = String::new();
    let mut remaining = n;
    let mut i: usize = 0;
    while i < 13
        invariant
            i <= 13,
            result@ + roman_from(remaining as nat, i as nat) == roman_from(n as nat, 0),
        decreases 13 - i,
    {
        let (value, symbol) = numeral(i);
        while remaining >= value
            invariant
                i < 13,
                value == numeral_value(i as int),
                symbol@ == numeral_symbol(i as int),
                result@ + roman_from(remaining as nat, i as nat) == roman_from(n as nat, 0),
            decreases remaining,
        {
            let ghost before = result@;
            result.append(symbol);
            assert(before + roman_from(remaining as nat, i as nat) == result@ + roman_from(
                (remaining - value) as nat,
                i as nat,
            ));
            remaining = remaining - value;
        }
        i = i + 1;
    }
    assert(result@ + Seq::<char>::empty() =~= result@);
    result
}

/// `n` copies of the no-break space.
pub open spec fn nbsp(n: int) -> Seq<char> {
    Seq::new(if n > 0 { n as nat } else { 0 }, |k: int| '\u{A0}')
}

/// A time of day as shown after hydration: `hour · minute · second`, the
/// seconds padded with no-break spaces to seven characters so the clock does
/// not change width as it ticks.
pub open spec fn time_text(hour: nat, minute: nat, second: nat) -> Seq<char> {
    roman(hour) + " · "@ + roman(minute) + " · "@ + roman(second) + nbsp(7 - roman(second).len())
}

/// Formats a local time of day in Roman numerals.
pub fn format_time(hour: u32, minute: u32, second: u32) -> (r: String)
    requires
        hour < 4000,
        minute < 4000,
        second < 4000,
    ensures
        r@ == time_text(hour as nat, minute as nat, second as nat),
{
    let seconds = to_roman(second);
    let mut r = to_roman(hour);
    r.append(" · ");
    r.append(to_roman(minute).as_str());
    r.append(" · ");
    r.append(seconds.as_str());
    let count = seconds.as_str().unicode_len();
    let mut k: usize = count;
    let ghost base = r@;
    assert(base + nbsp(k - count) =~= base);
    while k < 7
        invariant
            count == roman(second as nat).len(),
            count <= k <= 7 || (count > 7 && k == count),
            r@ == base + nbsp(k - count),
        decreases 7 - k,
    {
        push_char(&mut r, '\u{A0}');
        assert(base + nbsp(k + 1 - count) =~= (base + nbsp(k - count)).push('\u{A0}'));
        k = k + 1;
    }
    assert(nbsp(k - count) =~= nbsp(7 - count));
    r
}

/// The year as the clock shows it: years before year zero show as zero.
pub open spec fn clock_year(year: int) -> nat {
    if year < 0 {
        0
    } else {
        year as nat
    }
}

/// The date the server renders: `day · month · year` in Roman numerals.
pub open spec fn date_text(day: nat, month: nat, year: int) -> Seq<char> {
    roman(day) + " · "@ + roman(month) + " · "@ + roman(clock_year(year))
}

/// Formats a calendar date in Roman numerals.
pub fn server_date(day: u32, month: u32, year: i32) -> (r: String)
    requires
        day < 4000,
        month < 4000,
        year < 4000,
    ensures
        r@ == date_text(day as nat, month as nat, year as int),
{
    let y: u32 = if year < 0 {
        0
    } else {
        year as u32
    };
    let mut r = to_roman(day);
    r.append(" · ");
    r.append(to_roman(month).as_str());
    r.append(" · ");
    r.append(to_roman(y).as_str());
    r
}

} // verus!
