//! Texts that the interface shows for numbers.

use vstd::prelude::*;
use vstd::string::StringExecFns;

verus! {

/// The character of a decimal digit.
pub open spec fn digit_char(d: nat) -> char {
    if d == 0 {
        '0'
    } else if d == 1 {
        '1'
    } else if d == 2 {
        '2'
    } else if d == 3 {
        '3'
    } else if d == 4 {
        '4'
    } else if d == 5 {
        '5'
    } else if d == 6 {
        '6'
    } else if d == 7 {
        '7'
    } else if d == 8 {
        '8'
    } else {
        '9'
    }
}

/// A number in decimal digits, without leading zeros.
pub open spec fn decimal(n: nat) -> Seq<char>
    decreases n,
{
    if n < 10 {
        seq![digit_char(n)]
    } else {
        decimal(n / 10).push(digit_char(n % 10))
    }
}

/// Seconds in a minute, an hour, a day, a week, a month of 30 days and a
/// year of 365 days.
pub const MINUTE: u64 = 60;

pub const HOUR: u64 = 3_600;

pub const DAY: u64 = 86_400;

pub const WEEK: u64 = 604_800;

pub const MONTH: u64 = 2_592_000;

pub const YEAR: u64 = 31_536_000;

/// How long ago something was, told in the largest unit that has passed at
/// least once, and rounded down.
pub open spec fn relative_time(age: u64) -> Seq<char> {
    if age < MINUTE {
        "just now"@
    } else if age < HOUR {
        decimal((age / MINUTE) as nat) + " min ago"@
    } else if age < DAY {
        decimal((age / HOUR) as nat) + " hours ago"@
    } else if age < WEEK {
        decimal((age / DAY) as nat) + " days ago"@
    } else if age < MONTH {
        decimal((age / WEEK) as nat) + " weeks ago"@
    } else if age < YEAR {
        decimal((age / MONTH) as nat) + " months ago"@
    } else {
        decimal((age / YEAR) as nat) + " years ago"@
    }
}

/// What a list of digits writes, digit by digit.
pub open spec fn digit_chars(digits: Seq<u64>) -> Seq<char> {
    digits.map_values(|d: u64| digit_char(d as nat))
}

/// The text of one decimal digit.
fn digit_text(d: u64) -> (s: &'static str)
    requires
        d < 10,
    ensures
        s@ == seq![digit_char(d as nat)],
{
    if d == 0 {
        proof {
            reveal_strlit("0");
            assert("0"@ =~= seq!['0']);
        }
        "0"
    } else if d == 1 {
        proof {
            reveal_strlit("1");
            assert("1"@ =~= seq!['1']);
        }
        "1"
    } else if d == 2 {
        proof {
            reveal_strlit("2");
            assert("2"@ =~= seq!['2']);
        }
        "2"
    } else if d == 3 {
        proof {
            reveal_strlit("3");
            assert("3"@ =~= seq!['3']);
        }
        "3"
    } else if d == 4 {
        proof {
            reveal_strlit("4");
            assert("4"@ =~= seq!['4']);
        }
        "4"
    } else if d == 5 {
        proof {
            reveal_strlit("5");
            assert("5"@ =~= seq!['5']);
        }
        "5"
    } else if d == 6 {
        proof {
            reveal_strlit("6");
            assert("6"@ =~= seq!['6']);
        }
        "6"
    } else if d == 7 {
        proof {
            reveal_strlit("7");
            assert("7"@ =~= seq!['7']);
        }
        "7"
    } else if d == 8 {
        proof {
            reveal_strlit("8");
            assert("8"@ =~= seq!['8']);
        }
        "8"
    } else {
        proof {
            reveal_strlit("9");
            assert("9"@ =~= seq!['9']);
        }
        "9"
    }
}

/// The text of `n` in decimal digits.
pub fn decimal_string(n: u64) -> (text: String)
    ensures
        text@ == decimal(n as nat),
{
    let mut reversed: Vec<u64> = Vec::new();
    let mut rest: u64 = n;
    assert(digit_chars(reversed@).reverse() =~= Seq::<char>::empty());
    while rest >= 10
        invariant
            forall|j: int| 0 <= j < reversed.len() ==> reversed@[j] < 10,
            decimal(n as nat) == decimal(rest as nat) + digit_chars(reversed@).reverse(),
        decreases rest,
    {
        let ghost before = digit_chars(reversed@);
        reversed.push(rest % 10);
        proof {
            assert(digit_chars(reversed@) =~= before.push(digit_char((rest % 10) as nat)));
            assert(digit_chars(reversed@).reverse() =~= seq![digit_char((rest % 10) as nat)]
                + before.reverse());
            assert(decimal(rest as nat) == decimal((rest / 10) as nat).push(
                digit_char((rest % 10) as nat),
            ));
            assert(decimal(rest as nat) + before.reverse() =~= decimal((rest / 10) as nat)
                + digit_chars(reversed@).reverse());
        }
        rest = rest / 10;
    }
    let ghost tail = digit_chars(reversed@);
    reversed.push(rest);
    let ghost all = digit_chars(reversed@);
    proof {
        assert(all =~= tail.push(digit_char(rest as nat)));
        assert(all.reverse() =~= seq![digit_char(rest as nat)] + tail.reverse());
        assert(decimal(rest as nat) =~= seq![digit_char(rest as nat)]);
        assert(all.reverse() =~= decimal(n as nat));
    }
    let mut text = String::new();
    let mut i: usize = reversed.len();
    assert(all.subrange(i as int, all.len() as int).reverse() =~= Seq::<char>::empty());
    while i > 0
        invariant
            i <= reversed.len(),
            all == digit_chars(reversed@),
            forall|j: int| 0 <= j < reversed.len() ==> reversed@[j] < 10,
            text@ == all.subrange(i as int, all.len() as int).reverse(),
        decreases i,
    {
        i = i - 1;
        let ghost before = text@;
        text.append(digit_text(reversed[i]));
        proof {
            assert(text@ =~= before + seq![all[i as int]]);
            assert(text@ =~= all.subrange(i as int, all.len() as int).reverse());
        }
    }
    assert(all.subrange(0, all.len() as int) =~= all);
    text
}

/// The text that tells how long ago something was that is `age` seconds
/// old.
pub fn format_relative_time(age: u64) -> (text: String)
    ensures
        text@ == relative_time(age),
{
    if age < MINUTE {
        String::from_str("just now")
    } else if age < HOUR {
        let mut text = decimal_string(age / MINUTE);
        text.append(" min ago");
        text
    } else if age < DAY {
        let mut text = decimal_string(age / HOUR);
        text.append(" hours ago");
        text
    } else if age < WEEK {
        let mut text = decimal_string(age / DAY);
        text.append(" days ago");
        text
    } else if age < MONTH {
        let mut text = decimal_string(age / WEEK);
        text.append(" weeks ago");
        text
    } else if age < YEAR {
        let mut text = decimal_string(age / MONTH);
        text.append(" months ago");
        text
    } else {
        let mut text = decimal_string(age / YEAR);
        text.append(" years ago");
        text
    }
}

} // verus!
