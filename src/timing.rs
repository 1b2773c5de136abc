//! Human-readable durations for progress reports.

use vstd::prelude::*;
use crate::lexer::push_char;

verus! {

/// The decimal digit character of `d`.
pub open spec fn digit_char(d: nat) -> char {
    if d == 0 {
        '0'
    } else if d == 1 {
        '1'
    } else if d == 2 {
        '2'
    } else if d == 3 {
        '3'
    } else if d == 4 {
        '4'
    } else if d == 5 {
        '5'
    } else if d == 6 {
        '6'
    } else if d == 7 {
        '7'
    } else if d == 8 {
        '8'
    } else {
        '9'
    }
}

/// The decimal numeral of `n`, without leading zeros.
pub open spec fn decimal(n: nat) -> Seq<char>
    decreases n,
{
    if n < 10 {
        seq![digit_char(n)]
    } else {
        decimal(n / 10).push(digit_char(n % 10))
    }
}

/// The parts of a duration of `t` milliseconds: whole hours, then minutes,
/// then seconds, each only when not zero, as `1h 2m 3s`.
pub open spec fn time_parts(t: nat) -> Seq<char> {
    let h = t / 3600000;
    let m = (t % 3600000) / 60000;
    let s = (t % 60000) / 1000;
    (if h > 0 { decimal(h) + seq!['h', ' '] } else { Seq::empty() }) + (if m > 0 {
        decimal(m) + seq!['m', ' ']
    } else {
        Seq::empty()
    }) + (if s > 0 { decimal(s) + seq!['s'] } else { Seq::empty() })
}

/// A duration of `t` milliseconds for display: its parts without the
/// trailing space, or `0s` under a second.
pub open spec fn time_text(t: nat) -> Seq<char> {
    let parts = time_parts(t);
    if parts.len() == 0 {
        seq!['0', 's']
    } else if (t % 60000) / 1000 > 0 {
        parts
    } else {
        parts.drop_last()
    }
}

fn digit(d: u128) -> (c: char)
    requires
        d < 10,
    ensures
        c == digit_char(d as nat),
{
    if d == 0 {
        '0'
    } else if d == 1 {
        '1'
    } else if d == 2 {
        '2'
    } else if d == 3 {
        '3'
    } else if d == 4 {
        '4'
    } else if d == 5 {
        '5'
    } else if d == 6 {
        '6'
    } else if d == 7 {
        '7'
    } else if d == 8 {
        '8'
    } else {
        '9'
    }
}

fn push_decimal(s: &mut String, n: u128)
    ensures
        final(s)@ == old(s)@ + decimal(n as nat),
    decreases n,
{
    if n >= 10 {
        push_decimal(s, n / 10);
    }
    push_char(s, digit(n % 10));
    assert(final(s)@ =~= old(s)@ + decimal(n as nat));
}

/// Formats a duration in milliseconds as hours, minutes and seconds, e.g.
/// `1h 5s`; under a second it is `0s`.
pub fn format_time(time: u128) -> (r: String)
    ensures
        r@ == time_text(time as nat),
{
    let mut text = String::new();
    let hours = time / 3600000;
    let minutes = (time % 3600000) / 60000;
    let seconds = (time % 60000) / 1000;
    proof {
        assert((time % 3600000) % 60000 == time % 60000) by (nonlinear_arith);
    }
    if hours > 0 {
        push_decimal(&mut text, hours);
        push_char(&mut text, 'h');
        push_char(&mut text, ' ');
    }
    if minutes > 0 {
        push_decimal(&mut text, minutes);
        push_char(&mut text, 'm');
        push_char(&mut text, ' ');
    }
    if seconds > 0 {
        push_decimal(&mut text, seconds);
        push_char(&mut text, 's');
    }
    assert(text@ =~= time_parts(time as nat));
    if hours == 0 && minutes == 0 && seconds == 0 {
        let mut zero = String::new();
        push_char(&mut zero, '0');
        push_char(&mut zero, 's');
        assert(zero@ =~= seq!['0', 's']);
        zero
    } else if seconds > 0 {
        text
    } else {
        let chars = crate::lexer::chars_of(&text);
        let trimmed = crate::lexer::string_of(&chars, 0, chars.len() - 1);
        assert(trimmed@ =~= time_parts(time as nat).drop_last());
        trimmed
    }
}

} // verus!
