//! Labels of the vote buttons, with integers written in decimal.

use vstd::prelude::*;

use crate::types::Poll;

verus! {

/// The character of a decimal digit.
pub open spec fn digit_char(d: nat) -> char {
    if d == 0 { '0' }
    else if d == 1 { '1' }
    else if d == 2 { '2' }
    else if d == 3 { '3' }
    else if d == 4 { '4' }
    else if d == 5 { '5' }
    else if d == 6 { '6' }
    else if d == 7 { '7' }
    else if d == 8 { '8' }
    else { '9' }
}

/// The decimal digits of `n`, most significant first, without leading zeros.
pub open spec fn decimal(n: nat) -> Seq<char>
    decreases n,
{
    if n < 10 {
        seq![digit_char(n)]
    } else {
        decimal(n / 10).push(digit_char(n % 10))
    }
}

/// `n` written in decimal, with a minus sign where it is negative.
pub open spec fn signed_decimal(n: int) -> Seq<char> {
    if n < 0 {
        seq!['-'] + decimal((-n) as nat)
    } else {
        decimal(n as nat)
    }
}

/// The label of a vote button: its text, then the count in parentheses.
pub open spec fn vote_button_label(text: Seq<char>, count: int) -> Seq<char> {
    text + seq![' ', '('] + signed_decimal(count) + seq![')']
}

fn digit_str(d: u64) -> (r: &'static str)
    requires
        d < 10,
    ensures
        r@ == seq![digit_char(d as nat)],
{
    proof {
        reveal_strlit("0");
        reveal_strlit("1");
        reveal_strlit("2");
        reveal_strlit("3");
        reveal_strlit("4");
        reveal_strlit("5");
        reveal_strlit("6");
        reveal_strlit("7");
        reveal_strlit("8");
        reveal_strlit("9");
    }
    if d == 0 { "0" }
    else if d == 1 { "1" }
    else if d == 2 { "2" }
    else if d == 3 { "3" }
    else if d == 4 { "4" }
    else if d == 5 { "5" }
    else if d == 6 { "6" }
    else if d == 7 { "7" }
    else if d == 8 { "8" }
    else {
        assert(d == 9);
        "9"
    }
}

fn append_decimal(out: &mut String, n: u64)
    ensures
        final(out)@ == old(out)@ + decimal(n as nat),
    decreases n,
{
    if n >= 10 {
        append_decimal(out, n / 10);
    }
    out.append(digit_str(n % 10));
    assert(final(out)@ =~= old(out)@ + decimal(n as nat));
}

/// Appends `n` in decimal to `out`.
pub fn append_signed_decimal(out: &mut String, n: i64)
    ensures
        final(out)@ == old(out)@ + signed_decimal(n as int),
{
    if n < 0 {
        proof {
            reveal_strlit("-");
        }
        out.append("-");
        let magnitude: u64 = (0i128 - n as i128) as u64;
        append_decimal(out, magnitude);
        assert(final(out)@ =~= old(out)@ + signed_decimal(n as int));
    } else {
        append_decimal(out, n as u64);
    }
}

/// The label of a vote button: `text`, a space, and `count` in parentheses.
pub fn format_vote_button(text: &str, count: i64) -> (r: String)
    ensures
        r@ == vote_button_label(text@, count as int),
{
    proof {
        reveal_strlit(" (");
        reveal_strlit(")");
    }
    let mut out = String::from_str(text);
    out.append(" (");
    append_signed_decimal(&mut out, count);
    out.append(")");
    assert(out@ =~= vote_button_label(text@, count as int));
    out
}

/// The labels of a poll's two buttons, drawn from its stored counts: the
/// first for deleting, the second for keeping.
pub fn vote_labels(poll: &Poll, yes_text: &str, no_text: &str) -> (r: (String, String))
    ensures
        r.0@ == vote_button_label(yes_text@, poll.vote_count_yes as int),
        r.1@ == vote_button_label(no_text@, poll.vote_count_no as int),
{
    (format_vote_button(yes_text, poll.vote_count_yes), format_vote_button(no_text, poll.vote_count_no))
}

} // verus!
