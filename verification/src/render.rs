//! Rendering of failure reasons: decimal notation for exit codes and the
//! fixed reason texts.

use vstd::prelude::*;

verus! {

/// The decimal digit `d` as a character.
pub open spec fn spec_digit_char(d: nat) -> char {
    if d == 0 {
        '0'
    } else if d == 1 {
        '1'
    } else if d == 2 {
        '2'
    } else if d == 3 {
        '3'
    } else if d == 4 {
        '4'
    } else if d == 5 {
        '5'
    } else if d == 6 {
        '6'
    } else if d == 7 {
        '7'
    } else if d == 8 {
        '8'
    } else {
        '9'
    }
}

/// The decimal digits of `n`, most significant first, with no leading zeros
/// (a single `'0'` for zero).
pub open spec fn spec_dec_digits(n: nat) -> Seq<char>
    decreases n,
{
    if n < 10 {
        seq![spec_digit_char(n)]
    } else {
        spec_dec_digits(n / 10).push(spec_digit_char(n % 10))
    }
}

/// The decimal notation of `c`, with a leading minus sign when negative.
pub open spec fn spec_signed_dec(c: int) -> Seq<char> {
    if c < 0 {
        seq!['-'] + spec_dec_digits((-c) as nat)
    } else {
        spec_dec_digits(c as nat)
    }
}

/// The digit `d` as a one-character string slice.
fn digit_str(d: u64) -> (r: &'static str)
    requires
        d < 10,
    ensures
        r@ == seq![spec_digit_char(d as nat)],
{
    proof {
        reveal_strlit("0");
        reveal_strlit("1");
        reveal_strlit("2");
        reveal_strlit("3");
        reveal_strlit("4");
        reveal_strlit("5");
        reveal_strlit("6");
        reveal_strlit("7");
        reveal_strlit("8");
        reveal_strlit("9");
    }
    match d {
        0 => "0",
        1 => "1",
        2 => "2",
        3 => "3",
        4 => "4",
        5 => "5",
        6 => "6",
        7 => "7",
        8 => "8",
        _ => "9",
    }
}

/// Append the decimal digits of `n` to `out`.
fn push_decimal(n: u64, out: &mut String)
    ensures
        final(out)@ == old(out)@ + spec_dec_digits(n as nat),
    decreases n,
{
    if n >= 10 {
        push_decimal(n / 10, out);
    }
    out.append(digit_str(n % 10));
    proof {
        assert(final(out)@ =~= old(out)@ + spec_dec_digits(n as nat));
    }
}

/// Append the signed decimal notation of `c` to `out`.
fn push_signed_decimal(c: i32, out: &mut String)
    ensures
        final(out)@ == old(out)@ + spec_signed_dec(c as int),
{
    if c < 0 {
        proof {
            reveal_strlit("-");
        }
        out.append("-");
        let wide: i64 = c as i64;
        let magnitude: u64 = (-wide) as u64;
        push_decimal(magnitude, out);
        proof {
            assert(final(out)@ =~= old(out)@ + spec_signed_dec(c as int));
        }
    } else {
        push_decimal(c as u64, out);
    }
}

/// The failure reason recorded for a process that exited on its own: the
/// observed exit code, or a note that none was reported.
pub open spec fn spec_exit_code_reason(code: Option<i32>) -> Seq<char> {
    match code {
        Some(c) => "Reported exit code "@ + spec_signed_dec(c as int),
        None => "Reported exit code unknown"@,
    }
}

/// Render the failure reason for a process that exited with the given code.
pub fn exit_code_reason(code: Option<i32>) -> (r: String)
    ensures
        r@ == spec_exit_code_reason(code),
{
    match code {
        Some(c) => {
            let mut s = String::from_str("Reported exit code ");
            push_signed_decimal(c, &mut s);
            s
        },
        None => String::from_str("Reported exit code unknown"),
    }
}

} // verus!
