//! What the interface reports once an SSH session has ended.
use vstd::prelude::*;
use crate::text::push_char;

verus! {

/// How the SSH client process ended.
#[derive(Debug, Clone, Copy, PartialEq, Eq, Structural)]
pub enum SessionEnd {
    /// It exited successfully.
    Success,
    /// It exited with this non-zero code.
    ExitCode(i32),
    /// A signal ended it.
    Signal,
}

/// The ASCII digit for `d`, which is below 10.
pub open spec fn digit_char(d: nat) -> char {
    if d == 0 {
        '0'
    } else if d == 1 {
        '1'
    } else if d == 2 {
        '2'
    } else if d == 3 {
        '3'
    } else if d == 4 {
        '4'
    } else if d == 5 {
        '5'
    } else if d == 6 {
        '6'
    } else if d == 7 {
        '7'
    } else if d == 8 {
        '8'
    } else {
        '9'
    }
}

/// The decimal digits of `n`, without leading zeros.
pub open spec fn nat_digits(n: nat) -> Seq<char>
    decreases n,
{
    if n < 10 {
        seq![digit_char(n)]
    } else {
        nat_digits(n / 10) + seq![digit_char(n % 10)]
    }
}

/// `n` written in decimal, with a `-` when it is negative.
pub open spec fn decimal(n: int) -> Seq<char> {
    if n < 0 {
        seq!['-'] + nat_digits((-n) as nat)
    } else {
        nat_digits(n as nat)
    }
}

fn digit_of(d: u64) -> (c: char)
    requires
        d < 10,
    ensures
        c == digit_char(d as nat),
{
    if d == 0 {
        '0'
    } else if d == 1 {
        '1'
    } else if d == 2 {
        '2'
    } else if d == 3 {
        '3'
    } else if d == 4 {
        '4'
    } else if d == 5 {
        '5'
    } else if d == 6 {
        '6'
    } else if d == 7 {
        '7'
    } else if d == 8 {
        '8'
    } else {
        '9'
    }
}

fn write_digits(s: &mut String, n: u64)
    ensures
        final(s)@ == old(s)@ + nat_digits(n as nat),
    decreases n,
{
    if n < 10 {
        push_char(s, digit_of(n));
        assert(old(s)@.push(digit_char(n as nat)) =~= old(s)@ + nat_digits(n as nat));
    } else {
        write_digits(s, n / 10);
        let ghost mid = s@;
        push_char(s, digit_of(n % 10));
        assert(mid.push(digit_char((n % 10) as nat)) =~= old(s)@ + nat_digits(n as nat));
    }
}

/// The status line after a session with `host` that ended as `end`.
pub fn connection_message(host: &str, end: SessionEnd) -> (r: String)
    ensures
        r@ == match end {
            SessionEnd::Success => "Successfully connected to "@ + host@,
            SessionEnd::ExitCode(code) => "Connection to "@ + host@ + " exited with code "@
                + decimal(code as int),
            SessionEnd::Signal => "Connection to "@ + host@ + " terminated by signal"@,
        },
{
    match end {
        SessionEnd::Success => {
            let mut m = String::from_str("Successfully connected to ");
            m.append(host);
            m
        },
        SessionEnd::ExitCode(code) => {
            let mut m = String::from_str("Connection to ");
            m.append(host);
            m.append(" exited with code ");
            let ghost before = m@;
            if code < 0 {
                m.append("-");
                proof {
                    reveal_strlit("-");
                }
                let magnitude: u64 = (0i64 - code as i64) as u64;
                write_digits(&mut m, magnitude);
                assert(m@ =~= before + decimal(code as int));
            } else {
                write_digits(&mut m, code as u64);
            }
            m
        },
        SessionEnd::Signal => {
            let mut m = String::from_str("Connection to ");
            m.append(host);
            m.append(" terminated by signal");
            m
        },
    }
}

} // verus!
