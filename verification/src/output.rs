//! Text fragments for presenting configurations: algorithm names and
//! decimal renderings of request profiles and tie-break modes.  Printing
//! itself is left to callers.

use vstd::prelude::*;

use crate::models::{Algorithm, TieBreak};
use vstd::string::StringExecFns;

verus! {

/// How the synthetic request stream is described.
pub enum RequestProfile {
    /// A fixed number of requests, one per tick.
    FixedCount(usize),
    /// A rate-driven stream over a time window.
    Poisson { rate: u64, duration_ms: u64 },
}

/// The decimal digit character for a value below ten.
pub open spec fn digit_char(d: int) -> char {
    if d == 0 {
        '0'
    } else if d == 1 {
        '1'
    } else if d == 2 {
        '2'
    } else if d == 3 {
        '3'
    } else if d == 4 {
        '4'
    } else if d == 5 {
        '5'
    } else if d == 6 {
        '6'
    } else if d == 7 {
        '7'
    } else if d == 8 {
        '8'
    } else {
        '9'
    }
}

/// The decimal rendering of a non-negative number, most significant digit
/// first, without leading zeros (a single `'0'` for zero).
pub open spec fn dec_digits(n: int) -> Seq<char>
    decreases n,
{
    if n < 10 {
        seq![digit_char(n)]
    } else {
        dec_digits(n / 10).push(digit_char(n % 10))
    }
}

/// The single-digit string for a value below ten.
fn digit_str(d: u64) -> (r: &'static str)
    requires
        d < 10,
    ensures
        r@ == seq![digit_char(d as int)],
{
    proof {
        reveal_strlit("0");
        reveal_strlit("1");
        reveal_strlit("2");
        reveal_strlit("3");
        reveal_strlit("4");
        reveal_strlit("5");
        reveal_strlit("6");
        reveal_strlit("7");
        reveal_strlit("8");
        reveal_strlit("9");
    }
    let r = match d {
        0 => "0",
        1 => "1",
        2 => "2",
        3 => "3",
        4 => "4",
        5 => "5",
        6 => "6",
        7 => "7",
        8 => "8",
        _ => "9",
    };
    proof {
        assert(r@ =~= seq![digit_char(d as int)]);
    }
    r
}

/// Render a number in decimal.
pub fn u64_to_string(n: u64) -> (s: String)
    ensures
        s@ == dec_digits(n as int),
    decreases n,
{
    if n < 10 {
        digit_str(n).to_owned()
    } else {
        proof {
            vstd::arithmetic::div_mod::lemma_div_decreases(n as int, 10);
        }
        let mut s = u64_to_string(n / 10);
        s.append(digit_str(n % 10));
        proof {
            assert(s@ =~= dec_digits(n as int));
        }
        s
    }
}

/// The command-line name of each algorithm.
pub open spec fn spec_algo_name(algo: Algorithm) -> Seq<char> {
    match algo {
        Algorithm::RoundRobin => "round-robin"@,
        Algorithm::WeightedRoundRobin => "weighted-round-robin"@,
        Algorithm::LeastConnections => "least-connections"@,
        Algorithm::LeastResponseTime => "least-response-time"@,
    }
}

pub fn algo_name(algo: &Algorithm) -> (r: &'static str)
    ensures
        r@ == spec_algo_name(*algo),
{
    match algo {
        Algorithm::RoundRobin => "round-robin",
        Algorithm::WeightedRoundRobin => "weighted-round-robin",
        Algorithm::LeastConnections => "least-connections",
        Algorithm::LeastResponseTime => "least-response-time",
    }
}

/// The rendering of a request profile: the plain count, or the rate and
/// window of a rate-driven stream.
pub open spec fn spec_format_requests(profile: RequestProfile) -> Seq<char> {
    match profile {
        RequestProfile::FixedCount(count) => dec_digits(count as int),
        RequestProfile::Poisson { rate, duration_ms } => "poisson(rate="@ + dec_digits(
            rate as int,
        ) + ", duration_ms="@ + dec_digits(duration_ms as int) + ")"@,
    }
}

pub fn format_requests(profile: &RequestProfile) -> (r: String)
    ensures
        r@ == spec_format_requests(*profile),
{
    match profile {
        RequestProfile::FixedCount(count) => {
            let c = *count;
            let s = u64_to_string(c as u64);
            proof {
                assert(s@ =~= spec_format_requests(*profile));
            }
            s
        },
        RequestProfile::Poisson { rate, duration_ms } => {
            proof {
                reveal_strlit("poisson(rate=");
                reveal_strlit(", duration_ms=");
                reveal_strlit(")");
            }
            let mut s = "poisson(rate=".to_owned();
            s.append(u64_to_string(*rate).as_str());
            s.append(", duration_ms=");
            s.append(u64_to_string(*duration_ms).as_str());
            s.append(")");
            proof {
                assert(s@ =~= spec_format_requests(*profile));
            }
            s
        },
    }
}

/// The rendering of a tie-break mode: `stable`, or `seeded(<seed>)`.
pub open spec fn spec_format_tie_break(tie_break: TieBreak) -> Seq<char> {
    match tie_break {
        TieBreak::Stable => "stable"@,
        TieBreak::Seeded(seed) => "seeded("@ + dec_digits(seed as int) + ")"@,
    }
}

pub fn format_tie_break(tie_break: &TieBreak) -> (r: String)
    ensures
        r@ == spec_format_tie_break(*tie_break),
{
    match tie_break {
        TieBreak::Stable => {
            proof {
                reveal_strlit("stable");
            }
            "stable".to_owned()
        },
        TieBreak::Seeded(seed) => {
            proof {
                reveal_strlit("seeded(");
                reveal_strlit(")");
            }
            let mut s = "seeded(".to_owned();
            s.append(u64_to_string(*seed).as_str());
            s.append(")");
            proof {
                assert(s@ =~= spec_format_tie_break(*tie_break));
            }
            s
        },
    }
}

} // verus!
