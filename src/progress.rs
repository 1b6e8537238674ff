//! Progress figures for one transfer: average speed, time left and its label.
use vstd::prelude::*;

verus! {

/// `x` clamped into the range of `u64`.
pub open spec fn clamp_u64(x: int) -> u64 {
    if x < 0 {
        0
    } else if x > u64::MAX {
        u64::MAX
    } else {
        x as u64
    }
}

/// Elapsed time with a floor of one millisecond, so that speed is defined.
pub open spec fn elapsed_floor(elapsed_ms: u64) -> int {
    if elapsed_ms == 0 {
        1
    } else {
        elapsed_ms as int
    }
}

/// Average speed in bytes per second since the transfer began.
pub open spec fn speed_of(bytes: u64, elapsed_ms: u64) -> u64 {
    clamp_u64(bytes * 1000 / elapsed_floor(elapsed_ms))
}

/// Milliseconds left at the average speed so far; unknown where the total
/// size is unknown or nothing has arrived yet.
pub open spec fn eta_of(bytes: u64, elapsed_ms: u64, total: Option<u64>) -> Option<u64> {
    match total {
        None => None,
        Some(t) => if bytes == 0 {
            None
        } else {
            Some(clamp_u64(clamp_u64(t - bytes) * elapsed_floor(elapsed_ms) / bytes as int))
        },
    }
}

/// One reading of a transfer's progress.
#[derive(Clone, Copy, Debug, PartialEq, Eq, Structural)]
pub struct ProgressSample {
    pub bytes: u64,
    pub elapsed_ms: u64,
    pub speed: u64,
    pub total: Option<u64>,
    pub eta_ms: Option<u64>,
}

/// `n` in sign-less decimal notation.
pub open spec fn decimal(n: nat) -> Seq<char>
    decreases n,
{
    if n < 10 {
        digit_text(n)
    } else {
        decimal(n / 10) + digit_text(n % 10)
    }
}

pub open spec fn digit_text(d: nat) -> Seq<char> {
    if d == 0 {
        "0"@
    } else if d == 1 {
        "1"@
    } else if d == 2 {
        "2"@
    } else if d == 3 {
        "3"@
    } else if d == 4 {
        "4"@
    } else if d == 5 {
        "5"@
    } else if d == 6 {
        "6"@
    } else if d == 7 {
        "7"@
    } else if d == 8 {
        "8"@
    } else {
        "9"@
    }
}

/// How a time left is shown: `-` where unknown, else rounded seconds under a
/// minute, rounded minutes under an hour, rounded hours beyond.
pub open spec fn eta_label(eta_ms: Option<u64>) -> Seq<char> {
    match eta_ms {
        None => "-"@,
        Some(ms) => if ms < 60000 {
            decimal(((ms + 500) / 1000) as nat) + "s"@
        } else if ms < 3600000 {
            decimal(((ms + 30000) / 60000) as nat) + "m"@
        } else {
            decimal(((ms + 1800000) / 3600000) as nat) + "h"@
        },
    }
}

fn digit_str(d: u64) -> (r: &'static str)
    requires
        d < 10,
    ensures
        r@ == digit_text(d as nat),
{
    if d == 0 {
        "0"
    } else if d == 1 {
        "1"
    } else if d == 2 {
        "2"
    } else if d == 3 {
        "3"
    } else if d == 4 {
        "4"
    } else if d == 5 {
        "5"
    } else if d == 6 {
        "6"
    } else if d == 7 {
        "7"
    } else if d == 8 {
        "8"
    } else {
        "9"
    }
}

/// `n` written in decimal.
pub fn decimal_string(n: u64) -> (r: String)
    ensures
        r@ == decimal(n as nat),
    decreases n,
{
    if n < 10 {
        String::from_str(digit_str(n))
    } else {
        let mut r = decimal_string(n / 10);
        r.append(digit_str(n % 10));
        r
    }
}

fn clamp_u128(x: u128) -> (r: u64)
    ensures
        r == clamp_u64(x as int),
{
    if x > u64::MAX as u128 {
        u64::MAX
    } else {
        x as u64
    }
}

impl ProgressSample {
    /// The reading after `bytes` bytes in `elapsed_ms` milliseconds, towards
    /// `total` bytes where the total is known.
    pub fn take(bytes: u64, elapsed_ms: u64, total: Option<u64>) -> (r: ProgressSample)
        ensures
            r.bytes == bytes,
            r.elapsed_ms == elapsed_ms,
            r.total == total,
            r.speed == speed_of(bytes, elapsed_ms),
            r.eta_ms == eta_of(bytes, elapsed_ms, total),
    {
        let el: u64 = if elapsed_ms == 0 {
            1
        } else {
            elapsed_ms
        };
        let speed = clamp_u128((bytes as u128 * 1000) / el as u128);
        let eta_ms = match total {
            None => None,
            Some(t) => if bytes == 0 {
                None
            } else {
                let left: u64 = if t >= bytes {
                    t - bytes
                } else {
                    0
                };
                assert(left as int * el as int <= u64::MAX as int * u64::MAX as int)
                    by (nonlinear_arith)
                    requires
                        left <= u64::MAX,
                        el <= u64::MAX,
                ;
                Some(clamp_u128((left as u128 * el as u128) / bytes as u128))
            },
        };
        ProgressSample { bytes, elapsed_ms, speed, total, eta_ms }
    }

    /// The time left as shown in the status line.
    pub fn eta_text(&self) -> (r: String)
        ensures
            r@ == eta_label(self.eta_ms),
    {
        eta(self.eta_ms)
    }
}

/// Label for a time left in milliseconds, `-` where it is unknown.
pub fn eta(eta_ms: Option<u64>) -> (r: String)
    ensures
        r@ == eta_label(eta_ms),
{
    match eta_ms {
        None => String::from_str("-"),
        Some(ms) => {
            let (n, unit) = if ms < 60000 {
                ((ms + 500) / 1000, "s")
            } else if ms < 3600000 {
                ((ms + 30000) / 60000, "m")
            } else {
                (ms / 3600000 + (if ms % 3600000 >= 1800000 { 1u64 } else { 0u64 }), "h")
            };
            let mut r = decimal_string(n);
            r.append(unit);
            r
        },
    }
}

/// With the total size unknown, every reading leaves the time left
/// undetermined and shows it as `-`.
pub proof fn lemma_unknown_total_eta(bytes: u64, elapsed_ms: u64)
    ensures
        eta_of(bytes, elapsed_ms, None) is None,
        eta_label(eta_of(bytes, elapsed_ms, None)) == "-"@,
{
}

} // verus!
