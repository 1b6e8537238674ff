//! The window-based rate limiter: after each chunk, decide whether to sleep
//! out the rest of the current one-second window.
use vstd::prelude::*;

verus! {

/// Length of a throttle window, in microseconds.
pub const WINDOW_MICROS: u64 = 1000000;

/// The largest chunk a transfer reads at once, in bytes.
pub const CHUNK_SIZE: u64 = 1024;

/// What the transfer loop does after writing a chunk.
#[derive(Clone, Copy, Debug, PartialEq, Eq, Structural)]
pub enum ThrottleAction {
    Continue,
    /// Sleep this many microseconds before reading on.
    Sleep(u64),
}

/// Accounting for one throttled transfer. Times are microseconds on a
/// monotonic clock chosen by the caller.
pub struct Throttle {
    pub limit: u64,
    pub window_bytes: u64,
    pub window_start: u64,
    /// When the transfer began.
    pub origin: Ghost<int>,
    /// Bytes accounted so far.
    pub total: Ghost<int>,
    /// Windows closed so far.
    pub windows: Ghost<int>,
}

/// The most bytes a closed window can hold under `limit`: the window closes
/// at the first chunk that brings it to the limit.
pub open spec fn window_cap(limit: u64) -> int {
    if limit == 0 {
        CHUNK_SIZE as int
    } else {
        limit + CHUNK_SIZE - 1
    }
}

/// The most bytes the open window can hold under `limit`.
pub open spec fn open_cap(limit: u64) -> int {
    if limit == 0 {
        0
    } else {
        limit - 1
    }
}

impl Throttle {
    pub open spec fn wf(&self) -> bool {
        &&& self.origin@ <= self.window_start
        &&& (self.window_bytes == 0 || self.window_bytes < self.limit)
        &&& self.windows@ >= 0
        &&& self.window_start >= self.origin@ + self.windows@ * WINDOW_MICROS
        &&& 0 <= self.total@ <= self.windows@ * window_cap(self.limit) + self.window_bytes
    }

    /// A fresh throttle for `limit` bytes per second, started at `now`.
    pub fn new(limit: u64, now: u64) -> (r: Throttle)
        ensures
            r.wf(),
            r.limit == limit,
            r.window_bytes == 0,
            r.window_start == now,
            r.origin@ == now,
            r.total@ == 0,
            r.windows@ == 0,
    {
        Throttle {
            limit,
            window_bytes: 0,
            window_start: now,
            origin: Ghost(now as int),
            total: Ghost(0),
            windows: Ghost(0),
        }
    }

    /// Opens the next window at `now`, the time the caller woke from the
    /// sleep that `on_chunk` asked for.
    pub fn resume(&mut self, now: u64)
        requires
            old(self).wf(),
            old(self).window_start <= now <= u64::MAX - WINDOW_MICROS,
        ensures
            final(self).wf(),
            final(self).limit == old(self).limit,
            final(self).window_bytes == old(self).window_bytes,
            final(self).window_start == now,
            final(self).origin == old(self).origin,
            final(self).total == old(self).total,
            final(self).windows == old(self).windows,
    {
        self.window_start = now;
    }

    /// Accounts `n` freshly written bytes at time `now` and decides what to do:
    /// inside the window with the limit reached, sleep out the window (the
    /// next one opens at the earliest wake time, see `resume`); once the window has run its full length, open a new one
    /// at `now`; otherwise keep counting.
    pub fn on_chunk(&mut self, n: u64, now: u64) -> (a: ThrottleAction)
        requires
            old(self).wf(),
            n <= CHUNK_SIZE,
            old(self).window_start <= now <= u64::MAX - WINDOW_MICROS,
        ensures
            final(self).wf(),
            final(self).limit == old(self).limit,
            final(self).origin == old(self).origin,
            final(self).total@ == old(self).total@ + n,
            ({
                let elapsed = now - old(self).window_start;
                let count = old(self).window_bytes + n;
                if elapsed < WINDOW_MICROS && count >= old(self).limit {
                    &&& a == ThrottleAction::Sleep((WINDOW_MICROS - elapsed) as u64)
                    &&& final(self).window_bytes == 0
                    &&& final(self).window_start == old(self).window_start + WINDOW_MICROS
                } else if elapsed >= WINDOW_MICROS {
                    &&& a == ThrottleAction::Continue
                    &&& final(self).window_bytes == 0
                    &&& final(self).window_start == now
                } else {
                    &&& a == ThrottleAction::Continue
                    &&& final(self).window_bytes == count
                    &&& final(self).window_start == old(self).window_start
                }
            }),
    {
        let elapsed = now - self.window_start;
        let reached = n >= self.limit || self.window_bytes >= self.limit - n;
        let ghost w = self.windows@;
        let ghost c = window_cap(self.limit);
        proof {
            assert((w + 1) * c == w * c + c) by (nonlinear_arith);
            assert((w + 1) * WINDOW_MICROS == w * WINDOW_MICROS + WINDOW_MICROS)
                by (nonlinear_arith);
        }
        self.total = Ghost(self.total@ + n);
        if elapsed < WINDOW_MICROS && reached {
            self.window_bytes = 0;
            self.window_start = self.window_start + WINDOW_MICROS;
            self.windows = Ghost(w + 1);
            ThrottleAction::Sleep(WINDOW_MICROS - elapsed)
        } else if elapsed >= WINDOW_MICROS {
            self.window_bytes = 0;
            self.window_start = now;
            self.windows = Ghost(w + 1);
            ThrottleAction::Continue
        } else {
            self.window_bytes = self.window_bytes + n;
            ThrottleAction::Continue
        }
    }
}

/// A throttled transfer cannot outrun its limit by more than one chunk per
/// window: once `total` bytes have been accounted under a limit of `L > 0`
/// bytes per second, at least `(total - (L - 1)) / (L + CHUNK_SIZE - 1)`
/// seconds have passed since the transfer began (for `L = 0`, at least
/// `total / CHUNK_SIZE`).
pub proof fn lemma_throttle_duration(t: &Throttle, now: u64)
    requires
        t.wf(),
        t.window_start <= now,
    ensures
        (now - t.origin@) * window_cap(t.limit) >= (t.total@ - open_cap(t.limit)) * WINDOW_MICROS,
{
    let w = t.windows@;
    let c = window_cap(t.limit);
    let o = open_cap(t.limit);
    let e = now - t.origin@;
    assert(e >= w * WINDOW_MICROS);
    assert(t.total@ - o <= w * c);
    assert(e * c >= (t.total@ - o) * WINDOW_MICROS) by (nonlinear_arith)
        requires
            e >= w * WINDOW_MICROS,
            t.total@ - o <= w * c,
            c >= 0,
            w >= 0,
    ;
}

} // verus!
