//! Fixed-window rate limiting. Times are milliseconds on a monotonic clock.

use vstd::prelude::*;
use crate::errors::RuleError;
use crate::transport::rule_error_payload;

verus! {

/// A fixed window of counted events.
#[derive(Clone, Copy, Debug)]
pub struct RateWindow {
    pub started_at: u64,
    pub last_seen: u64,
    pub count: u32,
}

/// Time elapsed from `then` to `now`, or zero when `now` is earlier.
pub open spec fn since(now: u64, then: u64) -> int {
    if now >= then {
        now - then
    } else {
        0
    }
}

impl RateWindow {
    /// A window opened at `now`, with nothing counted.
    pub fn new(now: u64) -> (w: RateWindow)
        ensures
            w.started_at == now,
            w.last_seen == now,
            w.count == 0,
    {
        RateWindow { started_at: now, last_seen: now, count: 0 }
    }

    /// Whether the window opened at least `duration` before `now`.
    pub fn window_elapsed(&self, now: u64, duration: u64) -> (b: bool)
        ensures
            b == (since(now, self.started_at) >= duration),
    {
        now.saturating_sub(self.started_at) >= duration
    }

    /// Counts one event at `now`, first opening a new window when the current one has
    /// lasted `duration`; tells whether the count is now above `maximum`.
    pub fn consume(&mut self, now: u64, duration: u64, maximum: u32) -> (limited: bool)
        ensures
            since(now, old(self).started_at) >= duration ==> final(self).started_at == now && final(self).count == 1,
            since(now, old(self).started_at) < duration ==> final(self).started_at == old(self).started_at
                && final(self).count == if old(self).count == u32::MAX {
                u32::MAX as int
            } else {
                old(self).count + 1
            },
            final(self).last_seen == now,
            limited == (final(self).count > maximum),
    {
        if self.window_elapsed(now, duration) {
            self.started_at = now;
            self.count = 0;
        }
        self.last_seen = now;
        self.count = self.count.saturating_add(1);
        self.count > maximum
    }

    /// Records that the window was used at `now`.
    pub fn touch(&mut self, now: u64)
        ensures
            *final(self) == (RateWindow { last_seen: now, ..*old(self) }),
    {
        self.last_seen = now;
    }

    /// Whether the window has not been used for `retention`.
    pub fn is_idle(&self, now: u64, retention: u64) -> (b: bool)
        ensures
            b == (since(now, self.last_seen) >= retention),
    {
        now.saturating_sub(self.last_seen) >= retention
    }
}

/// Counts one socket event against a window of 10 seconds allowing `maximum` events.
pub fn consume_rate_window(window: &mut RateWindow, now: u64, maximum: u32) -> (r: Result<(), RuleError>)
    ensures
        r is Err <==> final(window).count > maximum,
        since(now, old(window).started_at) >= 10_000 ==> final(window).started_at == now && final(window).count == 1,
        since(now, old(window).started_at) < 10_000 ==> final(window).started_at == old(window).started_at
            && final(window).count == if old(window).count == u32::MAX {
            u32::MAX as int
        } else {
            old(window).count + 1
        },
        final(window).last_seen == now,
        r matches Err(e) ==> e.code@ == "RATE_LIMITED"@,
{
    if window.consume(now, 10_000, maximum) {
        return Err(rule_error_payload(RuleError::new("RATE_LIMITED", "操作过于频繁，请稍后重试")));
    }
    Ok(())
}

/// Counts one connection attempt against a window of 60 seconds allowing 240 attempts.
pub fn consume_handshake(window: &mut RateWindow, now: u64) -> (r: Result<(), RuleError>)
    ensures
        r is Err <==> final(window).count > 240,
        since(now, old(window).started_at) >= 60_000 ==> final(window).started_at == now && final(window).count == 1,
        since(now, old(window).started_at) < 60_000 ==> final(window).started_at == old(window).started_at
            && final(window).count == if old(window).count == u32::MAX {
            u32::MAX as int
        } else {
            old(window).count + 1
        },
        final(window).last_seen == now,
        r matches Err(e) ==> e.code@ == "RATE_LIMITED"@,
{
    if window.consume(now, 60_000, 240) {
        return Err(rule_error_payload(RuleError::new("RATE_LIMITED", "连接尝试过于频繁，请稍后重试")));
    }
    Ok(())
}

} // verus!
