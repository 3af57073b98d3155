//! The watchdog: a stage is over when nothing has arrived for a while.
use vstd::prelude::*;

verus! {

/// An inactivity timer. Times are milliseconds on a monotonic clock that
/// the caller reads.
pub struct Timeout {
    pub last_msg_time: u64,
    pub timeout: u64,
    pub millis: i32,
    pub enabled: bool,
}

/// A timeout given in milliseconds as a span: a negative one wraps, as a
/// cast to an unsigned number does, and so never expires in practice.
pub open spec fn span_of(ms: i32) -> u64 {
    if ms >= 0 {
        ms as u64
    } else {
        (u64::MAX as int + 1 + ms as int) as u64
    }
}

fn span(ms: i32) -> (r: u64)
    ensures
        r == span_of(ms),
{
    if ms >= 0 {
        ms as u64
    } else {
        u64::MAX - ((-(ms as i64) - 1) as u64)
    }
}

/// The time since `since`, or zero if the clock reads earlier.
pub open spec fn elapsed(since: u64, now: u64) -> int {
    if now >= since {
        now - since
    } else {
        0
    }
}

impl Timeout {
    pub fn new(timeout: i32, now_ms: u64) -> (r: Timeout)
        ensures
            r.last_msg_time == now_ms,
            r.timeout == span_of(timeout),
            r.millis == timeout,
            r.enabled,
    {
        Timeout { last_msg_time: now_ms, timeout: span(timeout), millis: timeout, enabled: true }
    }

    pub fn set_timeout(&mut self, timeout: i32)
        ensures
            final(self).timeout == span_of(timeout),
            final(self).last_msg_time == old(self).last_msg_time,
            final(self).millis == old(self).millis,
            final(self).enabled == old(self).enabled,
    {
        self.timeout = span(timeout);
    }

    pub fn disable(&mut self)
        ensures
            !final(self).enabled,
            final(self).last_msg_time == old(self).last_msg_time,
            final(self).timeout == old(self).timeout,
            final(self).millis == old(self).millis,
    {
        self.enabled = false;
    }

    /// Turns the timer on again, restarted, with the timeout it was made with.
    pub fn enable(&mut self, now_ms: u64)
        ensures
            final(self).enabled,
            final(self).last_msg_time == now_ms,
            final(self).timeout == span_of(old(self).millis),
            final(self).millis == old(self).millis,
    {
        self.enabled = true;
        self.update(now_ms);
        let millis = self.millis;
        self.set_timeout(millis);
    }

    /// Feeds the watchdog: a message arrived.
    pub fn update(&mut self, now_ms: u64)
        ensures
            final(self).last_msg_time == now_ms,
            final(self).timeout == old(self).timeout,
            final(self).millis == old(self).millis,
            final(self).enabled == old(self).enabled,
    {
        self.last_msg_time = now_ms;
    }

    /// Whether the timer is on and more than its timeout has passed since
    /// the last message.
    pub fn timed_out(&self, now_ms: u64) -> (r: bool)
        ensures
            r == (self.enabled && elapsed(self.last_msg_time, now_ms) > self.timeout),
    {
        let e: u64 = if now_ms >= self.last_msg_time { now_ms - self.last_msg_time } else { 0 };
        self.enabled && e > self.timeout
    }
}

} // verus!
