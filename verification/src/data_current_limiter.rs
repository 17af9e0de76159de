//! A limit on how many bytes are sent within a window of time.
use vstd::prelude::*;
use crate::udp_msg_split::now_nanos;

verus! {

/// Admits at most `limit` bytes within each window of `duration` nanoseconds; the
/// window restarts after a pause longer than `duration`.
pub struct DataCurrentLimiter {
    duration: u128,
    limit: usize,
    up_ratio: usize,
    down_ratio: usize,
    current: usize,
    last_time: u128,
}

/// The limiter as plain values.
pub struct LimiterView {
    pub duration: u128,
    pub limit: usize,
    /// The ratios the limiter was made with; the decisions do not read them.
    pub up_ratio: usize,
    pub down_ratio: usize,
    pub current: usize,
    pub last_time: u128,
}

impl View for DataCurrentLimiter {
    type V = LimiterView;

    closed spec fn view(&self) -> LimiterView {
        LimiterView {
            duration: self.duration,
            limit: self.limit,
            up_ratio: self.up_ratio,
            down_ratio: self.down_ratio,
            current: self.current,
            last_time: self.last_time,
        }
    }
}

/// Whether `size` more bytes are admitted at `now`, and the limiter after the
/// decision: after a pause longer than the window only `size` itself counts, else it
/// adds to what the window holds; a refused send changes nothing, and a clock that
/// went back refuses every send.
pub open spec fn spec_can_send(s: LimiterView, size: usize, now: u128) -> (LimiterView, bool) {
    if now < s.last_time {
        (s, false)
    } else if now - s.last_time > s.duration {
        if size <= s.limit {
            (LimiterView { current: size, last_time: now, ..s }, true)
        } else {
            (s, false)
        }
    } else if s.current + size <= s.limit {
        (LimiterView { current: (s.current + size) as usize, last_time: now, ..s }, true)
    } else {
        (s, false)
    }
}

impl DataCurrentLimiter {
    /// The bytes counted never pass the limit.
    pub closed spec fn wf(&self) -> bool {
        self.current <= self.limit
    }

    /// A limiter of `limit` bytes per `dur` nanoseconds whose first window starts at
    /// `now`.
    pub fn new_at(dur: u128, limit: usize, up_ratio: usize, down_ratio: usize, now: u128) -> (r: DataCurrentLimiter)
        ensures
            r.wf(),
            r@ == (LimiterView { duration: dur, limit, up_ratio, down_ratio, current: 0, last_time: now }),
    {
        DataCurrentLimiter { duration: dur, limit, up_ratio, down_ratio, current: 0, last_time: now }
    }

    /// A limiter of `limit` bytes per `dur` nanoseconds whose first window starts now.
    pub fn new(dur: u128, limit: usize, up_ratio: usize, down_ratio: usize) -> (r: DataCurrentLimiter)
        ensures
            r.wf(),
            r@.duration == dur,
            r@.limit == limit,
            r@.up_ratio == up_ratio,
            r@.down_ratio == down_ratio,
            r@.current == 0,
    {
        Self::new_at(dur, limit, up_ratio, down_ratio, now_nanos())
    }

    /// Whether `size` more bytes may be sent at `now` (see `spec_can_send`).
    pub fn can_send_at(&mut self, size: usize, now: u128) -> (r: bool)
        requires
            old(self).wf(),
        ensures
            final(self).wf(),
            (final(self)@, r) == spec_can_send(old(self)@, size, now),
    {
        if now < self.last_time {
            return false;
        }
        if now - self.last_time > self.duration {
            let res = size <= self.limit;
            if res {
                self.current = size;
                self.last_time = now;
            }
            res
        } else {
            let res = size <= self.limit - self.current;
            if res {
                self.current = self.current + size;
                self.last_time = now;
            }
            res
        }
    }

    /// Whether `size` more bytes may be sent now.
    pub fn can_send(&mut self, size: usize) -> (r: bool)
        requires
            old(self).wf(),
        ensures
            final(self).wf(),
            exists|now: u128| (final(self)@, r) == #[trigger] spec_can_send(old(self)@, size, now),
    {
        let now = now_nanos();
        self.can_send_at(size, now)
    }
}

} // verus!

verus! {

/// Admitted bytes are counted: when `size` bytes are admitted, the limiter's count
/// afterwards is at least `size` and within the limit, and the window is dated `now`; a
/// window that restarts after a pause holds exactly `size`; and a refused send
/// changes nothing.
pub proof fn lemma_admitted_bytes_count(s: LimiterView, size: usize, now: u128)
    requires
        s.current <= s.limit,
    ensures
        spec_can_send(s, size, now).1 ==> {
            let t = spec_can_send(s, size, now).0;
            &&& size <= t.current <= t.limit
            &&& t.last_time == now
            &&& now - s.last_time > s.duration ==> t.current == size
            &&& now - s.last_time <= s.duration ==> t.current == s.current + size
        },
        !spec_can_send(s, size, now).1 ==> spec_can_send(s, size, now).0 == s,
{
}

/// Within one window the bytes admitted never pass the limit: of two sends admitted
/// one after the other, the second no longer than the window after the first, the two
/// sizes together fit the limit.
pub proof fn lemma_window_limit(s: LimiterView, a: usize, t1: u128, b: usize, t2: u128)
    requires
        s.current <= s.limit,
        spec_can_send(s, a, t1).1,
        spec_can_send(spec_can_send(s, a, t1).0, b, t2).1,
        t1 <= t2,
        t2 - t1 <= s.duration,
    ensures
        a + b <= s.limit,
{
    lemma_admitted_bytes_count(s, a, t1);
}

} // verus!
