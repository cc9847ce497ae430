//! Per-host politeness: how long a dispatch to a host must wait so that
//! dispatches to it stay at least a minimum delay apart.
use vstd::prelude::*;
use crate::keyed::{entries_view, find_last, last_seen, set_entry};

verus! {

/// The default minimum gap between two dispatches to one host, in milliseconds.
pub const MIN_DELAY_MS: u64 = 1000;

/// How long a dispatch at `now` must wait after one at `last`: what is left
/// of `min_delay` since then (a clock that reads earlier counts as no time).
pub open spec fn wait_after(last: Option<u64>, now: u64, min_delay: u64) -> u64 {
    match last {
        None => 0,
        Some(t) => {
            let elapsed = if now >= t {
                now - t
            } else {
                0
            };
            if elapsed < min_delay {
                (min_delay - elapsed) as u64
            } else {
                0
            }
        },
    }
}

/// The last dispatch time of each host, as milliseconds on a monotonic clock.
pub struct RateLimiter {
    last_request: Vec<(String, u64)>,
    min_delay_ms: u64,
}

impl RateLimiter {
    pub closed spec fn entries(self) -> Seq<(Seq<char>, u64)> {
        entries_view(self.last_request@)
    }

    /// The minimum gap between dispatches to one host, in milliseconds.
    pub closed spec fn min_delay(self) -> u64 {
        self.min_delay_ms
    }

    /// The time of the last dispatch to `host`, if any.
    pub open spec fn last_dispatch(self, host: Seq<char>) -> Option<u64> {
        last_seen(self.entries(), host)
    }

    /// A limiter with the default one-second gap and no host seen.
    pub fn new() -> (r: Self)
        ensures
            r.min_delay() == MIN_DELAY_MS,
            forall|h: Seq<char>| #[trigger] r.last_dispatch(h) is None,
    {
        Self::with_min_delay(MIN_DELAY_MS)
    }

    /// A limiter with the given gap, in milliseconds, and no host seen.
    pub fn with_min_delay(min_delay_ms: u64) -> (r: Self)
        ensures
            r.min_delay() == min_delay_ms,
            forall|h: Seq<char>| #[trigger] r.last_dispatch(h) is None,
    {
        let r = RateLimiter { last_request: Vec::new(), min_delay_ms };
        assert(r.entries() =~= Seq::<(Seq<char>, u64)>::empty());
        r
    }

    /// How long, in milliseconds, a dispatch to `host` at time `now_ms` must
    /// wait: what is left of the minimum gap since the host's last dispatch.
    pub fn delay_for(&self, host: &str, now_ms: u64) -> (r: u64)
        ensures
            r == wait_after(self.last_dispatch(host@), now_ms, self.min_delay()),
    {
        let last = match find_last(&self.last_request, host) {
            Some(i) => Some(self.last_request[i].1),
            None => None,
        };
        match last {
            None => 0,
            Some(t) => {
                let elapsed = if now_ms >= t {
                    now_ms - t
                } else {
                    0
                };
                if elapsed < self.min_delay_ms {
                    self.min_delay_ms - elapsed
                } else {
                    0
                }
            },
        }
    }

    /// Records a dispatch to `host` at time `now_ms`.
    pub fn record_dispatch(&mut self, host: &str, now_ms: u64)
        ensures
            final(self).last_dispatch(host@) == Some(now_ms),
            forall|h: Seq<char>| h != host@ ==> #[trigger] final(self).last_dispatch(h) == old(self).last_dispatch(h),
            final(self).min_delay() == old(self).min_delay(),
    {
        set_entry(&mut self.last_request, host, now_ms);
    }
}

/// Dispatches to one host made one after the other keep the minimum gap:
/// once a dispatch at `t` is recorded, a later dispatch that waits what
/// `delay_for` asks starts no earlier than `t` plus the gap.
pub proof fn lemma_dispatches_spaced(rl: RateLimiter, host: Seq<char>, t: u64, now: u64)
    requires
        rl.last_dispatch(host) == Some(t),
        now >= t,
    ensures
        now + wait_after(rl.last_dispatch(host), now, rl.min_delay()) >= t + rl.min_delay(),
{
}

} // verus!
