//! A fixed-window message rate limit per peer: at most fifty messages in
//! any one-second window, with the window restarting once more than a
//! second has passed since it opened.

use vstd::prelude::*;
use vstd::string::{StrSliceExecFns, StringSliceAdditionalSpecFns};
use crate::keyed_map::KeyedMap;

verus! {

/// Window length in seconds.
pub const WINDOW: u64 = 1;

pub const MAX_MSG_PER_WINDOW: u32 = 50;

#[derive(Clone, Copy)]
pub struct RateEntry {
    pub count: u32,
    pub window_start: u64,
}

impl View for RateEntry {
    type V = RateEntry;

    open spec fn view(&self) -> RateEntry {
        *self
    }
}

pub struct RateLimiter {
    pub peers: KeyedMap<RateEntry>,
}

impl RateLimiter {
    pub open spec fn wf(self) -> bool {
        self.peers.wf()
    }

    pub fn new() -> (r: RateLimiter)
        ensures
            r.wf(),
            r.peers@ == Map::<Seq<u8>, RateEntry>::empty(),
    {
        RateLimiter { peers: KeyedMap::new() }
    }

    /// Counts a message from `ip` at time `now` and says whether it is
    /// still within the window's allowance.
    pub fn allow(&mut self, ip: &str, now: u64) -> (r: bool)
        requires
            old(self).wf(),
        ensures
            final(self).wf(),
            ({
                let key = ip.spec_bytes();
                let prev = if old(self).peers@.dom().contains(key) {
                    old(self).peers@[key]
                } else {
                    RateEntry { count: 0, window_start: now }
                };
                let fresh_window = now > prev.window_start && now - prev.window_start > WINDOW;
                let base = if fresh_window {
                    RateEntry { count: 0, window_start: now }
                } else {
                    prev
                };
                let nc = if base.count == u32::MAX {
                    u32::MAX
                } else {
                    (base.count + 1) as u32
                };
                &&& r == (nc <= MAX_MSG_PER_WINDOW)
                &&& final(self).peers@ == old(self).peers@.insert(
                    key,
                    RateEntry { count: nc, window_start: base.window_start },
                )
            }),
    {
        let key = ip.as_bytes_vec();
        let prev = match self.peers.get(&key) {
            Some(p) => *p,
            None => RateEntry { count: 0, window_start: now },
        };
        let base = if now > prev.window_start && now - prev.window_start > WINDOW {
            RateEntry { count: 0, window_start: now }
        } else {
            prev
        };
        let nc = if base.count == u32::MAX {
            u32::MAX
        } else {
            base.count + 1
        };
        self.peers.insert(key, RateEntry { count: nc, window_start: base.window_start });
        nc <= MAX_MSG_PER_WINDOW
    }
}

} // verus!
