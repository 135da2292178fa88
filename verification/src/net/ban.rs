//! Peer misbehaviour scores. Each report decays the old score by one,
//! adds the new penalty, and bans the peer for an hour once the total
//! reaches the threshold. Time enters as a caller-supplied clock reading
//! in seconds.

use vstd::prelude::*;
use vstd::string::{StrSliceExecFns, StringSliceAdditionalSpecFns};
use crate::keyed_map::KeyedMap;

verus! {

pub const BAN_THRESHOLD: i32 = 100;

/// Ban duration in seconds.
pub const BAN_TIME: u64 = 3600;

#[derive(Clone, Copy)]
pub struct PeerScore {
    pub score: i32,
    pub banned_until: Option<u64>,
}

impl View for PeerScore {
    type V = PeerScore;

    open spec fn view(&self) -> PeerScore {
        *self
    }
}

pub struct BanManager {
    pub peers: KeyedMap<PeerScore>,
}

/// The score after one report: the previous score decays by one, floors
/// at zero, takes the penalty, and clamps to the `i32` range.
pub open spec fn next_score(prev: int, delta: int) -> int {
    let decayed = if prev - 1 < 0 {
        0
    } else {
        prev - 1
    };
    let raw = decayed + delta;
    if raw > i32::MAX {
        i32::MAX as int
    } else if raw < i32::MIN {
        i32::MIN as int
    } else {
        raw
    }
}

impl BanManager {
    pub open spec fn wf(self) -> bool {
        self.peers.wf()
    }

    pub fn new() -> (r: BanManager)
        ensures
            r.wf(),
            r.peers@ == Map::<Seq<u8>, PeerScore>::empty(),
    {
        BanManager { peers: KeyedMap::new() }
    }

    /// Reports misbehaviour of `ip` at time `now`; returns whether the
    /// report tipped the peer into a ban.
    pub fn add_score(&mut self, ip: &str, delta: i32, now: u64) -> (r: bool)
        requires
            old(self).wf(),
            now + BAN_TIME <= u64::MAX,
        ensures
            final(self).wf(),
            ({
                let key = ip.spec_bytes();
                let prev = if old(self).peers@.dom().contains(key) {
                    old(self).peers@[key]
                } else {
                    PeerScore { score: 0, banned_until: None }
                };
                let ns = next_score(prev.score as int, delta as int);
                &&& r == (ns >= BAN_THRESHOLD)
                &&& final(self).peers@ == old(self).peers@.insert(
                    key,
                    PeerScore {
                        score: ns as i32,
                        banned_until: if ns >= BAN_THRESHOLD {
                            Some((now + BAN_TIME) as u64)
                        } else {
                            prev.banned_until
                        },
                    },
                )
            }),
    {
        let key = ip.as_bytes_vec();
        let prev = match self.peers.get(&key) {
            Some(p) => *p,
            None => PeerScore { score: 0, banned_until: None },
        };
        let decayed: i64 = if prev.score as i64 - 1 < 0 {
            0
        } else {
            prev.score as i64 - 1
        };
        let raw: i64 = decayed + delta as i64;
        let ns: i32 = if raw > i32::MAX as i64 {
            i32::MAX
        } else if raw < i32::MIN as i64 {
            i32::MIN
        } else {
            raw as i32
        };
        let banned = ns >= BAN_THRESHOLD;
        let entry = PeerScore {
            score: ns,
            banned_until: if banned {
                Some(now + BAN_TIME)
            } else {
                prev.banned_until
            },
        };
        self.peers.insert(key, entry);
        banned
    }

    /// Whether `ip` is banned at time `now`; an expired ban is cleared
    /// and the peer's score reset.
    pub fn is_banned(&mut self, ip: &str, now: u64) -> (r: bool)
        requires
            old(self).wf(),
        ensures
            final(self).wf(),
            ({
                let key = ip.spec_bytes();
                if old(self).peers@.dom().contains(key) {
                    match old(self).peers@[key].banned_until {
                        Some(until) => {
                            &&& r == (now < until)
                            &&& (now < until ==> final(self).peers@ == old(self).peers@)
                            &&& (now >= until ==> final(self).peers@ == old(self).peers@.insert(
                                key,
                                PeerScore { score: 0, banned_until: None },
                            ))
                        },
                        None => !r && final(self).peers@ == old(self).peers@,
                    }
                } else {
                    !r && final(self).peers@ == old(self).peers@
                }
            }),
    {
        let key = ip.as_bytes_vec();
        let prev = match self.peers.get(&key) {
            Some(p) => *p,
            None => {
                return false;
            },
        };
        match prev.banned_until {
            Some(until) => {
                if now < until {
                    true
                } else {
                    self.peers.insert(key, PeerScore { score: 0, banned_until: None });
                    false
                }
            },
            None => false,
        }
    }
}

} // verus!
