use vstd::prelude::*;
use crate::error::CoreError;

verus! {

/// A peer waiting in the pool for reuse.
#[derive(Clone, Copy, Debug, PartialEq, Eq, Structural)]
pub struct IdlePeer {
    /// When the pool stops keeping it.
    pub exp: u64,
    pub token: u64,
    /// Requests it has served.
    pub requests: u64,
}

/// A peer checked out of the pool.
#[derive(Clone, Copy, Debug, PartialEq, Eq, Structural)]
pub struct Peer {
    pub token: u64,
    pub requests: u64,
}

/// `(exp, token)` order: the earliest expiring peer first.
pub open spec fn le(a: IdlePeer, b: IdlePeer) -> bool {
    a.exp < b.exp || (a.exp == b.exp && a.token <= b.token)
}

pub open spec fn sorted(s: Seq<IdlePeer>) -> bool {
    forall|i: int, j: int| 0 <= i < j < s.len() ==> le(#[trigger] s[i], #[trigger] s[j])
}

/// How to obtain a peer.
pub enum Acquire {
    /// Reuse this idle peer, once its socket is found still valid.
    Reuse(IdlePeer),
    /// Open a new connection.
    Open,
}

/// The keepalive accounting of one upstream address: how many peers are
/// checked out, and which idle peers wait for reuse.
pub struct ConnectionPool {
    max_keepalive: usize,
    max_active: usize,
    keepalive_requests: u64,
    active: usize,
    idle: Vec<IdlePeer>,
    next_token: u64,
}

impl ConnectionPool {
    pub closed spec fn spec_max_keepalive(&self) -> nat {
        self.max_keepalive as nat
    }

    pub closed spec fn spec_max_active(&self) -> nat {
        self.max_active as nat
    }

    pub closed spec fn spec_keepalive_requests(&self) -> nat {
        self.keepalive_requests as nat
    }

    pub closed spec fn spec_active(&self) -> nat {
        self.active as nat
    }

    pub closed spec fn spec_idle(&self) -> Seq<IdlePeer> {
        self.idle@
    }

    pub closed spec fn spec_next_token(&self) -> u64 {
        self.next_token
    }

    /// Active peers stay within `max_active`, idle ones within
    /// `max_keepalive`; the idle ones are kept in `(exp, token)` order, and
    /// each has served fewer requests than `keepalive_requests`.
    pub open spec fn wf(&self) -> bool {
        &&& self.spec_active() <= self.spec_max_active()
        &&& self.spec_idle().len() <= self.spec_max_keepalive()
        &&& sorted(self.spec_idle())
        &&& forall|i: int| 0 <= i < self.spec_idle().len()
            ==> (#[trigger] self.spec_idle()[i]).requests < self.spec_keepalive_requests()
    }

    /// A pool; a limit of zero, or none, means unbounded.
    pub fn with_timeouts(max_keepalive: usize, max_active: usize, keepalive_requests: Option<u64>) -> (p: ConnectionPool)
        ensures
            p.wf(),
            p.spec_max_keepalive() == if max_keepalive == 0 { usize::MAX as nat } else { max_keepalive as nat },
            p.spec_max_active() == if max_active == 0 { usize::MAX as nat } else { max_active as nat },
            p.spec_keepalive_requests() == match keepalive_requests {
                Some(n) => n as nat,
                None => u64::MAX as nat,
            },
            p.spec_active() == 0,
            p.spec_idle().len() == 0,
    {
        ConnectionPool {
            max_keepalive: if max_keepalive == 0 { usize::MAX } else { max_keepalive },
            max_active: if max_active == 0 { usize::MAX } else { max_active },
            keepalive_requests: match keepalive_requests {
                Some(n) => n,
                None => u64::MAX,
            },
            active: 0,
            idle: Vec::new(),
            next_token: 0,
        }
    }

    pub fn new(max_keepalive: usize, max_active: usize) -> (p: ConnectionPool)
        ensures
            p.wf(),
            p.spec_max_keepalive() == if max_keepalive == 0 { usize::MAX as nat } else { max_keepalive as nat },
            p.spec_max_active() == if max_active == 0 { usize::MAX as nat } else { max_active as nat },
            p.spec_keepalive_requests() == u64::MAX as nat,
            p.spec_active() == 0,
            p.spec_idle().len() == 0,
    {
        ConnectionPool::with_timeouts(max_keepalive, max_active, None)
    }

    pub fn active(&self) -> (r: usize)
        ensures
            r == self.spec_active(),
    {
        self.active
    }

    pub fn idle(&self) -> (r: usize)
        ensures
            r == self.spec_idle().len(),
    {
        self.idle.len()
    }

    /// The first step of a checkout: refused when `max_active` peers are out;
    /// otherwise the earliest expiring idle peer leaves the idle set to be
    /// tried, or, with none idle, a new connection is to be opened.
    pub fn acquire(&mut self) -> (r: Result<Acquire, CoreError>)
        requires
            old(self).wf(),
        ensures
            final(self).wf(),
            final(self).spec_active() == old(self).spec_active(),
            final(self).spec_max_active() == old(self).spec_max_active(),
            final(self).spec_max_keepalive() == old(self).spec_max_keepalive(),
            final(self).spec_keepalive_requests() == old(self).spec_keepalive_requests(),
            old(self).spec_active() == old(self).spec_max_active() ==> r is Err && final(self).spec_idle() == old(self).spec_idle(),
            old(self).spec_active() < old(self).spec_max_active() && old(self).spec_idle().len() == 0
                ==> (r matches Ok(Acquire::Open) && final(self).spec_idle() == old(self).spec_idle()),
            old(self).spec_active() < old(self).spec_max_active() && old(self).spec_idle().len() > 0
                ==> (r matches Ok(Acquire::Reuse(p)) && p == old(self).spec_idle()[0]
                    && final(self).spec_idle() == old(self).spec_idle().drop_first()),
    {
        if self.active == self.max_active {
            return Err(CoreError::from_str("max_active reached"));
        }
        if self.idle.len() == 0 {
            return Ok(Acquire::Open);
        }
        let p = self.idle.remove(0);
        proof {
            assert forall|i: int, j: int| 0 <= i < j < self.spec_idle().len()
                implies le(#[trigger] self.spec_idle()[i], #[trigger] self.spec_idle()[j]) by {
                assert(self.spec_idle()[i] == old(self).spec_idle()[i + 1]);
                assert(self.spec_idle()[j] == old(self).spec_idle()[j + 1]);
            }
            assert forall|i: int| 0 <= i < self.spec_idle().len()
                implies (#[trigger] self.spec_idle()[i]).requests < self.spec_keepalive_requests() by {
                assert(self.spec_idle()[i] == old(self).spec_idle()[i + 1]);
            }
            assert(self.spec_idle() == old(self).spec_idle().drop_first());
        }
        Ok(Acquire::Reuse(p))
    }

    /// Hands out a peer: a reused one keeps its request count, a new one has
    /// none; either gets a fresh token.
    pub fn activate(&mut self, reused: Option<IdlePeer>) -> (peer: Peer)
        requires
            old(self).wf(),
            old(self).spec_active() < old(self).spec_max_active(),
        ensures
            final(self).wf(),
            final(self).spec_active() == old(self).spec_active() + 1,
            final(self).spec_idle() == old(self).spec_idle(),
            final(self).spec_max_active() == old(self).spec_max_active(),
            final(self).spec_max_keepalive() == old(self).spec_max_keepalive(),
            final(self).spec_keepalive_requests() == old(self).spec_keepalive_requests(),
            peer.token == old(self).spec_next_token(),
            peer.requests == match reused {
                Some(p) => p.requests,
                None => 0,
            },
    {
        let token = self.next_token;
        if self.next_token < u64::MAX {
            self.next_token = self.next_token + 1;
        }
        self.active = self.active + 1;
        Peer {
            token,
            requests: match reused {
                Some(p) => p.requests,
                None => 0,
            },
        }
    }

    /// Takes a peer back after a request. It is kept for reuse, with one more
    /// request counted and `exp` as its deadline, unless its socket is no
    /// longer valid, `max_keepalive` peers are idle already, or it has now
    /// served `keepalive_requests` requests; then it is closed. Returns
    /// whether it was kept.
    pub fn release(&mut self, peer: Peer, valid: bool, exp: u64) -> (kept: bool)
        requires
            old(self).wf(),
            old(self).spec_active() > 0,
        ensures
            final(self).wf(),
            final(self).spec_active() == old(self).spec_active() - 1,
            final(self).spec_max_active() == old(self).spec_max_active(),
            final(self).spec_max_keepalive() == old(self).spec_max_keepalive(),
            final(self).spec_keepalive_requests() == old(self).spec_keepalive_requests(),
            kept == (valid && old(self).spec_idle().len() < old(self).spec_max_keepalive()
                && peer.requests + 1 < old(self).spec_keepalive_requests()),
            !kept ==> final(self).spec_idle() == old(self).spec_idle(),
            kept ==> final(self).spec_idle().len() == old(self).spec_idle().len() + 1
                && final(self).spec_idle().to_multiset() == old(self).spec_idle().to_multiset().insert(
                    IdlePeer { exp, token: peer.token, requests: (peer.requests + 1) as u64 },
                ),
    {
        self.active = self.active - 1;
        if !valid || self.idle.len() == self.max_keepalive {
            return false;
        }
        if self.keepalive_requests == 0 || peer.requests >= self.keepalive_requests - 1 {
            return false;
        }
        let item = IdlePeer { exp, token: peer.token, requests: peer.requests + 1 };
        let mut k: usize = 0;
        while k < self.idle.len() && !(exp < self.idle[k].exp || (exp == self.idle[k].exp && peer.token <= self.idle[k].token))
            invariant
                k <= self.spec_idle().len(),
                sorted(self.spec_idle()),
                item.exp == exp && item.token == peer.token,
                forall|i: int| 0 <= i < k ==> le(#[trigger] self.spec_idle()[i], item),
            decreases self.spec_idle().len() - k,
        {
            k = k + 1;
        }
        let ghost prev = self.idle@;
        self.idle.insert(k, item);
        proof {
            let s = self.spec_idle();
            assert(s == prev.insert(k as int, item));
            if k < prev.len() {
                assert(le(item, prev[k as int]));
            }
            assert forall|i: int, j: int| 0 <= i < j < s.len() implies le(#[trigger] s[i], #[trigger] s[j]) by {
                if j < k {
                    assert(s[i] == prev[i] && s[j] == prev[j]);
                } else if j == k {
                    assert(s[i] == prev[i]);
                } else if i < k {
                    assert(s[i] == prev[i] && s[j] == prev[j - 1]);
                    assert(le(prev[i], item));
                    assert(le(item, prev[k as int]) || k >= prev.len());
                    assert(le(prev[i], prev[j - 1]));
                } else if i == k {
                    assert(s[j] == prev[j - 1]);
                    assert(le(prev[k as int], prev[j - 1]) || j - 1 == k);
                } else {
                    assert(s[i] == prev[i - 1] && s[j] == prev[j - 1]);
                }
            }
            assert forall|i: int| 0 <= i < s.len() implies (#[trigger] s[i]).requests < self.spec_keepalive_requests() by {
                if i < k {
                    assert(s[i] == prev[i]);
                } else if i > k {
                    assert(s[i] == prev[i - 1]);
                }
            }
            vstd::seq_lib::to_multiset_insert(prev, k as int, item);
        }
        true
    }

    /// Drops the idle peers whose deadline is at or before `now`, earliest
    /// first, and returns their tokens.
    pub fn expire(&mut self, now: u64) -> (gone: Vec<u64>)
        requires
            old(self).wf(),
        ensures
            final(self).wf(),
            final(self).spec_active() == old(self).spec_active(),
            final(self).spec_max_active() == old(self).spec_max_active(),
            final(self).spec_max_keepalive() == old(self).spec_max_keepalive(),
            final(self).spec_keepalive_requests() == old(self).spec_keepalive_requests(),
            gone@.len() <= old(self).spec_idle().len(),
            final(self).spec_idle() == old(self).spec_idle().skip(gone@.len() as int),
            forall|i: int| 0 <= i < gone@.len() ==> old(self).spec_idle()[i].exp <= now
                && #[trigger] gone@[i] == old(self).spec_idle()[i].token,
            forall|i: int| 0 <= i < final(self).spec_idle().len() ==> #[trigger] final(self).spec_idle()[i].exp > now,
    {
        let mut k: usize = 0;
        while k < self.idle.len() && self.idle[k].exp <= now
            invariant
                k <= self.spec_idle().len(),
                self.spec_idle() == old(self).spec_idle(),
                forall|i: int| 0 <= i < k ==> (#[trigger] self.spec_idle()[i]).exp <= now,
            decreases self.spec_idle().len() - k,
        {
            k = k + 1;
        }
        let mut gone: Vec<u64> = Vec::new();
        let mut i: usize = 0;
        while i < k
            invariant
                i <= k <= self.spec_idle().len(),
                self.spec_idle() == old(self).spec_idle(),
                gone@.len() == i,
                forall|j: int| 0 <= j < i ==> #[trigger] gone@[j] == self.spec_idle()[j].token,
            decreases k - i,
        {
            gone.push(self.idle[i].token);
            i = i + 1;
        }
        let ghost prev = self.idle@;
        let mut rest: Vec<IdlePeer> = Vec::new();
        let mut j: usize = k;
        while j < self.idle.len()
            invariant
                k <= j <= prev.len(),
                self.idle@ == prev,
                rest@ == prev.subrange(k as int, j as int),
            decreases prev.len() - j,
        {
            rest.push(self.idle[j]);
            j = j + 1;
            assert(rest@ == prev.subrange(k as int, j as int));
        }
        self.idle = rest;
        proof {
            assert(self.spec_idle() == prev.skip(k as int));
            assert forall|a: int| 0 <= a < self.spec_idle().len() implies #[trigger] self.spec_idle()[a].exp > now by {
                assert(self.spec_idle()[a] == prev[a + k]);
                if k < prev.len() {
                    assert(prev[k as int].exp > now);
                    assert(le(prev[k as int], prev[a + k]) || a == 0);
                }
            }
            assert forall|a: int, b: int| 0 <= a < b < self.spec_idle().len()
                implies le(#[trigger] self.spec_idle()[a], #[trigger] self.spec_idle()[b]) by {
                assert(self.spec_idle()[a] == prev[a + k]);
                assert(self.spec_idle()[b] == prev[b + k]);
            }
            assert forall|a: int| 0 <= a < self.spec_idle().len()
                implies (#[trigger] self.spec_idle()[a]).requests < self.spec_keepalive_requests() by {
                assert(self.spec_idle()[a] == prev[a + k]);
            }
        }
        gone
    }
}

/// A peer the pool keeps for reuse has served fewer requests than
/// `keepalive_requests`: `release` counts each request, and a peer whose
/// count reaches the cap is closed rather than kept.
pub proof fn lemma_kept_peers_below_cap(pool: ConnectionPool, i: int)
    requires
        pool.wf(),
        0 <= i < pool.spec_idle().len(),
    ensures
        pool.spec_idle()[i].requests < pool.spec_keepalive_requests(),
{
}

} // verus!
