use vstd::prelude::*;
use crate::error::CoreError;

verus! {

/// Round-robin choice: a counter taken modulo the number of servers.
pub struct RoundRobin {
    index: usize,
}

impl RoundRobin {
    pub closed spec fn spec_index(&self) -> usize {
        self.index
    }

    pub fn new() -> (r: RoundRobin)
        ensures
            r.spec_index() == 0,
    {
        RoundRobin { index: 0 }
    }

    /// Picks one of `n` servers: the counter modulo `n`; the counter then
    /// moves on by one, wrapping at the top of its range.
    pub fn balance(&mut self, n: usize) -> (r: Option<usize>)
        ensures
            n == 0 ==> r is None && final(self).spec_index() == old(self).spec_index(),
            n > 0 ==> r == Some((old(self).spec_index() % n) as usize) && final(self).spec_index() == if old(
                self,
            ).spec_index() == usize::MAX {
                0
            } else {
                (old(self).spec_index() + 1) as usize
            },
    {
        if n == 0 {
            return None;
        }
        let i = self.index % n;
        self.index = if self.index == usize::MAX { 0 } else { self.index + 1 };
        Some(i)
    }
}

/// Least-connections choice: the server whose pool has the fewest active peers.
pub struct BalanceLeastConn {}

impl BalanceLeastConn {
    pub fn new() -> (r: BalanceLeastConn) {
        BalanceLeastConn {}
    }

    /// The first server with the fewest active peers; `None` when there is no
    /// server (or every count is at the top of its range).
    pub fn balance(&self, active: &Vec<usize>) -> (r: Option<usize>)
        ensures
            r is None <==> forall|j: int| 0 <= j < active@.len() ==> active@[j] == usize::MAX,
            r matches Some(i) ==> i < active@.len()
                && (forall|j: int| 0 <= j < active@.len() ==> active@[i as int] <= #[trigger] active@[j])
                && (forall|j: int| 0 <= j < i ==> active@[i as int] < #[trigger] active@[j]),
    {
        let mut best: Option<usize> = None;
        let mut low: usize = usize::MAX;
        let mut k: usize = 0;
        while k < active.len()
            invariant
                k <= active@.len(),
                best is None ==> low == usize::MAX && forall|j: int| 0 <= j < k ==> active@[j] == usize::MAX,
                best matches Some(i) ==> i < k && low == active@[i as int] && low < usize::MAX
                    && (forall|j: int| 0 <= j < k ==> low <= #[trigger] active@[j])
                    && (forall|j: int| 0 <= j < i ==> low < #[trigger] active@[j]),
                best is None ==> forall|j: int| 0 <= j < k ==> low <= #[trigger] active@[j],
            decreases active@.len() - k,
        {
            if active[k] < low {
                low = active[k];
                best = Some(k);
            }
            k = k + 1;
        }
        best
    }
}

/// Where a connect attempt stands: the tier (primary, then backup) and the
/// attempts made in it.
#[derive(Clone, Copy, Debug, PartialEq, Eq, Structural)]
pub struct Failover {
    pub tier: usize,
    pub tries: usize,
}

/// The first server with the fewest active peers, below the top of the range.
pub open spec fn is_least(active: Seq<usize>, i: int) -> bool {
    &&& 0 <= i < active.len()
    &&& active[i] < usize::MAX
    &&& forall|j: int| 0 <= j < active.len() ==> active[i] <= #[trigger] active[j]
    &&& forall|j: int| 0 <= j < i ==> active[i] < #[trigger] active[j]
}

/// How an upstream picks among a tier's servers.
pub enum Balancer {
    RoundRobin(RoundRobin),
    LeastConn(BalanceLeastConn),
}

/// A named group of primary and backup servers with a balancer.
pub struct Upstream {
    primary: usize,
    backup: usize,
    balancer: Balancer,
    max_active: usize,
}

impl Upstream {
    pub closed spec fn spec_primary(&self) -> usize {
        self.primary
    }

    pub closed spec fn spec_backup(&self) -> usize {
        self.backup
    }

    /// The most peers the upstream may have checked out at once.
    pub closed spec fn spec_max_active(&self) -> usize {
        self.max_active
    }

    /// Caps the peers checked out at once over all servers; zero means no cap.
    pub fn set_max_active(&mut self, max_active: usize)
        ensures
            final(self).spec_max_active() == if max_active == 0 { usize::MAX } else { max_active },
            final(self).spec_primary() == old(self).spec_primary(),
            final(self).spec_backup() == old(self).spec_backup(),
            final(self).spec_index() == old(self).spec_index(),
            final(self).spec_least_conn() == old(self).spec_least_conn(),
    {
        self.max_active = if max_active == 0 { usize::MAX } else { max_active };
    }

    pub closed spec fn spec_least_conn(&self) -> bool {
        self.balancer is LeastConn
    }

    /// The round-robin counter (zero under least-connections).
    pub closed spec fn spec_index(&self) -> usize {
        match self.balancer {
            Balancer::RoundRobin(rr) => rr.spec_index(),
            Balancer::LeastConn(_) => 0,
        }
    }

    pub open spec fn tier_len(&self, tier: usize) -> usize {
        if tier == 0 {
            self.spec_primary()
        } else {
            self.spec_backup()
        }
    }

    /// An upstream balanced round-robin.
    pub fn new() -> (u: Upstream)
        ensures
            u.spec_max_active() == usize::MAX,
            u.spec_primary() == 0,
            u.spec_backup() == 0,
            u.spec_index() == 0,
            !u.spec_least_conn(),
    {
        Upstream { primary: 0, backup: 0, balancer: Balancer::RoundRobin(RoundRobin::new()), max_active: usize::MAX }
    }

    /// An upstream balanced by least connections.
    pub fn with_least_conn() -> (u: Upstream)
        ensures
            u.spec_max_active() == usize::MAX,
            u.spec_primary() == 0,
            u.spec_backup() == 0,
            u.spec_least_conn(),
    {
        Upstream { primary: 0, backup: 0, balancer: Balancer::LeastConn(BalanceLeastConn::new()), max_active: usize::MAX }
    }

    /// Adds a primary server; returns its index among the primaries.
    pub fn add_primary(&mut self) -> (i: usize)
        requires
            old(self).spec_primary() < usize::MAX,
        ensures
            final(self).spec_max_active() == old(self).spec_max_active(),
            i == old(self).spec_primary(),
            final(self).spec_primary() == old(self).spec_primary() + 1,
            final(self).spec_backup() == old(self).spec_backup(),
            final(self).spec_index() == old(self).spec_index(),
            final(self).spec_least_conn() == old(self).spec_least_conn(),
    {
        let i = self.primary;
        self.primary = self.primary + 1;
        i
    }

    /// Adds a backup server; returns its index among the backups.
    pub fn add_backup(&mut self) -> (i: usize)
        requires
            old(self).spec_backup() < usize::MAX,
        ensures
            final(self).spec_max_active() == old(self).spec_max_active(),
            i == old(self).spec_backup(),
            final(self).spec_backup() == old(self).spec_backup() + 1,
            final(self).spec_primary() == old(self).spec_primary(),
            final(self).spec_index() == old(self).spec_index(),
            final(self).spec_least_conn() == old(self).spec_least_conn(),
    {
        let i = self.backup;
        self.backup = self.backup + 1;
        i
    }

    /// The active counts of a tier.
    pub open spec fn counts(tier: usize, primary_active: Seq<usize>, backup_active: Seq<usize>) -> Seq<usize> {
        if tier == 0 {
            primary_active
        } else {
            backup_active
        }
    }

    /// Tier `t` has an attempt left for a failover in state `st`: fewer
    /// attempts made in it than it has servers, and, under least
    /// connections, some server whose count is below the top of the range.
    pub open spec fn attempt_left(&self, t: usize, st: Failover, primary_active: Seq<usize>, backup_active: Seq<usize>) -> bool {
        &&& (if t == st.tier { st.tries } else { 0 }) < self.tier_len(t)
        &&& self.spec_least_conn() ==> exists|j: int|
            0 <= j < Self::counts(t, primary_active, backup_active).len()
                && #[trigger] Self::counts(t, primary_active, backup_active)[j] < usize::MAX
    }

    /// The server to try next: within a tier, as many attempts as the tier has
    /// servers, each where the balancer points (round-robin: the counter
    /// modulo the tier's size; least connections: the first server with the
    /// fewest active peers, given by `primary_active` and `backup_active`);
    /// the primaries first, then the backups. `Bad gateway` exactly when the
    /// upstream has `max_active` peers out (`active` counts them) or no tier
    /// has an attempt left.
    pub fn next_server(
        &mut self,
        state: &mut Failover,
        active: usize,
        primary_active: &Vec<usize>,
        backup_active: &Vec<usize>,
    ) -> (r: Result<(usize, usize), CoreError>)
        requires
            old(state).tier <= 2,
            old(self).spec_least_conn() ==> primary_active@.len() == old(self).spec_primary()
                && backup_active@.len() == old(self).spec_backup(),
        ensures
            final(self).spec_primary() == old(self).spec_primary(),
            final(self).spec_backup() == old(self).spec_backup(),
            final(self).spec_least_conn() == old(self).spec_least_conn(),
            final(self).spec_max_active() == old(self).spec_max_active(),
            final(state).tier <= 2,
            active >= old(self).spec_max_active() ==> r is Err && *final(state) == *old(state),
            r is Err <==> (active >= old(self).spec_max_active() || forall|t: usize| old(state).tier <= t < 2
                ==> !#[trigger] old(self).attempt_left(t, *old(state), primary_active@, backup_active@)),
            r matches Ok((tier, i)) ==> {
                &&& tier < 2 && i < final(self).tier_len(tier)
                &&& tier == final(state).tier && final(state).tries >= 1
                &&& old(self).attempt_left(tier, *old(state), primary_active@, backup_active@)
                &&& forall|t: usize| old(state).tier <= t < tier
                    ==> !#[trigger] old(self).attempt_left(t, *old(state), primary_active@, backup_active@)
                &&& !old(self).spec_least_conn() ==> i == old(self).spec_index() % final(self).tier_len(tier)
                &&& old(self).spec_least_conn() ==> is_least(if tier == 0 { primary_active@ } else { backup_active@ }, i as int)
                &&& tier >= old(state).tier
                &&& tier == old(state).tier ==> final(state).tries == old(state).tries + 1
                &&& tier > old(state).tier ==> final(state).tries == 1
            },
            !old(self).spec_least_conn() && r is Ok ==> final(self).spec_index() == if old(self).spec_index() == usize::MAX {
                0
            } else {
                (old(self).spec_index() + 1) as usize
            },
            r is Err ==> final(self).spec_index() == old(self).spec_index(),
            r is Err && active < old(self).spec_max_active() ==> final(state).tier == 2,
    {
        if active >= self.max_active {
            return Err(CoreError::from_str("Bad gateway"));
        }
        while state.tier < 2
            invariant
                state.tier <= 2,
                state.tier >= old(state).tier,
                *self == *old(self),
                active < old(self).spec_max_active(),
                old(self).spec_least_conn() ==> primary_active@.len() == old(self).spec_primary()
                    && backup_active@.len() == old(self).spec_backup(),
                state.tier == old(state).tier ==> state.tries == old(state).tries,
                state.tier > old(state).tier ==> state.tries == 0,
                forall|t: usize| old(state).tier <= t < state.tier
                    ==> !#[trigger] old(self).attempt_left(t, *old(state), primary_active@, backup_active@),
            decreases 2 - state.tier, if state.tier == old(state).tier { 1int } else { 0 },
        {
            let len = if state.tier == 0 { self.primary } else { self.backup };
            if state.tries < len {
                let pick = match &mut self.balancer {
                    Balancer::RoundRobin(rr) => rr.balance(len),
                    Balancer::LeastConn(lc) => lc.balance(if state.tier == 0 { primary_active } else { backup_active }),
                };
                match pick {
                    Some(i) => {
                        proof {
                            let cs = Self::counts(state.tier, primary_active@, backup_active@);
                            if old(self).spec_least_conn() {
                                assert(cs[i as int] < usize::MAX);
                            }
                            assert(old(self).attempt_left(state.tier, *old(state), primary_active@, backup_active@));
                        }
                        state.tries = state.tries + 1;
                        return Ok((state.tier, i));
                    },
                    None => {},
                }
            }
            state.tier = state.tier + 1;
            state.tries = 0;
        }
        Err(CoreError::from_str("Bad gateway"))
    }
}

} // verus!
