use vstd::prelude::*;
use crate::bytes::bytes_eq;
use crate::error::CoreError;

verus! {

/// Where a listener stands.
#[derive(Clone, Copy, Debug, PartialEq, Eq, Structural)]
pub enum ListenerState {
    /// Bound and accepting.
    Active,
    /// Not bound (creation or accept failed); retried on the next tick.
    Invalid,
    /// To be deregistered and dropped on the next tick.
    Removed,
}

/// A listener the reactor tracks: its token, the address it binds, and its state.
pub struct Listener {
    pub token: usize,
    pub addr: Vec<u8>,
    pub state: ListenerState,
}

/// What reconciling the listeners asks of the reactor.
pub struct Reconcile {
    /// Tokens whose socket is to be created.
    pub create: Vec<usize>,
    /// Tokens whose socket is to be deregistered and dropped.
    pub drop: Vec<usize>,
}

/// The reactor's listeners, at most one per address.
pub struct Listeners {
    entries: Vec<Listener>,
    next_token: usize,
}

pub open spec fn entry_view(l: Listener) -> (usize, Seq<u8>, ListenerState) {
    (l.token, l.addr@, l.state)
}

impl Listeners {
    pub closed spec fn spec_entries(&self) -> Seq<(usize, Seq<u8>, ListenerState)> {
        self.entries@.map_values(|l: Listener| entry_view(l))
    }

    pub closed spec fn spec_next_token(&self) -> usize {
        self.next_token
    }

    /// No two listeners share an address or a token, and every token is below the next one.
    pub open spec fn wf(&self) -> bool {
        &&& forall|i: int, j: int|
            #![trigger self.spec_entries()[i], self.spec_entries()[j]]
            0 <= i < self.spec_entries().len() && 0 <= j < self.spec_entries().len() && i != j
                ==> self.spec_entries()[i].1 != self.spec_entries()[j].1 && self.spec_entries()[i].0 != self.spec_entries()[j].0
        &&& forall|i: int| 0 <= i < self.spec_entries().len() ==> (#[trigger] self.spec_entries()[i]).0 < self.spec_next_token()
    }

    pub open spec fn has_addr(&self, addr: Seq<u8>) -> bool {
        exists|i: int| 0 <= i < self.spec_entries().len() && (#[trigger] self.spec_entries()[i]).1 == addr
    }

    /// Listener tokens start above `first` (the tokens below are the reactor's own).
    pub fn new(first: usize) -> (l: Listeners)
        ensures
            l.wf(),
            l.spec_entries().len() == 0,
            l.spec_next_token() == first,
    {
        Listeners { entries: Vec::new(), next_token: first }
    }

    fn find_addr(&self, addr: &[u8]) -> (r: Option<usize>)
        ensures
            match r {
                Some(i) => i < self.spec_entries().len() && self.spec_entries()[i as int].1 == addr@,
                None => !self.has_addr(addr@),
            },
    {
        let mut i: usize = 0;
        while i < self.entries.len()
            invariant
                i <= self.entries@.len(),
                forall|k: int| 0 <= k < i ==> (#[trigger] self.spec_entries()[k]).1 != addr@,
            decreases self.entries@.len() - i,
        {
            assert(self.spec_entries()[i as int] == entry_view(self.entries@[i as int]));
            if bytes_eq(self.entries[i].addr.as_slice(), addr) {
                return Some(i);
            }
            i = i + 1;
        }
        None
    }

    /// Registers a listener for an address; it starts `Invalid`, so that the
    /// next tick creates it. Refused when the address has one already.
    pub fn add(&mut self, addr: &[u8]) -> (r: Result<usize, CoreError>)
        requires
            old(self).wf(),
            old(self).spec_next_token() < usize::MAX,
        ensures
            final(self).wf(),
            old(self).has_addr(addr@) ==> r is Err && final(self).spec_entries() == old(self).spec_entries(),
            !old(self).has_addr(addr@) ==> (r matches Ok(t) && t == old(self).spec_next_token()
                && final(self).spec_entries() == old(self).spec_entries().push((t, addr@, ListenerState::Invalid))),
    {
        if self.find_addr(addr).is_some() {
            return Err(CoreError::from_str("listener already exists"));
        }
        let token = self.next_token;
        let a = crate::bytes::copy_slice(addr, 0, addr.len());
        assert(a@ == addr@);
        let ghost prev = self.spec_entries();
        self.entries.push(Listener { token, addr: a, state: ListenerState::Invalid });
        self.next_token = self.next_token + 1;
        proof {
            assert(self.spec_entries() == prev.push((token, addr@, ListenerState::Invalid)));
            let s = self.spec_entries();
            assert forall|i: int, j: int|
                #![trigger s[i], s[j]]
                0 <= i < s.len() && 0 <= j < s.len() && i != j implies s[i].1 != s[j].1 && s[i].0 != s[j].0 by {
                if i < prev.len() && j < prev.len() {
                    assert(s[i] == prev[i] && s[j] == prev[j]);
                } else if i < prev.len() {
                    assert(s[i] == prev[i]);
                    assert(!(0 <= i < prev.len() && prev[i].1 == addr@));
                } else {
                    assert(s[j] == prev[j]);
                    assert(!(0 <= j < prev.len() && prev[j].1 == addr@));
                }
            }
            assert forall|i: int| 0 <= i < s.len() implies (#[trigger] s[i]).0 < self.next_token by {
                if i < prev.len() {
                    assert(s[i] == prev[i]);
                }
            }
        }
        Ok(token)
    }

    fn set_state(&mut self, i: usize, state: ListenerState)
        requires
            old(self).wf(),
            i < old(self).spec_entries().len(),
        ensures
            final(self).wf(),
            final(self).spec_next_token() == old(self).spec_next_token(),
            final(self).spec_entries() == old(self).spec_entries().update(
                i as int,
                (old(self).spec_entries()[i as int].0, old(self).spec_entries()[i as int].1, state),
            ),
    {
        let ghost prev = self.spec_entries();
        let l = self.entries.remove(i);
        let Listener { token, addr, state: _ } = l;
        self.entries.insert(i, Listener { token, addr, state });
        proof {
            let s = self.spec_entries();
            assert(s =~= prev.update(i as int, (prev[i as int].0, prev[i as int].1, state)));
            assert forall|a: int, b: int|
                #![trigger s[a], s[b]]
                0 <= a < s.len() && 0 <= b < s.len() && a != b implies s[a].1 != s[b].1 && s[a].0 != s[b].0 by {
                assert(s[a].0 == prev[a].0 && s[a].1 == prev[a].1);
                assert(s[b].0 == prev[b].0 && s[b].1 == prev[b].1);
            }
            assert forall|a: int| 0 <= a < s.len() implies (#[trigger] s[a]).0 < self.next_token by {
                assert(s[a].0 == prev[a].0);
            }
        }
    }

    /// Marks the address's listener for removal; tells whether there was one.
    pub fn remove(&mut self, addr: &[u8]) -> (r: bool)
        requires
            old(self).wf(),
        ensures
            final(self).wf(),
            r == old(self).has_addr(addr@),
            !r ==> final(self).spec_entries() == old(self).spec_entries(),
            r ==> exists|i: int| 0 <= i < old(self).spec_entries().len() && old(self).spec_entries()[i].1 == addr@
                && final(self).spec_entries() == old(self).spec_entries().update(
                    i,
                    (old(self).spec_entries()[i].0, addr@, ListenerState::Removed),
                ),
    {
        match self.find_addr(addr) {
            Some(i) => {
                self.set_state(i, ListenerState::Removed);
                true
            },
            None => false,
        }
    }

    /// Records the outcome of creating (or of accepting on) the listener of a
    /// token: `Active` when it worked, `Invalid` to retry on the next tick. A
    /// listener marked for removal stays so.
    pub fn record(&mut self, token: usize, ok: bool)
        requires
            old(self).wf(),
        ensures
            final(self).wf(),
            final(self).spec_entries().len() == old(self).spec_entries().len(),
            forall|i: int| 0 <= i < old(self).spec_entries().len() ==> {
                let e = old(self).spec_entries()[i];
                #[trigger] final(self).spec_entries()[i] == if e.0 == token && e.2 != ListenerState::Removed {
                    (e.0, e.1, if ok { ListenerState::Active } else { ListenerState::Invalid })
                } else {
                    e
                }
            },
    {
        let mut i: usize = 0;
        while i < self.entries.len()
            invariant
                self.wf(),
                i <= self.spec_entries().len(),
                self.spec_entries().len() == old(self).spec_entries().len(),
                forall|k: int| 0 <= k < old(self).spec_entries().len() ==> (#[trigger] old(self).spec_entries()[k]).0 == self.spec_entries()[k].0,
                forall|k: int| i <= k < old(self).spec_entries().len() ==> #[trigger] self.spec_entries()[k] == old(self).spec_entries()[k],
                forall|k: int| 0 <= k < i ==> {
                    let e = old(self).spec_entries()[k];
                    #[trigger] self.spec_entries()[k] == if e.0 == token && e.2 != ListenerState::Removed {
                        (e.0, e.1, if ok { ListenerState::Active } else { ListenerState::Invalid })
                    } else {
                        e
                    }
                },
            decreases self.spec_entries().len() - i,
        {
            assert(self.spec_entries()[i as int] == entry_view(self.entries@[i as int]));
            if self.entries[i].token == token && self.entries[i].state != ListenerState::Removed {
                self.set_state(i, if ok { ListenerState::Active } else { ListenerState::Invalid });
            }
            i = i + 1;
        }
    }

    /// One tick's reconciliation: the `Invalid` listeners to create, and the
    /// `Removed` ones to drop, which leave the table.
    pub fn reconcile(&mut self) -> (r: Reconcile)
        requires
            old(self).wf(),
        ensures
            final(self).wf(),
            r.create@ == tokens_in(old(self).spec_entries(), ListenerState::Invalid),
            r.drop@ == tokens_in(old(self).spec_entries(), ListenerState::Removed),
            final(self).spec_entries() == staying(old(self).spec_entries()),
            final(self).spec_next_token() == old(self).spec_next_token(),
    {
        let ghost es = self.spec_entries();
        let mut create: Vec<usize> = Vec::new();
        let mut gone: Vec<usize> = Vec::new();
        let mut kept: Vec<Listener> = Vec::new();
        let mut i: usize = 0;
        while i < self.entries.len()
            invariant
                i <= self.entries@.len(),
                es == self.spec_entries(),
                create@ == tokens_in(es.take(i as int), ListenerState::Invalid),
                gone@ == tokens_in(es.take(i as int), ListenerState::Removed),
                kept@.map_values(|l: Listener| entry_view(l)) == staying(es.take(i as int)),
            decreases self.entries@.len() - i,
        {
            proof {
                assert(es.take(i + 1).drop_last() == es.take(i as int));
                assert(es.take(i + 1).last() == es[i as int]);
                assert(es[i as int] == entry_view(self.entries@[i as int]));
            }
            let token = self.entries[i].token;
            let state = self.entries[i].state;
            if state == ListenerState::Invalid {
                create.push(token);
            }
            if state == ListenerState::Removed {
                gone.push(token);
            } else {
                let a = crate::bytes::copy_slice(self.entries[i].addr.as_slice(), 0, self.entries[i].addr.len());
                assert(a@ == self.entries@[i as int].addr@);
                let ghost before = kept@;
                kept.push(Listener { token, addr: a, state });
                assert(kept@.map_values(|l: Listener| entry_view(l)) == before.map_values(|l: Listener| entry_view(l)).push(
                    (token, a@, state),
                ));
            }
            i = i + 1;
        }
        assert(es.take(i as int) == es);
        self.entries = kept;
        proof {
            let s = self.spec_entries();
            assert(s == staying(es));
            assert forall|a: int, b: int|
                #![trigger s[a], s[b]]
                0 <= a < s.len() && 0 <= b < s.len() && a != b implies s[a].1 != s[b].1 && s[a].0 != s[b].0 by {
                lemma_staying_distinct(es, a, b);
            }
            assert forall|a: int| 0 <= a < s.len() implies (#[trigger] s[a]).0 < self.next_token by {
                lemma_staying_from(es, a);
            }
        }
        Reconcile { create, drop: gone }
    }
}

/// The tokens of the listeners in a state, in order.
pub open spec fn tokens_in(es: Seq<(usize, Seq<u8>, ListenerState)>, st: ListenerState) -> Seq<usize>
    decreases es.len(),
{
    if es.len() == 0 {
        Seq::empty()
    } else if es.last().2 == st {
        tokens_in(es.drop_last(), st).push(es.last().0)
    } else {
        tokens_in(es.drop_last(), st)
    }
}

/// The listeners not marked for removal, in order.
pub open spec fn staying(es: Seq<(usize, Seq<u8>, ListenerState)>) -> Seq<(usize, Seq<u8>, ListenerState)>
    decreases es.len(),
{
    if es.len() == 0 {
        Seq::empty()
    } else if es.last().2 == ListenerState::Removed {
        staying(es.drop_last())
    } else {
        staying(es.drop_last()).push(es.last())
    }
}

proof fn lemma_staying_from(es: Seq<(usize, Seq<u8>, ListenerState)>, a: int)
    requires
        0 <= a < staying(es).len(),
    ensures
        exists|k: int| 0 <= k < es.len() && es[k] == #[trigger] staying(es)[a],
    decreases es.len(),
{
    if es.len() > 0 {
        let init = es.drop_last();
        if es.last().2 != ListenerState::Removed && a == staying(init).len() {
            assert(es[es.len() - 1] == staying(es)[a]);
        } else {
            lemma_staying_from(init, a);
            let k = choose|k: int| 0 <= k < init.len() && init[k] == #[trigger] staying(init)[a];
            assert(es[k] == init[k]);
        }
    }
}

proof fn lemma_staying_distinct(es: Seq<(usize, Seq<u8>, ListenerState)>, a: int, b: int)
    requires
        forall|i: int, j: int|
            #![trigger es[i], es[j]]
            0 <= i < es.len() && 0 <= j < es.len() && i != j ==> es[i].1 != es[j].1 && es[i].0 != es[j].0,
        0 <= a < staying(es).len(),
        0 <= b < staying(es).len(),
        a != b,
    ensures
        staying(es)[a].1 != staying(es)[b].1 && staying(es)[a].0 != staying(es)[b].0,
    decreases es.len(),
{
    if es.len() > 0 {
        let init = es.drop_last();
        assert forall|i: int, j: int|
            #![trigger init[i], init[j]]
            0 <= i < init.len() && 0 <= j < init.len() && i != j implies init[i].1 != init[j].1 && init[i].0 != init[j].0 by {
            assert(init[i] == es[i] && init[j] == es[j]);
        }
        let si = staying(init);
        if es.last().2 != ListenerState::Removed && (a == si.len() || b == si.len()) {
            let k = if a == si.len() { b } else { a };
            lemma_staying_from(init, k);
            let idx = choose|idx: int| 0 <= idx < init.len() && init[idx] == #[trigger] si[k];
            assert(es[idx] == si[k]);
            assert(es[es.len() - 1] == es.last());
            assert(staying(es)[k] == si[k]);
        } else {
            lemma_staying_distinct(init, a, b);
        }
    }
}

} // verus!
