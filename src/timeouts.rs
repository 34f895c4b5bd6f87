use vstd::prelude::*;

verus! {

/// `gone` holds the tokens of the first entries, each due at or before `now`.
pub open spec fn expired_prefix(entries: Seq<(u64, usize)>, gone: Seq<usize>, now: u64) -> bool {
    &&& gone.len() <= entries.len()
    &&& forall|i: int| 0 <= i < gone.len() ==> entries[i].0 <= now && #[trigger] gone[i] == entries[i].1
}

/// `(deadline, token)` order.
pub open spec fn before(a: (u64, usize), b: (u64, usize)) -> bool {
    a.0 < b.0 || (a.0 == b.0 && a.1 <= b.1)
}

/// The reactor's deadlines: one `(deadline, token)` entry for each client
/// that is idle, sending a request, or receiving a response; the earliest
/// deadline first.
pub struct Timeouts {
    entries: Vec<(u64, usize)>,
}

impl Timeouts {
    pub closed spec fn spec_entries(&self) -> Seq<(u64, usize)> {
        self.entries@
    }

    /// The entries are in `(deadline, token)` order, and no token has two.
    pub open spec fn wf(&self) -> bool {
        &&& forall|i: int, j: int| 0 <= i < j < self.spec_entries().len()
            ==> before(#[trigger] self.spec_entries()[i], #[trigger] self.spec_entries()[j])
        &&& forall|i: int, j: int| 0 <= i < self.spec_entries().len() && 0 <= j < self.spec_entries().len() && i != j
            ==> (#[trigger] self.spec_entries()[i]).1 != (#[trigger] self.spec_entries()[j]).1
    }

    /// The token has an entry.
    pub open spec fn armed(&self, token: usize) -> bool {
        exists|i: int| 0 <= i < self.spec_entries().len() && (#[trigger] self.spec_entries()[i]).1 == token
    }

    proof fn lemma_armed_contains(&self, token: usize)
        ensures
            self.armed(token) <==> exists|e: (u64, usize)| self.spec_entries().contains(e) && e.1 == token,
    {
        if self.armed(token) {
            let i = choose|i: int| 0 <= i < self.spec_entries().len() && (#[trigger] self.spec_entries()[i]).1 == token;
            assert(self.spec_entries().contains(self.spec_entries()[i]));
        }
        if exists|e: (u64, usize)| self.spec_entries().contains(e) && e.1 == token {
            let e = choose|e: (u64, usize)| self.spec_entries().contains(e) && e.1 == token;
            let i = choose|i: int| 0 <= i < self.spec_entries().len() && self.spec_entries()[i] == e;
            assert(self.spec_entries()[i].1 == token);
        }
    }

    pub fn new() -> (t: Timeouts)
        ensures
            t.wf(),
            t.spec_entries().len() == 0,
    {
        Timeouts { entries: Vec::new() }
    }

    pub fn len(&self) -> (r: usize)
        ensures
            r == self.spec_entries().len(),
    {
        self.entries.len()
    }

    /// Removes the token's entry, if it has one.
    pub fn disarm(&mut self, token: usize) -> (was: bool)
        requires
            old(self).wf(),
        ensures
            final(self).wf(),
            was == old(self).armed(token),
            !final(self).armed(token),
            forall|e: (u64, usize)| e.1 != token ==> (final(self).spec_entries().contains(e) <==> old(self).spec_entries().contains(e)),
            forall|o: usize| o != token ==> (final(self).armed(o) <==> old(self).armed(o)),
    {
        let r = self.disarm_entry(token);
        proof {
            assert forall|o: usize| o != token implies (self.armed(o) <==> old(self).armed(o)) by {
                self.lemma_armed_contains(o);
                old(self).lemma_armed_contains(o);
                if self.armed(o) {
                    let e = choose|e: (u64, usize)| self.spec_entries().contains(e) && e.1 == o;
                    assert(old(self).spec_entries().contains(e));
                }
                if old(self).armed(o) {
                    let e = choose|e: (u64, usize)| old(self).spec_entries().contains(e) && e.1 == o;
                    assert(self.spec_entries().contains(e));
                }
            }
        }
        r
    }

    fn disarm_entry(&mut self, token: usize) -> (was: bool)
        requires
            old(self).wf(),
        ensures
            final(self).wf(),
            was == old(self).armed(token),
            !final(self).armed(token),
            forall|e: (u64, usize)| e.1 != token ==> (final(self).spec_entries().contains(e) <==> old(self).spec_entries().contains(e)),
    {
        let mut i: usize = 0;
        while i < self.entries.len()
            invariant
                i <= self.spec_entries().len(),
                self.spec_entries() == old(self).spec_entries(),
                old(self).wf(),
                forall|k: int| 0 <= k < i ==> (#[trigger] self.spec_entries()[k]).1 != token,
            decreases self.spec_entries().len() - i,
        {
            if self.entries[i].1 == token {
                let ghost prev = self.entries@;
                self.entries.remove(i);
                proof {
                    let s = self.spec_entries();
                    assert forall|a: int, b: int| 0 <= a < b < s.len()
                        implies before(#[trigger] s[a], #[trigger] s[b]) by {
                        let a2 = if a < i { a } else { a + 1 };
                        let b2 = if b < i { b } else { b + 1 };
                        assert(s[a] == prev[a2] && s[b] == prev[b2]);
                    }
                    assert forall|a: int, b: int| 0 <= a < s.len() && 0 <= b < s.len() && a != b
                        implies (#[trigger] s[a]).1 != (#[trigger] s[b]).1 by {
                        let a2 = if a < i { a } else { a + 1 };
                        let b2 = if b < i { b } else { b + 1 };
                        assert(s[a] == prev[a2] && s[b] == prev[b2]);
                    }
                    assert forall|a: int| 0 <= a < s.len() implies (#[trigger] s[a]).1 != token by {
                        let a2 = if a < i { a } else { a + 1 };
                        assert(s[a] == prev[a2]);
                        assert(a2 != i);
                    }
                    assert forall|e: (u64, usize)| e.1 != token implies (s.contains(e) <==> prev.contains(e)) by {
                        if s.contains(e) {
                            let a = choose|a: int| 0 <= a < s.len() && s[a] == e;
                            let a2 = if a < i { a } else { a + 1 };
                            assert(s[a] == prev[a2]);
                        }
                        if prev.contains(e) {
                            let a = choose|a: int| 0 <= a < prev.len() && prev[a] == e;
                            assert(a != i);
                            let a2 = if a < i { a } else { a - 1 };
                            assert(s[a2] == prev[a]);
                        }
                    }
                }
                return true;
            }
            i = i + 1;
        }
        false
    }

    /// Gives the token the deadline, replacing any deadline it had.
    pub fn arm(&mut self, token: usize, deadline: u64)
        requires
            old(self).wf(),
        ensures
            final(self).wf(),
            final(self).armed(token),
            final(self).spec_entries().contains((deadline, token)),
            forall|e: (u64, usize)| e.1 == token && final(self).spec_entries().contains(e) ==> e.0 == deadline,
            forall|e: (u64, usize)| e.1 != token ==> (final(self).spec_entries().contains(e) <==> old(self).spec_entries().contains(e)),
            forall|o: usize| o != token ==> (final(self).armed(o) <==> old(self).armed(o)),
    {
        self.arm_entry(token, deadline);
        proof {
            assert forall|o: usize| o != token implies (self.armed(o) <==> old(self).armed(o)) by {
                self.lemma_armed_contains(o);
                old(self).lemma_armed_contains(o);
                if self.armed(o) {
                    let e = choose|e: (u64, usize)| self.spec_entries().contains(e) && e.1 == o;
                    assert(old(self).spec_entries().contains(e));
                }
                if old(self).armed(o) {
                    let e = choose|e: (u64, usize)| old(self).spec_entries().contains(e) && e.1 == o;
                    assert(self.spec_entries().contains(e));
                }
            }
        }
    }

    fn arm_entry(&mut self, token: usize, deadline: u64)
        requires
            old(self).wf(),
        ensures
            final(self).wf(),
            final(self).armed(token),
            final(self).spec_entries().contains((deadline, token)),
            forall|e: (u64, usize)| e.1 == token && final(self).spec_entries().contains(e) ==> e.0 == deadline,
            forall|e: (u64, usize)| e.1 != token ==> (final(self).spec_entries().contains(e) <==> old(self).spec_entries().contains(e)),
    {
        self.disarm_entry(token);
        let item = (deadline, token);
        let mut k: usize = 0;
        while k < self.entries.len() && !(deadline < self.entries[k].0 || (deadline == self.entries[k].0 && token <= self.entries[k].1))
            invariant
                k <= self.spec_entries().len(),
                self.wf(),
                item == (deadline, token),
                forall|i: int| 0 <= i < k ==> before(#[trigger] self.spec_entries()[i], item),
            decreases self.spec_entries().len() - k,
        {
            k = k + 1;
        }
        let ghost prev = self.entries@;
        proof {
            assert forall|a: int| 0 <= a < prev.len() implies (#[trigger] prev[a]).1 != token by {
                assert(!(0 <= a < prev.len() && prev[a].1 == token) || !self.armed(token));
            }
        }
        self.entries.insert(k, item);
        proof {
            let s = self.spec_entries();
            assert(s == prev.insert(k as int, item));
            assert(s[k as int] == item);
            assert forall|a: int, b: int| 0 <= a < b < s.len() implies before(#[trigger] s[a], #[trigger] s[b]) by {
                if b < k {
                    assert(s[a] == prev[a] && s[b] == prev[b]);
                } else if b == k {
                    assert(s[a] == prev[a]);
                } else if a < k {
                    assert(s[a] == prev[a] && s[b] == prev[b - 1]);
                    assert(before(item, prev[k as int]));
                } else if a == k {
                    assert(s[b] == prev[b - 1]);
                    assert(before(item, prev[k as int]));
                } else {
                    assert(s[a] == prev[a - 1] && s[b] == prev[b - 1]);
                }
            }
            assert forall|a: int, b: int| 0 <= a < s.len() && 0 <= b < s.len() && a != b
                implies (#[trigger] s[a]).1 != (#[trigger] s[b]).1 by {
                let a2 = if a < k { a } else { a - 1 };
                let b2 = if b < k { b } else { b - 1 };
                if a != k && b != k {
                    assert(s[a] == prev[a2] && s[b] == prev[b2]);
                } else if a == k {
                    assert(s[b] == prev[b2]);
                } else {
                    assert(s[a] == prev[a2]);
                }
            }
            assert(s.contains(item));
            assert forall|e: (u64, usize)| e.1 == token && s.contains(e) implies e.0 == deadline by {
                let a = choose|a: int| 0 <= a < s.len() && s[a] == e;
                if a != k {
                    let a2 = if a < k { a } else { a - 1 };
                    assert(s[a] == prev[a2]);
                }
            }
            assert forall|e: (u64, usize)| e.1 != token implies (s.contains(e) <==> prev.contains(e)) by {
                if s.contains(e) {
                    let a = choose|a: int| 0 <= a < s.len() && s[a] == e;
                    let a2 = if a < k { a } else { a - 1 };
                    assert(a != k);
                    assert(s[a] == prev[a2]);
                }
                if prev.contains(e) {
                    let a = choose|a: int| 0 <= a < prev.len() && prev[a] == e;
                    let a2 = if a < k { a } else { a + 1 };
                    assert(s[a2] == prev[a]);
                }
            }
            assert(0 <= k < s.len() && s[k as int].1 == token);
        }
    }

    /// The earliest deadline.
    pub fn next_deadline(&self) -> (r: Option<u64>)
        requires
            self.wf(),
        ensures
            self.spec_entries().len() == 0 ==> r is None,
            self.spec_entries().len() > 0 ==> (r matches Some(d) && d == self.spec_entries()[0].0
                && forall|i: int| 0 <= i < self.spec_entries().len() ==> d <= #[trigger] self.spec_entries()[i].0),
    {
        if self.entries.len() == 0 {
            None
        } else {
            proof {
                assert forall|i: int| 0 <= i < self.spec_entries().len()
                    implies self.spec_entries()[0].0 <= #[trigger] self.spec_entries()[i].0 by {
                    if i > 0 {
                        assert(before(self.spec_entries()[0], self.spec_entries()[i]));
                    }
                }
            }
            Some(self.entries[0].0)
        }
    }

    /// Removes every entry whose deadline is at or before `now` and returns
    /// their tokens, earliest first.
    pub fn pop_expired(&mut self, now: u64) -> (gone: Vec<usize>)
        requires
            old(self).wf(),
        ensures
            final(self).wf(),
            expired_prefix(old(self).spec_entries(), gone@, now),
            final(self).spec_entries() == old(self).spec_entries().skip(gone@.len() as int),
            forall|i: int| 0 <= i < final(self).spec_entries().len() ==> #[trigger] final(self).spec_entries()[i].0 > now,
            forall|t: usize| final(self).armed(t) <==> (old(self).armed(t) && !gone@.contains(t)),
    {
        let mut k: usize = 0;
        while k < self.entries.len() && self.entries[k].0 <= now
            invariant
                k <= self.spec_entries().len(),
                self.spec_entries() == old(self).spec_entries(),
                old(self).wf(),
                forall|i: int| 0 <= i < k ==> (#[trigger] self.spec_entries()[i]).0 <= now,
            decreases self.spec_entries().len() - k,
        {
            k = k + 1;
        }
        let mut gone: Vec<usize> = Vec::new();
        let mut i: usize = 0;
        while i < k
            invariant
                i <= k <= self.spec_entries().len(),
                self.spec_entries() == old(self).spec_entries(),
                gone@.len() == i,
                forall|j: int| 0 <= j < i ==> #[trigger] gone@[j] == self.spec_entries()[j].1,
            decreases k - i,
        {
            gone.push(self.entries[i].1);
            i = i + 1;
        }
        let ghost prev = self.entries@;
        let mut rest: Vec<(u64, usize)> = Vec::new();
        let mut j: usize = k;
        while j < self.entries.len()
            invariant
                k <= j <= prev.len(),
                self.entries@ == prev,
                rest@ == prev.subrange(k as int, j as int),
            decreases prev.len() - j,
        {
            rest.push(self.entries[j]);
            j = j + 1;
            assert(rest@ == prev.subrange(k as int, j as int));
        }
        self.entries = rest;
        proof {
            let s = self.spec_entries();
            assert(s == prev.skip(k as int));
            assert forall|a: int| 0 <= a < s.len() implies #[trigger] s[a].0 > now by {
                assert(s[a] == prev[a + k]);
                assert(prev[k as int].0 > now);
                assert(before(prev[k as int], prev[a + k]) || a == 0);
            }
            assert forall|a: int, b: int| 0 <= a < b < s.len() implies before(#[trigger] s[a], #[trigger] s[b]) by {
                assert(s[a] == prev[a + k] && s[b] == prev[b + k]);
            }
            assert forall|a: int, b: int| 0 <= a < s.len() && 0 <= b < s.len() && a != b
                implies (#[trigger] s[a]).1 != (#[trigger] s[b]).1 by {
                assert(s[a] == prev[a + k] && s[b] == prev[b + k]);
            }
            let o = old(self).spec_entries();
            assert(o == prev);
            let kk = k as int;
            assert forall|t: usize| self.armed(t) <==> (old(self).armed(t) && !gone@.contains(t)) by {
                if self.armed(t) {
                    let i = choose|i: int| 0 <= i < s.len() && (#[trigger] s[i]).1 == t;
                    assert(s[i] == o[i + kk]);
                    assert(0 <= i + kk < o.len() && o[i + kk].1 == t);
                    if gone@.contains(t) {
                        let j = choose|j: int| 0 <= j < gone@.len() && gone@[j] == t;
                        assert(o[j].1 == t);
                    }
                }
                if old(self).armed(t) && !gone@.contains(t) {
                    let i = choose|i: int| 0 <= i < o.len() && (#[trigger] o[i]).1 == t;
                    if i < kk {
                        assert(gone@[i] == t);
                    } else {
                        assert(s[i - kk] == o[i]);
                        assert(0 <= i - kk < s.len() && s[i - kk].1 == t);
                    }
                }
            }
        }
        gone
    }
}

/// Each client token has at most one deadline, whatever the reactor arms and
/// disarms: after `arm` the token has exactly the new entry, after `disarm`
/// none, and other tokens keep theirs.
pub proof fn lemma_one_entry_per_token(t: Timeouts, token: usize, i: int, j: int)
    requires
        t.wf(),
        0 <= i < t.spec_entries().len(),
        0 <= j < t.spec_entries().len(),
        t.spec_entries()[i].1 == token,
        t.spec_entries()[j].1 == token,
    ensures
        i == j,
{
    if i != j {
        assert(t.spec_entries()[i].1 != t.spec_entries()[j].1);
    }
}

} // verus!
