use vstd::prelude::*;
use crate::bytes::bytes_eq;
use crate::trie::{method_bytes, method_key, opt_view, star, STAR};

verus! {

/// One named route: its label, its method key and its context.
pub struct NamedRoute<Context> {
    name: Vec<u8>,
    method: Vec<u8>,
    context: Context,
}

impl<Context> NamedRoute<Context> {
    pub closed spec fn key(&self) -> (Seq<u8>, Seq<u8>) {
        (self.name@, self.method@)
    }

    pub closed spec fn spec_context(&self) -> Context {
        self.context
    }

    pub fn new(name: &[u8], method: Vec<u8>, context: Context) -> (r: NamedRoute<Context>)
        ensures
            r.key() == (name@, method@),
            r.spec_context() == context,
    {
        NamedRoute { name: crate::bytes::copy_slice(name, 0, name.len()), method, context }
    }

    /// True when the route carries this label.
    pub fn matched(&self, path: &[u8]) -> (r: bool)
        ensures
            r == (self.key().0 == path@),
    {
        bytes_eq(self.name.as_slice(), path)
    }
}

/// Routes reached by label (`@name`), each per method.
pub struct NamedRouter<Context> {
    routes: Vec<NamedRoute<Context>>,
}

impl<Context> NamedRouter<Context> {
    pub closed spec fn spec_routes(&self) -> Seq<NamedRoute<Context>> {
        self.routes@
    }

    /// No two routes share label and method key.
    pub open spec fn wf(&self) -> bool {
        forall|i: int, j: int|
            #![trigger self.spec_routes()[i], self.spec_routes()[j]]
            0 <= i < self.spec_routes().len() && 0 <= j < self.spec_routes().len() && i != j
                ==> self.spec_routes()[i].key() != self.spec_routes()[j].key()
    }

    /// Some route carries the label, for any method.
    pub open spec fn has_label(&self, name: Seq<u8>) -> bool {
        exists|i: int| 0 <= i < self.spec_routes().len() && (#[trigger] self.spec_routes()[i]).key().0 == name
    }

    fn has_name(&self, name: &[u8]) -> (r: bool)
        ensures
            r == self.has_label(name@),
    {
        let mut i: usize = 0;
        while i < self.routes.len()
            invariant
                i <= self.spec_routes().len(),
                forall|k: int| 0 <= k < i ==> (#[trigger] self.spec_routes()[k]).key().0 != name@,
            decreases self.spec_routes().len() - i,
        {
            if self.routes[i].matched(name) {
                return true;
            }
            i = i + 1;
        }
        false
    }

    pub open spec fn has(&self, key: (Seq<u8>, Seq<u8>)) -> bool {
        exists|i: int| 0 <= i < self.spec_routes().len() && self.spec_routes()[i].key() == key
    }

    /// The context stored under `key`.
    pub open spec fn context_of(&self, key: (Seq<u8>, Seq<u8>)) -> Context {
        self.spec_routes()[choose|i: int| 0 <= i < self.spec_routes().len() && self.spec_routes()[i].key() == key].spec_context()
    }

    /// What a lookup of a label and a method finds: the route of the method,
    /// else the label's route of any method.
    pub open spec fn pick(&self, name: Seq<u8>, m: Seq<u8>) -> Option<Context> {
        if self.has((name, m)) {
            Some(self.context_of((name, m)))
        } else if self.has((name, star())) {
            Some(self.context_of((name, star())))
        } else {
            None
        }
    }

    pub fn new() -> (r: NamedRouter<Context>)
        ensures
            r.wf(),
            r.spec_routes().len() == 0,
    {
        NamedRouter { routes: Vec::new() }
    }

    fn find(&self, name: &[u8], method: &[u8]) -> (r: Option<usize>)
        requires
            self.wf(),
        ensures
            match r {
                Some(i) => i < self.spec_routes().len() && self.spec_routes()[i as int].key() == (name@, method@),
                None => !self.has((name@, method@)),
            },
    {
        let mut i: usize = 0;
        while i < self.routes.len()
            invariant
                i <= self.spec_routes().len(),
                forall|k: int| 0 <= k < i ==> self.spec_routes()[k].key() != (name@, method@),
            decreases self.spec_routes().len() - i,
        {
            if self.routes[i].matched(name) && bytes_eq(self.routes[i].method.as_slice(), method) {
                return Some(i);
            }
            i = i + 1;
        }
        None
    }

    /// Adds a route unless one with the label and method is stored; returns
    /// whether it was added.
    pub fn add(&mut self, name: &[u8], method: Option<Vec<u8>>, context: Context) -> (r: bool)
        requires
            old(self).wf(),
        ensures
            final(self).wf(),
            ({
                let key = (name@, method_key(opt_view(method)));
                &&& r == !old(self).has(key)
                &&& r ==> final(self).spec_routes().len() == old(self).spec_routes().len() + 1
                    && final(self).spec_routes().take(old(self).spec_routes().len() as int) == old(self).spec_routes()
                    && final(self).spec_routes().last().key() == key
                    && final(self).spec_routes().last().spec_context() == context
                &&& !r ==> final(self).spec_routes() == old(self).spec_routes()
            }),
    {
        let ghost key = (name@, method_key(opt_view(method)));
        let method = method_bytes(method);
        match self.find(name, method.as_slice()) {
            Some(_) => false,
            None => {
                self.routes.push(NamedRoute::new(name, method, context));
                assert(self.spec_routes().take(old(self).spec_routes().len() as int) == old(self).spec_routes());
                true
            },
        }
    }

    /// Stores a route under the label and method, overwriting the one stored
    /// there.
    pub fn replace(&mut self, name: &[u8], method: Option<Vec<u8>>, context: Context)
        requires
            old(self).wf(),
        ensures
            final(self).wf(),
            ({
                let key = (name@, method_key(opt_view(method)));
                &&& final(self).has(key)
                &&& forall|i: int| 0 <= i < final(self).spec_routes().len() && final(self).spec_routes()[i].key() == key
                    ==> final(self).spec_routes()[i].spec_context() == context
                &&& forall|i: int| 0 <= i < final(self).spec_routes().len() && final(self).spec_routes()[i].key() != key
                    ==> old(self).spec_routes().contains(final(self).spec_routes()[i])
                &&& forall|i: int| 0 <= i < old(self).spec_routes().len() && old(self).spec_routes()[i].key() != key
                    ==> final(self).spec_routes().contains(old(self).spec_routes()[i])
            }),
    {
        let ghost key = (name@, method_key(opt_view(method)));
        let method = method_bytes(method);
        match self.find(name, method.as_slice()) {
            Some(i) => {
                let ghost prev = self.routes@;
                self.routes.set(i, NamedRoute::new(name, method, context));
                proof {
                    assert forall|a: int, b: int|
                        #![trigger self.spec_routes()[a], self.spec_routes()[b]]
                        0 <= a < self.spec_routes().len() && 0 <= b < self.spec_routes().len() && a != b
                        implies self.spec_routes()[a].key() != self.spec_routes()[b].key() by {
                        assert(self.spec_routes()[a].key() == prev[a].key());
                        assert(self.spec_routes()[b].key() == prev[b].key());
                        assert(prev[a].key() != prev[b].key());
                    }
                    assert forall|k: int| 0 <= k < self.spec_routes().len() && self.spec_routes()[k].key() == key
                        implies self.spec_routes()[k].spec_context() == context by {
                        if k != i {
                            assert(prev[k].key() != prev[i as int].key());
                        }
                    }
                    assert forall|k: int| 0 <= k < self.spec_routes().len() && self.spec_routes()[k].key() != key
                        implies prev.contains(self.spec_routes()[k]) by {
                        assert(prev[k] == self.spec_routes()[k]);
                    }
                    assert forall|k: int| 0 <= k < prev.len() && prev[k].key() != key
                        implies self.spec_routes().contains(prev[k]) by {
                        assert(prev[k] == self.spec_routes()[k]);
                    }
                    assert(self.spec_routes()[i as int].key() == key);
                }
            },
            None => {
                let ghost prev = self.routes@;
                self.routes.push(NamedRoute::new(name, method, context));
                proof {
                    let n = prev.len() as int;
                    assert(self.spec_routes()[n].key() == key);
                    assert forall|k: int| 0 <= k < self.spec_routes().len() && self.spec_routes()[k].key() != key
                        implies prev.contains(self.spec_routes()[k]) by {
                        assert(prev[k] == self.spec_routes()[k]);
                    }
                    assert forall|k: int| 0 <= k < prev.len() && prev[k].key() != key
                        implies self.spec_routes().contains(prev[k]) by {
                        assert(prev[k] == self.spec_routes()[k]);
                    }
                }
            },
        }
    }

    /// Removes the route stored under the label and method; tells whether
    /// there was one.
    pub fn remove(&mut self, name: &[u8], method: Option<Vec<u8>>) -> (r: bool)
        requires
            old(self).wf(),
        ensures
            final(self).wf(),
            ({
                let key = (name@, method_key(opt_view(method)));
                &&& r == old(self).has_label(name@)
                &&& !final(self).has(key)
                &&& !old(self).has(key) ==> final(self).spec_routes() == old(self).spec_routes()
                &&& old(self).has(key) ==> exists|i: int| 0 <= i < old(self).spec_routes().len()
                    && old(self).spec_routes()[i].key() == key
                    && final(self).spec_routes() == old(self).spec_routes().remove(i)
            }),
    {
        let ghost key = (name@, method_key(opt_view(method)));
        let labelled = self.has_name(name);
        let method = method_bytes(method);
        match self.find(name, method.as_slice()) {
            Some(i) => {
                let ghost prev = self.routes@;
                let _gone = self.routes.remove(i);
                proof {
                    assert forall|a: int, b: int|
                        #![trigger self.spec_routes()[a], self.spec_routes()[b]]
                        0 <= a < self.spec_routes().len() && 0 <= b < self.spec_routes().len() && a != b
                        implies self.spec_routes()[a].key() != self.spec_routes()[b].key() by {
                        let a2 = if a < i { a } else { a + 1 };
                        let b2 = if b < i { b } else { b + 1 };
                        assert(self.spec_routes()[a] == prev[a2]);
                        assert(self.spec_routes()[b] == prev[b2]);
                    }
                    if self.has(key) {
                        let k = choose|k: int| 0 <= k < self.spec_routes().len() && self.spec_routes()[k].key() == key;
                        let k2 = if k < i { k } else { k + 1 };
                        assert(self.spec_routes()[k] == prev[k2]);
                        assert(prev[k2].key() != prev[i as int].key());
                    }
                }
                labelled
            },
            None => labelled,
        }
    }

    /// The context for a label and a method: the route of that method, else
    /// the label's route of any method.
    pub fn get(&self, name: &[u8], method: &[u8]) -> (r: Option<&Context>)
        requires
            self.wf(),
        ensures
            self.has((name@, method@)) ==> (r matches Some(c) && exists|i: int|
                0 <= i < self.spec_routes().len() && self.spec_routes()[i].key() == (name@, method@)
                    && self.spec_routes()[i].spec_context() == *c),
            !self.has((name@, method@)) && self.has((name@, star())) ==> (r matches Some(c) && exists|i: int|
                0 <= i < self.spec_routes().len() && self.spec_routes()[i].key() == (name@, star())
                    && self.spec_routes()[i].spec_context() == *c),
            !self.has((name@, method@)) && !self.has((name@, star())) ==> r is None,
            match r {
                Some(c) => self.pick(name@, method@) == Some(*c),
                None => self.pick(name@, method@) is None,
            },
    {
        match self.find(name, method) {
            Some(i) => {
                proof {
                    lemma_named_unique(self, (name@, method@), i as int);
                }
                Some(&self.routes[i].context)
            },
            None => {
                let any: Vec<u8> = vec![STAR];
                assert(any@ == star());
                match self.find(name, any.as_slice()) {
                    Some(i) => {
                        proof {
                            lemma_named_unique(self, (name@, star()), i as int);
                        }
                        Some(&self.routes[i].context)
                    },
                    None => None,
                }
            },
        }
    }

    /// Adds a route with a default context unless one is stored under the
    /// label and method, then lets `f` update its context; `f` learns whether
    /// the route was added.
    pub fn upsert<F>(&mut self, name: &[u8], method: Option<Vec<u8>>, f: F)
        where
            Context: Default,
            F: Fn(Context, bool) -> Context,
        requires
            old(self).wf(),
            forall|c: Context, added: bool| #[trigger] f.requires((c, added)),
        ensures
            final(self).wf(),
            final(self).has((name@, method_key(opt_view(method)))),
            final(self).spec_routes().len() == old(self).spec_routes().len() + if old(self).has(
                (name@, method_key(opt_view(method))),
            ) {
                0int
            } else {
                1
            },
            forall|k: int| 0 <= k < final(self).spec_routes().len()
                && #[trigger] final(self).spec_routes()[k].key() == (name@, method_key(opt_view(method))) ==> {
                let c = final(self).spec_routes()[k].spec_context();
                if old(self).has((name@, method_key(opt_view(method)))) {
                    exists|j: int| 0 <= j < old(self).spec_routes().len()
                        && old(self).spec_routes()[j].key() == (name@, method_key(opt_view(method)))
                        && f.ensures((old(self).spec_routes()[j].spec_context(), false), c)
                } else {
                    exists|d: Context| call_ensures(Context::default, (), d) && f.ensures((d, true), c)
                }
            },
            forall|j: int| 0 <= j < old(self).spec_routes().len()
                && old(self).spec_routes()[j].key() != (name@, method_key(opt_view(method)))
                ==> final(self).spec_routes().contains(#[trigger] old(self).spec_routes()[j]),
    {
        let ghost key = (name@, method_key(opt_view(method)));
        let m = method_bytes(method);
        let n = self.routes.len();
        let i = match self.find(name, m.as_slice()) {
            Some(i) => i,
            None => n,
        };
        let init = Context::default();
        let ghost init_v = init;
        assert(call_ensures(Context::default, (), init_v));
        let added = self.add(name, Some(m), init);
        proof {
            if !added {
                assert(self.spec_routes()[i as int].key() == key);
            } else {
                assert(self.spec_routes()[i as int] == self.spec_routes().last());
            }
        }
        let ghost mid = self.routes@;
        let route = self.routes.remove(i);
        let NamedRoute { name, method, context } = route;
        let ghost prev_context = context;
        let context = f(context, added);
        let ghost new_context = context;
        self.routes.insert(i, NamedRoute { name, method, context });
        proof {
            assert(self.spec_routes()[i as int].spec_context() == new_context);
            assert(mid[i as int].spec_context() == prev_context);
            assert forall|k: int| 0 <= k < self.spec_routes().len() && #[trigger] self.spec_routes()[k].key() == key
                implies k == i by {
                if k != i {
                    assert(self.spec_routes()[k].key() == mid[k].key());
                    assert(mid[k].key() != mid[i as int].key());
                }
            }
            if added {
                assert(prev_context == init_v);
                assert(f.ensures((prev_context, true), new_context));
            } else {
                assert(mid == old(self).spec_routes());
                assert(old(self).spec_routes()[i as int].key() == key);
            }
            assert forall|j: int| 0 <= j < old(self).spec_routes().len() && old(self).spec_routes()[j].key() != key
                implies self.spec_routes().contains(#[trigger] old(self).spec_routes()[j]) by {
                assert(mid[j] == old(self).spec_routes()[j]);
                assert(j != i);
                assert(self.spec_routes()[j] == mid[j]);
            }
            assert forall|a: int, b: int|
                #![trigger self.spec_routes()[a], self.spec_routes()[b]]
                0 <= a < self.spec_routes().len() && 0 <= b < self.spec_routes().len() && a != b
                implies self.spec_routes()[a].key() != self.spec_routes()[b].key() by {
                assert(self.spec_routes()[a].key() == mid[a].key());
                assert(self.spec_routes()[b].key() == mid[b].key());
            }
            assert(self.spec_routes()[i as int].key() == mid[i as int].key());
        }
    }
}

proof fn lemma_named_unique<C>(t: &NamedRouter<C>, key: (Seq<u8>, Seq<u8>), i: int)
    requires
        t.wf(),
        0 <= i < t.spec_routes().len(),
        t.spec_routes()[i].key() == key,
    ensures
        t.context_of(key) == t.spec_routes()[i].spec_context(),
{
    let c = choose|c: int| 0 <= c < t.spec_routes().len() && t.spec_routes()[c].key() == key;
    if c != i {
        assert(t.spec_routes()[c].key() != t.spec_routes()[i].key());
    }
}

} // verus!
