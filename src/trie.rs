use vstd::prelude::*;
use crate::bytes::{bytes_eq, split, split_on};

verus! {

pub const SLASH: u8 = 47;
pub const STAR: u8 = 42;
pub const LBRACE: u8 = 123;
pub const RBRACE: u8 = 125;

/// The key of a capture segment, and of a route of any method.
pub open spec fn star() -> Seq<u8> {
    seq![STAR]
}

/// A path segment `{name}` captures what stands there.
pub open spec fn is_var_word(w: Seq<u8>) -> bool {
    w.len() >= 2 && w[0] == LBRACE && w.last() == RBRACE
}

/// The key a path segment is stored under: `*` for a capture, the word itself otherwise.
pub open spec fn word_key(w: Seq<u8>) -> Seq<u8> {
    if is_var_word(w) {
        star()
    } else {
        w
    }
}

/// The variable a path segment captures into.
pub open spec fn word_var(w: Seq<u8>) -> Option<Seq<u8>> {
    if is_var_word(w) {
        Some(w.subrange(1, w.len() - 1))
    } else {
        None
    }
}

/// The keys of a route pattern: its `/`-separated segments.
pub open spec fn path_keys(path: Seq<u8>) -> Seq<Seq<u8>> {
    split_on(path, SLASH).map_values(|w: Seq<u8>| word_key(w))
}

pub open spec fn path_vars(path: Seq<u8>) -> Seq<Option<Seq<u8>>> {
    split_on(path, SLASH).map_values(|w: Seq<u8>| word_var(w))
}

/// The method key of a route: the method's name, or `*` for any method.
pub open spec fn method_key(m: Option<Seq<u8>>) -> Seq<u8> {
    match m {
        Some(v) => v,
        None => star(),
    }
}

/// The route pattern `keys` covers the first `keys.len()` segments of `parts`.
pub open spec fn covers(keys: Seq<Seq<u8>>, parts: Seq<Seq<u8>>) -> bool {
    &&& keys.len() <= parts.len()
    &&& forall|k: int| 0 <= k < keys.len() ==> keys[k] == star() || keys[k] == parts[k]
}

/// Which segments of a pattern are captures.
pub open spec fn wild(keys: Seq<Seq<u8>>) -> Seq<bool> {
    keys.map_values(|k: Seq<u8>| k == star())
}

/// `x` has a literal where `y` has a capture, at the first place they differ.
pub open spec fn lex_before(x: Seq<bool>, y: Seq<bool>) -> bool {
    exists|p: int| 0 <= p < x.len() && p < y.len() && !x[p] && y[p] && x.take(p) == y.take(p)
}

/// Route `a` is a better match than route `b`: a longer pattern wins; then a
/// literal segment beats a capture at the first place they differ; then a
/// route of the request's method beats one of any method.
pub open spec fn better(a: (Seq<Seq<u8>>, Seq<u8>), b: (Seq<Seq<u8>>, Seq<u8>), m: Seq<u8>) -> bool {
    ||| a.0.len() > b.0.len()
    ||| a.0.len() == b.0.len() && lex_before(wild(a.0), wild(b.0))
    ||| a.0.len() == b.0.len() && wild(a.0) == wild(b.0) && a.1 == m && b.1 != m
}

proof fn lemma_lex_trans(x: Seq<bool>, y: Seq<bool>, z: Seq<bool>)
    requires
        x.len() == y.len() == z.len(),
        lex_before(x, y),
        lex_before(y, z) || y == z,
    ensures
        lex_before(x, z),
{
    let p = choose|p: int| 0 <= p < x.len() && p < y.len() && !x[p] && y[p] && x.take(p) == y.take(p);
    if y == z {
        assert(0 <= p < x.len() && p < z.len() && !x[p] && z[p] && x.take(p) == z.take(p));
    } else {
        let q = choose|q: int| 0 <= q < y.len() && q < z.len() && !y[q] && z[q] && y.take(q) == z.take(q);
        if p < q {
            assert(z[p] == y.take(q)[p]);
            assert(x.take(p) == z.take(p)) by {
                assert forall|k: int| 0 <= k < p implies x.take(p)[k] == z.take(p)[k] by {
                    assert(y.take(p)[k] == y.take(q)[k]);
                }
            }
            assert(0 <= p < x.len() && p < z.len() && !x[p] && z[p] && x.take(p) == z.take(p));
        } else if q < p {
            assert(x[q] == x.take(p)[q]);
            assert(y[q] == y.take(p)[q]);
            assert(x.take(q) == z.take(q)) by {
                assert forall|k: int| 0 <= k < q implies x.take(q)[k] == z.take(q)[k] by {
                    assert(x.take(p)[k] == y.take(p)[k]);
                    assert(y.take(q)[k] == z.take(q)[k]);
                }
            }
            assert(0 <= q < x.len() && q < z.len() && !x[q] && z[q] && x.take(q) == z.take(q));
        }
    }
}

proof fn lemma_lex_asym(x: Seq<bool>, y: Seq<bool>)
    requires
        x.len() == y.len(),
        lex_before(x, y),
    ensures
        !lex_before(y, x),
        x != y,
{
    let p = choose|p: int| 0 <= p < x.len() && p < y.len() && !x[p] && y[p] && x.take(p) == y.take(p);
    if lex_before(y, x) {
        let q = choose|q: int| 0 <= q < y.len() && q < x.len() && !y[q] && x[q] && y.take(q) == x.take(q);
        if p < q {
            assert(x.take(q)[p] == y.take(q)[p]);
        } else if q < p {
            assert(x.take(p)[q] == y.take(p)[q]);
        }
    }
}

proof fn lemma_lex_total(x: Seq<bool>, y: Seq<bool>)
    requires
        x.len() == y.len(),
        x != y,
    ensures
        lex_before(x, y) || lex_before(y, x),
    decreases x.len(),
{
    if x.len() > 0 {
        if x[0] != y[0] {
            assert(x.take(0) == y.take(0));
            if !x[0] {
                assert(0 <= 0 < x.len() && 0 < y.len() && !x[0] && y[0] && x.take(0) == y.take(0));
            } else {
                assert(0 <= 0 < y.len() && 0 < x.len() && !y[0] && x[0] && y.take(0) == x.take(0));
            }
        } else {
            let xs = x.drop_first();
            let ys = y.drop_first();
            assert(xs != ys) by {
                if xs == ys {
                    assert(x =~= seq![x[0]] + xs);
                    assert(y =~= seq![y[0]] + ys);
                }
            }
            lemma_lex_total(xs, ys);
            if lex_before(xs, ys) {
                let p = choose|p: int| 0 <= p < xs.len() && p < ys.len() && !xs[p] && ys[p] && xs.take(p) == ys.take(p);
                assert(x.take(p + 1) =~= seq![x[0]] + xs.take(p));
                assert(y.take(p + 1) =~= seq![y[0]] + ys.take(p));
                assert(0 <= p + 1 < x.len() && p + 1 < y.len() && !x[p + 1] && y[p + 1] && x.take(p + 1) == y.take(p + 1));
            } else {
                let p = choose|p: int| 0 <= p < ys.len() && p < xs.len() && !ys[p] && xs[p] && ys.take(p) == xs.take(p);
                assert(x.take(p + 1) =~= seq![x[0]] + xs.take(p));
                assert(y.take(p + 1) =~= seq![y[0]] + ys.take(p));
                assert(0 <= p + 1 < y.len() && p + 1 < x.len() && !y[p + 1] && x[p + 1] && y.take(p + 1) == x.take(p + 1));
            }
        }
    } else {
        assert(x =~= y);
    }
}

proof fn lemma_same_wild_same_keys(ka: Seq<Seq<u8>>, kb: Seq<Seq<u8>>, parts: Seq<Seq<u8>>)
    requires
        covers(ka, parts),
        covers(kb, parts),
        ka.len() == kb.len(),
        wild(ka) == wild(kb),
    ensures
        ka == kb,
{
    assert forall|k: int| 0 <= k < ka.len() implies ka[k] == kb[k] by {
        assert(wild(ka)[k] == (ka[k] == star()));
        assert(wild(kb)[k] == (kb[k] == star()));
        assert(wild(ka)[k] == wild(kb)[k]);
        assert(ka[k] == star() || ka[k] == parts[k]);
        assert(kb[k] == star() || kb[k] == parts[k]);
    }
    assert(ka =~= kb);
}

proof fn lemma_better_irrefl(a: (Seq<Seq<u8>>, Seq<u8>), m: Seq<u8>)
    ensures
        !better(a, a, m),
{
    if lex_before(wild(a.0), wild(a.0)) {
        lemma_lex_asym(wild(a.0), wild(a.0));
    }
}

proof fn lemma_better_trans(
    a: (Seq<Seq<u8>>, Seq<u8>),
    b: (Seq<Seq<u8>>, Seq<u8>),
    c: (Seq<Seq<u8>>, Seq<u8>),
    m: Seq<u8>,
)
    requires
        better(a, b, m),
        better(b, c, m),
    ensures
        better(a, c, m),
{
    if a.0.len() == b.0.len() && b.0.len() == c.0.len() {
        if lex_before(wild(a.0), wild(b.0)) {
            if lex_before(wild(b.0), wild(c.0)) {
                lemma_lex_trans(wild(a.0), wild(b.0), wild(c.0));
            } else {
                lemma_lex_trans(wild(a.0), wild(b.0), wild(c.0));
            }
        } else if lex_before(wild(b.0), wild(c.0)) {
            assert(wild(a.0) == wild(b.0));
        }
    }
}

/// One route: its pattern's keys, what its captures are named, its method key,
/// and its context.
pub struct TrieRoute<Context> {
    keys: Vec<Vec<u8>>,
    vars: Vec<Option<Vec<u8>>>,
    method: Vec<u8>,
    context: Context,
}

pub open spec fn seqs_view(v: Seq<Vec<u8>>) -> Seq<Seq<u8>> {
    v.map_values(|x: Vec<u8>| x@)
}

pub open spec fn opts_view(v: Seq<Option<Vec<u8>>>) -> Seq<Option<Seq<u8>>> {
    v.map_values(|x: Option<Vec<u8>>| opt_view(x))
}

pub open spec fn opt_view(o: Option<Vec<u8>>) -> Option<Seq<u8>> {
    match o {
        Some(v) => Some(v@),
        None => None,
    }
}

impl<Context> TrieRoute<Context> {
    pub closed spec fn spec_keys(&self) -> Seq<Seq<u8>> {
        seqs_view(self.keys@)
    }

    pub closed spec fn spec_vars(&self) -> Seq<Option<Seq<u8>>> {
        opts_view(self.vars@)
    }

    pub closed spec fn spec_method(&self) -> Seq<u8> {
        self.method@
    }

    pub closed spec fn spec_context(&self) -> Context {
        self.context
    }

    pub open spec fn key(&self) -> (Seq<Seq<u8>>, Seq<u8>) {
        (self.spec_keys(), self.spec_method())
    }
}

/// What a route captured: variable names with the segments they matched.
pub open spec fn captured(vars: Seq<Option<Seq<u8>>>, parts: Seq<Seq<u8>>) -> Seq<(Seq<u8>, Seq<u8>)>
    decreases vars.len(),
{
    if vars.len() == 0 {
        Seq::empty()
    } else {
        let prev = captured(vars.drop_last(), parts);
        match vars.last() {
            Some(name) => prev.push((name, parts[vars.len() - 1])),
            None => prev,
        }
    }
}

/// A lookup's result.
pub struct RouteResult {
    /// Index of the route, for [`TrieRouter::context`].
    pub index: usize,
    /// The route's pattern covers the whole path.
    pub exact: bool,
    /// Each capture's name with the segment it matched.
    pub captures: Vec<(Vec<u8>, Vec<u8>)>,
}

impl RouteResult {
    pub fn new(index: usize, exact: bool, captures: Vec<(Vec<u8>, Vec<u8>)>) -> (r: RouteResult)
        ensures
            r.index == index,
            r.exact == exact,
            r.captures == captures,
    {
        RouteResult { index, exact, captures }
    }
}

pub open spec fn pairs_view(v: Seq<(Vec<u8>, Vec<u8>)>) -> Seq<(Seq<u8>, Seq<u8>)> {
    v.map_values(|p: (Vec<u8>, Vec<u8>)| (p.0@, p.1@))
}

/// Routes keyed by path segments, where a `{name}` segment matches any
/// segment and captures it.
pub struct TrieRouter<Context> {
    routes: Vec<TrieRoute<Context>>,
}

fn keys_eq(a: &Vec<Vec<u8>>, b: &Vec<Vec<u8>>) -> (r: bool)
    ensures
        r == (seqs_view(a@) == seqs_view(b@)),
{
    if a.len() != b.len() {
        assert(seqs_view(a@).len() != seqs_view(b@).len());
        return false;
    }
    let mut i: usize = 0;
    while i < a.len()
        invariant
            i <= a@.len() == b@.len(),
            forall|k: int| 0 <= k < i ==> a@[k]@ == b@[k]@,
        decreases a@.len() - i,
    {
        if !bytes_eq(a[i].as_slice(), b[i].as_slice()) {
            assert(seqs_view(a@)[i as int] != seqs_view(b@)[i as int]);
            return false;
        }
        i = i + 1;
    }
    assert(seqs_view(a@) =~= seqs_view(b@));
    true
}

fn is_star(k: &Vec<u8>) -> (r: bool)
    ensures
        r == (k@ == star()),
{
    if k.len() == 1 && k[0] == STAR {
        assert(k@ =~= star());
        true
    } else {
        false
    }
}

/// The keys and capture names of a route pattern.
fn pattern(path: &[u8]) -> (r: (Vec<Vec<u8>>, Vec<Option<Vec<u8>>>))
    ensures
        seqs_view(r.0@) == path_keys(path@),
        opts_view(r.1@) == path_vars(path@),
{
    let words = split(path, SLASH);
    let ghost ws = seqs_view(words@);
    let mut keys: Vec<Vec<u8>> = Vec::new();
    let mut vars: Vec<Option<Vec<u8>>> = Vec::new();
    let mut i: usize = 0;
    while i < words.len()
        invariant
            i <= words@.len(),
            ws == seqs_view(words@),
            keys@.len() == i && vars@.len() == i,
            forall|k: int| 0 <= k < i ==> keys@[k]@ == word_key(ws[k]),
            forall|k: int| 0 <= k < i ==> opt_view(vars@[k]) == word_var(ws[k]),
        decreases words@.len() - i,
    {
        let w = &words[i];
        assert(w@ == ws[i as int]);
        if w.len() >= 2 && w[0] == LBRACE && w[w.len() - 1] == RBRACE {
            let name = crate::bytes::copy_slice(w.as_slice(), 1, w.len() - 1);
            keys.push(vec![STAR]);
            vars.push(Some(name));
        } else {
            let key = crate::bytes::copy_slice(w.as_slice(), 0, w.len());
            assert(key@ == w@);
            keys.push(key);
            vars.push(None);
        }
        i = i + 1;
    }
    assert(seqs_view(keys@) =~= path_keys(path@));
    assert(opts_view(vars@) =~= path_vars(path@));
    (keys, vars)
}

pub(crate) fn method_bytes(method: Option<Vec<u8>>) -> (r: Vec<u8>)
    ensures
        r@ == method_key(opt_view(method)),
{
    match method {
        Some(m) => m,
        None => vec![STAR],
    }
}

impl<Context> TrieRouter<Context> {
    pub closed spec fn spec_routes(&self) -> Seq<TrieRoute<Context>> {
        self.routes@
    }

    /// No two routes share both pattern keys and method key, and each route
    /// names as many captures as it has keys.
    pub open spec fn wf(&self) -> bool {
        &&& forall|i: int, j: int|
            #![trigger self.spec_routes()[i], self.spec_routes()[j]]
            0 <= i < self.spec_routes().len() && 0 <= j < self.spec_routes().len() && i != j
                ==> self.spec_routes()[i].key() != self.spec_routes()[j].key()
        &&& forall|i: int| 0 <= i < self.spec_routes().len()
            ==> (#[trigger] self.spec_routes()[i]).spec_vars().len() == self.spec_routes()[i].spec_keys().len()
    }

    /// Index of the route stored under `key`.
    pub open spec fn index_of(&self, key: (Seq<Seq<u8>>, Seq<u8>)) -> Option<int> {
        if exists|i: int| 0 <= i < self.spec_routes().len() && self.spec_routes()[i].key() == key {
            Some(choose|i: int| 0 <= i < self.spec_routes().len() && self.spec_routes()[i].key() == key)
        } else {
            None
        }
    }

    /// Route `i` can serve `parts` with method `m`, and no such route is better.
    pub open spec fn maximal(&self, i: int, parts: Seq<Seq<u8>>, m: Seq<u8>) -> bool {
        &&& self.candidate(i, parts, m)
        &&& forall|j: int| #[trigger] self.candidate(j, parts, m)
            ==> !better(self.spec_routes()[j].key(), self.spec_routes()[i].key(), m)
    }

    /// The best route for `parts` and `m`, if any route can serve them.
    pub open spec fn best(&self, parts: Seq<Seq<u8>>, m: Seq<u8>) -> Option<int> {
        if exists|i: int| self.maximal(i, parts, m) {
            Some(choose|i: int| self.maximal(i, parts, m))
        } else {
            None
        }
    }

    /// Route `i` can serve `parts` with method `m`.
    pub open spec fn candidate(&self, i: int, parts: Seq<Seq<u8>>, m: Seq<u8>) -> bool {
        &&& 0 <= i < self.spec_routes().len()
        &&& covers(self.spec_routes()[i].spec_keys(), parts)
        &&& self.spec_routes()[i].spec_method() == m || self.spec_routes()[i].spec_method() == star()
    }

    pub fn new() -> (r: TrieRouter<Context>)
        ensures
            r.wf(),
            r.spec_routes().len() == 0,
    {
        TrieRouter { routes: Vec::new() }
    }

    pub fn len(&self) -> (r: usize)
        ensures
            r == self.spec_routes().len(),
    {
        self.routes.len()
    }

    pub fn is_empty(&self) -> (r: bool)
        ensures
            r == (self.spec_routes().len() == 0),
    {
        self.routes.len() == 0
    }

    fn find(&self, keys: &Vec<Vec<u8>>, method: &Vec<u8>) -> (r: Option<usize>)
        requires
            self.wf(),
        ensures
            match r {
                Some(i) => i < self.spec_routes().len() && self.index_of((seqs_view(keys@), method@)) == Some(i as int),
                None => self.index_of((seqs_view(keys@), method@)) is None,
            },
    {
        let mut i: usize = 0;
        while i < self.routes.len()
            invariant
                self.wf(),
                i <= self.spec_routes().len(),
                forall|k: int| 0 <= k < i ==> self.spec_routes()[k].key() != (seqs_view(keys@), method@),
            decreases self.spec_routes().len() - i,
        {
            let same_keys = keys_eq(&self.routes[i].keys, keys);
            let same_method = bytes_eq(self.routes[i].method.as_slice(), method.as_slice());
            proof {
                let rt = self.spec_routes()[i as int];
                assert(rt.spec_keys() == seqs_view(self.routes@[i as int].keys@));
                assert(rt.key() == (rt.spec_keys(), rt.spec_method()));
            }
            if same_keys && same_method {
                proof {
                    let rt = self.spec_routes()[i as int];
                    assert(rt.key() == (seqs_view(keys@), method@));
                    lemma_index_of(self, (seqs_view(keys@), method@), i as int);
                }
                return Some(i);
            }
            i = i + 1;
        }
        None
    }

    fn insert(&mut self, path: &[u8], method: Option<Vec<u8>>, context: Context, replace: bool) -> (r: (usize, bool))
        requires
            old(self).wf(),
        ensures
            final(self).wf(),
            ({
                let key = (path_keys(path@), method_key(opt_view(method)));
                match old(self).index_of(key) {
                    Some(i) => {
                        &&& r.0 as int == i && !r.1
                        &&& final(self).spec_routes().len() == old(self).spec_routes().len()
                        &&& forall|j: int| 0 <= j < old(self).spec_routes().len() && j != i
                            ==> final(self).spec_routes()[j] == old(self).spec_routes()[j]
                        &&& final(self).spec_routes()[i].key() == key
                        &&& final(self).spec_routes()[i].spec_context() == if replace {
                            context
                        } else {
                            old(self).spec_routes()[i].spec_context()
                        }
                        &&& replace ==> final(self).spec_routes()[i].spec_vars() == path_vars(path@)
                        &&& !replace ==> final(self).spec_routes()[i] == old(self).spec_routes()[i]
                    },
                    None => {
                        &&& r == (old(self).spec_routes().len() as usize, true)
                        &&& final(self).spec_routes().len() == old(self).spec_routes().len() + 1
                        &&& forall|j: int| 0 <= j < old(self).spec_routes().len()
                            ==> final(self).spec_routes()[j] == old(self).spec_routes()[j]
                        &&& final(self).spec_routes()[r.0 as int].key() == key
                        &&& final(self).spec_routes()[r.0 as int].spec_vars() == path_vars(path@)
                        &&& final(self).spec_routes()[r.0 as int].spec_context() == context
                    },
                }
            }),
    {
        let (keys, vars) = pattern(path);
        let method = method_bytes(method);
        proof {
            split_on_len(path@);
        }
        match self.find(&keys, &method) {
            Some(i) => {
                proof {
                    let want = (seqs_view(keys@), method@);
                    assert(old(self).index_of(want) == Some(i as int));
                    assert(exists|k: int| 0 <= k < self.spec_routes().len() && self.spec_routes()[k].key() == want);
                    assert(self.spec_routes()[i as int].key() == want);
                }
                if replace {
                    let route = TrieRoute { keys, vars, method, context };
                    let ghost prev = self.routes@;
                    self.routes.set(i, route);
                    proof {
                        assert(self.spec_routes()[i as int].key() == prev[i as int].key());
                        assert forall|a: int, b: int|
                            0 <= a < self.spec_routes().len() && 0 <= b < self.spec_routes().len() && a != b
                            implies self.spec_routes()[a].key() != self.spec_routes()[b].key() by {
                            assert(self.spec_routes()[a].key() == prev[a].key());
                            assert(self.spec_routes()[b].key() == prev[b].key());
                            assert(prev[a].key() != prev[b].key());
                        }
                    }
                }
                (i, false)
            },
            None => {
                let n = self.routes.len();
                self.routes.push(TrieRoute { keys, vars, method, context });
                (n, true)
            },
        }
    }

    /// Adds a route; a route already stored under the same pattern and method
    /// is kept as it is. Returns the route's index and whether it was added.
    pub fn add(&mut self, path: &[u8], method: Option<Vec<u8>>, context: Context) -> (r: (usize, bool))
        requires
            old(self).wf(),
        ensures
            final(self).wf(),
            ({
                let key = (path_keys(path@), method_key(opt_view(method)));
                match old(self).index_of(key) {
                    Some(i) => r.0 as int == i && !r.1 && final(self).spec_routes() == old(self).spec_routes(),
                    None => {
                        &&& r == (old(self).spec_routes().len() as usize, true)
                        &&& final(self).spec_routes().len() == old(self).spec_routes().len() + 1
                        &&& forall|j: int| 0 <= j < old(self).spec_routes().len()
                            ==> final(self).spec_routes()[j] == old(self).spec_routes()[j]
                        &&& final(self).spec_routes()[r.0 as int].key() == key
                        &&& final(self).spec_routes()[r.0 as int].spec_vars() == path_vars(path@)
                        &&& final(self).spec_routes()[r.0 as int].spec_context() == context
                    },
                }
            }),
    {
        let r = self.insert(path, method, context, false);
        proof {
            if old(self).index_of((path_keys(path@), method_key(opt_view(method)))) is Some {
                assert(self.spec_routes() =~= old(self).spec_routes());
            }
        }
        r
    }

    /// Adds a route, or overwrites the one stored under the same pattern and
    /// method. Returns the route's index and whether it was added.
    pub fn replace(&mut self, path: &[u8], method: Option<Vec<u8>>, context: Context) -> (r: (usize, bool))
        requires
            old(self).wf(),
        ensures
            final(self).wf(),
            ({
                let key = (path_keys(path@), method_key(opt_view(method)));
                &&& r.1 == (old(self).index_of(key) is None)
                &&& final(self).spec_routes()[r.0 as int].key() == key
                &&& final(self).spec_routes()[r.0 as int].spec_vars() == path_vars(path@)
                &&& final(self).spec_routes()[r.0 as int].spec_context() == context
                &&& r.0 < final(self).spec_routes().len()
                &&& final(self).spec_routes().len() == old(self).spec_routes().len() + if r.1 { 1int } else { 0 }
                &&& forall|j: int| 0 <= j < old(self).spec_routes().len() && j != r.0
                    ==> final(self).spec_routes()[j] == old(self).spec_routes()[j]
            }),
    {
        proof {
            lemma_index_of_range(old(self), (path_keys(path@), method_key(opt_view(method))));
        }
        self.insert(path, method, context, true)
    }

    /// Removes the route stored under the pattern and method; tells whether
    /// there was one.
    pub fn remove(&mut self, path: &[u8], method: Option<Vec<u8>>) -> (r: bool)
        requires
            old(self).wf(),
        ensures
            final(self).wf(),
            ({
                let key = (path_keys(path@), method_key(opt_view(method)));
                match old(self).index_of(key) {
                    Some(i) => r && final(self).spec_routes() == old(self).spec_routes().remove(i),
                    None => !r && final(self).spec_routes() == old(self).spec_routes(),
                }
            }),
    {
        let (keys, _vars) = pattern(path);
        let method = method_bytes(method);
        match self.find(&keys, &method) {
            Some(i) => {
                let ghost prev = self.routes@;
                let _gone = self.routes.remove(i);
                proof {
                    assert forall|a: int, b: int|
                        0 <= a < self.spec_routes().len() && 0 <= b < self.spec_routes().len() && a != b
                        implies self.spec_routes()[a].key() != self.spec_routes()[b].key() by {
                        let a2 = if a < i { a } else { a + 1 };
                        let b2 = if b < i { b } else { b + 1 };
                        assert(self.spec_routes()[a] == prev[a2]);
                        assert(self.spec_routes()[b] == prev[b2]);
                    }
                    assert forall|a: int| 0 <= a < self.spec_routes().len()
                        implies (#[trigger] self.spec_routes()[a]).spec_vars().len() == self.spec_routes()[a].spec_keys().len() by {
                        let a2 = if a < i { a } else { a + 1 };
                        assert(self.spec_routes()[a] == prev[a2]);
                    }
                }
                true
            },
            None => false,
        }
    }

    /// Adds a route with a default context unless one is stored under the
    /// pattern and method, then lets `f` update its context; `f` learns
    /// whether the route was added.
    pub fn upsert<F>(&mut self, path: &[u8], method: Option<Vec<u8>>, f: F) -> (r: usize)
        where
            Context: Default,
            F: Fn(Context, bool) -> Context,
        requires
            old(self).wf(),
            forall|c: Context, added: bool| #[trigger] f.requires((c, added)),
        ensures
            final(self).wf(),
            r < final(self).spec_routes().len(),
            final(self).spec_routes()[r as int].key() == (path_keys(path@), method_key(opt_view(method))),
            final(self).spec_routes().len() == old(self).spec_routes().len() + if old(self).index_of(
                (path_keys(path@), method_key(opt_view(method))),
            ) is Some {
                0int
            } else {
                1
            },
            forall|j: int| 0 <= j < old(self).spec_routes().len() && j != r
                ==> final(self).spec_routes()[j] == old(self).spec_routes()[j],
            ({
                let key = (path_keys(path@), method_key(opt_view(method)));
                match old(self).index_of(key) {
                    Some(i) => f.ensures((old(self).spec_routes()[i].spec_context(), false),
                        final(self).spec_routes()[r as int].spec_context()),
                    None => exists|d: Context| call_ensures(Context::default, (), d)
                        && f.ensures((d, true), final(self).spec_routes()[r as int].spec_context()),
                }
            }),
    {
        proof {
            lemma_index_of_range(old(self), (path_keys(path@), method_key(opt_view(method))));
        }
        let init = Context::default();
        let ghost init_v = init;
        assert(call_ensures(Context::default, (), init_v));
        let (i, added) = self.add(path, method, init);
        let ghost mid = self.routes@;
        let route = self.routes.remove(i);
        let TrieRoute { keys, vars, method, context } = route;
        let ghost prev_context = context;
        let context = f(context, added);
        let ghost new_context = context;
        self.routes.insert(i, TrieRoute { keys, vars, method, context });
        proof {
            assert(f.ensures((prev_context, added), new_context));
            assert(self.spec_routes()[i as int].spec_context() == new_context);
            if added {
                assert(f.ensures((prev_context, true), self.spec_routes()[i as int].spec_context()));
            } else {
                assert(prev_context == old(self).spec_routes()[i as int].spec_context());
            }
            assert forall|j: int| 0 <= j < mid.len() && j != i implies self.routes@[j] == mid[j] by {}
            assert(self.routes@.len() == mid.len());
            let prev = self.routes@;
            assert forall|a: int, b: int|
                0 <= a < self.spec_routes().len() && 0 <= b < self.spec_routes().len() && a != b
                implies self.spec_routes()[a].key() != self.spec_routes()[b].key() by {
                assert(self.spec_routes()[a].key() == mid[a].key());
                assert(self.spec_routes()[b].key() == mid[b].key());
            }
            assert forall|a: int| 0 <= a < self.spec_routes().len()
                implies (#[trigger] self.spec_routes()[a]).spec_vars().len() == self.spec_routes()[a].spec_keys().len() by {
                assert(self.spec_routes()[a].spec_vars() == mid[a].spec_vars());
                assert(self.spec_routes()[a].spec_keys() == mid[a].spec_keys());
            }
        }
        i
    }

    fn covers_parts(&self, i: usize, parts: &Vec<Vec<u8>>) -> (r: bool)
        requires
            i < self.spec_routes().len(),
        ensures
            r == covers(self.spec_routes()[i as int].spec_keys(), seqs_view(parts@)),
    {
        let keys = &self.routes[i].keys;
        let ghost ks = seqs_view(keys@);
        let ghost ps = seqs_view(parts@);
        assert(ks == self.spec_routes()[i as int].spec_keys());
        if keys.len() > parts.len() {
            return false;
        }
        let mut k: usize = 0;
        while k < keys.len()
            invariant
                keys@.len() <= parts@.len(),
                k <= keys@.len(),
                ks == seqs_view(keys@),
                ps == seqs_view(parts@),
                ks == self.spec_routes()[i as int].spec_keys(),
                forall|j: int| 0 <= j < k ==> ks[j] == star() || ks[j] == ps[j],
            decreases keys@.len() - k,
        {
            if !is_star(&keys[k]) && !bytes_eq(keys[k].as_slice(), parts[k].as_slice()) {
                assert(!(ks[k as int] == star() || ks[k as int] == ps[k as int]));
                assert(!covers(ks, ps));
                return false;
            }
            k = k + 1;
        }
        true
    }

    fn is_candidate(&self, i: usize, parts: &Vec<Vec<u8>>, method: &[u8]) -> (r: bool)
        requires
            i < self.spec_routes().len(),
        ensures
            r == self.candidate(i as int, seqs_view(parts@), method@),
    {
        if !self.covers_parts(i, parts) {
            return false;
        }
        let m = &self.routes[i].method;
        bytes_eq(m.as_slice(), method) || is_star(m)
    }

    fn is_better(&self, a: usize, b: usize, method: &[u8]) -> (r: bool)
        requires
            a < self.spec_routes().len(),
            b < self.spec_routes().len(),
        ensures
            r == better(self.spec_routes()[a as int].key(), self.spec_routes()[b as int].key(), method@),
    {
        let ka = &self.routes[a].keys;
        let kb = &self.routes[b].keys;
        let ghost wa = wild(self.spec_routes()[a as int].spec_keys());
        let ghost wb = wild(self.spec_routes()[b as int].spec_keys());
        if ka.len() != kb.len() {
            return ka.len() > kb.len();
        }
        let mut p: usize = 0;
        while p < ka.len()
            invariant
                ka@.len() == kb@.len(),
                p <= ka@.len(),
                wa == wild(seqs_view(ka@)),
                wb == wild(seqs_view(kb@)),
                wa == wild(self.spec_routes()[a as int].spec_keys()),
                wb == wild(self.spec_routes()[b as int].spec_keys()),
                ka@.len() == self.spec_routes()[a as int].spec_keys().len(),
                kb@.len() == self.spec_routes()[b as int].spec_keys().len(),
                wa.take(p as int) == wb.take(p as int),
            decreases ka@.len() - p,
        {
            let sa = is_star(&ka[p]);
            let sb = is_star(&kb[p]);
            if sa != sb {
                proof {
                    let q = p as int;
                    assert(wa.len() == wb.len());
                    if !sa {
                        assert(0 <= q < wa.len() && q < wb.len() && !wa[q] && wb[q] && wa.take(q) == wb.take(q));
                        assert(lex_before(wa, wb));
                    } else {
                        assert(0 <= q < wb.len() && q < wa.len() && !wb[q] && wa[q] && wb.take(q) == wa.take(q));
                        assert(lex_before(wb, wa));
                        lemma_lex_asym(wb, wa);
                    }
                }
                return !sa;
            }
            proof {
                assert(wa.take(p + 1) == wa.take(p as int).push(wa[p as int]));
                assert(wb.take(p + 1) == wb.take(p as int).push(wb[p as int]));
            }
            p = p + 1;
        }
        proof {
            assert(wa == wa.take(p as int));
            assert(wb == wb.take(p as int));
            if lex_before(wa, wb) {
                lemma_lex_asym(wa, wb);
            }
        }
        let ma = &self.routes[a].method;
        let mb = &self.routes[b].method;
        bytes_eq(ma.as_slice(), method) && !bytes_eq(mb.as_slice(), method)
    }

    fn captures_of(&self, i: usize, parts: &Vec<Vec<u8>>) -> (r: Vec<(Vec<u8>, Vec<u8>)>)
        requires
            self.wf(),
            i < self.spec_routes().len(),
            self.spec_routes()[i as int].spec_keys().len() <= parts@.len(),
        ensures
            pairs_view(r@) == captured(self.spec_routes()[i as int].spec_vars(), seqs_view(parts@)),
    {
        let vars = &self.routes[i].vars;
        let ghost vs = opts_view(vars@);
        let ghost ps = seqs_view(parts@);
        assert(vs.len() == self.spec_routes()[i as int].spec_keys().len());
        let mut r: Vec<(Vec<u8>, Vec<u8>)> = Vec::new();
        let mut k: usize = 0;
        while k < vars.len()
            invariant
                vs == opts_view(vars@),
                ps == seqs_view(parts@),
                vars@.len() <= parts@.len(),
                k <= vars@.len(),
                pairs_view(r@) == captured(vs.take(k as int), ps),
            decreases vars@.len() - k,
        {
            proof {
                assert(vs.take(k + 1).drop_last() == vs.take(k as int));
                assert(vs.take(k + 1).last() == vs[k as int]);
            }
            match &vars[k] {
                Some(name) => {
                    let value = crate::bytes::copy_slice(parts[k].as_slice(), 0, parts[k].len());
                    let n = crate::bytes::copy_slice(name.as_slice(), 0, name.len());
                    assert(n@ == name@);
                    assert(value@ == parts@[k as int]@);
                    let ghost before = r@;
                    r.push((n, value));
                    assert(pairs_view(r@) == pairs_view(before).push((n@, value@)));
                },
                None => {},
            }
            k = k + 1;
        }
        assert(vs.take(k as int) == vs);
        r
    }

    /// Finds the best route for a path and a method: among the routes whose
    /// pattern covers a prefix of the path's segments and whose method is the
    /// request's or any, the longest pattern; then the one with a literal
    /// segment where the other has a capture, at the first place they differ;
    /// then the route of the request's own method. The match is exact when the
    /// pattern covers every segment; its captures name the segments they matched.
    pub fn get(&self, uri: &[u8], method: &[u8]) -> (r: Option<RouteResult>)
        requires
            self.wf(),
        ensures
            ({
                let parts = split_on(uri@, SLASH);
                &&& r is None <==> forall|i: int| !self.candidate(i, parts, method@)
                &&& r is None <==> self.best(parts, method@) is None
                &&& r matches Some(m) ==> self.best(parts, method@) == Some(m.index as int)
                &&& r matches Some(m) ==> {
                    let route = self.spec_routes()[m.index as int];
                    &&& self.candidate(m.index as int, parts, method@)
                    &&& m.exact == (route.spec_keys().len() == parts.len())
                    &&& pairs_view(m.captures@) == captured(route.spec_vars(), parts)
                    &&& forall|j: int| #[trigger] self.candidate(j, parts, method@)
                        ==> !better(self.spec_routes()[j].key(), route.key(), method@)
                }
            }),
    {
        let parts = split(uri, SLASH);
        let ghost ps = seqs_view(parts@);
        assert(ps == split_on(uri@, SLASH));
        let mut best: Option<usize> = None;
        let mut i: usize = 0;
        while i < self.routes.len()
            invariant
                self.wf(),
                i <= self.spec_routes().len(),
                ps == seqs_view(parts@),
                best is None ==> forall|j: int| 0 <= j < i ==> !self.candidate(j, ps, method@),
                best matches Some(b) ==> {
                    &&& b < i
                    &&& self.candidate(b as int, ps, method@)
                    &&& forall|j: int| 0 <= j < i && #[trigger] self.candidate(j, ps, method@)
                        ==> !better(self.spec_routes()[j].key(), self.spec_routes()[b as int].key(), method@)
                },
            decreases self.spec_routes().len() - i,
        {
            if self.is_candidate(i, &parts, method) {
                match best {
                    None => {
                        proof {
                            lemma_better_irrefl(self.spec_routes()[i as int].key(), method@);
                        }
                        best = Some(i);
                    },
                    Some(b) => {
                        if self.is_better(i, b, method) {
                            proof {
                                lemma_better_irrefl(self.spec_routes()[i as int].key(), method@);
                                assert forall|j: int| 0 <= j < i + 1 && #[trigger] self.candidate(j, ps, method@)
                                    implies !better(self.spec_routes()[j].key(), self.spec_routes()[i as int].key(), method@) by {
                                    if j < i && better(self.spec_routes()[j].key(), self.spec_routes()[i as int].key(), method@) {
                                        lemma_better_trans(
                                            self.spec_routes()[j].key(),
                                            self.spec_routes()[i as int].key(),
                                            self.spec_routes()[b as int].key(),
                                            method@,
                                        );
                                    }
                                }
                            }
                            best = Some(i);
                        }
                    },
                }
            }
            i = i + 1;
        }
        proof {
            match best {
                None => {
                    if exists|k: int| self.maximal(k, ps, method@) {
                        let k = choose|k: int| self.maximal(k, ps, method@);
                        assert(self.candidate(k, ps, method@));
                    }
                },
                Some(b) => {
                    assert(self.maximal(b as int, ps, method@));
                    let c = choose|k: int| self.maximal(k, ps, method@);
                    lemma_maximal_unique(self, ps, method@, c, b as int);
                },
            }
        }
        match best {
            None => None,
            Some(b) => {
                let exact = self.routes[b].keys.len() == parts.len();
                let captures = self.captures_of(b, &parts);
                Some(RouteResult::new(b, exact, captures))
            },
        }
    }

    /// The context of route `i`.
    pub fn context(&self, i: usize) -> (r: &Context)
        requires
            i < self.spec_routes().len(),
        ensures
            *r == self.spec_routes()[i as int].spec_context(),
    {
        &self.routes[i].context
    }
}

proof fn lemma_distinct<C>(t: &TrieRouter<C>, a: int, b: int)
    requires
        t.wf(),
        0 <= a < t.spec_routes().len(),
        0 <= b < t.spec_routes().len(),
        a != b,
    ensures
        t.spec_routes()[a].key() != t.spec_routes()[b].key(),
{
}

proof fn lemma_index_of_range<C>(t: &TrieRouter<C>, key: (Seq<Seq<u8>>, Seq<u8>))
    ensures
        t.index_of(key) matches Some(i) ==> 0 <= i < t.spec_routes().len() && t.spec_routes()[i].key() == key,
        t.index_of(key) is None ==> forall|k: int| 0 <= k < t.spec_routes().len() ==> t.spec_routes()[k].key() != key,
{
}

proof fn lemma_index_of<C>(t: &TrieRouter<C>, key: (Seq<Seq<u8>>, Seq<u8>), i: int)
    requires
        t.wf(),
        0 <= i < t.spec_routes().len(),
        t.spec_routes()[i].key() == key,
    ensures
        t.index_of(key) == Some(i),
{
    let c = choose|c: int| 0 <= c < t.spec_routes().len() && t.spec_routes()[c].key() == key;
    if c != i {
        lemma_distinct(t, c, i);
    }
}

proof fn lemma_maximal_unique<C>(t: &TrieRouter<C>, parts: Seq<Seq<u8>>, m: Seq<u8>, a: int, b: int)
    requires
        t.wf(),
        t.maximal(a, parts, m),
        t.maximal(b, parts, m),
    ensures
        a == b,
{
    if a != b {
        let ra = t.spec_routes()[a].key();
        let rb = t.spec_routes()[b].key();
        assert(t.candidate(a, parts, m) && t.candidate(b, parts, m));
        assert(!better(ra, rb, m) && !better(rb, ra, m));
        lemma_distinct(t, a, b);
        if ra.0.len() == rb.0.len() {
            if wild(ra.0) != wild(rb.0) {
                lemma_lex_total(wild(ra.0), wild(rb.0));
            } else {
                lemma_same_wild_same_keys(ra.0, rb.0, parts);
            }
        }
    }
}

proof fn split_on_len(s: Seq<u8>)
    ensures
        split_on(s, SLASH).len() >= 1,
{
    reveal_with_fuel(split_on, 1);
}

} // verus!
