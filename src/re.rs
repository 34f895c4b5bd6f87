use vstd::prelude::*;
use vstd::string::*;
use crate::bytes::bytes_eq;
use crate::error::CoreError;
use crate::trie::{method_bytes, method_key, opt_view, star};

verus! {

#[verifier::external_type_specification]
#[verifier::external_body]
pub struct ExBytesRegex(regex::bytes::Regex);

/// Whether `regex::bytes::Regex::new` accepts a pattern.
pub uninterp spec fn regex_valid(pattern: Seq<char>) -> bool;

/// The names of a pattern's capture groups, in order (group 0 first).
pub uninterp spec fn regex_group_names(pattern: Seq<char>) -> Seq<Option<Seq<u8>>>;

/// The leftmost-first match of a pattern in a text, as the bytes each capture
/// group matched (group 0 first); `None` when the pattern does not match.
pub uninterp spec fn regex_captures(pattern: Seq<char>, text: Seq<u8>) -> Option<Seq<Option<Seq<u8>>>>;

/// A compiled regular expression with the text it was compiled from.
pub struct Pattern {
    source: String,
    re: regex::bytes::Regex,
}

impl Pattern {
    pub closed spec fn source(&self) -> Seq<char> {
        self.source@
    }
}

pub open spec fn opts_of(v: Seq<Option<Vec<u8>>>) -> Seq<Option<Seq<u8>>> {
    v.map_values(|o: Option<Vec<u8>>| opt_view(o))
}

/// Relies on regex::bytes::Regex::new: the pattern compiles, or is refused
/// as invalid (or too large).
#[verifier::external_body]
fn compile(pattern: &str) -> (r: Option<Pattern>)
    ensures
        r is Some <==> regex_valid(pattern@),
        r matches Some(p) ==> p.source() == pattern@,
{
    match regex::bytes::Regex::new(pattern) {
        Ok(re) => Some(Pattern { source: pattern.to_string(), re }),
        Err(_) => None,
    }
}

/// Relies on regex::bytes::Regex::capture_names: the name of each capture
/// group, `None` for an unnamed one.
#[verifier::external_body]
fn group_names(p: &Pattern) -> (r: Vec<Option<Vec<u8>>>)
    ensures
        opts_of(r@) == regex_group_names(p.source()),
{
    p.re.capture_names().map(|n| n.map(|s| s.as_bytes().to_vec())).collect()
}

/// Relies on regex::bytes::Regex::captures: the groups of the first match,
/// `None` for a group that took no part in it; `None` when nothing matches.
#[verifier::external_body]
fn captures(p: &Pattern, text: &[u8]) -> (r: Option<Vec<Option<Vec<u8>>>>)
    ensures
        match r {
            Some(v) => regex_captures(p.source(), text@) == Some(opts_of(v@)),
            None => regex_captures(p.source(), text@) is None,
        },
{
    p.re.captures(text).map(|c| c.iter().map(|m| m.map(|m| m.as_bytes().to_vec())).collect())
}

/// The named groups that took part in a match, with the bytes they matched.
pub open spec fn named_groups(names: Seq<Option<Seq<u8>>>, groups: Seq<Option<Seq<u8>>>) -> Seq<(Seq<u8>, Seq<u8>)>
    decreases names.len(),
{
    if names.len() == 0 || groups.len() < names.len() {
        if names.len() == 0 || groups.len() == 0 {
            Seq::empty()
        } else {
            named_groups(names.take(groups.len() as int), groups)
        }
    } else {
        let prev = named_groups(names.drop_last(), groups.take(names.len() - 1));
        match (names.last(), groups[names.len() - 1]) {
            (Some(n), Some(v)) => prev.push((n, v)),
            _ => prev,
        }
    }
}

/// A route of the regex router.
pub struct RegexRoute<Context> {
    pattern: Pattern,
    method: Vec<u8>,
    context: Context,
}

impl<Context> RegexRoute<Context> {
    pub closed spec fn spec_source(&self) -> Seq<char> {
        self.pattern.source()
    }

    pub closed spec fn spec_method(&self) -> Seq<u8> {
        self.method@
    }

    pub closed spec fn spec_context(&self) -> Context {
        self.context
    }

    pub open spec fn key(&self) -> (Seq<char>, Seq<u8>) {
        (self.spec_source(), self.spec_method())
    }
}

/// A regex lookup's result.
pub struct RegexMatch {
    pub index: usize,
    /// The named groups of the match.
    pub captures: Vec<(Vec<u8>, Vec<u8>)>,
}

/// Routes keyed by regular expressions, longest pattern first.
pub struct RegexRouter<Context> {
    routes: Vec<RegexRoute<Context>>,
}

fn str_eq(a: &str, b: &str) -> (r: bool)
    ensures
        r == (a@ == b@),
{
    let n = a.unicode_len();
    if n != b.unicode_len() {
        return false;
    }
    let mut i: usize = 0;
    while i < n
        invariant
            n == a@.len() == b@.len(),
            i <= n,
            forall|k: int| 0 <= k < i ==> a@[k] == b@[k],
        decreases n - i,
    {
        if a.get_char(i) != b.get_char(i) {
            return false;
        }
        i = i + 1;
    }
    assert(a@ =~= b@);
    true
}

impl<Context> RegexRouter<Context> {
    pub closed spec fn spec_routes(&self) -> Seq<RegexRoute<Context>> {
        self.routes@
    }

    /// Longer patterns come first, and no two routes share pattern and method.
    pub open spec fn wf(&self) -> bool {
        &&& forall|i: int, j: int| 0 <= i < j < self.spec_routes().len()
            ==> (#[trigger] self.spec_routes()[i]).spec_source().len() >= (#[trigger] self.spec_routes()[j]).spec_source().len()
        &&& forall|i: int, j: int|
            #![trigger self.spec_routes()[i], self.spec_routes()[j]]
            0 <= i < self.spec_routes().len() && 0 <= j < self.spec_routes().len() && i != j
                ==> self.spec_routes()[i].key() != self.spec_routes()[j].key()
    }

    pub open spec fn has(&self, key: (Seq<char>, Seq<u8>)) -> bool {
        exists|i: int| 0 <= i < self.spec_routes().len() && self.spec_routes()[i].key() == key
    }

    /// The index of the route stored under `key`.
    pub open spec fn index_of(&self, key: (Seq<char>, Seq<u8>)) -> Option<int> {
        if self.has(key) {
            Some(choose|i: int| 0 <= i < self.spec_routes().len() && self.spec_routes()[i].key() == key)
        } else {
            None
        }
    }

    /// The route a lookup picks: the first pattern that matches the text;
    /// then that pattern's route of the method, else its route of any method.
    pub open spec fn pick(&self, text: Seq<u8>, m: Seq<u8>) -> Option<int> {
        if exists|f: int| self.first_match(text, f) {
            let src = self.spec_routes()[choose|f: int| self.first_match(text, f)].spec_source();
            if self.has((src, m)) {
                self.index_of((src, m))
            } else {
                self.index_of((src, star()))
            }
        } else {
            None
        }
    }

    /// The first route whose pattern matches the text.
    pub open spec fn first_match(&self, text: Seq<u8>, i: int) -> bool {
        &&& 0 <= i < self.spec_routes().len()
        &&& regex_captures(self.spec_routes()[i].spec_source(), text) is Some
        &&& forall|k: int| 0 <= k < i ==> regex_captures(#[trigger] self.spec_routes()[k].spec_source(), text) is None
    }

    pub fn new() -> (r: RegexRouter<Context>)
        ensures
            r.wf(),
            r.spec_routes().len() == 0,
    {
        RegexRouter { routes: Vec::new() }
    }

    fn find(&self, pattern: &str, method: &[u8]) -> (r: Option<usize>)
        requires
            self.wf(),
        ensures
            match r {
                Some(i) => i < self.spec_routes().len() && self.spec_routes()[i as int].key() == (pattern@, method@),
                None => !self.has((pattern@, method@)),
            },
    {
        let mut i: usize = 0;
        while i < self.routes.len()
            invariant
                i <= self.spec_routes().len(),
                forall|k: int| 0 <= k < i ==> self.spec_routes()[k].key() != (pattern@, method@),
            decreases self.spec_routes().len() - i,
        {
            let r = &self.routes[i];
            if str_eq(r.pattern.source.as_str(), pattern) && bytes_eq(r.method.as_slice(), method) {
                return Some(i);
            }
            i = i + 1;
        }
        None
    }

    /// Adds a route after every route whose pattern is at least as long; a
    /// route already stored under the pattern and method is kept. Fails when
    /// the pattern does not compile. Returns whether the route was added.
    pub fn add(&mut self, pattern: &str, method: Option<Vec<u8>>, context: Context) -> (r: Result<bool, CoreError>)
        requires
            old(self).wf(),
        ensures
            final(self).wf(),
            ({
                let key = (pattern@, method_key(opt_view(method)));
                &&& r is Err <==> (!old(self).has(key) && !regex_valid(pattern@))
                &&& r matches Ok(added) ==> added == !old(self).has(key)
                &&& !(r matches Ok(true)) ==> final(self).spec_routes() == old(self).spec_routes()
                &&& r matches Ok(true) ==> final(self).spec_routes().len() == old(self).spec_routes().len() + 1
                    && final(self).has(key)
            }),
    {
        let m = method_bytes(method);
        if let Some(_) = self.find(pattern, m.as_slice()) {
            return Ok(false);
        }
        let p = match compile(pattern) {
            None => {
                return Err(CoreError::from_str("Invalid pattern"));
            },
            Some(p) => p,
        };
        let len = pattern.unicode_len();
        let mut k: usize = 0;
        while k < self.routes.len() && self.routes[k].pattern.source.as_str().unicode_len() >= len
            invariant
                k <= self.spec_routes().len(),
                self.spec_routes() == old(self).spec_routes(),
                forall|i: int| 0 <= i < k ==> (#[trigger] self.spec_routes()[i]).spec_source().len() >= len,
            decreases self.spec_routes().len() - k,
        {
            k = k + 1;
        }
        let ghost prev = self.routes@;
        let ghost mv = m@;
        let route = RegexRoute { pattern: p, method: m, context };
        assert(route.key() == (pattern@, mv));
        self.routes.insert(k, route);
        proof {
            let s = self.routes@;
            assert(s == prev.insert(k as int, route));
            assert forall|i: int, j: int| 0 <= i < j < s.len()
                implies (#[trigger] s[i]).spec_source().len() >= (#[trigger] s[j]).spec_source().len() by {
                if j < k {
                    assert(s[i] == prev[i] && s[j] == prev[j]);
                } else if j == k {
                    assert(s[i] == prev[i]);
                } else if i < k {
                    assert(s[i] == prev[i] && s[j] == prev[j - 1]);
                } else if i == k {
                    assert(s[j] == prev[j - 1]);
                    assert(prev[k as int].spec_source().len() < len);
                } else {
                    assert(s[i] == prev[i - 1] && s[j] == prev[j - 1]);
                }
            }
            assert forall|a: int, b: int|
                #![trigger s[a], s[b]]
                0 <= a < s.len() && 0 <= b < s.len() && a != b implies s[a].key() != s[b].key() by {
                let a2 = if a < k { a } else { a - 1 };
                let b2 = if b < k { b } else { b - 1 };
                if a != k && b != k {
                    assert(s[a] == prev[a2] && s[b] == prev[b2]);
                } else if a == k {
                    assert(s[b] == prev[b2]);
                    assert(!(0 <= b2 < prev.len() && prev[b2].key() == (pattern@, mv)));
                } else {
                    assert(s[a] == prev[a2]);
                    assert(!(0 <= a2 < prev.len() && prev[a2].key() == (pattern@, mv)));
                }
            }
            assert(s[k as int].key() == (pattern@, mv));
        }
        Ok(true)
    }

    /// Finds the route for a text (a URI) and a method: the first pattern, in
    /// order, that matches; then that pattern's route of the method, else its
    /// route of any method. The result names the route and what the named
    /// groups matched.
    pub fn get(&self, text: &[u8], method: &[u8]) -> (r: Option<RegexMatch>)
        requires
            self.wf(),
        ensures
            (forall|i: int| 0 <= i < self.spec_routes().len() ==> regex_captures(#[trigger] self.spec_routes()[i].spec_source(), text@) is None)
                ==> r is None,
            (exists|f: int| #[trigger] self.first_match(text@, f)
                && (self.has((self.spec_routes()[f].spec_source(), method@))
                    || self.has((self.spec_routes()[f].spec_source(), star())))) ==> r is Some,
            (exists|f: int| #[trigger] self.first_match(text@, f)
                && !self.has((self.spec_routes()[f].spec_source(), method@))
                && !self.has((self.spec_routes()[f].spec_source(), star()))) ==> r is None,
            r is None <==> self.pick(text@, method@) is None,
            r matches Some(m) ==> self.pick(text@, method@) == Some(m.index as int),
            r matches Some(m) ==> {
                let route = self.spec_routes()[m.index as int];
                &&& m.index < self.spec_routes().len()
                &&& exists|f: int| #[trigger] self.first_match(text@, f)
                    && route.spec_source() == self.spec_routes()[f].spec_source()
                    && (route.spec_method() == method@
                        || (route.spec_method() == star() && !self.has((route.spec_source(), method@))))
                &&& crate::variable::pairs(m.captures@) == named_groups(
                    regex_group_names(route.spec_source()),
                    regex_captures(route.spec_source(), text@)->0,
                )
            },
    {
        let mut i: usize = 0;
        while i < self.routes.len()
            invariant
                self.wf(),
                i <= self.spec_routes().len(),
                forall|k: int| 0 <= k < i ==> regex_captures(#[trigger] self.spec_routes()[k].spec_source(), text@) is None,
            decreases self.spec_routes().len() - i,
        {
            if let Some(_) = captures(&self.routes[i].pattern, text) {
                assert(self.first_match(text@, i as int));
                proof {
                    assert forall|f: int| #[trigger] self.first_match(text@, f) implies f == i by {
                        if f < i {
                        } else if f > i {
                            assert(regex_captures(self.spec_routes()[i as int].spec_source(), text@) is None);
                        }
                    }
                }
                let source = self.routes[i].pattern.source.as_str();
                assert(source@ == self.spec_routes()[i as int].spec_source());
                let any: Vec<u8> = vec![crate::trie::STAR];
                assert(any@ == star());
                let j = match self.find(source, method) {
                    Some(j) => j,
                    None => match self.find(source, any.as_slice()) {
                        Some(j) => j,
                        None => {
                            return None;
                        },
                    },
                };
                assert(self.spec_routes()[j as int].spec_source() == source@);
                proof {
                    let f = choose|f: int| self.first_match(text@, f);
                    assert(f == i);
                    let key = self.spec_routes()[j as int].key();
                    let c = choose|c: int| 0 <= c < self.spec_routes().len() && self.spec_routes()[c].key() == key;
                    if c != j {
                        assert(self.spec_routes()[c].key() != self.spec_routes()[j as int].key());
                    }
                    assert(self.index_of(key) == Some(j as int));
                }
                assert(self.has((source@, method@)) || self.has((source@, star()))) by {
                    assert(0 <= j < self.spec_routes().len());
                }
                let groups = match captures(&self.routes[j].pattern, text) {
                    Some(g) => g,
                    None => {
                        return None;
                    },
                };
                let names = group_names(&self.routes[j].pattern);
                let found = collect_named(&names, &groups);
                return Some(RegexMatch { index: j, captures: found });
            }
            i = i + 1;
        }
        None
    }

    /// The context of route `i`.
    pub fn context(&self, i: usize) -> (r: &Context)
        requires
            i < self.spec_routes().len(),
        ensures
            *r == self.spec_routes()[i as int].spec_context(),
    {
        &self.routes[i].context
    }
}

/// Pairs each named group with what it matched.
fn collect_named(names: &Vec<Option<Vec<u8>>>, groups: &Vec<Option<Vec<u8>>>) -> (r: Vec<(Vec<u8>, Vec<u8>)>)
    ensures
        crate::variable::pairs(r@) == named_groups(opts_of(names@), opts_of(groups@)),
{
    let ghost ns = opts_of(names@);
    let ghost gs = opts_of(groups@);
    let n = if names.len() <= groups.len() { names.len() } else { groups.len() };
    let mut r: Vec<(Vec<u8>, Vec<u8>)> = Vec::new();
    let mut i: usize = 0;
    while i < n
        invariant
            n <= names@.len() && n <= groups@.len(),
            n == names@.len() || n == groups@.len(),
            i <= n,
            ns == opts_of(names@),
            gs == opts_of(groups@),
            crate::variable::pairs(r@) == named_groups(ns.take(i as int), gs.take(i as int)),
        decreases n - i,
    {
        proof {
            let a = ns.take(i + 1);
            let b = gs.take(i + 1);
            assert(a.drop_last() == ns.take(i as int));
            assert(b.take(i as int) == gs.take(i as int));
            assert(a.last() == ns[i as int]);
            assert(b[i as int] == gs[i as int]);
        }
        match (&names[i], &groups[i]) {
            (Some(name), Some(value)) => {
                let k = crate::bytes::copy_slice(name.as_slice(), 0, name.len());
                let v = crate::bytes::copy_slice(value.as_slice(), 0, value.len());
                assert(k@ == name@ && v@ == value@);
                let ghost before = crate::variable::pairs(r@);
                r.push((k, v));
                assert(crate::variable::pairs(r@) == before.push((k@, v@)));
            },
            _ => {},
        }
        i = i + 1;
    }
    proof {
        if n == names@.len() {
            assert(ns.take(n as int) == ns);
            lemma_named_groups_extra(ns, gs, n as int);
        } else {
            assert(gs.take(n as int) == gs);
            assert(named_groups(ns, gs) == named_groups(ns.take(gs.len() as int), gs));
        }
    }
    r
}

proof fn lemma_named_groups_extra(ns: Seq<Option<Seq<u8>>>, gs: Seq<Option<Seq<u8>>>, n: int)
    requires
        n == ns.len(),
        n <= gs.len(),
    ensures
        named_groups(ns, gs.take(n)) == named_groups(ns, gs),
    decreases n,
{
    if n > 0 {
        assert(gs.take(n).take(n - 1) == gs.take(n - 1));
        assert(gs.take(n)[n - 1] == gs[n - 1]);
    }
}

} // verus!
