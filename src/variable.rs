use vstd::prelude::*;
use crate::bytes::{bytes_eq, copy_slice, first_of};
use crate::request::index_of;

verus! {

pub const DOLLAR: u8 = 36;
pub const LBRACE: u8 = 123;
pub const RBRACE: u8 = 125;

/// A piece of a template: text, or the name of a variable.
pub enum Part {
    Text(Vec<u8>),
    Var(Vec<u8>),
}

pub enum PartView {
    Text(Seq<u8>),
    Var(Seq<u8>),
}

pub open spec fn part_view(p: Part) -> PartView {
    match p {
        Part::Text(t) => PartView::Text(t@),
        Part::Var(v) => PartView::Var(v@),
    }
}

pub open spec fn parts_view(ps: Seq<Part>) -> Seq<PartView> {
    ps.map_values(|p: Part| part_view(p))
}

/// A `${name}` reference that starts at `p`: the index of its `}`.
pub open spec fn ref_at(s: Seq<u8>, p: int) -> Option<int> {
    if 0 <= p && p + 1 < s.len() && s[p] == DOLLAR && s[p + 1] == LBRACE {
        match first_of(s.skip(p + 2), RBRACE) {
            Some(k) => if k > 0 {
                Some(p + 2 + k)
            } else {
                None
            },
            None => None,
        }
    } else {
        None
    }
}

/// The first `${name}` reference at or after `p`: where it starts and where its `}` is.
pub open spec fn first_ref(s: Seq<u8>, p: int) -> Option<(int, int)>
    decreases s.len() - p,
{
    if p < 0 || p >= s.len() {
        None
    } else {
        match ref_at(s, p) {
            Some(q) => Some((p, q)),
            None => first_ref(s, p + 1),
        }
    }
}

/// A template split into text and references: text before each reference,
/// the reference's name, and the text after the last one.
pub open spec fn template(s: Seq<u8>) -> Seq<PartView>
    decreases s.len(),
{
    match first_ref(s, 0) {
        Some((p, q)) => if 0 <= p && p + 2 < q < s.len() {
            seq![PartView::Text(s.take(p)), PartView::Var(s.subrange(p + 2, q))] + template(s.skip(q + 1))
        } else {
            seq![PartView::Text(s)]
        },
        None => seq![PartView::Text(s)],
    }
}

/// The value of `name` in a table of `(name, value)` pairs: the first one, or nothing.
pub open spec fn lookup(table: Seq<(Seq<u8>, Seq<u8>)>, name: Seq<u8>) -> Seq<u8>
    decreases table.len(),
{
    if table.len() == 0 {
        Seq::empty()
    } else if table[0].0 == name {
        table[0].1
    } else {
        lookup(table.drop_first(), name)
    }
}

/// A template with each reference replaced by its value; a name without a
/// value gives nothing.
pub open spec fn expand(parts: Seq<PartView>, table: Seq<(Seq<u8>, Seq<u8>)>) -> Seq<u8>
    decreases parts.len(),
{
    if parts.len() == 0 {
        Seq::empty()
    } else {
        expand(parts.drop_last(), table) + match parts.last() {
            PartView::Text(t) => t,
            PartView::Var(n) => lookup(table, n),
        }
    }
}

enum Inner {
    Simple(Vec<u8>),
    Complex(Vec<Part>),
    Lazy(Vec<u8>),
}

/// A value given in configuration: plain text, a template with `${name}`
/// references, or a value computed when it is read, under a name.
pub struct Variable {
    inner: Inner,
}

pub enum VariableView {
    Simple(Seq<u8>),
    Complex(Seq<PartView>),
    Lazy(Seq<u8>),
}

pub open spec fn pairs(v: Seq<(Vec<u8>, Vec<u8>)>) -> Seq<(Seq<u8>, Seq<u8>)> {
    v.map_values(|p: (Vec<u8>, Vec<u8>)| (p.0@, p.1@))
}

impl Variable {
    pub closed spec fn view(&self) -> VariableView {
        match self.inner {
            Inner::Simple(s) => VariableView::Simple(s@),
            Inner::Complex(ps) => VariableView::Complex(parts_view(ps@)),
            Inner::Lazy(n) => VariableView::Lazy(n@),
        }
    }

    /// Plain text.
    pub fn simple(s: &[u8]) -> (v: Variable)
        ensures
            v.view() == VariableView::Simple(s@),
    {
        let c = copy_slice(s, 0, s.len());
        assert(c@ == s@);
        Variable { inner: Inner::Simple(c) }
    }

    /// A template; `${name}` stands for the value of `name`.
    pub fn complex(s: &[u8]) -> (v: Variable)
        ensures
            v.view() == VariableView::Complex(template(s@)),
    {
        Variable { inner: Inner::Complex(parse_template(s)) }
    }

    /// A value computed when it is read, published under `name`.
    pub fn lazy(name: &[u8]) -> (v: Variable)
        ensures
            v.view() == VariableView::Lazy(name@),
    {
        let c = copy_slice(name, 0, name.len());
        assert(c@ == name@);
        Variable { inner: Inner::Lazy(c) }
    }

    /// The variable's value, where `values` gives each name its value.
    pub fn expand_with(&self, values: &Vec<(Vec<u8>, Vec<u8>)>) -> (r: Vec<u8>)
        ensures
            r@ == match self.view() {
                VariableView::Simple(s) => s,
                VariableView::Complex(ps) => expand(ps, pairs(values@)),
                VariableView::Lazy(n) => lookup(pairs(values@), n),
            },
    {
        match &self.inner {
            Inner::Simple(s) => copy_slice(s.as_slice(), 0, s.len()),
            Inner::Complex(ps) => expand_parts(ps, values),
            Inner::Lazy(n) => lookup_value(values, n.as_slice()),
        }
    }
}

/// The first value of `name` in the table, or nothing.
pub fn lookup_value(values: &Vec<(Vec<u8>, Vec<u8>)>, name: &[u8]) -> (r: Vec<u8>)
    ensures
        r@ == lookup(pairs(values@), name@),
{
    let ghost t = pairs(values@);
    let mut i: usize = 0;
    assert(t.skip(0) == t);
    while i < values.len()
        invariant
            i <= values@.len(),
            t == pairs(values@),
            lookup(t, name@) == lookup(t.skip(i as int), name@),
        decreases values@.len() - i,
    {
        assert(t.skip(i as int)[0] == t[i as int]);
        assert(t.skip(i as int).drop_first() == t.skip(i + 1));
        if bytes_eq(values[i].0.as_slice(), name) {
            return copy_slice(values[i].1.as_slice(), 0, values[i].1.len());
        }
        i = i + 1;
    }
    Vec::new()
}

fn append(v: &mut Vec<u8>, s: &[u8])
    ensures
        final(v)@ == old(v)@ + s@,
{
    let mut i: usize = 0;
    let ghost start = v@;
    while i < s.len()
        invariant
            i <= s@.len(),
            v@ == start + s@.subrange(0, i as int),
        decreases s@.len() - i,
    {
        v.push(s[i]);
        i = i + 1;
        assert(v@ == start + s@.subrange(0, i as int));
    }
    assert(s@.subrange(0, s@.len() as int) == s@);
}

fn expand_parts(ps: &Vec<Part>, values: &Vec<(Vec<u8>, Vec<u8>)>) -> (r: Vec<u8>)
    ensures
        r@ == expand(parts_view(ps@), pairs(values@)),
{
    let ghost pv = parts_view(ps@);
    let mut r: Vec<u8> = Vec::new();
    let mut i: usize = 0;
    while i < ps.len()
        invariant
            i <= ps@.len(),
            pv == parts_view(ps@),
            r@ == expand(pv.take(i as int), pairs(values@)),
        decreases ps@.len() - i,
    {
        proof {
            assert(pv.take(i + 1).drop_last() == pv.take(i as int));
            assert(pv.take(i + 1).last() == pv[i as int]);
        }
        match &ps[i] {
            Part::Text(t) => append(&mut r, t.as_slice()),
            Part::Var(n) => {
                let v = lookup_value(values, n.as_slice());
                append(&mut r, v.as_slice());
            },
        }
        i = i + 1;
    }
    assert(pv.take(i as int) == pv);
    r
}

/// Finds the `${name}` reference that starts at `p`.
fn ref_at_exec(s: &[u8], p: usize) -> (r: Option<usize>)
    requires
        p < s@.len(),
    ensures
        match r {
            Some(q) => ref_at(s@, p as int) == Some(q as int),
            None => ref_at(s@, p as int) is None,
        },
{
    let n = s.len();
    if p + 1 < n && s[p] == DOLLAR && s[p + 1] == LBRACE {
        let rest = vstd::slice::slice_subrange(s, p + 2, n);
        assert(rest@ == s@.skip(p + 2));
        match index_of(rest, RBRACE) {
            Some(k) => if k > 0 {
                Some(p + 2 + k)
            } else {
                None
            },
            None => None,
        }
    } else {
        None
    }
}

proof fn lemma_ref_bounds(s: Seq<u8>, p: int)
    requires
        ref_at(s, p) is Some,
    ensures
        0 <= p && p + 2 < ref_at(s, p)->0 < s.len(),
{
    let k = first_of(s.skip(p + 2), RBRACE)->0;
    crate::bytes::lemma_first_of_bound(s.skip(p + 2), RBRACE);
}

/// Splits a template into text and references.
pub fn parse_template(s: &[u8]) -> (r: Vec<Part>)
    ensures
        parts_view(r@) == template(s@),
    decreases s@.len(),
{
    let n = s.len();
    let mut p: usize = 0;
    while p < n
        invariant
            n == s@.len(),
            p <= n,
            first_ref(s@, 0) == first_ref(s@, p as int),
        decreases n - p,
    {
        match ref_at_exec(s, p) {
            Some(q) => {
                proof {
                    lemma_ref_bounds(s@, p as int);
                }
                let mut r: Vec<Part> = Vec::new();
                r.push(Part::Text(copy_slice(s, 0, p)));
                r.push(Part::Var(copy_slice(s, p + 2, q)));
                let tail = vstd::slice::slice_subrange(s, q + 1, n);
                assert(tail@ == s@.skip(q + 1));
                let mut rest = parse_template(tail);
                let ghost head = parts_view(r@);
                let ghost rv = rest@;
                r.append(&mut rest);
                proof {
                    assert(parts_view(r@) == head + parts_view(rv));
                    assert(head == seq![PartView::Text(s@.take(p as int)), PartView::Var(s@.subrange(p + 2, q as int))]);
                }
                return r;
            },
            None => {},
        }
        p = p + 1;
    }
    let mut r: Vec<Part> = Vec::new();
    let all = copy_slice(s, 0, n);
    assert(all@ == s@);
    r.push(Part::Text(all));
    assert(parts_view(r@) == seq![PartView::Text(s@)]);
    r
}

} // verus!
