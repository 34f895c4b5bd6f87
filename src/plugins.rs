use vstd::prelude::*;
use crate::bytes::{bytes_eq, bytes_eq_ignore_case, eq_ignore_case};
use crate::error::Code;
use crate::http::HttpStatus;
use crate::pipeline::{asks_close, echo, expand_on, request_values, text_plain};
use crate::request::{pairs_of, HttpRequest};
use crate::response::{content_type_header, without, HttpResponse};
use crate::variable::{expand, lookup, Variable, VariableView};

verus! {

/// A variable's value against a table of names.
pub open spec fn value_of(v: VariableView, table: Seq<(Seq<u8>, Seq<u8>)>) -> Seq<u8> {
    match v {
        VariableView::Simple(s) => s,
        VariableView::Complex(ps) => expand(ps, table),
        VariableView::Lazy(n) => lookup(table, n),
    }
}

/// The names a template can use on `req`.
pub open spec fn table_of(req: HttpRequest) -> Seq<(Seq<u8>, Seq<u8>)> {
    request_values(pairs_of(req.vars@), pairs_of(req.headers@), pairs_of(req.args@))
}

/// The echo content handler: answers with a template's value.
pub struct Echo {
    text: Variable,
    status: HttpStatus,
}

impl Echo {
    pub closed spec fn spec_text(&self) -> VariableView {
        self.text.view()
    }

    pub closed spec fn spec_status(&self) -> HttpStatus {
        self.status
    }

    pub fn new(text: Variable, status: HttpStatus) -> (e: Echo)
        ensures
            e.spec_text() == text.view(),
            e.spec_status() == status,
    {
        Echo { text, status }
    }

    /// The response: the configured status, `text/plain`, and the template's
    /// value on the request as its body.
    pub fn handle(&self, req: &HttpRequest) -> (resp: HttpResponse)
        ensures
            resp.spec_status() == self.spec_status(),
            resp.spec_protocol() == req.protocol,
            resp.spec_client_close() == asks_close(pairs_of(req.headers@)),
            resp.spec_body() == value_of(self.spec_text(), table_of(*req)),
            resp.spec_content_length() == Some(resp.spec_body().len() as usize),
            resp.spec_headers() == seq![(content_type_header(), text_plain())],
            !resp.spec_headers_sent(),
    {
        echo(req, &self.text, self.status)
    }
}

/// The rewrite handler: sends the request on to another URI.
pub struct Rewrite {
    target: Variable,
}

impl Rewrite {
    pub closed spec fn spec_target(&self) -> VariableView {
        self.target.view()
    }

    pub fn new(target: Variable) -> (r: Rewrite)
        ensures
            r.spec_target() == target.view(),
    {
        Rewrite { target }
    }

    /// Sets the request's URI to the target's value on it; `AGAIN` asks for
    /// the route to be looked up anew.
    pub fn apply(&self, req: &mut HttpRequest) -> (c: Code)
        ensures
            c == Code::AGAIN,
            final(req).uri@ == value_of(self.spec_target(), table_of(*old(req))),
            final(req).headers == old(req).headers,
            final(req).args == old(req).args,
            final(req).vars == old(req).vars,
            final(req).method == old(req).method,
            final(req).protocol == old(req).protocol,
    {
        req.uri = expand_on(req, &self.target);
        Code::AGAIN
    }
}

/// The pairs without those whose name is one of `names` (up to ASCII case
/// when `ci`).
pub open spec fn drop_names(hs: Seq<(Seq<u8>, Seq<u8>)>, names: Seq<Seq<u8>>, ci: bool) -> Seq<(Seq<u8>, Seq<u8>)>
    decreases hs.len(),
{
    if hs.len() == 0 {
        Seq::empty()
    } else {
        let prev = drop_names(hs.drop_last(), names, ci);
        if exists|i: int| 0 <= i < names.len() && (if ci { eq_ignore_case(names[i], hs.last().0) } else { names[i] == hs.last().0 }) {
            prev
        } else {
            prev.push(hs.last())
        }
    }
}

/// The values of named templates on a request.
pub open spec fn named_values(vs: Seq<(Seq<u8>, VariableView)>, table: Seq<(Seq<u8>, Seq<u8>)>) -> Seq<(Seq<u8>, Seq<u8>)> {
    vs.map_values(|p: (Seq<u8>, VariableView)| (p.0, value_of(p.1, table)))
}

pub open spec fn named_view(v: Seq<(Vec<u8>, Variable)>) -> Seq<(Seq<u8>, VariableView)> {
    v.map_values(|p: (Vec<u8>, Variable)| (p.0@, p.1.view()))
}

pub open spec fn names_view(v: Seq<Vec<u8>>) -> Seq<Seq<u8>> {
    v.map_values(|x: Vec<u8>| x@)
}

fn copy(s: &[u8]) -> (r: Vec<u8>)
    ensures
        r@ == s@,
{
    let r = crate::bytes::copy_slice(s, 0, s.len());
    assert(r@ == s@);
    r
}

fn listed(names: &Vec<Vec<u8>>, name: &[u8], ci: bool) -> (r: bool)
    ensures
        r == exists|i: int| 0 <= i < names@.len() && (if ci {
            eq_ignore_case(names_view(names@)[i], name@)
        } else {
            names_view(names@)[i] == name@
        }),
{
    let ghost nv = names_view(names@);
    let mut i: usize = 0;
    while i < names.len()
        invariant
            i <= names@.len(),
            nv == names_view(names@),
            forall|k: int| 0 <= k < i ==> !(if ci { eq_ignore_case(nv[k], name@) } else { nv[k] == name@ }),
        decreases names@.len() - i,
    {
        let hit = if ci {
            bytes_eq_ignore_case(names[i].as_slice(), name)
        } else {
            bytes_eq(names[i].as_slice(), name)
        };
        assert(nv[i as int] == names@[i as int]@);
        if hit {
            return true;
        }
        i = i + 1;
    }
    false
}

/// Copies the pairs without those whose name is listed.
pub fn remove_names(hs: &Vec<(Vec<u8>, Vec<u8>)>, names: &Vec<Vec<u8>>, ci: bool) -> (r: Vec<(Vec<u8>, Vec<u8>)>)
    ensures
        pairs_of(r@) == drop_names(pairs_of(hs@), names_view(names@), ci),
{
    let ghost ps = pairs_of(hs@);
    let mut r: Vec<(Vec<u8>, Vec<u8>)> = Vec::new();
    let mut i: usize = 0;
    while i < hs.len()
        invariant
            i <= hs@.len(),
            ps == pairs_of(hs@),
            pairs_of(r@) == drop_names(ps.take(i as int), names_view(names@), ci),
        decreases hs@.len() - i,
    {
        proof {
            assert(ps.take(i + 1).drop_last() == ps.take(i as int));
            assert(ps.take(i + 1).last() == ps[i as int]);
        }
        if !listed(names, hs[i].0.as_slice(), ci) {
            let k = copy(hs[i].0.as_slice());
            let v = copy(hs[i].1.as_slice());
            let ghost before = pairs_of(r@);
            r.push((k, v));
            assert(pairs_of(r@) == before.push((k@, v@)));
        }
        i = i + 1;
    }
    assert(ps.take(i as int) == ps);
    r
}

/// The values of named templates on a request.
pub fn eval_named(req: &HttpRequest, vs: &Vec<(Vec<u8>, Variable)>) -> (r: Vec<(Vec<u8>, Vec<u8>)>)
    ensures
        pairs_of(r@) == named_values(named_view(vs@), table_of(*req)),
{
    let ghost nv = named_view(vs@);
    let mut r: Vec<(Vec<u8>, Vec<u8>)> = Vec::new();
    let mut i: usize = 0;
    while i < vs.len()
        invariant
            i <= vs@.len(),
            nv == named_view(vs@),
            pairs_of(r@) == named_values(nv.take(i as int), table_of(*req)),
        decreases vs@.len() - i,
    {
        let k = copy(vs[i].0.as_slice());
        let v = expand_on(req, &vs[i].1);
        let ghost before = pairs_of(r@);
        r.push((k, v));
        proof {
            assert(pairs_of(r@) == before.push((k@, v@)));
            assert(named_values(nv.take(i + 1), table_of(*req)) == named_values(nv.take(i as int), table_of(*req)).push((k@, v@)));
        }
        i = i + 1;
    }
    assert(nv.take(i as int) == nv);
    r
}

/// Response header filter: clears headers by name, then adds headers whose
/// values are templates on the request.
pub struct ModHeaders {
    add: Vec<(Vec<u8>, Variable)>,
    clear: Vec<Vec<u8>>,
}

pub open spec fn without_all(hs: Seq<(Seq<u8>, Seq<u8>)>, names: Seq<Seq<u8>>) -> Seq<(Seq<u8>, Seq<u8>)>
    decreases names.len(),
{
    if names.len() == 0 {
        hs
    } else {
        without(without_all(hs, names.drop_last()), names.last())
    }
}

/// A header filter with its values already read on a request: the names to
/// clear, then the headers to add.
pub struct HeaderEdit {
    pub clear: Vec<Vec<u8>>,
    pub add: Vec<(Vec<u8>, Vec<u8>)>,
}

pub open spec fn edit_view(e: HeaderEdit) -> (Seq<Seq<u8>>, Seq<(Seq<u8>, Seq<u8>)>) {
    (names_view(e.clear@), pairs_of(e.add@))
}

pub open spec fn edits_view(v: Seq<HeaderEdit>) -> Seq<(Seq<Seq<u8>>, Seq<(Seq<u8>, Seq<u8>)>)> {
    v.map_values(|e: HeaderEdit| edit_view(e))
}

/// The edits of header filters whose values are read against `table`.
pub open spec fn edits_of(list: Seq<ModHeaders>, table: Seq<(Seq<u8>, Seq<u8>)>) -> Seq<(Seq<Seq<u8>>, Seq<(Seq<u8>, Seq<u8>)>)> {
    list.map_values(|m: ModHeaders| (m.spec_clear(), named_values(m.spec_add(), table)))
}

/// The first `k` edits applied to headers `hs`.
pub open spec fn apply_edits_spec(
    hs: Seq<(Seq<u8>, Seq<u8>)>,
    edits: Seq<(Seq<Seq<u8>>, Seq<(Seq<u8>, Seq<u8>)>)>,
    k: int,
) -> Seq<(Seq<u8>, Seq<u8>)>
    decreases k,
{
    if k <= 0 {
        hs
    } else {
        without_all(apply_edits_spec(hs, edits, k - 1), edits[k - 1].0) + edits[k - 1].1
    }
}

/// Applies header edits to a response, in order.
pub fn apply_edits(edits: &Vec<HeaderEdit>, resp: &mut HttpResponse)
    ensures
        final(resp).spec_headers() == apply_edits_spec(old(resp).spec_headers(), edits_view(edits@), edits@.len() as int),
        final(resp).spec_status() == old(resp).spec_status(),
        final(resp).spec_body() == old(resp).spec_body(),
        final(resp).spec_content_length() == old(resp).spec_content_length(),
        final(resp).spec_headers_sent() == old(resp).spec_headers_sent(),
        final(resp).spec_protocol() == old(resp).spec_protocol(),
        final(resp).spec_client_close() == old(resp).spec_client_close(),
{
    let ghost ev = edits_view(edits@);
    let mut k: usize = 0;
    while k < edits.len()
        invariant
            k <= edits@.len(),
            ev == edits_view(edits@),
            resp.spec_headers() == apply_edits_spec(old(resp).spec_headers(), ev, k as int),
            resp.spec_status() == old(resp).spec_status(),
            resp.spec_body() == old(resp).spec_body(),
            resp.spec_content_length() == old(resp).spec_content_length(),
            resp.spec_headers_sent() == old(resp).spec_headers_sent(),
            resp.spec_protocol() == old(resp).spec_protocol(),
            resp.spec_client_close() == old(resp).spec_client_close(),
        decreases edits@.len() - k,
    {
        let e = &edits[k];
        let ghost cv = names_view(e.clear@);
        let ghost base = resp.spec_headers();
        let mut i: usize = 0;
        while i < e.clear.len()
            invariant
                i <= e.clear@.len(),
                cv == names_view(e.clear@),
                resp.spec_headers() == without_all(base, cv.take(i as int)),
                resp.spec_status() == old(resp).spec_status(),
                resp.spec_body() == old(resp).spec_body(),
                resp.spec_content_length() == old(resp).spec_content_length(),
                resp.spec_headers_sent() == old(resp).spec_headers_sent(),
                resp.spec_protocol() == old(resp).spec_protocol(),
                resp.spec_client_close() == old(resp).spec_client_close(),
            decreases e.clear@.len() - i,
        {
            proof {
                assert(cv.take(i + 1).drop_last() == cv.take(i as int));
                assert(cv.take(i + 1).last() == e.clear@[i as int]@);
            }
            resp.remove_header(e.clear[i].as_slice());
            i = i + 1;
        }
        assert(cv.take(i as int) == cv);
        let ghost mid = resp.spec_headers();
        let ghost want = pairs_of(e.add@);
        let mut j: usize = 0;
        while j < e.add.len()
            invariant
                j <= e.add@.len(),
                want == pairs_of(e.add@),
                resp.spec_headers() == mid + want.take(j as int),
                resp.spec_status() == old(resp).spec_status(),
                resp.spec_body() == old(resp).spec_body(),
                resp.spec_content_length() == old(resp).spec_content_length(),
                resp.spec_headers_sent() == old(resp).spec_headers_sent(),
                resp.spec_protocol() == old(resp).spec_protocol(),
                resp.spec_client_close() == old(resp).spec_client_close(),
            decreases e.add@.len() - j,
        {
            resp.add_header(e.add[j].0.as_slice(), e.add[j].1.as_slice());
            assert(want.take(j + 1) == want.take(j as int).push(want[j as int]));
            j = j + 1;
        }
        assert(want.take(j as int) == want);
        assert(ev[k as int] == edit_view(edits@[k as int]));
        k = k + 1;
    }
}

/// The filters of `list` applied to `hs` are its edits applied to `hs`.
pub proof fn lemma_filters_as_edits(
    list: Seq<ModHeaders>,
    hs: Seq<(Seq<u8>, Seq<u8>)>,
    table: Seq<(Seq<u8>, Seq<u8>)>,
    k: int,
)
    requires
        0 <= k <= list.len(),
    ensures
        crate::pipeline::header_phase(list, hs, table, k) == apply_edits_spec(hs, edits_of(list, table), k),
    decreases k,
{
    if k > 0 {
        lemma_filters_as_edits(list, hs, table, k - 1);
    }
}

impl ModHeaders {
    pub closed spec fn spec_add(&self) -> Seq<(Seq<u8>, VariableView)> {
        named_view(self.add@)
    }

    pub closed spec fn spec_clear(&self) -> Seq<Seq<u8>> {
        names_view(self.clear@)
    }

    /// The filter's edit, its values read on `req`.
    pub fn edit(&self, req: &HttpRequest) -> (e: HeaderEdit)
        ensures
            edit_view(e) == (self.spec_clear(), named_values(self.spec_add(), table_of(*req))),
    {
        let mut clear: Vec<Vec<u8>> = Vec::new();
        let mut i: usize = 0;
        while i < self.clear.len()
            invariant
                i <= self.clear@.len(),
                names_view(clear@) == names_view(self.clear@).take(i as int),
            decreases self.clear@.len() - i,
        {
            let c = copy(self.clear[i].as_slice());
            let ghost before = clear@;
            clear.push(c);
            assert(names_view(clear@) == names_view(before).push(c@));
            assert(names_view(self.clear@).take(i + 1) == names_view(self.clear@).take(i as int).push(self.clear@[i as int]@));
            i = i + 1;
        }
        assert(names_view(self.clear@).take(i as int) == names_view(self.clear@));
        HeaderEdit { clear, add: eval_named(req, &self.add) }
    }

    pub fn new(add: Vec<(Vec<u8>, Variable)>, clear: Vec<Vec<u8>>) -> (m: ModHeaders)
        ensures
            m.spec_add() == named_view(add@),
            m.spec_clear() == names_view(clear@),
    {
        ModHeaders { add, clear }
    }

    /// Applies the filter to a response of `req`.
    pub fn apply(&self, req: &HttpRequest, resp: &mut HttpResponse)
        ensures
            final(resp).spec_headers() == without_all(old(resp).spec_headers(), self.spec_clear())
                + named_values(self.spec_add(), table_of(*req)),
            final(resp).spec_status() == old(resp).spec_status(),
            final(resp).spec_body() == old(resp).spec_body(),
            final(resp).spec_content_length() == old(resp).spec_content_length(),
            final(resp).spec_headers_sent() == old(resp).spec_headers_sent(),
            final(resp).spec_protocol() == old(resp).spec_protocol(),
            final(resp).spec_client_close() == old(resp).spec_client_close(),
    {
        let ghost cv = names_view(self.clear@);
        let mut i: usize = 0;
        while i < self.clear.len()
            invariant
                i <= self.clear@.len(),
                cv == names_view(self.clear@),
                resp.spec_headers() == without_all(old(resp).spec_headers(), cv.take(i as int)),
                resp.spec_status() == old(resp).spec_status(),
                resp.spec_body() == old(resp).spec_body(),
                resp.spec_content_length() == old(resp).spec_content_length(),
                resp.spec_headers_sent() == old(resp).spec_headers_sent(),
                resp.spec_protocol() == old(resp).spec_protocol(),
                resp.spec_client_close() == old(resp).spec_client_close(),
            decreases self.clear@.len() - i,
        {
            proof {
                assert(cv.take(i + 1).drop_last() == cv.take(i as int));
                assert(cv.take(i + 1).last() == self.clear@[i as int]@);
            }
            resp.remove_header(self.clear[i].as_slice());
            i = i + 1;
        }
        assert(cv.take(i as int) == cv);
        let vals = eval_named(req, &self.add);
        let ghost base = resp.spec_headers();
        let ghost want = pairs_of(vals@);
        let mut j: usize = 0;
        while j < vals.len()
            invariant
                j <= vals@.len(),
                want == pairs_of(vals@),
                resp.spec_headers() == base + want.take(j as int),
                resp.spec_status() == old(resp).spec_status(),
                resp.spec_body() == old(resp).spec_body(),
                resp.spec_content_length() == old(resp).spec_content_length(),
                resp.spec_headers_sent() == old(resp).spec_headers_sent(),
                resp.spec_protocol() == old(resp).spec_protocol(),
                resp.spec_client_close() == old(resp).spec_client_close(),
            decreases vals@.len() - j,
        {
            resp.add_header(vals[j].0.as_slice(), vals[j].1.as_slice());
            proof {
                assert(want.take(j + 1) == want.take(j as int).push(want[j as int]));
            }
            j = j + 1;
        }
        assert(want.take(j as int) == want);
    }
}

/// Request filter on query arguments: clears arguments by name, then adds
/// arguments whose values are templates on the request.
pub struct ModArgs {
    add: Vec<(Vec<u8>, Variable)>,
    clear: Vec<Vec<u8>>,
}

impl ModArgs {
    pub closed spec fn spec_add(&self) -> Seq<(Seq<u8>, VariableView)> {
        named_view(self.add@)
    }

    pub closed spec fn spec_clear(&self) -> Seq<Seq<u8>> {
        names_view(self.clear@)
    }

    pub fn new(add: Vec<(Vec<u8>, Variable)>, clear: Vec<Vec<u8>>) -> (m: ModArgs)
        ensures
            m.spec_add() == named_view(add@),
            m.spec_clear() == names_view(clear@),
    {
        ModArgs { add, clear }
    }

    /// Applies the filter; the added values are read on the request as it
    /// was before.
    pub fn apply(&self, req: &mut HttpRequest) -> (c: Code)
        ensures
            c == Code::OK,
            pairs_of(final(req).args@) == drop_names(pairs_of(old(req).args@), self.spec_clear(), false)
                + named_values(self.spec_add(), table_of(*old(req))),
            final(req).headers == old(req).headers,
            final(req).vars == old(req).vars,
            final(req).uri == old(req).uri,
            final(req).method == old(req).method,
            final(req).protocol == old(req).protocol,
    {
        let mut added = eval_named(req, &self.add);
        let mut kept = remove_names(&req.args, &self.clear, false);
        let ghost k = kept@;
        let ghost a = added@;
        kept.append(&mut added);
        assert(pairs_of(kept@) =~= pairs_of(k) + pairs_of(a));
        req.args = kept;
        Code::OK
    }
}

/// Request filter that sets variables to templates' values on the request;
/// a set variable hides an earlier one of the same name.
pub struct ModVars {
    vars: Vec<(Vec<u8>, Variable)>,
}

impl ModVars {
    pub closed spec fn spec_vars(&self) -> Seq<(Seq<u8>, VariableView)> {
        named_view(self.vars@)
    }

    pub fn new(vars: Vec<(Vec<u8>, Variable)>) -> (m: ModVars)
        ensures
            m.spec_vars() == named_view(vars@),
    {
        ModVars { vars }
    }

    /// Applies the filter; the values are read on the request as it was before.
    pub fn apply(&self, req: &mut HttpRequest) -> (c: Code)
        ensures
            c == Code::OK,
            pairs_of(final(req).vars@) == named_values(self.spec_vars(), table_of(*old(req))) + pairs_of(old(req).vars@),
            final(req).headers == old(req).headers,
            final(req).args == old(req).args,
            final(req).uri == old(req).uri,
            final(req).method == old(req).method,
            final(req).protocol == old(req).protocol,
    {
        let vals = eval_named(req, &self.vars);
        crate::pipeline::set_captures(req, vals);
        Code::OK
    }
}

pub open spec fn status_body(active: usize, idle: usize) -> Seq<u8> {
    seq![/* active:  */ 97u8, 99u8, 116u8, 105u8, 118u8, 101u8, 58u8, 32u8] + crate::response::dec(active as nat) + seq![/* \nidle:  */ 10u8, 105u8, 100u8, 108u8, 101u8, 58u8, 32u8] + crate::response::dec(idle as nat) + seq![10u8]
}

/// The upstream status handler's answer: 400 without an `upstream`
/// argument, 404 for an upstream that does not exist, and otherwise its
/// active and idle peer counts as `text/plain`.
pub fn upstream_status_response(req: &HttpRequest, asked: bool, counts: Option<(usize, usize)>) -> (resp: HttpResponse)
    ensures
        resp.spec_protocol() == req.protocol,
        !resp.spec_headers_sent(),
        !asked ==> resp.spec_status() == HttpStatus::BAD_REQUEST,
        asked && counts is None ==> resp.spec_status() == HttpStatus::NOT_FOUND,
        asked ==> (counts matches Some((a, i)) ==> resp.spec_status() == HttpStatus::OK
            && resp.spec_body() == status_body(a, i)),
{
    let mut resp = HttpResponse::new(req.protocol, crate::pipeline::client_close(req));
    let ct: Vec<u8> = vec![/* text/plain */ 116u8, 101u8, 120u8, 116u8, 47u8, 112u8, 108u8, 97u8, 105u8, 110u8];
    if !asked {
        let t: Vec<u8> = vec![/* upstream parameter required */ 117u8, 112u8, 115u8, 116u8, 114u8, 101u8, 97u8, 109u8, 32u8, 112u8, 97u8, 114u8, 97u8, 109u8, 101u8, 116u8, 101u8, 114u8, 32u8, 114u8, 101u8, 113u8, 117u8, 105u8, 114u8, 101u8, 100u8];
        resp.send(HttpStatus::BAD_REQUEST, ct.as_slice(), Some(t.as_slice()));
        return resp;
    }
    match counts {
        None => {
            let t: Vec<u8> = vec![/* upstream not found */ 117u8, 112u8, 115u8, 116u8, 114u8, 101u8, 97u8, 109u8, 32u8, 110u8, 111u8, 116u8, 32u8, 102u8, 111u8, 117u8, 110u8, 100u8];
            resp.send(HttpStatus::NOT_FOUND, ct.as_slice(), Some(t.as_slice()));
        },
        Some((a, i)) => {
            let mut body: Vec<u8> = vec![/* active:  */ 97u8, 99u8, 116u8, 105u8, 118u8, 101u8, 58u8, 32u8];
            let ad = crate::response::format_dec(a);
            let mut k: usize = 0;
            let ghost b0 = body@;
            while k < ad.len()
                invariant
                    k <= ad@.len(),
                    body@ == b0 + ad@.take(k as int),
                decreases ad@.len() - k,
            {
                body.push(ad[k]);
                k = k + 1;
                assert(body@ == b0 + ad@.take(k as int));
            }
            assert(ad@.take(k as int) == ad@);
            let mid: Vec<u8> = vec![/* \nidle:  */ 10u8, 105u8, 100u8, 108u8, 101u8, 58u8, 32u8];
            let mut k: usize = 0;
            let ghost b1 = body@;
            while k < mid.len()
                invariant
                    k <= mid@.len(),
                    body@ == b1 + mid@.take(k as int),
                decreases mid@.len() - k,
            {
                body.push(mid[k]);
                k = k + 1;
                assert(body@ == b1 + mid@.take(k as int));
            }
            assert(mid@.take(k as int) == mid@);
            let id = crate::response::format_dec(i);
            let mut k: usize = 0;
            let ghost b2 = body@;
            while k < id.len()
                invariant
                    k <= id@.len(),
                    body@ == b2 + id@.take(k as int),
                decreases id@.len() - k,
            {
                body.push(id[k]);
                k = k + 1;
                assert(body@ == b2 + id@.take(k as int));
            }
            assert(id@.take(k as int) == id@);
            body.push(10u8);
            assert(body@ == status_body(a, i));
            resp.send(HttpStatus::OK, ct.as_slice(), Some(body.as_slice()));
        },
    }
    resp
}

} // verus!
