use vstd::prelude::*;
use crate::bytes::{ascii_lower, bytes_eq_ignore_case, eq_ignore_case, to_lower};
use crate::bytes::split_on;
use crate::http::{method_name, HttpMethod, HttpStatus};
use crate::named::NamedRouter;
use crate::request::{find_header, header_value, pairs_of, HttpRequest};
use crate::response::{content_type_header, without, HttpResponse};
use crate::trie::{captured, opt_view, RouteResult, TrieRouter, SLASH};
use crate::plugins::{
    drop_names, edit_view, edits_of, edits_view, named_values, value_of, without_all, Echo, HeaderEdit, ModArgs, ModHeaders,
    ModVars, Rewrite,
};
use crate::re::{named_groups, regex_captures, regex_group_names, RegexMatch, RegexRouter};
use crate::variable::{expand, lookup, pairs, Variable, VariableView};

verus! {

/// The most rewrites one request may go through.
pub const MAX_REWRITES: usize = 10;

pub const AT: u8 = 64;

pub open spec fn http_prefix() -> Seq<u8> {
    seq![/* http_ */ 104u8, 116u8, 116u8, 112u8, 95u8]
}

pub open spec fn arg_prefix() -> Seq<u8> {
    seq![/* arg_ */ 97u8, 114u8, 103u8, 95u8]
}

pub open spec fn connection_name() -> Seq<u8> {
    seq![/* connection */ 99u8, 111u8, 110u8, 110u8, 101u8, 99u8, 116u8, 105u8, 111u8, 110u8]
}

pub open spec fn close_word() -> Seq<u8> {
    seq![/* close */ 99u8, 108u8, 111u8, 115u8, 101u8]
}

pub open spec fn text_plain() -> Seq<u8> {
    seq![/* text/plain */ 116u8, 101u8, 120u8, 116u8, 47u8, 112u8, 108u8, 97u8, 105u8, 110u8]
}

pub open spec fn prefixed(p: Seq<u8>, hs: Seq<(Seq<u8>, Seq<u8>)>, lower: bool) -> Seq<(Seq<u8>, Seq<u8>)> {
    hs.map_values(|h: (Seq<u8>, Seq<u8>)| (p + if lower { ascii_lower(h.0) } else { h.0 }, h.1))
}

/// The names a template can use on a request: its variables, then
/// `http_<name>` for each header (the name in small letters), then
/// `arg_<name>` for each query argument.
pub open spec fn request_values(vars: Seq<(Seq<u8>, Seq<u8>)>, headers: Seq<(Seq<u8>, Seq<u8>)>, args: Seq<(Seq<u8>, Seq<u8>)>) -> Seq<(Seq<u8>, Seq<u8>)> {
    vars + prefixed(http_prefix(), headers, true) + prefixed(arg_prefix(), args, false)
}

fn lower_copy(s: &[u8]) -> (r: Vec<u8>)
    ensures
        r@ == ascii_lower(s@),
{
    let mut r: Vec<u8> = Vec::new();
    let mut i: usize = 0;
    while i < s.len()
        invariant
            i <= s@.len(),
            r@ == ascii_lower(s@.take(i as int)),
        decreases s@.len() - i,
    {
        r.push(to_lower(s[i]));
        i = i + 1;
        assert(ascii_lower(s@.take(i as int)) =~= r@);
    }
    assert(s@.take(i as int) == s@);
    r
}

fn copy(s: &[u8]) -> (r: Vec<u8>)
    ensures
        r@ == s@,
{
    let r = crate::bytes::copy_slice(s, 0, s.len());
    assert(r@ == s@);
    r
}

fn push_prefixed(out: &mut Vec<(Vec<u8>, Vec<u8>)>, p: &Vec<u8>, hs: &Vec<(Vec<u8>, Vec<u8>)>, lower: bool)
    ensures
        pairs(final(out)@) == pairs(old(out)@) + prefixed(p@, pairs_of(hs@), lower),
{
    let ghost start = pairs(out@);
    let mut i: usize = 0;
    while i < hs.len()
        invariant
            i <= hs@.len(),
            pairs(out@) == start + prefixed(p@, pairs_of(hs@), lower).take(i as int),
        decreases hs@.len() - i,
    {
        let mut name = copy(p.as_slice());
        let n = if lower { lower_copy(hs[i].0.as_slice()) } else { copy(hs[i].0.as_slice()) };
        let mut j: usize = 0;
        let ghost base = name@;
        while j < n.len()
            invariant
                j <= n@.len(),
                name@ == base + n@.take(j as int),
            decreases n@.len() - j,
        {
            name.push(n[j]);
            j = j + 1;
            assert(name@ == base + n@.take(j as int));
        }
        assert(n@.take(j as int) == n@);
        let v = copy(hs[i].1.as_slice());
        let ghost before = pairs(out@);
        out.push((name, v));
        proof {
            assert(pairs(out@) == before.push((name@, v@)));
            assert(prefixed(p@, pairs_of(hs@), lower).take(i + 1)
                == prefixed(p@, pairs_of(hs@), lower).take(i as int).push(prefixed(p@, pairs_of(hs@), lower)[i as int]));
        }
        i = i + 1;
    }
    assert(prefixed(p@, pairs_of(hs@), lower).take(i as int) == prefixed(p@, pairs_of(hs@), lower));
}

/// The table of names a template can use on this request.
pub fn values(req: &HttpRequest) -> (r: Vec<(Vec<u8>, Vec<u8>)>)
    ensures
        pairs(r@) == request_values(pairs_of(req.vars@), pairs_of(req.headers@), pairs_of(req.args@)),
{
    let mut r: Vec<(Vec<u8>, Vec<u8>)> = Vec::new();
    let empty: Vec<(Vec<u8>, Vec<u8>)> = Vec::new();
    let none: Vec<u8> = Vec::new();
    push_prefixed(&mut r, &none, &req.vars, false);
    proof {
        assert(prefixed(Seq::empty(), pairs_of(req.vars@), false) =~= pairs_of(req.vars@));
        assert(pairs(empty@) =~= Seq::empty());
    }
    let hp: Vec<u8> = vec![/* http_ */ 104u8, 116u8, 116u8, 112u8, 95u8];
    push_prefixed(&mut r, &hp, &req.headers, true);
    let ap: Vec<u8> = vec![/* arg_ */ 97u8, 114u8, 103u8, 95u8];
    push_prefixed(&mut r, &ap, &req.args, false);
    r
}

/// A template's value on this request.
pub fn expand_on(req: &HttpRequest, v: &Variable) -> (r: Vec<u8>)
    ensures
        r@ == match v.view() {
            VariableView::Simple(s) => s,
            VariableView::Complex(ps) => expand(ps, request_values(pairs_of(req.vars@), pairs_of(req.headers@), pairs_of(req.args@))),
            VariableView::Lazy(n) => lookup(request_values(pairs_of(req.vars@), pairs_of(req.headers@), pairs_of(req.args@)), n),
        },
{
    let table = values(req);
    v.expand_with(&table)
}

/// The request asks to close the connection after the response.
pub open spec fn asks_close(headers: Seq<(Seq<u8>, Seq<u8>)>) -> bool {
    match find_header(headers, connection_name()) {
        Some(v) => eq_ignore_case(v, close_word()),
        None => false,
    }
}

pub fn client_close(req: &HttpRequest) -> (r: bool)
    ensures
        r == asks_close(pairs_of(req.headers@)),
{
    let name: Vec<u8> = vec![/* connection */ 99u8, 111u8, 110u8, 110u8, 101u8, 99u8, 116u8, 105u8, 111u8, 110u8];
    let close: Vec<u8> = vec![/* close */ 99u8, 108u8, 111u8, 115u8, 101u8];
    match header_value(&req.headers, name.as_slice()) {
        Some(v) => bytes_eq_ignore_case(v.as_slice(), close.as_slice()),
        None => false,
    }
}

/// Adds what a route captured to the request's variables, ahead of those
/// already there.
pub fn set_captures(req: &mut HttpRequest, captures: Vec<(Vec<u8>, Vec<u8>)>)
    ensures
        pairs_of(final(req).vars@) == pairs_of(captures@) + pairs_of(old(req).vars@),
        final(req).headers == old(req).headers,
        final(req).args == old(req).args,
        final(req).uri == old(req).uri,
        final(req).method == old(req).method,
        final(req).protocol == old(req).protocol,
{
    let mut vars = captures;
    let ghost c = vars@;
    let mut old_vars: Vec<(Vec<u8>, Vec<u8>)> = Vec::new();
    std::mem::swap(&mut req.vars, &mut old_vars);
    let ghost o = old_vars@;
    vars.append(&mut old_vars);
    assert(vars@ == c + o);
    assert(pairs_of(vars@) =~= pairs_of(c) + pairs_of(o));
    req.vars = vars;
}

/// A route's content handler.
pub enum Content {
    /// Answer with a template's value as `text/plain`.
    Echo(Echo),
    /// Pass the request to the upstream of this index.
    Proxy(usize),
    /// Report the active and idle peers of the upstream that the query
    /// argument `upstream` names.
    UpstreamStatus,
}

/// What a route does, phase by phase: set variables, change query
/// arguments, rewrite (and look the route up anew), produce the content,
/// then filter the response headers.
pub struct RouteContext {
    pub setvar: Vec<ModVars>,
    pub args: Vec<ModArgs>,
    pub rewrite: Option<Rewrite>,
    pub content: Option<Content>,
    pub header_filter: Vec<ModHeaders>,
}

impl RouteContext {
    /// A route whose content is the echo handler.
    pub fn echo(e: Echo) -> (r: RouteContext)
        ensures
            r.setvar@.len() == 0 && r.args@.len() == 0 && r.rewrite is None && r.header_filter@.len() == 0,
            r.content matches Some(Content::Echo(x)) && x == e,
    {
        RouteContext { setvar: Vec::new(), args: Vec::new(), rewrite: None, content: Some(Content::Echo(e)), header_filter: Vec::new() }
    }

    /// A route that rewrites.
    pub fn rewrite(r: Rewrite) -> (c: RouteContext)
        ensures
            c.setvar@.len() == 0 && c.args@.len() == 0 && c.content is None && c.header_filter@.len() == 0,
            c.rewrite matches Some(x) && x == r,
    {
        RouteContext { setvar: Vec::new(), args: Vec::new(), rewrite: Some(r), content: None, header_filter: Vec::new() }
    }

    /// A route that proxies to the upstream of index `u`.
    pub fn proxy(u: usize) -> (r: RouteContext)
        ensures
            r.setvar@.len() == 0 && r.args@.len() == 0 && r.rewrite is None && r.header_filter@.len() == 0,
            r.content == Some(Content::Proxy(u)),
    {
        RouteContext { setvar: Vec::new(), args: Vec::new(), rewrite: None, content: Some(Content::Proxy(u)), header_filter: Vec::new() }
    }
}

/// What serving a request comes to.
pub enum Handled {
    /// The response.
    Response(HttpResponse),
    /// The request goes to the upstream of this index; the edits are the
    /// header filters to apply to the response that comes back.
    Proxy(usize, Vec<HeaderEdit>),
    /// The upstream whose status is asked for: the value of the query
    /// argument `upstream`, if the request has one.
    UpstreamStatus(Option<Vec<u8>>),
}

/// The echo content handler: the template's value on the request, with the
/// given status, as `text/plain`.
pub fn echo(req: &HttpRequest, text: &Variable, status: HttpStatus) -> (resp: HttpResponse)
    ensures
        resp.spec_status() == status,
        resp.spec_protocol() == req.protocol,
        resp.spec_client_close() == asks_close(pairs_of(req.headers@)),
        resp.spec_headers() == seq![(content_type_header(), text_plain())],
        resp.spec_body() == match text.view() {
            VariableView::Simple(s) => s,
            VariableView::Complex(ps) => expand(ps, request_values(pairs_of(req.vars@), pairs_of(req.headers@), pairs_of(req.args@))),
            VariableView::Lazy(n) => lookup(request_values(pairs_of(req.vars@), pairs_of(req.headers@), pairs_of(req.args@)), n),
        },
        resp.spec_content_length() == Some(resp.spec_body().len() as usize),
        !resp.spec_headers_sent(),
{
    let body = expand_on(req, text);
    let mut resp = HttpResponse::new(req.protocol, client_close(req));
    let ct: Vec<u8> = vec![/* text/plain */ 116u8, 101u8, 120u8, 116u8, 47u8, 112u8, 108u8, 97u8, 105u8, 110u8];
    resp.send(status, ct.as_slice(), Some(body.as_slice()));
    proof {
        assert(without(Seq::<(Seq<u8>, Seq<u8>)>::empty(), content_type_header()) == Seq::<(Seq<u8>, Seq<u8>)>::empty());
        assert(Seq::<(Seq<u8>, Seq<u8>)>::empty().push((content_type_header(), text_plain())) == seq![(content_type_header(), text_plain())]);
    }
    resp
}

/// The router a lookup ends in.
#[derive(Clone, Copy, Debug, PartialEq, Eq, Structural)]
pub enum RouteChoice {
    /// A named route: the URI starts with `@`.
    Named,
    /// The trie's route.
    Trie,
    /// The regex router's route.
    Regex,
    /// No route.
    NotFound,
}

/// Chooses among the routers: `@label` URIs go to the named router; an exact
/// trie match wins; a partial one yields to a regex match; without a trie
/// match a regex match serves.
pub open spec fn choice(named: bool, trie: Option<bool>, regex: bool) -> RouteChoice {
    if named {
        RouteChoice::Named
    } else {
        match trie {
            Some(true) => RouteChoice::Trie,
            Some(false) => if regex {
                RouteChoice::Regex
            } else {
                RouteChoice::Trie
            },
            None => if regex {
                RouteChoice::Regex
            } else {
                RouteChoice::NotFound
            },
        }
    }
}

/// Chooses the router for a URI, given whether the trie matched (and
/// exactly) and whether a regex route matched.
pub fn choose_route(uri: &[u8], trie: Option<bool>, regex: bool) -> (r: RouteChoice)
    ensures
        r == choice(uri@.len() > 0 && uri@[0] == AT, trie, regex),
{
    let named = uri.len() > 0 && uri[0] == AT;
    if named {
        return RouteChoice::Named;
    }
    match trie {
        Some(true) => RouteChoice::Trie,
        Some(false) => if regex {
            RouteChoice::Regex
        } else {
            RouteChoice::Trie
        },
        None => if regex {
            RouteChoice::Regex
        } else {
            RouteChoice::NotFound
        },
    }
}

pub open spec fn upstream_arg() -> Seq<u8> {
    seq![/* upstream */ 117u8, 112u8, 115u8, 116u8, 114u8, 101u8, 97u8, 109u8]
}

/// The value of the first query argument named `name`.
pub open spec fn find_arg(args: Seq<(Seq<u8>, Seq<u8>)>, name: Seq<u8>) -> Option<Seq<u8>>
    decreases args.len(),
{
    if args.len() == 0 {
        None
    } else if args[0].0 == name {
        Some(args[0].1)
    } else {
        find_arg(args.drop_first(), name)
    }
}

/// Finds the value of the first query argument named `name`.
pub fn arg_value(args: &Vec<(Vec<u8>, Vec<u8>)>, name: &[u8]) -> (r: Option<Vec<u8>>)
    ensures
        opt_view(r) == find_arg(pairs_of(args@), name@),
{
    let ghost ps = pairs_of(args@);
    let mut i: usize = 0;
    assert(ps.skip(0) == ps);
    while i < args.len()
        invariant
            i <= args@.len(),
            ps == pairs_of(args@),
            find_arg(ps, name@) == find_arg(ps.skip(i as int), name@),
        decreases args@.len() - i,
    {
        assert(ps.skip(i as int)[0] == ps[i as int]);
        assert(ps.skip(i as int).drop_first() == ps.skip(i + 1));
        if crate::bytes::bytes_eq(args[i].0.as_slice(), name) {
            return Some(copy(args[i].1.as_slice()));
        }
        i = i + 1;
    }
    None
}

/// The parts of a request that routing reads and changes.
pub struct ReqState {
    pub uri: Seq<u8>,
    pub method: HttpMethod,
    pub headers: Seq<(Seq<u8>, Seq<u8>)>,
    pub args: Seq<(Seq<u8>, Seq<u8>)>,
    pub vars: Seq<(Seq<u8>, Seq<u8>)>,
}

pub open spec fn state_of(req: HttpRequest) -> ReqState {
    ReqState {
        uri: req.uri@,
        method: req.method,
        headers: pairs_of(req.headers@),
        args: pairs_of(req.args@),
        vars: pairs_of(req.vars@),
    }
}

/// The names a template can use in a request state.
pub open spec fn table_st(st: ReqState) -> Seq<(Seq<u8>, Seq<u8>)> {
    request_values(st.vars, st.headers, st.args)
}

/// The first `k` variable setters of a route, applied in order.
pub open spec fn setvar_phase(list: Seq<ModVars>, st: ReqState, k: int) -> ReqState
    decreases k,
{
    if k <= 0 {
        st
    } else {
        let s = setvar_phase(list, st, k - 1);
        ReqState {
            uri: s.uri,
            method: s.method,
            headers: s.headers,
            args: s.args,
            vars: named_values(list[k - 1].spec_vars(), table_st(s)) + s.vars,
        }
    }
}

/// The first `k` argument filters of a route, applied in order.
pub open spec fn args_phase(list: Seq<ModArgs>, st: ReqState, k: int) -> ReqState
    decreases k,
{
    if k <= 0 {
        st
    } else {
        let s = args_phase(list, st, k - 1);
        ReqState {
            uri: s.uri,
            method: s.method,
            headers: s.headers,
            args: drop_names(s.args, list[k - 1].spec_clear(), false) + named_values(list[k - 1].spec_add(), table_st(s)),
            vars: s.vars,
        }
    }
}

/// The first `k` header filters of a route, applied to response headers `hs`.
pub open spec fn header_phase(
    list: Seq<ModHeaders>,
    hs: Seq<(Seq<u8>, Seq<u8>)>,
    table: Seq<(Seq<u8>, Seq<u8>)>,
    k: int,
) -> Seq<(Seq<u8>, Seq<u8>)>
    decreases k,
{
    if k <= 0 {
        hs
    } else {
        without_all(header_phase(list, hs, table, k - 1), list[k - 1].spec_clear())
            + named_values(list[k - 1].spec_add(), table)
    }
}

/// What serving a request comes to, as values.
pub enum Served {
    Respond(HttpStatus, Seq<u8>, Seq<(Seq<u8>, Seq<u8>)>),
    Proxy(usize, Seq<(Seq<Seq<u8>>, Seq<(Seq<u8>, Seq<u8>)>)>),
    UpstreamStatus(Option<Seq<u8>>),
}

pub open spec fn served(h: Handled) -> Served {
    match h {
        Handled::Response(resp) => Served::Respond(resp.spec_status(), resp.spec_body(), resp.spec_headers()),
        Handled::Proxy(u, edits) => Served::Proxy(u, edits_view(edits@)),
        Handled::UpstreamStatus(name) => Served::UpstreamStatus(opt_view(name)),
    }
}

/// A bodiless `text/plain` answer.
pub open spec fn plain(status: HttpStatus) -> Served {
    Served::Respond(status, Seq::empty(), seq![(content_type_header(), text_plain())])
}

/// The phases a server runs for every request, before its route's own.
pub struct ServerPhases {
    pub setvar: Vec<ModVars>,
    pub args: Vec<ModArgs>,
    pub header_filter: Vec<ModHeaders>,
}

/// A server's routes: the path trie, the regex routes and the named routes,
/// with the server's own phases.
pub struct Routes {
    pub trie: TrieRouter<RouteContext>,
    pub regex: RegexRouter<RouteContext>,
    pub named: NamedRouter<RouteContext>,
    pub server: ServerPhases,
}

impl Routes {
    pub open spec fn wf(&self) -> bool {
        self.trie.wf() && self.regex.wf() && self.named.wf()
    }

    pub fn new() -> (r: Routes)
        ensures
            r.wf(),
    {
        Routes {
            trie: TrieRouter::new(),
            regex: RegexRouter::new(),
            named: NamedRouter::new(),
            server: ServerPhases { setvar: Vec::new(), args: Vec::new(), header_filter: Vec::new() },
        }
    }

    /// The route a request state reaches, with what the route captured: a
    /// `@label` URI in the named router; otherwise the trie's best route,
    /// unless it covers only a prefix and a regex route matches.
    pub open spec fn lookup(&self, st: ReqState) -> Option<(RouteContext, Seq<(Seq<u8>, Seq<u8>)>)> {
        let m = method_name(st.method);
        if st.uri.len() > 0 && st.uri[0] == AT {
            match self.named.pick(st.uri, m) {
                Some(c) => Some((c, Seq::empty())),
                None => None,
            }
        } else {
            let parts = split_on(st.uri, SLASH);
            let t = self.trie.best(parts, m);
            let exact = match t {
                Some(i) => Some(self.trie.spec_routes()[i].spec_keys().len() == parts.len()),
                None => None,
            };
            let rx = if exact == Some(true) { None } else { self.regex.pick(st.uri, m) };
            match choice(false, exact, rx is Some) {
                RouteChoice::Trie => Some((
                    self.trie.spec_routes()[t->0].spec_context(),
                    captured(self.trie.spec_routes()[t->0].spec_vars(), parts),
                )),
                RouteChoice::Regex => {
                    let src = self.regex.spec_routes()[rx->0].spec_source();
                    Some((
                        self.regex.spec_routes()[rx->0].spec_context(),
                        named_groups(regex_group_names(src), regex_captures(src, st.uri)->0),
                    ))
                },
                _ => None,
            }
        }
    }

    /// A request state after the server's setters and argument filters.
    pub open spec fn server_phase(&self, st: ReqState) -> ReqState {
        args_phase(
            self.server.args@,
            setvar_phase(self.server.setvar@, st, self.server.setvar@.len() as int),
            self.server.args@.len() as int,
        )
    }

    /// What serving a request state comes to after `rewrites` rewrites: no
    /// route gives 404; otherwise the route's captures join the variables,
    /// its setters and argument filters run, and then a rewrite serves the
    /// rewritten URI (500 once [`MAX_REWRITES`] are spent), a proxy route
    /// names its upstream, an echo route answers with its status and its
    /// template's value and the route's header filters applied, and a route
    /// without content gives 404.
    pub open spec fn serve(&self, st: ReqState, rewrites: int) -> Served
        decreases MAX_REWRITES - rewrites,
    {
        match self.lookup(st) {
            None => plain(HttpStatus::NOT_FOUND),
            Some((ctx, caps)) => {
                let s0 = ReqState { uri: st.uri, method: st.method, headers: st.headers, args: st.args, vars: caps + st.vars };
                let s1 = setvar_phase(ctx.setvar@, s0, ctx.setvar@.len() as int);
                let s2 = args_phase(ctx.args@, s1, ctx.args@.len() as int);
                match ctx.rewrite {
                    Some(r) => if rewrites >= MAX_REWRITES {
                        plain(HttpStatus::INTERNAL_SERVER_ERROR)
                    } else {
                        self.serve(
                            ReqState {
                                uri: value_of(r.spec_target(), table_st(s2)),
                                method: s2.method,
                                headers: s2.headers,
                                args: s2.args,
                                vars: s2.vars,
                            },
                            rewrites + 1,
                        )
                    },
                    None => match ctx.content {
                        None => plain(HttpStatus::NOT_FOUND),
                        Some(Content::UpstreamStatus) => Served::UpstreamStatus(find_arg(s2.args, upstream_arg())),
                        Some(Content::Proxy(u)) => Served::Proxy(
                            u,
                            edits_of(self.server.header_filter@, table_st(s2)) + edits_of(ctx.header_filter@, table_st(s2)),
                        ),
                        Some(Content::Echo(e)) => Served::Respond(
                            e.spec_status(),
                            value_of(e.spec_text(), table_st(s2)),
                            header_phase(
                                ctx.header_filter@,
                                header_phase(
                                    self.server.header_filter@,
                                    seq![(content_type_header(), text_plain())],
                                    table_st(s2),
                                    self.server.header_filter@.len() as int,
                                ),
                                table_st(s2),
                                ctx.header_filter@.len() as int,
                            ),
                        ),
                    },
                }
            },
        }
    }

    /// Serves a request: finds its route (following rewrites, at most
    /// [`MAX_REWRITES`] of them) and runs the route's content handler, or
    /// names the upstream a proxy route passes it to. A request without a
    /// route gets 404; one that rewrites too often gets 500.
    pub fn handle(&self, req: &mut HttpRequest) -> (r: Handled)
        requires
            self.wf(),
        ensures
            served(r) == self.serve(self.server_phase(state_of(*old(req))), 0),
            r matches Handled::Response(resp) ==> resp.spec_protocol() == old(req).protocol && !resp.spec_headers_sent(),
    {
        let ghost start = state_of(*req);
        let mut k: usize = 0;
        while k < self.server.setvar.len()
            invariant
                req.protocol == old(req).protocol,
                k <= self.server.setvar@.len(),
                state_of(*req) == setvar_phase(self.server.setvar@, start, k as int),
            decreases self.server.setvar@.len() - k,
        {
            self.server.setvar[k].apply(req);
            k = k + 1;
            proof {
                assert(state_of(*req) =~= setvar_phase(self.server.setvar@, start, k as int));
            }
        }
        let ghost after_vars = state_of(*req);
        let mut k: usize = 0;
        while k < self.server.args.len()
            invariant
                req.protocol == old(req).protocol,
                k <= self.server.args@.len(),
                state_of(*req) == args_phase(self.server.args@, after_vars, k as int),
            decreases self.server.args@.len() - k,
        {
            self.server.args[k].apply(req);
            k = k + 1;
            proof {
                assert(state_of(*req) =~= args_phase(self.server.args@, after_vars, k as int));
            }
        }
        let mut rewrites: usize = 0;
        loop
            invariant
                self.wf(),
                req.protocol == old(req).protocol,
                rewrites <= MAX_REWRITES,
                self.serve(self.server_phase(state_of(*old(req))), 0) == self.serve(state_of(*req), rewrites as int),
            decreases MAX_REWRITES - rewrites,
        {
            let ghost st = state_of(*req);
            let method = req.method.name();
            let named = req.uri.len() > 0 && req.uri[0] == AT;
            let t = if named {
                None
            } else {
                self.trie.get(req.uri.as_slice(), method.as_slice())
            };
            let exact = match &t {
                Some(m) => Some(m.exact),
                None => None,
            };
            let rx = match exact {
                Some(true) => None,
                _ => self.regex.get(req.uri.as_slice(), method.as_slice()),
            };
            let choice = choose_route(req.uri.as_slice(), exact, rx.is_some());
            let found: Option<&RouteContext> = match choice {
                RouteChoice::Named => self.named.get(req.uri.as_slice(), method.as_slice()),
                RouteChoice::Trie => match t {
                    Some(m) => {
                        let RouteResult { index, exact: _, captures } = m;
                        proof {
                            assert(crate::trie::pairs_view(captures@) =~= pairs_of(captures@));
                        }
                        set_captures(req, captures);
                        Some(self.trie.context(index))
                    },
                    None => None,
                },
                RouteChoice::Regex => match rx {
                    Some(m) => {
                        let RegexMatch { index, captures } = m;
                        proof {
                            assert(pairs(captures@) =~= pairs_of(captures@));
                        }
                        set_captures(req, captures);
                        Some(self.regex.context(index))
                    },
                    None => None,
                },
                RouteChoice::NotFound => None,
            };
            proof {
                match self.lookup(st) {
                    Some((c, caps)) => {
                        assert(found == Some(&c));
                        assert(state_of(*req) =~= ReqState { uri: st.uri, method: st.method, headers: st.headers, args: st.args, vars: caps + st.vars });
                    },
                    None => {
                        assert(found is None);
                    },
                }
            }
            let ctx = match found {
                None => {
                    let empty: Vec<u8> = Vec::new();
                    let v = Variable::simple(empty.as_slice());
                    return Handled::Response(echo(req, &v, HttpStatus::NOT_FOUND));
                },
                Some(ctx) => ctx,
            };
            let ghost s0 = state_of(*req);
            let mut k: usize = 0;
            while k < ctx.setvar.len()
                invariant
                    req.protocol == old(req).protocol,
                    k <= ctx.setvar@.len(),
                    state_of(*req) == setvar_phase(ctx.setvar@, s0, k as int),
                decreases ctx.setvar@.len() - k,
            {
                ctx.setvar[k].apply(req);
                k = k + 1;
                proof {
                    assert(state_of(*req) =~= setvar_phase(ctx.setvar@, s0, k as int));
                }
            }
            let ghost s1 = state_of(*req);
            let mut k: usize = 0;
            while k < ctx.args.len()
                invariant
                    req.protocol == old(req).protocol,
                    k <= ctx.args@.len(),
                    state_of(*req) == args_phase(ctx.args@, s1, k as int),
                decreases ctx.args@.len() - k,
            {
                ctx.args[k].apply(req);
                k = k + 1;
                proof {
                    assert(state_of(*req) =~= args_phase(ctx.args@, s1, k as int));
                }
            }
            let ghost s2 = state_of(*req);
            match &ctx.rewrite {
                Some(r) => {
                    if rewrites == MAX_REWRITES {
                        let empty: Vec<u8> = Vec::new();
                        let v = Variable::simple(empty.as_slice());
                        return Handled::Response(echo(req, &v, HttpStatus::INTERNAL_SERVER_ERROR));
                    }
                    r.apply(req);
                    rewrites = rewrites + 1;
                    proof {
                        assert(state_of(*req) =~= ReqState {
                            uri: value_of(r.spec_target(), table_st(s2)),
                            method: s2.method,
                            headers: s2.headers,
                            args: s2.args,
                            vars: s2.vars,
                        });
                    }
                },
                None => match &ctx.content {
                    None => {
                        let empty: Vec<u8> = Vec::new();
                        let v = Variable::simple(empty.as_slice());
                        return Handled::Response(echo(req, &v, HttpStatus::NOT_FOUND));
                    },
                    Some(Content::UpstreamStatus) => {
                        let key: Vec<u8> = vec![/* upstream */ 117u8, 112u8, 115u8, 116u8, 114u8, 101u8, 97u8, 109u8];
                        return Handled::UpstreamStatus(arg_value(&req.args, key.as_slice()));
                    },
                    Some(Content::Proxy(u)) => {
                        let mut edits: Vec<HeaderEdit> = Vec::new();
                        let ghost table = table_st(s2);
                        let mut k: usize = 0;
                        while k < self.server.header_filter.len()
                            invariant
                                k <= self.server.header_filter@.len(),
                                state_of(*req) == s2,
                                table == table_st(s2),
                                edits_view(edits@) == edits_of(self.server.header_filter@, table).take(k as int),
                            decreases self.server.header_filter@.len() - k,
                        {
                            let e = self.server.header_filter[k].edit(req);
                            let ghost before = edits@;
                            edits.push(e);
                            proof {
                                assert(edits_view(edits@) == edits_view(before).push(edit_view(e)));
                                assert(edits_of(self.server.header_filter@, table).take(k + 1)
                                    == edits_of(self.server.header_filter@, table).take(k as int).push(edit_view(e)));
                            }
                            k = k + 1;
                        }
                        assert(edits_of(self.server.header_filter@, table).take(k as int) == edits_of(self.server.header_filter@, table));
                        let ghost first = edits_view(edits@);
                        let mut k: usize = 0;
                        while k < ctx.header_filter.len()
                            invariant
                                k <= ctx.header_filter@.len(),
                                state_of(*req) == s2,
                                table == table_st(s2),
                                edits_view(edits@) == first + edits_of(ctx.header_filter@, table).take(k as int),
                            decreases ctx.header_filter@.len() - k,
                        {
                            let e = ctx.header_filter[k].edit(req);
                            let ghost before = edits@;
                            edits.push(e);
                            proof {
                                assert(edits_view(edits@) == edits_view(before).push(edit_view(e)));
                                assert(edits_of(ctx.header_filter@, table).take(k + 1)
                                    == edits_of(ctx.header_filter@, table).take(k as int).push(edit_view(e)));
                            }
                            k = k + 1;
                        }
                        assert(edits_of(ctx.header_filter@, table).take(k as int) == edits_of(ctx.header_filter@, table));
                        return Handled::Proxy(*u, edits);
                    },
                    Some(Content::Echo(e)) => {
                        let mut resp = e.handle(req);
                        let mut k: usize = 0;
                        while k < self.server.header_filter.len()
                            invariant
                                resp.spec_protocol() == old(req).protocol,
                                !resp.spec_headers_sent(),
                                k <= self.server.header_filter@.len(),
                                resp.spec_status() == e.spec_status(),
                                state_of(*req) == s2,
                                resp.spec_body() == value_of(e.spec_text(), table_st(s2)),
                                resp.spec_headers() == header_phase(
                                    self.server.header_filter@,
                                    seq![(content_type_header(), text_plain())],
                                    table_st(s2),
                                    k as int,
                                ),
                            decreases self.server.header_filter@.len() - k,
                        {
                            self.server.header_filter[k].apply(req, &mut resp);
                            k = k + 1;
                        }
                        let ghost base = resp.spec_headers();
                        let mut k: usize = 0;
                        while k < ctx.header_filter.len()
                            invariant
                                resp.spec_protocol() == old(req).protocol,
                                !resp.spec_headers_sent(),
                                k <= ctx.header_filter@.len(),
                                resp.spec_status() == e.spec_status(),
                                state_of(*req) == s2,
                                resp.spec_body() == value_of(e.spec_text(), table_st(s2)),
                                resp.spec_headers() == header_phase(ctx.header_filter@, base, table_st(s2), k as int),
                                base == header_phase(
                                    self.server.header_filter@,
                                    seq![(content_type_header(), text_plain())],
                                    table_st(s2),
                                    self.server.header_filter@.len() as int,
                                ),
                            decreases ctx.header_filter@.len() - k,
                        {
                            ctx.header_filter[k].apply(req, &mut resp);
                            k = k + 1;
                        }
                        return Handled::Response(resp);
                    },
                },
            }
        }
    }
}

} // verus!
