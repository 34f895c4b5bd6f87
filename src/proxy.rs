use vstd::prelude::*;
use crate::bytes::{bytes_eq_ignore_case, eq_ignore_case, first_of};
use crate::chunked::{decode_chunked, dechunk, ChunkedParse, Dechunked, CR, LF};
use crate::http::{method_name, protocol_of, status_of, HttpProtocol, HttpStatus};
use crate::request::{
    after, args_text, before, dec_value, find_header, format_args, header_lines, header_value, index_of, pairs_of,
    parse_decimal, parse_headers, split_once, strip_cr, Headers, HeadersParse, HttpRequest, MAX_CONTENT_LENGTH,
    QUESTION, SPACE,
};
use crate::pipeline::{asks_close, client_close};
use crate::response::{crlf, dec, format_dec, header_bytes, headers_bytes, HttpResponse};
use crate::http::status_code;
use crate::transfer_encoding::{chunked_word, lists, list_contains};

verus! {

pub open spec fn connection_name() -> Seq<u8> {
    seq![/* connection */ 99u8, 111u8, 110u8, 110u8, 101u8, 99u8, 116u8, 105u8, 111u8, 110u8]
}

pub open spec fn close_word() -> Seq<u8> {
    seq![/* close */ 99u8, 108u8, 111u8, 115u8, 101u8]
}

pub open spec fn length_name() -> Seq<u8> {
    seq![/* content-length */ 99u8, 111u8, 110u8, 116u8, 101u8, 110u8, 116u8, 45u8, 108u8, 101u8, 110u8, 103u8, 116u8, 104u8]
}

pub open spec fn encoding_name() -> Seq<u8> {
    seq![/* transfer-encoding */ 116u8, 114u8, 97u8, 110u8, 115u8, 102u8, 101u8, 114u8, 45u8, 101u8, 110u8, 99u8, 111u8, 100u8, 105u8, 110u8, 103u8]
}

pub open spec fn server_name() -> Seq<u8> {
    seq![/* server */ 115u8, 101u8, 114u8, 118u8, 101u8, 114u8]
}

pub open spec fn http11_text() -> Seq<u8> {
    seq![/*  HTTP/1.1 */ 32u8, 72u8, 84u8, 84u8, 80u8, 47u8, 49u8, 46u8, 49u8]
}

/// Headers that the proxy does not pass on: they describe the upstream
/// connection, not the response.
pub open spec fn hop_header(name: Seq<u8>) -> bool {
    eq_ignore_case(name, connection_name()) || eq_ignore_case(name, length_name())
        || eq_ignore_case(name, encoding_name()) || eq_ignore_case(name, server_name())
}

pub open spec fn passed_on(hs: Seq<(Seq<u8>, Seq<u8>)>) -> Seq<(Seq<u8>, Seq<u8>)>
    decreases hs.len(),
{
    if hs.len() == 0 {
        Seq::empty()
    } else if hop_header(hs.last().0) {
        passed_on(hs.drop_last())
    } else {
        passed_on(hs.drop_last()).push(hs.last())
    }
}

pub open spec fn not_connection(hs: Seq<(Seq<u8>, Seq<u8>)>) -> Seq<(Seq<u8>, Seq<u8>)>
    decreases hs.len(),
{
    if hs.len() == 0 {
        Seq::empty()
    } else if eq_ignore_case(hs.last().0, connection_name()) {
        not_connection(hs.drop_last())
    } else {
        not_connection(hs.drop_last()).push(hs.last())
    }
}

/// The request the proxy sends upstream: method, the (rewritten) URI with its
/// arguments re-encoded, HTTP/1.1, the request's headers but `Connection`,
/// an empty line, and the body.
pub open spec fn upstream_request(
    method: Seq<u8>,
    uri: Seq<u8>,
    args: Seq<(Seq<u8>, Seq<u8>)>,
    headers: Seq<(Seq<u8>, Seq<u8>)>,
    body: Seq<u8>,
) -> Seq<u8> {
    method + seq![SPACE] + uri + (if args.len() > 0 { seq![QUESTION] + args_text(args) } else { Seq::empty() })
        + http11_text() + crlf() + headers_bytes(not_connection(headers)) + crlf() + body
}

/// A response read from upstream.
pub struct ResponseView {
    pub protocol: HttpProtocol,
    pub status: HttpStatus,
    pub headers: Seq<(Seq<u8>, Seq<u8>)>,
    pub body: Seq<u8>,
    /// The upstream connection may be reused.
    pub keepalive: bool,
}

pub enum ResponseOutcome {
    /// The response, and the bytes it took.
    Complete(ResponseView, nat),
    Need,
    Bad,
}

/// How the upstream delimits the body.
pub enum BodyKind {
    Length(nat),
    Chunked,
    UntilClose,
    Empty,
    Missing,
}

pub open spec fn body_kind(protocol: HttpProtocol, status: HttpStatus, hs: Seq<(Seq<u8>, Seq<u8>)>) -> Option<BodyKind> {
    match find_header(hs, length_name()) {
        Some(v) => match dec_value(v) {
            Some(n) => if n <= MAX_CONTENT_LENGTH {
                Some(BodyKind::Length(n))
            } else {
                None
            },
            None => None,
        },
        None => if (match find_header(hs, encoding_name()) {
            Some(v) => lists(v, chunked_word()),
            None => false,
        }) {
            Some(BodyKind::Chunked)
        } else if protocol == HttpProtocol::HTTP10 {
            Some(BodyKind::UntilClose)
        } else if status == HttpStatus::NOT_MODIFIED {
            Some(BodyKind::Empty)
        } else {
            Some(BodyKind::Missing)
        },
    }
}

/// The protocol and status of a status line `HTTP/x.y code reason`.
pub open spec fn status_line(line: Seq<u8>) -> Option<(HttpProtocol, HttpStatus)> {
    match (after(line, SPACE), protocol_of(before(line, SPACE))) {
        (Some(rest), Some(p)) => match dec_value(before(rest, SPACE)) {
            Some(code) => if code <= 999 {
                Some((p, status_of(code as i64)))
            } else {
                None
            },
            None => None,
        },
        _ => None,
    }
}

/// The response once its head is read: `rest` is what follows the head.
pub open spec fn body_outcome(
    p: HttpProtocol,
    st: HttpStatus,
    hs: Seq<(Seq<u8>, Seq<u8>)>,
    keep: bool,
    head: int,
    rest: Seq<u8>,
    total: nat,
    eof: bool,
) -> ResponseOutcome {
    let out = passed_on(hs);
    match body_kind(p, st, hs) {
        None => ResponseOutcome::Bad,
        Some(BodyKind::Length(n)) => if rest.len() < n {
            if eof { ResponseOutcome::Bad } else { ResponseOutcome::Need }
        } else {
            ResponseOutcome::Complete(
                ResponseView { protocol: p, status: st, headers: out, body: rest.take(n as int), keepalive: keep },
                (head + n) as nat,
            )
        },
        Some(BodyKind::Chunked) => match dechunk(rest) {
            Dechunked::Done(b, used) => ResponseOutcome::Complete(
                ResponseView { protocol: p, status: st, headers: out, body: b, keepalive: keep },
                (head + used) as nat,
            ),
            Dechunked::Need => if eof { ResponseOutcome::Bad } else { ResponseOutcome::Need },
            Dechunked::Bad => ResponseOutcome::Bad,
        },
        Some(BodyKind::UntilClose) => if eof {
            ResponseOutcome::Complete(ResponseView { protocol: p, status: st, headers: out, body: rest, keepalive: false }, total)
        } else {
            ResponseOutcome::Need
        },
        Some(BodyKind::Empty) => ResponseOutcome::Complete(
            ResponseView { protocol: p, status: st, headers: out, body: Seq::empty(), keepalive: keep },
            head as nat,
        ),
        Some(BodyKind::Missing) => ResponseOutcome::Complete(
            ResponseView { protocol: p, status: HttpStatus::BAD_GATEWAY, headers: out, body: Seq::empty(), keepalive: keep },
            head as nat,
        ),
    }
}

/// The upstream connection may be reused after this response.
pub open spec fn upstream_keeps(p: HttpProtocol, hs: Seq<(Seq<u8>, Seq<u8>)>) -> bool {
    p == HttpProtocol::HTTP11 && !(match find_header(hs, connection_name()) {
        Some(v) => eq_ignore_case(v, close_word()),
        None => false,
    })
}

/// Reads an upstream response from the bytes received so far; `eof` tells
/// that the upstream has closed. A response with neither length nor chunked
/// coding on HTTP/1.1 (but 304) becomes 502 with an empty body.
pub open spec fn response_parse(s: Seq<u8>, eof: bool) -> ResponseOutcome {
    match first_of(s, LF) {
        None => if eof { ResponseOutcome::Bad } else { ResponseOutcome::Need },
        Some(lf) => {
            let i = lf as int;
            match status_line(strip_cr(s.take(i))) {
                None => ResponseOutcome::Bad,
                Some((p, st)) => match header_lines(s.skip(i + 1)) {
                    HeadersParse::Need => if eof { ResponseOutcome::Bad } else { ResponseOutcome::Need },
                    HeadersParse::Bad => ResponseOutcome::Bad,
                    HeadersParse::Done(hs, u) => body_outcome(p, st, hs, upstream_keeps(p, hs), i + 1 + u, s.skip(i + 1 + u), s.len(), eof),
                },
            }
        },
    }
}

/// A parsed upstream response.
pub struct UpstreamResponse {
    pub protocol: HttpProtocol,
    pub status: HttpStatus,
    pub headers: Vec<(Vec<u8>, Vec<u8>)>,
    pub body: Vec<u8>,
    pub keepalive: bool,
}

impl UpstreamResponse {
    pub open spec fn view(&self) -> ResponseView {
        ResponseView {
            protocol: self.protocol,
            status: self.status,
            headers: pairs_of(self.headers@),
            body: self.body@,
            keepalive: self.keepalive,
        }
    }
}

pub enum ProxyParse {
    Complete(UpstreamResponse, usize),
    Again,
    Invalid,
}

/// The proxy content handler: prepares the request sent upstream and reads
/// the response that comes back.
pub struct Proxy {}

fn append(v: &mut Vec<u8>, s: &[u8])
    ensures
        final(v)@ == old(v)@ + s@,
{
    let mut i: usize = 0;
    let ghost start = v@;
    while i < s.len()
        invariant
            i <= s@.len(),
            v@ == start + s@.subrange(0, i as int),
        decreases s@.len() - i,
    {
        v.push(s[i]);
        i = i + 1;
        assert(v@ == start + s@.subrange(0, i as int));
    }
    assert(s@.subrange(0, s@.len() as int) == s@);
}

fn copy(s: &[u8]) -> (r: Vec<u8>)
    ensures
        r@ == s@,
{
    let r = crate::bytes::copy_slice(s, 0, s.len());
    assert(r@ == s@);
    r
}

fn is_hop(name: &[u8]) -> (r: bool)
    ensures
        r == hop_header(name@),
{
    let c: Vec<u8> = vec![/* connection */ 99u8, 111u8, 110u8, 110u8, 101u8, 99u8, 116u8, 105u8, 111u8, 110u8];
    let l: Vec<u8> = vec![/* content-length */ 99u8, 111u8, 110u8, 116u8, 101u8, 110u8, 116u8, 45u8, 108u8, 101u8, 110u8, 103u8, 116u8, 104u8];
    let t: Vec<u8> = vec![/* transfer-encoding */ 116u8, 114u8, 97u8, 110u8, 115u8, 102u8, 101u8, 114u8, 45u8, 101u8, 110u8, 99u8, 111u8, 100u8, 105u8, 110u8, 103u8];
    let s: Vec<u8> = vec![/* server */ 115u8, 101u8, 114u8, 118u8, 101u8, 114u8];
    bytes_eq_ignore_case(name, c.as_slice()) || bytes_eq_ignore_case(name, l.as_slice())
        || bytes_eq_ignore_case(name, t.as_slice()) || bytes_eq_ignore_case(name, s.as_slice())
}

fn filter_headers(hs: &Vec<(Vec<u8>, Vec<u8>)>, only_connection: bool) -> (r: Vec<(Vec<u8>, Vec<u8>)>)
    ensures
        pairs_of(r@) == if only_connection { not_connection(pairs_of(hs@)) } else { passed_on(pairs_of(hs@)) },
{
    let ghost ps = pairs_of(hs@);
    let c: Vec<u8> = vec![/* connection */ 99u8, 111u8, 110u8, 110u8, 101u8, 99u8, 116u8, 105u8, 111u8, 110u8];
    let mut r: Vec<(Vec<u8>, Vec<u8>)> = Vec::new();
    let mut i: usize = 0;
    while i < hs.len()
        invariant
            i <= hs@.len(),
            ps == pairs_of(hs@),
            c@ == connection_name(),
            pairs_of(r@) == if only_connection { not_connection(ps.take(i as int)) } else { passed_on(ps.take(i as int)) },
        decreases hs@.len() - i,
    {
        proof {
            assert(ps.take(i + 1).drop_last() == ps.take(i as int));
            assert(ps.take(i + 1).last() == ps[i as int]);
        }
        let drop = if only_connection {
            bytes_eq_ignore_case(hs[i].0.as_slice(), c.as_slice())
        } else {
            is_hop(hs[i].0.as_slice())
        };
        if !drop {
            let k = copy(hs[i].0.as_slice());
            let v = copy(hs[i].1.as_slice());
            let ghost before = pairs_of(r@);
            r.push((k, v));
            assert(pairs_of(r@) == before.push((k@, v@)));
        }
        i = i + 1;
    }
    assert(ps.take(i as int) == ps);
    r
}

fn push_headers(v: &mut Vec<u8>, hs: &Vec<(Vec<u8>, Vec<u8>)>)
    ensures
        final(v)@ == old(v)@ + headers_bytes(pairs_of(hs@)),
{
    let ghost ps = pairs_of(hs@);
    let ghost start = v@;
    let mut i: usize = 0;
    while i < hs.len()
        invariant
            i <= hs@.len(),
            ps == pairs_of(hs@),
            v@ == start + headers_bytes(ps.take(i as int)),
        decreases hs@.len() - i,
    {
        proof {
            assert(ps.take(i + 1).drop_last() == ps.take(i as int));
            assert(ps.take(i + 1).last() == ps[i as int]);
        }
        let ghost before = v@;
        append(v, hs[i].0.as_slice());
        v.push(58u8);
        v.push(32u8);
        append(v, hs[i].1.as_slice());
        v.push(CR);
        v.push(LF);
        assert(v@ == before + header_bytes(ps[i as int].0, ps[i as int].1));
        i = i + 1;
    }
    assert(ps.take(i as int) == ps);
}

impl Proxy {
    pub fn new() -> (p: Proxy) {
        Proxy {}
    }

    /// The bytes of the request sent upstream.
    pub fn prepare_request(&self, req: &HttpRequest) -> (r: Vec<u8>)
        ensures
            r@ == upstream_request(
                method_name(req.method),
                req.uri@,
                pairs_of(req.args@),
                pairs_of(req.headers@),
                match req.body {
                    Some(b) => b@,
                    None => Seq::empty(),
                },
            ),
    {
        let mut r = req.method.name();
        r.push(SPACE);
        append(&mut r, req.uri.as_slice());
        if req.args.len() > 0 {
            r.push(QUESTION);
            let a = format_args(&req.args);
            append(&mut r, a.as_slice());
        }
        let proto: Vec<u8> = vec![/*  HTTP/1.1 */ 32u8, 72u8, 84u8, 84u8, 80u8, 47u8, 49u8, 46u8, 49u8];
        append(&mut r, proto.as_slice());
        r.push(CR);
        r.push(LF);
        let hs = filter_headers(&req.headers, true);
        push_headers(&mut r, &hs);
        r.push(CR);
        r.push(LF);
        match &req.body {
            Some(b) => append(&mut r, b.as_slice()),
            None => {},
        }
        r
    }

    /// Reads the upstream response in `s`; `eof` tells that the upstream has
    /// closed the connection.
    pub fn parse_response(&self, s: &[u8], eof: bool) -> (r: ProxyParse)
        ensures
            match (r, response_parse(s@, eof)) {
                (ProxyParse::Complete(resp, n), ResponseOutcome::Complete(v, sn)) => resp.view() == v && n as nat == sn,
                (ProxyParse::Again, ResponseOutcome::Need) => true,
                (ProxyParse::Invalid, ResponseOutcome::Bad) => true,
                _ => false,
            },
    {
        let i = match index_of(s, LF) {
            None => {
                return if eof { ProxyParse::Invalid } else { ProxyParse::Again };
            },
            Some(i) => i,
        };
        let mut line_end = i;
        if i > 0 && s[i - 1] == CR {
            line_end = i - 1;
        }
        let line = vstd::slice::slice_subrange(s, 0, line_end);
        proof {
            let l = s@.take(i as int);
            if i > 0 && s@[i - 1] == CR {
                assert(l.last() == CR);
                assert(line@ == l.drop_last());
            } else {
                assert(line@ == l);
            }
        }
        let (p, st) = match parse_status_line(line) {
            None => {
                return ProxyParse::Invalid;
            },
            Some(ps) => ps,
        };
        let (hs, u) = match parse_headers(s, i + 1) {
            Headers::Again => {
                return if eof { ProxyParse::Invalid } else { ProxyParse::Again };
            },
            Headers::Invalid => {
                return ProxyParse::Invalid;
            },
            Headers::Done(hs, u) => (hs, u),
        };
        let head = i + 1 + u;
        let conn: Vec<u8> = vec![/* connection */ 99u8, 111u8, 110u8, 110u8, 101u8, 99u8, 116u8, 105u8, 111u8, 110u8];
        let close: Vec<u8> = vec![/* close */ 99u8, 108u8, 111u8, 115u8, 101u8];
        let keep = p == HttpProtocol::HTTP11 && !(match header_value(&hs, conn.as_slice()) {
            Some(v) => bytes_eq_ignore_case(v.as_slice(), close.as_slice()),
            None => false,
        });
        read_body(s, head, p, st, &hs, keep, eof)
    }
}

/// Reads the protocol and status of a status line.
fn parse_status_line(line: &[u8]) -> (r: Option<(HttpProtocol, HttpStatus)>)
    ensures
        r == status_line(line@),
{
    let (proto, rest) = split_once(line, SPACE);
    let rest = match rest {
        None => {
            return None;
        },
        Some(r) => r,
    };
    let p = match HttpProtocol::from_bytes(proto.as_slice()) {
        None => {
            return None;
        },
        Some(p) => p,
    };
    let (code_text, _reason) = split_once(rest.as_slice(), SPACE);
    let code = match parse_decimal(code_text.as_slice()) {
        None => {
            return None;
        },
        Some(c) => c,
    };
    if code > 999 {
        return None;
    }
    Some((p, HttpStatus::from_code(code as i64)))
}

/// Reads the body that follows a head of `head` bytes.
fn read_body(
    s: &[u8],
    head: usize,
    p: HttpProtocol,
    st: HttpStatus,
    hs: &Vec<(Vec<u8>, Vec<u8>)>,
    keep: bool,
    eof: bool,
) -> (r: ProxyParse)
    requires
        head <= s@.len(),
    ensures
        match (r, body_outcome(p, st, pairs_of(hs@), keep, head as int, s@.skip(head as int), s@.len(), eof)) {
            (ProxyParse::Complete(resp, n), ResponseOutcome::Complete(v, sn)) => resp.view() == v && n as nat == sn,
            (ProxyParse::Again, ResponseOutcome::Need) => true,
            (ProxyParse::Invalid, ResponseOutcome::Bad) => true,
            _ => false,
        },
{
    let len = s.len();
    let out = filter_headers(hs, false);
    let body_start = vstd::slice::slice_subrange(s, head, len);
    assert(body_start@ == s@.skip(head as int));
    let length_key: Vec<u8> = vec![/* content-length */ 99u8, 111u8, 110u8, 116u8, 101u8, 110u8, 116u8, 45u8, 108u8, 101u8, 110u8, 103u8, 116u8, 104u8];
    let encoding_key: Vec<u8> = vec![/* transfer-encoding */ 116u8, 114u8, 97u8, 110u8, 115u8, 102u8, 101u8, 114u8, 45u8, 101u8, 110u8, 99u8, 111u8, 100u8, 105u8, 110u8, 103u8];
    let chunked: Vec<u8> = vec![/* chunked */ 99u8, 104u8, 117u8, 110u8, 107u8, 101u8, 100u8];
    match header_value(hs, length_key.as_slice()) {
        Some(v) => {
            let n = match parse_decimal(v.as_slice()) {
                None => {
                    return ProxyParse::Invalid;
                },
                Some(n) => n,
            };
            if len - head < n {
                return if eof { ProxyParse::Invalid } else { ProxyParse::Again };
            }
            let body = crate::bytes::copy_slice(s, head, head + n);
            assert(body@ == s@.skip(head as int).take(n as int));
            ProxyParse::Complete(UpstreamResponse { protocol: p, status: st, headers: out, body, keepalive: keep }, head + n)
        },
        None => {
            let is_chunked = match header_value(hs, encoding_key.as_slice()) {
                Some(v) => list_contains(v.as_slice(), chunked.as_slice()),
                None => false,
            };
            if is_chunked {
                match decode_chunked(body_start) {
                    ChunkedParse::Done(body, used) => {
                        ProxyParse::Complete(UpstreamResponse { protocol: p, status: st, headers: out, body, keepalive: keep }, head + used)
                    },
                    ChunkedParse::Again => if eof { ProxyParse::Invalid } else { ProxyParse::Again },
                    ChunkedParse::Invalid => ProxyParse::Invalid,
                }
            } else if p == HttpProtocol::HTTP10 {
                if eof {
                    let body = copy(body_start);
                    ProxyParse::Complete(UpstreamResponse { protocol: p, status: st, headers: out, body, keepalive: false }, len)
                } else {
                    ProxyParse::Again
                }
            } else if st == HttpStatus::NOT_MODIFIED {
                ProxyParse::Complete(UpstreamResponse { protocol: p, status: st, headers: out, body: Vec::new(), keepalive: keep }, head)
            } else {
                ProxyParse::Complete(
                    UpstreamResponse { protocol: p, status: HttpStatus::BAD_GATEWAY, headers: out, body: Vec::new(), keepalive: keep },
                    head,
                )
            }
        },
    }
}

impl Proxy {
    /// The client's response to a request that went upstream: the upstream's
    /// status, headers and body, the body's length known.
    pub fn respond(&self, req: &HttpRequest, up: &UpstreamResponse) -> (resp: HttpResponse)
        ensures
            resp.spec_status() == up.status,
            resp.spec_protocol() == req.protocol,
            resp.spec_client_close() == asks_close(pairs_of(req.headers@)),
            resp.spec_headers() == pairs_of(up.headers@),
            resp.spec_body() == up.body@,
            resp.spec_content_length() == Some(up.body@.len() as usize),
            !resp.spec_headers_sent(),
    {
        let mut resp = HttpResponse::new(req.protocol, client_close(req));
        resp.set_status(up.status);
        let mut i: usize = 0;
        let ghost ps = pairs_of(up.headers@);
        while i < up.headers.len()
            invariant
                i <= up.headers@.len(),
                ps == pairs_of(up.headers@),
                resp.spec_headers() == ps.take(i as int),
                resp.spec_status() == up.status,
                resp.spec_protocol() == req.protocol,
                resp.spec_client_close() == asks_close(pairs_of(req.headers@)),
                !resp.spec_headers_sent(),
            decreases up.headers@.len() - i,
        {
            resp.add_header(up.headers[i].0.as_slice(), up.headers[i].1.as_slice());
            assert(ps.take(i + 1) == ps.take(i as int).push(ps[i as int]));
            i = i + 1;
        }
        assert(ps.take(i as int) == ps);
        resp.set_body(up.body.as_slice());
        resp
    }
}

pub open spec fn upstream_addr_name() -> Seq<u8> {
    seq![/* upstream_addr */ 117u8, 112u8, 115u8, 116u8, 114u8, 101u8, 97u8, 109u8, 95u8, 97u8, 100u8, 100u8, 114u8]
}

pub open spec fn upstream_status_name() -> Seq<u8> {
    seq![/* upstream_status */ 117u8, 112u8, 115u8, 116u8, 114u8, 101u8, 97u8, 109u8, 95u8, 115u8, 116u8, 97u8, 116u8, 117u8, 115u8]
}

pub open spec fn upstream_name_name() -> Seq<u8> {
    seq![/* upstream_name */ 117u8, 112u8, 115u8, 116u8, 114u8, 101u8, 97u8, 109u8, 95u8, 110u8, 97u8, 109u8, 101u8]
}

pub open spec fn upstream_time_name() -> Seq<u8> {
    seq![/* upstream_response_time */ 117u8, 112u8, 115u8, 116u8, 114u8, 101u8, 97u8, 109u8, 95u8, 114u8, 101u8, 115u8, 112u8, 111u8, 110u8, 115u8, 101u8, 95u8, 116u8, 105u8, 109u8, 101u8]
}

/// The variables a proxied request publishes: the upstream's name, the
/// address of the server that answered, the status it gave, and the
/// milliseconds the upstream took.
pub fn upstream_vars(name: &[u8], addr: &[u8], status: HttpStatus, response_time: u64) -> (r: Vec<(Vec<u8>, Vec<u8>)>)
    requires
        response_time <= usize::MAX,
    ensures
        pairs_of(r@) == seq![
            (upstream_name_name(), name@),
            (upstream_addr_name(), addr@),
            (upstream_status_name(), dec(status_code(status) as nat)),
            (upstream_time_name(), dec(response_time as nat)),
        ],
{
    let mut r: Vec<(Vec<u8>, Vec<u8>)> = Vec::new();
    let n: Vec<u8> = vec![/* upstream_name */ 117u8, 112u8, 115u8, 116u8, 114u8, 101u8, 97u8, 109u8, 95u8, 110u8, 97u8, 109u8, 101u8];
    let a: Vec<u8> = vec![/* upstream_addr */ 117u8, 112u8, 115u8, 116u8, 114u8, 101u8, 97u8, 109u8, 95u8, 97u8, 100u8, 100u8, 114u8];
    let st: Vec<u8> = vec![/* upstream_status */ 117u8, 112u8, 115u8, 116u8, 114u8, 101u8, 97u8, 109u8, 95u8, 115u8, 116u8, 97u8, 116u8, 117u8, 115u8];
    let t: Vec<u8> = vec![/* upstream_response_time */ 117u8, 112u8, 115u8, 116u8, 114u8, 101u8, 97u8, 109u8, 95u8, 114u8, 101u8, 115u8, 112u8, 111u8, 110u8, 115u8, 101u8, 95u8, 116u8, 105u8, 109u8, 101u8];
    r.push((n, copy(name)));
    r.push((a, copy(addr)));
    r.push((st, format_dec(status.code() as usize)));
    r.push((t, format_dec(response_time as usize)));
    assert(pairs_of(r@) =~= seq![
        (upstream_name_name(), name@),
        (upstream_addr_name(), addr@),
        (upstream_status_name(), dec(status_code(status) as nat)),
        (upstream_time_name(), dec(response_time as nat)),
    ]);
    r
}

/// The whole response head (status line and headers) is in `s`.
pub open spec fn head_done(s: Seq<u8>) -> bool {
    match first_of(s, LF) {
        None => false,
        Some(lf) => status_line(strip_cr(s.take(lf as int))) is Some
            && header_lines(s.skip(lf as int + 1)) is Done,
    }
}

/// What to do after an upstream attempt failed.
#[derive(Clone, Copy, Debug, PartialEq, Eq, Structural)]
pub enum AfterFailure {
    /// Release the peer and try the next server.
    Retry,
    /// Answer the client with this status.
    Fail(HttpStatus),
}

/// Decides after an upstream attempt failed: a timeout answers 504; a
/// failure once the response head was seen answers 502, since the response
/// has begun; a failure before it tries the next server.
pub fn after_failure(head_seen: bool, timed_out: bool) -> (r: AfterFailure)
    ensures
        r == if timed_out {
            AfterFailure::Fail(HttpStatus::GATEWAY_TIMEOUT)
        } else if head_seen {
            AfterFailure::Fail(HttpStatus::BAD_GATEWAY)
        } else {
            AfterFailure::Retry
        },
{
    if timed_out {
        AfterFailure::Fail(HttpStatus::GATEWAY_TIMEOUT)
    } else if head_seen {
        AfterFailure::Fail(HttpStatus::BAD_GATEWAY)
    } else {
        AfterFailure::Retry
    }
}

impl Proxy {
    /// Tells whether the bytes received from upstream hold the whole response head.
    pub fn head_received(&self, s: &[u8]) -> (r: bool)
        ensures
            r == head_done(s@),
    {
        let i = match index_of(s, LF) {
            None => {
                return false;
            },
            Some(i) => i,
        };
        let mut line_end = i;
        if i > 0 && s[i - 1] == CR {
            line_end = i - 1;
        }
        let line = vstd::slice::slice_subrange(s, 0, line_end);
        proof {
            let l = s@.take(i as int);
            if i > 0 && s@[i - 1] == CR {
                assert(l.last() == CR);
                assert(line@ == l.drop_last());
            } else {
                assert(line@ == l);
            }
        }
        if parse_status_line(line).is_none() {
            return false;
        }
        match parse_headers(s, i + 1) {
            Headers::Done(_, _) => true,
            _ => false,
        }
    }
}

} // verus!
