use vstd::prelude::*;
use crate::bytes::{bytes_eq_ignore_case, copy_slice, eq_ignore_case, first_of, lemma_first_of_from, split, split_on, trim, trimmed};
use crate::chunked::{CR, LF};
use crate::http::{method_of, protocol_of, HttpMethod, HttpProtocol};
use crate::percent::{url_decode, url_decoded, url_encode, url_encoded};
use crate::trie::seqs_view;

verus! {

pub const SPACE: u8 = 32;
pub const QUESTION: u8 = 63;
pub const AMPERSAND: u8 = 38;
pub const EQUALS: u8 = 61;
pub const COLON: u8 = 58;

/// The largest body length a request may announce: what a `usize` holds.
pub const MAX_CONTENT_LENGTH: usize = usize::MAX;

/// A line without its trailing CR.
pub open spec fn strip_cr(l: Seq<u8>) -> Seq<u8> {
    if l.len() > 0 && l.last() == CR {
        l.drop_last()
    } else {
        l
    }
}

/// `s` before the first `c`, or all of `s`.
pub open spec fn before(s: Seq<u8>, c: u8) -> Seq<u8> {
    match first_of(s, c) {
        Some(i) => s.take(i as int),
        None => s,
    }
}

/// `s` after the first `c`, if there is one.
pub open spec fn after(s: Seq<u8>, c: u8) -> Option<Seq<u8>> {
    match first_of(s, c) {
        Some(i) => Some(s.skip(i as int + 1)),
        None => None,
    }
}

/// The parts of a request line `METHOD SP target SP protocol`.
pub enum LineParse {
    Line(HttpMethod, Seq<u8>, HttpProtocol),
    /// The method is missing or not one the server knows: the connection ends.
    Fatal,
    /// The line is otherwise not well formed: the answer is 400.
    Malformed,
}

pub open spec fn request_line(line: Seq<u8>) -> LineParse {
    match after(line, SPACE) {
        None => LineParse::Fatal,
        Some(rest) => {
            let m = method_of(before(line, SPACE));
            if m == HttpMethod::UNSUPPORTED {
                LineParse::Fatal
            } else {
                match after(rest, SPACE) {
                    None => LineParse::Malformed,
                    Some(proto) => match protocol_of(proto) {
                        None => LineParse::Malformed,
                        Some(p) => LineParse::Line(m, before(rest, SPACE), p),
                    },
                }
            }
        },
    }
}

/// One `key=value` item of a query, both percent-decoded.
pub open spec fn query_item(item: Seq<u8>) -> Option<(Seq<u8>, Seq<u8>)> {
    match after(item, EQUALS) {
        None => None,
        Some(v) => Some((url_decoded(before(item, EQUALS)), url_decoded(v))),
    }
}

pub open spec fn query_items(items: Seq<Seq<u8>>) -> Option<Seq<(Seq<u8>, Seq<u8>)>>
    decreases items.len(),
{
    if items.len() == 0 {
        Some(Seq::empty())
    } else {
        match (query_items(items.drop_last()), query_item(items.last())) {
            (Some(prev), Some(p)) => Some(prev.push(p)),
            _ => None,
        }
    }
}

/// The arguments of a query string: `&`-separated `key=value` items; `None`
/// when an item has no `=`.
pub open spec fn query_args(q: Seq<u8>) -> Option<Seq<(Seq<u8>, Seq<u8>)>> {
    if q.len() == 0 {
        Some(Seq::empty())
    } else {
        query_items(split_on(q, AMPERSAND))
    }
}

/// A header line `name: value`, both without surrounding blanks.
pub open spec fn header_line(content: Seq<u8>) -> Option<(Seq<u8>, Seq<u8>)> {
    match after(content, COLON) {
        None => None,
        Some(v) => Some((trimmed(before(content, COLON)), trimmed(v))),
    }
}

/// What reading header lines finds.
pub enum HeadersParse {
    /// The headers, and the bytes they took with the empty line after them.
    Done(Seq<(Seq<u8>, Seq<u8>)>, nat),
    Need,
    Bad,
}

/// Header lines, each ended by CRLF, up to an empty line.
pub open spec fn header_lines(t: Seq<u8>) -> HeadersParse
    decreases t.len(),
{
    match first_of(t, LF) {
        None => HeadersParse::Need,
        Some(lf) => {
            let j = lf as int;
            if j >= t.len() {
                HeadersParse::Need
            } else if j == 0 || t[j - 1] != CR {
                HeadersParse::Bad
            } else if j == 1 {
                HeadersParse::Done(Seq::empty(), 2)
            } else {
                match header_line(t.take(j - 1)) {
                    None => HeadersParse::Bad,
                    Some(h) => match header_lines(t.skip(j + 1)) {
                        HeadersParse::Done(hs, u) => HeadersParse::Done(seq![h] + hs, (j + 1 + u) as nat),
                        other => other,
                    },
                }
            }
        },
    }
}

/// The value of the first header named `name`, up to ASCII case.
pub open spec fn find_header(hs: Seq<(Seq<u8>, Seq<u8>)>, name: Seq<u8>) -> Option<Seq<u8>>
    decreases hs.len(),
{
    if hs.len() == 0 {
        None
    } else if eq_ignore_case(hs[0].0, name) {
        Some(hs[0].1)
    } else {
        find_header(hs.drop_first(), name)
    }
}

/// The value of a non-empty string of decimal digits.
pub open spec fn dec_value(t: Seq<u8>) -> Option<nat>
    decreases t.len(),
{
    if t.len() == 0 || !(48 <= t.last() && t.last() <= 57) {
        None
    } else if t.len() == 1 {
        Some((t.last() - 48) as nat)
    } else {
        match dec_value(t.drop_last()) {
            Some(v) => Some(v * 10 + (t.last() - 48) as nat),
            None => None,
        }
    }
}

/// Index of the first `c` in `s`.
pub fn index_of(s: &[u8], c: u8) -> (r: Option<usize>)
    ensures
        match r {
            Some(i) => first_of(s@, c) == Some(i as nat) && i < s@.len(),
            None => first_of(s@, c) is None,
        },
{
    let mut i: usize = 0;
    while i < s.len()
        invariant
            i <= s@.len(),
            forall|k: int| 0 <= k < i ==> s@[k] != c,
        decreases s@.len() - i,
    {
        if s[i] == c {
            proof {
                lemma_first_of_from(s@, c, i as int);
            }
            return Some(i);
        }
        i = i + 1;
    }
    proof {
        lemma_first_of_from(s@, c, i as int);
    }
    None
}

/// `s` before the first `c`, and what follows that `c` if there is one.
pub fn split_once(s: &[u8], c: u8) -> (r: (Vec<u8>, Option<Vec<u8>>))
    ensures
        r.0@ == before(s@, c),
        match r.1 {
            Some(v) => after(s@, c) == Some(v@),
            None => after(s@, c) is None,
        },
{
    let n = s.len();
    match index_of(s, c) {
        Some(i) => (copy_slice(s, 0, i), Some(copy_slice(s, i + 1, n))),
        None => {
            let all = copy_slice(s, 0, s.len());
            assert(all@ == s@);
            (all, None)
        },
    }
}

/// Exec form of [`LineParse`].
pub enum RequestLine {
    Line(HttpMethod, Vec<u8>, HttpProtocol),
    Fatal,
    Malformed,
}

/// Reads a request line (without its line end).
pub fn parse_request_line(line: &[u8]) -> (r: RequestLine)
    ensures
        match (r, request_line(line@)) {
            (RequestLine::Line(m, t, p), LineParse::Line(sm, st, sp)) => m == sm && t@ == st && p == sp,
            (RequestLine::Fatal, LineParse::Fatal) => true,
            (RequestLine::Malformed, LineParse::Malformed) => true,
            _ => false,
        },
{
    let (word, rest) = split_once(line, SPACE);
    let rest = match rest {
        None => {
            return RequestLine::Fatal;
        },
        Some(rest) => rest,
    };
    let m = HttpMethod::from_bytes(word.as_slice());
    if m == HttpMethod::UNSUPPORTED {
        return RequestLine::Fatal;
    }
    let (target, proto) = split_once(rest.as_slice(), SPACE);
    match proto {
        None => RequestLine::Malformed,
        Some(proto) => match HttpProtocol::from_bytes(proto.as_slice()) {
            None => RequestLine::Malformed,
            Some(p) => RequestLine::Line(m, target, p),
        },
    }
}

pub open spec fn pairs_of(v: Seq<(Vec<u8>, Vec<u8>)>) -> Seq<(Seq<u8>, Seq<u8>)> {
    v.map_values(|p: (Vec<u8>, Vec<u8>)| (p.0@, p.1@))
}

/// Reads the arguments of a query string; `None` when an item has no `=`.
pub fn parse_query(q: &[u8]) -> (r: Option<Vec<(Vec<u8>, Vec<u8>)>>)
    ensures
        match r {
            Some(v) => query_args(q@) == Some(pairs_of(v@)),
            None => query_args(q@) is None,
        },
{
    let mut args: Vec<(Vec<u8>, Vec<u8>)> = Vec::new();
    if q.len() == 0 {
        assert(pairs_of(args@) =~= Seq::empty());
        return Some(args);
    }
    let items = split(q, AMPERSAND);
    let ghost its = seqs_view(items@);
    assert(its == split_on(q@, AMPERSAND));
    let mut i: usize = 0;
    while i < items.len()
        invariant
            i <= items@.len(),
            its == seqs_view(items@),
            its == split_on(q@, AMPERSAND),
            q@.len() > 0,
            query_items(its.take(i as int)) == Some(pairs_of(args@)),
        decreases items@.len() - i,
    {
        proof {
            assert(its.take(i + 1).drop_last() == its.take(i as int));
            assert(its.take(i + 1).last() == its[i as int]);
        }
        assert(its[i as int] == items@[i as int]@);
        let (k, v) = split_once(items[i].as_slice(), EQUALS);
        match v {
            None => {
                proof {
                    lemma_query_items_none(its, i as int + 1);
                    assert(its.take(its.len() as int) == its);
                }
                return None;
            },
            Some(v) => {
                let dk = url_decode(k.as_slice());
                let dv = url_decode(v.as_slice());
                let ghost before_push = args@;
                args.push((dk, dv));
                assert(pairs_of(args@) == pairs_of(before_push).push((dk@, dv@)));
            },
        }
        i = i + 1;
    }
    assert(its.take(i as int) == its);
    Some(args)
}

proof fn lemma_query_items_none(items: Seq<Seq<u8>>, k: int)
    requires
        0 < k <= items.len(),
        query_items(items.take(k)) is None,
    ensures
        query_items(items) is None,
    decreases items.len() - k,
{
    if k < items.len() {
        assert(items.take(k + 1).drop_last() == items.take(k));
        lemma_query_items_none(items, k + 1);
    } else {
        assert(items.take(k) == items);
    }
}

/// Reads a header line (without its CRLF).
pub fn parse_header_line(content: &[u8]) -> (r: Option<(Vec<u8>, Vec<u8>)>)
    ensures
        match r {
            Some(h) => header_line(content@) == Some((h.0@, h.1@)),
            None => header_line(content@) is None,
        },
{
    let (k, v) = split_once(content, COLON);
    match v {
        None => None,
        Some(v) => Some((trim(k.as_slice()), trim(v.as_slice()))),
    }
}

/// Exec form of [`HeadersParse`].
pub enum Headers {
    Done(Vec<(Vec<u8>, Vec<u8>)>, usize),
    Again,
    Invalid,
}

pub open spec fn prepend_headers(acc: Seq<(Seq<u8>, Seq<u8>)>, used: nat, h: HeadersParse) -> HeadersParse {
    match h {
        HeadersParse::Done(hs, u) => HeadersParse::Done(acc + hs, used + u),
        other => other,
    }
}

/// Reads header lines from `s[from..]`.
pub fn parse_headers(s: &[u8], from: usize) -> (r: Headers)
    requires
        from <= s@.len(),
    ensures
        match (r, header_lines(s@.skip(from as int))) {
            (Headers::Done(hs, u), HeadersParse::Done(shs, su)) => pairs_of(hs@) == shs && u as nat == su,
            (Headers::Again, HeadersParse::Need) => true,
            (Headers::Invalid, HeadersParse::Bad) => true,
            _ => false,
        },
        r matches Headers::Done(_, u) ==> from + u <= s@.len(),
{
    let mut hs: Vec<(Vec<u8>, Vec<u8>)> = Vec::new();
    let mut pos: usize = from;
    let len = s.len();
    proof {
        match header_lines(s@.skip(from as int)) {
            HeadersParse::Done(b, u) => {
                assert(pairs_of(hs@) + b == b);
            },
            _ => {},
        }
    }
    loop
        invariant
            from <= pos <= s@.len(),
            len == s@.len(),
            header_lines(s@.skip(from as int)) == prepend_headers(pairs_of(hs@), (pos - from) as nat, header_lines(s@.skip(pos as int))),
        decreases s@.len() - pos,
    {
        let ghost t = s@.skip(pos as int);
        let rest = vstd::slice::slice_subrange(s, pos, len);
        assert(rest@ == t);
        let j = match index_of(rest, LF) {
            None => {
                return Headers::Again;
            },
            Some(j) => j,
        };
        if j == 0 || rest[j - 1] != CR {
            return Headers::Invalid;
        }
        if j == 1 {
            proof {
                assert(pairs_of(hs@) + Seq::<(Seq<u8>, Seq<u8>)>::empty() == pairs_of(hs@));
            }
            return Headers::Done(hs, pos + 2 - from);
        }
        let content = vstd::slice::slice_subrange(rest, 0, j - 1);
        assert(content@ == t.take(j - 1));
        match parse_header_line(content) {
            None => {
                return Headers::Invalid;
            },
            Some(h) => {
                let ghost prev = pairs_of(hs@);
                hs.push(h);
                proof {
                    assert(pairs_of(hs@) == prev.push((h.0@, h.1@)));
                    assert(t.skip(j + 1) == s@.skip(pos + j + 1));
                    match header_lines(s@.skip(pos + j + 1)) {
                        HeadersParse::Done(b, u) => {
                            assert(prev + (seq![(h.0@, h.1@)] + b) == pairs_of(hs@) + b);
                        },
                        _ => {},
                    }
                }
                pos = pos + j + 1;
            },
        }
    }
}

/// Finds the value of the first header named `name`, up to ASCII case.
pub fn header_value<'a>(hs: &'a Vec<(Vec<u8>, Vec<u8>)>, name: &[u8]) -> (r: Option<&'a Vec<u8>>)
    ensures
        match r {
            Some(v) => find_header(pairs_of(hs@), name@) == Some(v@),
            None => find_header(pairs_of(hs@), name@) is None,
        },
{
    let ghost ps = pairs_of(hs@);
    let mut i: usize = 0;
    assert(ps.skip(0) == ps);
    while i < hs.len()
        invariant
            i <= hs@.len(),
            ps == pairs_of(hs@),
            find_header(ps, name@) == find_header(ps.skip(i as int), name@),
        decreases hs@.len() - i,
    {
        let ghost t = ps.skip(i as int);
        assert(t[0] == ps[i as int]);
        assert(t.drop_first() == ps.skip(i + 1));
        if bytes_eq_ignore_case(hs[i].0.as_slice(), name) {
            return Some(&hs[i].1);
        }
        i = i + 1;
    }
    None
}

proof fn lemma_dec_value_prefix(t: Seq<u8>, k: int)
    requires
        0 < k <= t.len(),
        dec_value(t) is Some,
    ensures
        dec_value(t.take(k)) is Some,
        dec_value(t.take(k))->0 <= dec_value(t)->0,
    decreases t.len(),
{
    if k < t.len() {
        assert(t.drop_last().take(k) == t.take(k));
        lemma_dec_value_prefix(t.drop_last(), k);
    } else {
        assert(t.take(k) == t);
    }
}

/// Reads a decimal number; `None` when `t` is not decimal digits or the
/// number exceeds [`MAX_CONTENT_LENGTH`].
pub fn parse_decimal(t: &[u8]) -> (r: Option<usize>)
    ensures
        r matches Some(n) ==> dec_value(t@) == Some(n as nat) && n <= MAX_CONTENT_LENGTH,
        r is None ==> (dec_value(t@) matches Some(n) ==> n > MAX_CONTENT_LENGTH),
{
    if t.len() == 0 {
        return None;
    }
    let mut v: usize = 0;
    let mut i: usize = 0;
    while i < t.len()
        invariant
            i <= t@.len(),
            v <= MAX_CONTENT_LENGTH,
            i > 0 ==> dec_value(t@.take(i as int)) == Some(v as nat),
            i == 0 ==> v == 0,
        decreases t@.len() - i,
    {
        let c = t[i];
        let ghost k = i as int;
        proof {
            assert(t@.take(k + 1).drop_last() == t@.take(k));
            assert(t@.take(k + 1).last() == c);
        }
        if c < 48 || c > 57 {
            proof {
                if dec_value(t@) is Some {
                    lemma_dec_value_prefix(t@, k + 1);
                }
            }
            return None;
        }
        let d = (c - 48) as usize;
        if v > (MAX_CONTENT_LENGTH - d) / 10 {
            proof {
                let m = MAX_CONTENT_LENGTH - d;
                assert(v * 10 + d > MAX_CONTENT_LENGTH) by (nonlinear_arith)
                    requires
                        v > m / 10,
                        m == MAX_CONTENT_LENGTH - d,
                        0 <= d < 10,
                        m >= 0,
                ;
                assert(dec_value(t@.take(k + 1)) == Some((v * 10 + d) as nat));
                if dec_value(t@) is Some {
                    lemma_dec_value_prefix(t@, k + 1);
                }
            }
            return None;
        }
        v = v * 10 + d;
        i = i + 1;
    }
    assert(t@.take(t@.len() as int) == t@);
    Some(v)
}

pub open spec fn content_length_name() -> Seq<u8> {
    seq![/* content-length */ 99u8, 111u8, 110u8, 116u8, 101u8, 110u8, 116u8, 45u8, 108u8, 101u8, 110u8, 103u8, 116u8, 104u8]
}

pub open spec fn expect_name() -> Seq<u8> {
    seq![/* expect */ 101u8, 120u8, 112u8, 101u8, 99u8, 116u8]
}

pub open spec fn host_name() -> Seq<u8> {
    seq![/* host */ 104u8, 111u8, 115u8, 116u8]
}

pub open spec fn continue_value() -> Seq<u8> {
    seq![/* 100-continue */ 49u8, 48u8, 48u8, 45u8, 99u8, 111u8, 110u8, 116u8, 105u8, 110u8, 117u8, 101u8]
}

/// A parsed request, as plain values.
pub struct RequestView {
    pub method: HttpMethod,
    pub protocol: HttpProtocol,
    pub uri: Seq<u8>,
    pub query_string: Seq<u8>,
    pub request_uri: Seq<u8>,
    pub args: Seq<(Seq<u8>, Seq<u8>)>,
    pub headers: Seq<(Seq<u8>, Seq<u8>)>,
    pub host: Seq<u8>,
    pub content_length: Option<nat>,
    pub body: Option<Seq<u8>>,
}

/// What parsing the bytes received so far finds.
pub enum RequestOutcome {
    /// The request, and how many bytes it took.
    Complete(RequestView, nat),
    /// More bytes are needed; `true` when the client waits for `100 Continue`
    /// before it sends the body.
    Need(bool),
    /// Answered with 400.
    Malformed,
    /// The connection ends.
    Fatal,
}

/// The request that the bytes `s` begin with. `default_host` is the host when
/// no `Host` header names one.
pub open spec fn request_parse(s: Seq<u8>, default_host: Seq<u8>) -> RequestOutcome {
    match first_of(s, LF) {
        None => RequestOutcome::Need(false),
        Some(lf) => {
            let i = lf as int;
            match request_line(strip_cr(s.take(i))) {
                LineParse::Fatal => RequestOutcome::Fatal,
                LineParse::Malformed => RequestOutcome::Malformed,
                LineParse::Line(m, target, p) => {
                    let raw_uri = before(target, QUESTION);
                    let query = after(target, QUESTION);
                    let qs = match query {
                        Some(q) => q,
                        None => Seq::empty(),
                    };
                    let uri = url_decoded(raw_uri);
                    match (query_args(qs), header_lines(s.skip(i + 1))) {
                        (None, _) => RequestOutcome::Malformed,
                        (_, HeadersParse::Bad) => RequestOutcome::Malformed,
                        (_, HeadersParse::Need) => RequestOutcome::Need(false),
                        (Some(args), HeadersParse::Done(hs, u)) => {
                            let head = i + 1 + u;
                            let expect = match find_header(hs, expect_name()) {
                                Some(v) => eq_ignore_case(v, continue_value()),
                                None => false,
                            };
                            let host = match find_header(hs, host_name()) {
                                Some(h) => h,
                                None => default_host,
                            };
                            let request_uri = match query {
                                Some(q) => uri + seq![QUESTION] + q,
                                None => uri,
                            };
                            let cl = match find_header(hs, content_length_name()) {
                                None => Some(None::<nat>),
                                Some(v) => match dec_value(v) {
                                    Some(n) => if n <= MAX_CONTENT_LENGTH {
                                        Some(Some(n))
                                    } else {
                                        None
                                    },
                                    None => None,
                                },
                            };
                            match cl {
                                None => RequestOutcome::Malformed,
                                Some(len) => {
                                    let n = match len {
                                        Some(n) => n as int,
                                        None => 0,
                                    };
                                    if s.len() < head + n {
                                        RequestOutcome::Need(expect)
                                    } else {
                                        RequestOutcome::Complete(
                                            RequestView {
                                                method: m,
                                                protocol: p,
                                                uri,
                                                query_string: qs,
                                                request_uri,
                                                args,
                                                headers: hs,
                                                host,
                                                content_length: len,
                                                body: if n > 0 {
                                                    Some(s.subrange(head, head + n))
                                                } else {
                                                    None
                                                },
                                            },
                                            (head + n) as nat,
                                        )
                                    }
                                },
                            }
                        },
                    }
                },
            }
        },
    }
}

/// A parsed request, with the variables that routing and configuration set on it.
pub struct HttpRequest {
    pub method: HttpMethod,
    pub protocol: HttpProtocol,
    pub uri: Vec<u8>,
    pub query_string: Vec<u8>,
    pub request_uri: Vec<u8>,
    pub args: Vec<(Vec<u8>, Vec<u8>)>,
    pub headers: Vec<(Vec<u8>, Vec<u8>)>,
    pub host: Vec<u8>,
    pub content_length: Option<usize>,
    pub body: Option<Vec<u8>>,
    pub vars: Vec<(Vec<u8>, Vec<u8>)>,
}

pub open spec fn opt_len(o: Option<usize>) -> Option<nat> {
    match o {
        Some(n) => Some(n as nat),
        None => None,
    }
}

pub open spec fn opt_bytes(o: Option<Vec<u8>>) -> Option<Seq<u8>> {
    match o {
        Some(v) => Some(v@),
        None => None,
    }
}

impl HttpRequest {
    pub open spec fn view_parsed(&self) -> RequestView {
        RequestView {
            method: self.method,
            protocol: self.protocol,
            uri: self.uri@,
            query_string: self.query_string@,
            request_uri: self.request_uri@,
            args: pairs_of(self.args@),
            headers: pairs_of(self.headers@),
            host: self.host@,
            content_length: opt_len(self.content_length),
            body: opt_bytes(self.body),
        }
    }
}

/// Exec form of [`RequestOutcome`].
pub enum RequestParse {
    Complete(HttpRequest, usize),
    Again(bool),
    Malformed,
    Fatal,
}

fn bytes_of(s: &[u8]) -> (r: Vec<u8>)
    ensures
        r@ == s@,
{
    let r = copy_slice(s, 0, s.len());
    assert(r@ == s@);
    r
}

fn append_bytes(v: &mut Vec<u8>, s: &[u8])
    ensures
        final(v)@ == old(v)@ + s@,
{
    let mut i: usize = 0;
    let ghost start = v@;
    while i < s.len()
        invariant
            i <= s@.len(),
            v@ == start + s@.subrange(0, i as int),
        decreases s@.len() - i,
    {
        v.push(s[i]);
        i = i + 1;
        assert(v@ == start + s@.subrange(0, i as int));
    }
    assert(s@.subrange(0, s@.len() as int) == s@);
}

/// Parses the request that `s` begins with. `default_host` is the host when no
/// `Host` header names one (the address the connection was accepted on).
pub fn parse_request(s: &[u8], default_host: &[u8]) -> (r: RequestParse)
    ensures
        match (r, request_parse(s@, default_host@)) {
            (RequestParse::Complete(req, n), RequestOutcome::Complete(v, sn)) => req.view_parsed() == v && n as nat == sn
                && req.vars@.len() == 0,
            (RequestParse::Again(e), RequestOutcome::Need(se)) => e == se,
            (RequestParse::Malformed, RequestOutcome::Malformed) => true,
            (RequestParse::Fatal, RequestOutcome::Fatal) => true,
            _ => false,
        },
{
    let len = s.len();
    let i = match index_of(s, LF) {
        None => {
            return RequestParse::Again(false);
        },
        Some(i) => i,
    };
    let mut line_end = i;
    if i > 0 && s[i - 1] == CR {
        line_end = i - 1;
    }
    let line = vstd::slice::slice_subrange(s, 0, line_end);
    proof {
        let l = s@.take(i as int);
        if i > 0 && s@[i - 1] == CR {
            assert(l.last() == CR);
            assert(line@ == l.drop_last());
        } else {
            assert(line@ == l);
        }
        assert(line@ == strip_cr(l));
    }
    let (m, target, p) = match parse_request_line(line) {
        RequestLine::Fatal => {
            return RequestParse::Fatal;
        },
        RequestLine::Malformed => {
            return RequestParse::Malformed;
        },
        RequestLine::Line(m, t, p) => (m, t, p),
    };
    let (raw_uri, query) = split_once(target.as_slice(), QUESTION);
    let qs = match &query {
        Some(q) => bytes_of(q.as_slice()),
        None => Vec::new(),
    };
    let uri = url_decode(raw_uri.as_slice());
    let args = match parse_query(qs.as_slice()) {
        None => {
            return RequestParse::Malformed;
        },
        Some(a) => a,
    };
    let (hs, u) = match parse_headers(s, i + 1) {
        Headers::Again => {
            return RequestParse::Again(false);
        },
        Headers::Invalid => {
            return RequestParse::Malformed;
        },
        Headers::Done(hs, u) => (hs, u),
    };
    let head = i + 1 + u;
    let expect_key: Vec<u8> = vec![/* expect */ 101u8, 120u8, 112u8, 101u8, 99u8, 116u8];
    let host_key: Vec<u8> = vec![/* host */ 104u8, 111u8, 115u8, 116u8];
    let length_key: Vec<u8> = vec![/* content-length */ 99u8, 111u8, 110u8, 116u8, 101u8, 110u8, 116u8, 45u8, 108u8, 101u8, 110u8, 103u8, 116u8, 104u8];
    let continue_val: Vec<u8> = vec![/* 100-continue */ 49u8, 48u8, 48u8, 45u8, 99u8, 111u8, 110u8, 116u8, 105u8, 110u8, 117u8, 101u8];
    let expect = match header_value(&hs, expect_key.as_slice()) {
        Some(v) => bytes_eq_ignore_case(v.as_slice(), continue_val.as_slice()),
        None => false,
    };
    let host = match header_value(&hs, host_key.as_slice()) {
        Some(h) => bytes_of(h.as_slice()),
        None => bytes_of(default_host),
    };
    let mut request_uri = bytes_of(uri.as_slice());
    match &query {
        Some(q) => {
            request_uri.push(QUESTION);
            append_bytes(&mut request_uri, q.as_slice());
        },
        None => {},
    }
    let content_length = match header_value(&hs, length_key.as_slice()) {
        None => None,
        Some(v) => match parse_decimal(v.as_slice()) {
            None => {
                return RequestParse::Malformed;
            },
            Some(n) => Some(n),
        },
    };
    let n: usize = match content_length {
        Some(n) => n,
        None => 0,
    };
    assert(head <= len);
    if len - head < n {
        return RequestParse::Again(expect);
    }
    let body = if n > 0 {
        Some(copy_slice(s, head, head + n))
    } else {
        None
    };
    let req = HttpRequest {
        method: m,
        protocol: p,
        uri,
        query_string: qs,
        request_uri,
        args,
        headers: hs,
        host,
        content_length,
        body,
        vars: Vec::new(),
    };
    proof {
        let v = req.view_parsed();
        match request_parse(s@, default_host@) {
            RequestOutcome::Complete(sv, sn) => {
                assert(v.uri == sv.uri);
                assert(v.request_uri == sv.request_uri);
                assert(v == sv);
            },
            _ => {},
        }
    }
    RequestParse::Complete(req, head + n)
}

/// Query arguments as forwarded upstream: `key=value` items joined by `&`,
/// each value percent-encoded.
pub open spec fn args_text(args: Seq<(Seq<u8>, Seq<u8>)>) -> Seq<u8>
    decreases args.len(),
{
    if args.len() == 0 {
        Seq::empty()
    } else {
        let prev = args_text(args.drop_last());
        let item = args.last().0 + seq![EQUALS] + url_encoded(args.last().1);
        if args.len() == 1 {
            item
        } else {
            prev + seq![AMPERSAND] + item
        }
    }
}

/// Writes query arguments for the request line sent upstream.
pub fn format_args(args: &Vec<(Vec<u8>, Vec<u8>)>) -> (r: Vec<u8>)
    ensures
        r@ == args_text(pairs_of(args@)),
{
    let ghost ps = pairs_of(args@);
    let mut r: Vec<u8> = Vec::new();
    let mut i: usize = 0;
    while i < args.len()
        invariant
            i <= args@.len(),
            ps == pairs_of(args@),
            r@ == args_text(ps.take(i as int)),
        decreases args@.len() - i,
    {
        proof {
            assert(ps.take(i + 1).drop_last() == ps.take(i as int));
            assert(ps.take(i + 1).last() == ps[i as int]);
        }
        if i > 0 {
            r.push(AMPERSAND);
        }
        append_bytes(&mut r, args[i].0.as_slice());
        r.push(EQUALS);
        let v = url_encode(args[i].1.as_slice());
        append_bytes(&mut r, v.as_slice());
        proof {
            if i == 0 {
                assert(r@ == ps[0].0 + seq![EQUALS] + url_encoded(ps[0].1));
            }
        }
        i = i + 1;
    }
    assert(ps.take(i as int) == ps);
    r
}

} // verus!
