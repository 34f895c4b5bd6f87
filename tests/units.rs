use web_server::buffer::Buffer;
use web_server::chunked::{decode_chunked, encode_chunk, encode_last_chunk, format_hex, ChunkedParse};
use web_server::error::{Code, CoreError, HttpError, TcpError};
use web_server::http::{get_method, HttpMethod, HttpProtocol, HttpStatus};
use web_server::listeners::Listeners;
use web_server::named::NamedRouter;
use web_server::pipeline::{choose_route, Content, Handled, RouteContext, RouteChoice, Routes};
use web_server::plugins::{apply_edits, upstream_status_response, Echo, ModArgs, ModHeaders, ModVars, Rewrite};
use web_server::pool::{Acquire, ConnectionPool};
use web_server::proxy::{after_failure, AfterFailure, Proxy, ProxyParse};
use web_server::re::RegexRouter;
use web_server::reactor::{timeout_status, Options, Phase, Reactor};
use web_server::request::{format_args, parse_request, HttpRequest, RequestParse};
use web_server::response::HttpResponse;
use web_server::timeouts::Timeouts;
use web_server::transfer_encoding::TransferEncoding;
use web_server::trie::TrieRouter;
use web_server::upstream::{BalanceLeastConn, Failover, RoundRobin, Upstream};
use web_server::variable::Variable;

fn s(b: &[u8]) -> String {
    String::from_utf8(b.to_vec()).unwrap()
}

fn req(raw: &[u8]) -> HttpRequest {
    match parse_request(raw, b"0.0.0.0:80") {
        RequestParse::Complete(r, _) => r,
        _ => panic!("request did not parse"),
    }
}

fn pairs(v: &[(&str, &str)]) -> Vec<(Vec<u8>, Vec<u8>)> {
    v.iter().map(|(k, x)| (k.as_bytes().to_vec(), x.as_bytes().to_vec())).collect()
}

#[test]
fn buffer_cursors() {
    let mut b = Buffer::new();
    b.extend(b"GET /");
    assert_eq!(b.getc(), b'G');
    assert_eq!(b.chunk(2), b"ET".to_vec());
    assert_eq!(b.len(), 2);
    assert_eq!(b.chunk(10), b" /".to_vec());
    assert!(b.end());
    assert_eq!(b.tail(), Vec::<u8>::new());
    assert_eq!(b.unwritten(), b"GET /".to_vec());
    assert_eq!(b.complete_write(3), (false, 3));
    assert_eq!(b.wpos(), 3);
    assert_eq!(b.unwritten(), b" /".to_vec());
    assert_eq!(b.complete_write(2), (true, 2));
    b.reset();
    assert_eq!((b.rpos(), b.wpos(), b.len()), (0, 0, 0));
}

#[test]
fn buffer_grows_when_half_full() {
    let mut b = Buffer::new();
    assert_eq!(b.capacity(), 4096);
    assert_eq!(b.reserve_read(), 4096);
    assert_eq!(b.complete_read(&[7u8; 2048]), (false, 2048));
    assert_eq!(b.reserve_read(), 8192 - 2048);
    assert_eq!(b.capacity(), 8192);
    assert_eq!(b.complete_read(&[]), (true, 0));
    assert_eq!(b.tail().len(), 2048);
}

#[test]
fn error_values() {
    let e = CoreError::throw::<()>("boom").unwrap_err();
    assert_eq!(e.what(), "boom");
    let h = HttpError::throw_fatal::<()>("gone").unwrap_err();
    assert!(h.is_fatal());
    assert_eq!(h.what(), "gone");
    let h = HttpError::throw::<()>("bad").unwrap_err();
    assert!(!h.is_fatal());
    let t = TcpError::throw::<()>("x").unwrap_err();
    assert!(!t.is_fatal());
    assert!(TcpError::throw_fatal::<()>("y").unwrap_err().is_fatal());
    assert_eq!(Code::AGAIN.name(), "AGAIN");
}

#[test]
fn methods_and_protocols() {
    assert!(HttpMethod::from_bytes(b"PROPPATCH") == HttpMethod::PROPPATCH);
    assert!(HttpMethod::from_bytes(b"get") == HttpMethod::UNSUPPORTED);
    assert_eq!(HttpMethod::DELETE.name(), b"DELETE".to_vec());
    assert_eq!(get_method(None), None);
    assert_eq!(get_method(Some(HttpMethod::POST)), Some(b"POST".to_vec()));
    assert!(HttpProtocol::from_bytes(b"HTTP/1.0") == Some(HttpProtocol::HTTP10));
    assert!(HttpProtocol::from_bytes(b"HTTP/2") == None);
    assert_eq!(HttpProtocol::HTTP11.version(), b"1.1".to_vec());
}

#[test]
fn status_codes() {
    assert!(HttpStatus::from_code(418) == HttpStatus::BAD_REQUEST);
    assert_eq!(s(&HttpStatus::from_code(504).text()), "504 GATEWAY TIMEOUT");
    assert_eq!(HttpStatus::NOT_MODIFIED.code(), 304);
    assert_eq!(HttpStatus::from_code(451).code(), 451);
}

#[test]
fn transfer_encoding_list() {
    let v = b" gzip , chunked".to_vec();
    let te = TransferEncoding::new(Some(&v));
    assert!(te.is_chunked() && te.is_gzip() && !te.is_deflate() && !te.is_identity() && !te.is_compress());
    assert_eq!(te.format(), Some(b"chunked, gzip".to_vec()));
    let mut none = TransferEncoding::new(None);
    assert!(!none.is_some());
    assert_eq!(none.format(), None);
    none.parse(b"identity");
    none.parse(b"zstd");
    assert_eq!(none.format(), Some(b"identity".to_vec()));
    none.set_chunked();
    assert_eq!(none.format(), Some(b"chunked, identity".to_vec()));
}

#[test]
fn query_encoding_and_decoding() {
    assert_eq!(s(&format_args(&pairs(&[("q", "a b&c"), ("x", "1")]))), "q=a%20b%26c&x=1");
    let r = req(b"GET /p%20q?a=%41%2B&b=c HTTP/1.1\r\n\r\n");
    assert_eq!(s(&r.uri), "/p q");
    assert_eq!(r.args, pairs(&[("a", "A+"), ("b", "c")]));
    assert_eq!(s(&r.query_string), "a=%41%2B&b=c");
    assert_eq!(s(&r.request_uri), "/p q?a=%41%2B&b=c");
    assert_eq!(s(&r.host), "0.0.0.0:80");
}

#[test]
fn chunk_framing() {
    assert_eq!(s(&format_hex(255)), "ff");
    assert_eq!(s(&format_hex(0)), "0");
    assert_eq!(s(&encode_chunk(b"hello")), "5\r\nhello\r\n");
    assert!(encode_chunk(b"").is_empty());
    assert_eq!(s(&encode_last_chunk()), "0\r\n\r\n");
    let mut wire = encode_chunk(&[b'x'; 26]);
    wire.extend(encode_chunk(b"yz"));
    wire.extend(encode_last_chunk());
    assert!(wire.starts_with(b"1a\r\n"));
    match decode_chunked(&wire) {
        ChunkedParse::Done(body, used) => {
            assert_eq!(used, wire.len());
            assert_eq!(body.len(), 28);
            assert!(body.ends_with(b"xyz"));
        }
        _ => panic!("did not decode"),
    }
    assert!(matches!(decode_chunked(b"3\r\nab"), ChunkedParse::Again));
    assert!(matches!(decode_chunked(b"zz\r\n"), ChunkedParse::Invalid));
    assert!(matches!(decode_chunked(b"3\r\nabcXY"), ChunkedParse::Invalid));
    assert!(matches!(decode_chunked(b"A\r\n0123456789\r\n0\r\n\r\n"), ChunkedParse::Done(_, 20)));
}

#[test]
fn trie_lookup() {
    let mut t: TrieRouter<u32> = TrieRouter::new();
    assert_eq!(t.add(b"/a/b", Some(b"GET".to_vec()), 1), (0, true));
    assert_eq!(t.add(b"/a/b", None, 2), (1, true));
    assert_eq!(t.add(b"/a/{x}/c", None, 3), (2, true));
    assert_eq!(t.add(b"/a/b", None, 9), (1, false));
    assert_eq!(*t.context(1), 2);

    let m = t.get(b"/a/b", b"GET").unwrap();
    assert_eq!((m.index, m.exact), (0, true));
    let m = t.get(b"/a/b", b"POST").unwrap();
    assert_eq!((m.index, m.exact), (1, true));
    let m = t.get(b"/a/9/c", b"GET").unwrap();
    assert_eq!((m.index, m.exact), (2, true));
    assert_eq!(m.captures, pairs(&[("x", "9")]));
    let m = t.get(b"/a/b/z", b"GET").unwrap();
    assert_eq!((m.index, m.exact), (0, false));
    assert!(t.get(b"/zzz", b"GET").is_none());

    assert_eq!(t.replace(b"/a/b", None, 7), (1, false));
    assert_eq!(*t.context(1), 7);
    assert!(t.remove(b"/a/b", Some(b"GET".to_vec())));
    assert!(!t.remove(b"/a/b", Some(b"GET".to_vec())));
    let m = t.get(b"/a/b", b"GET").unwrap();
    assert_eq!(*t.context(m.index), 7);
    let i = t.upsert(b"/n", None, |c: u32, added: bool| if added { c + 40 } else { c });
    assert_eq!(*t.context(i), 40);
}

#[test]
fn trie_literal_beats_capture() {
    let mut t: TrieRouter<&str> = TrieRouter::new();
    t.add(b"/a/{x}", None, "capture");
    t.add(b"/a/b", None, "literal");
    let m = t.get(b"/a/b", b"GET").unwrap();
    assert_eq!(*t.context(m.index), "literal");
    assert!(m.captures.is_empty());
    let m = t.get(b"/a/c", b"GET").unwrap();
    assert_eq!(*t.context(m.index), "capture");
    assert_eq!(m.captures, pairs(&[("x", "c")]));
}

#[test]
fn named_lookup() {
    let mut n: NamedRouter<u32> = NamedRouter::new();
    assert!(n.add(b"@x", Some(b"GET".to_vec()), 1));
    assert!(n.add(b"@x", None, 2));
    assert!(!n.add(b"@x", None, 3));
    assert_eq!(n.get(b"@x", b"GET"), Some(&1));
    assert_eq!(n.get(b"@x", b"POST"), Some(&2));
    assert_eq!(n.get(b"@y", b"GET"), None);
    n.replace(b"@x", None, 5);
    assert_eq!(n.get(b"@x", b"PUT"), Some(&5));
    assert!(n.remove(b"@x", Some(b"GET".to_vec())));
    assert_eq!(n.get(b"@x", b"GET"), Some(&5));
    assert!(n.remove(b"@x", Some(b"POST".to_vec())));
    assert_eq!(n.get(b"@x", b"GET"), Some(&5));
    assert!(!n.remove(b"@nothing", None));
    n.upsert(b"@z", None, |c: u32, added: bool| if added { c + 1 } else { c });
    assert_eq!(n.get(b"@z", b"GET"), Some(&1));
}

#[test]
fn request_bodies_and_errors() {
    let raw = b"POST /u HTTP/1.1\r\nHost: example\r\nExpect: 100-continue\r\nContent-Length: 3\r\n\r\n";
    assert!(matches!(parse_request(raw, b"h"), RequestParse::Again(true)));
    let mut full = raw.to_vec();
    full.extend_from_slice(b"abcNEXT");
    match parse_request(&full, b"h") {
        RequestParse::Complete(r, used) => {
            assert_eq!(used, full.len() - 4);
            assert_eq!(r.body, Some(b"abc".to_vec()));
            assert_eq!(r.content_length, Some(3));
            assert_eq!(s(&r.host), "example");
            assert_eq!(r.headers.len(), 3);
        }
        _ => panic!("did not parse"),
    }
    assert!(matches!(parse_request(b"GET / HTTP/2.0\r\n\r\n", b"h"), RequestParse::Malformed));
    assert!(matches!(parse_request(b"BREW / HTTP/1.1\r\n\r\n", b"h"), RequestParse::Fatal));
    assert!(matches!(parse_request(b"GET / HTTP/1.1\r\nNoColon\r\n\r\n", b"h"), RequestParse::Malformed));
    assert!(matches!(parse_request(b"GET / HTTP/1.1\r\nContent-Length: x\r\n\r\n", b"h"), RequestParse::Malformed));
    assert!(matches!(parse_request(b"GET /?novalue HTTP/1.1\r\n\r\n", b"h"), RequestParse::Malformed));
    assert!(matches!(parse_request(b"GET / HTTP/1.1\r\nA: b\n\r\n", b"h"), RequestParse::Malformed));
    assert!(matches!(parse_request(b"GET / HTTP/1.1\r\nHost: x\r\n", b"h"), RequestParse::Again(false)));
}

#[test]
fn templates() {
    let table = pairs(&[("x", "1"), ("x", "shadowed")]);
    assert_eq!(s(&Variable::complex(b"a${x}b${y}").expand_with(&table)), "a1b");
    assert_eq!(s(&Variable::complex(b"${}${x").expand_with(&table)), "${}${x");
    assert_eq!(s(&Variable::simple(b"${x}").expand_with(&table)), "${x}");
    assert_eq!(s(&Variable::lazy(b"x").expand_with(&table)), "1");
}

#[test]
fn pool_keepalive_requests() {
    let mut pool = ConnectionPool::with_timeouts(2, 1, Some(3));
    assert!(matches!(pool.acquire(), Ok(Acquire::Open)));
    let p = pool.activate(None);
    assert_eq!((p.token, p.requests), (0, 0));
    assert!(pool.acquire().is_err());
    assert!(pool.release(p, true, 100));
    assert_eq!((pool.active(), pool.idle()), (0, 1));
    let idle = match pool.acquire() {
        Ok(Acquire::Reuse(i)) => i,
        _ => panic!("expected reuse"),
    };
    assert_eq!(idle.requests, 1);
    let p = pool.activate(Some(idle));
    assert_eq!((p.token, p.requests), (1, 1));
    assert!(pool.release(p, true, 100));
    let idle = match pool.acquire() {
        Ok(Acquire::Reuse(i)) => i,
        _ => panic!("expected reuse"),
    };
    assert_eq!(idle.requests, 2);
    let p = pool.activate(Some(idle));
    assert!(!pool.release(p, true, 100));
    assert_eq!((pool.active(), pool.idle()), (0, 0));
    let p = pool.activate(None);
    assert!(!pool.release(p, false, 100));
}

#[test]
fn pool_orders_and_expires_idle_peers() {
    let mut pool = ConnectionPool::new(0, 0);
    let a = pool.activate(None);
    let b = pool.activate(None);
    let c = pool.activate(None);
    pool.release(a, true, 30);
    pool.release(b, true, 10);
    pool.release(c, true, 20);
    assert_eq!(pool.expire(20), vec![1, 2]);
    match pool.acquire() {
        Ok(Acquire::Reuse(i)) => assert_eq!((i.token, i.exp), (0, 30)),
        _ => panic!("expected reuse"),
    }
}

#[test]
fn timeouts_one_entry_per_token() {
    let mut t = Timeouts::new();
    t.arm(1, 50);
    t.arm(2, 10);
    t.arm(1, 5);
    assert_eq!(t.len(), 2);
    assert_eq!(t.next_deadline(), Some(5));
    assert!(t.disarm(2));
    assert!(!t.disarm(2));
    t.arm(3, 7);
    assert_eq!(t.pop_expired(6), vec![1]);
    assert_eq!(t.pop_expired(100), vec![3]);
    assert_eq!(t.next_deadline(), None);
}

#[test]
fn reactor_expires_idle_clients() {
    let opts = Options { request_timeout: 10, response_timeout: 10, keepalive_timeout: 10, keepalive_requests: 0 };
    let mut r = Reactor::new(opts);
    r.accept(1, 0);
    r.accept(2, 5);
    assert_eq!(r.expire(12), vec![1]);
    assert!(r.client(1).is_none());
    assert!(r.client(2).is_some());
}

#[test]
fn balancers() {
    let mut rr = RoundRobin::new();
    let picks: Vec<Option<usize>> = (0..4).map(|_| rr.balance(3)).collect();
    assert_eq!(picks, vec![Some(0), Some(1), Some(2), Some(0)]);
    assert_eq!(rr.balance(0), None);
    let lc = BalanceLeastConn::new();
    assert_eq!(lc.balance(&vec![3, 1, 1]), Some(1));
    assert_eq!(lc.balance(&vec![]), None);
}

#[test]
fn response_framing() {
    let mut r = HttpResponse::new(HttpProtocol::HTTP10, false);
    r.add_header(b"X-A", b"1");
    let out = s(&r.serialize());
    assert_eq!(out, "HTTP/1.0 200 OK\r\nServer: web_server\r\nConnection: close\r\nX-A: 1\r\n\r\n");
    assert!(r.closed());
    assert!(r.flush_headers().is_empty());

    let mut r = HttpResponse::new(HttpProtocol::HTTP11, false);
    r.set_status(HttpStatus::NO_CONTENT);
    r.set_body(b"ignored");
    assert_eq!(s(&r.serialize()), "HTTP/1.1 204 NO CONTENT\r\nServer: web_server\r\nConnection: keep-alive\r\n\r\n");

    let mut r = HttpResponse::new(HttpProtocol::HTTP11, true);
    r.set_header(b"x-a", b"1");
    r.set_header(b"X-A", b"2");
    let out = s(&r.serialize());
    assert_eq!(out, "HTTP/1.1 200 OK\r\nServer: web_server\r\nConnection: close\r\nX-A: 2\r\nTransfer-Encoding: chunked\r\n\r\n0\r\n\r\n");
    assert!(r.closed());
}

#[test]
fn proxy_request_preparation() {
    let r = req(b"GET /x?a=1%202 HTTP/1.0\r\nHost: h\r\nConnection: close\r\n\r\n");
    let out = s(&Proxy::new().prepare_request(&r));
    assert_eq!(out, "GET /x?a=1%202 HTTP/1.1\r\nHost: h\r\n\r\n");
    let r = req(b"POST /y HTTP/1.1\r\nContent-Length: 2\r\n\r\nhi");
    assert_eq!(s(&Proxy::new().prepare_request(&r)), "POST /y HTTP/1.1\r\nContent-Length: 2\r\n\r\nhi");
}

#[test]
fn proxy_response_framings() {
    let p = Proxy::new();
    match p.parse_response(b"HTTP/1.1 201 Created\r\nContent-Length: 2\r\nX-Y: z\r\nServer: up\r\n\r\nokMORE", false) {
        ProxyParse::Complete(r, used) => {
            assert!(r.status == HttpStatus::CREATED);
            assert_eq!(r.body, b"ok".to_vec());
            assert_eq!(r.headers, pairs(&[("X-Y", "z")]));
            assert!(r.keepalive);
            assert_eq!(used, 65);
        }
        _ => panic!("did not parse"),
    }
    let old = b"HTTP/1.0 200 OK\r\n\r\npartial";
    assert!(matches!(p.parse_response(old, false), ProxyParse::Again));
    match p.parse_response(old, true) {
        ProxyParse::Complete(r, _) => {
            assert_eq!(r.body, b"partial".to_vec());
            assert!(!r.keepalive);
        }
        _ => panic!("did not parse"),
    }
    match p.parse_response(b"HTTP/1.1 200 OK\r\nConnection: close\r\n\r\n", false) {
        ProxyParse::Complete(r, _) => {
            assert!(r.status == HttpStatus::BAD_GATEWAY);
            assert!(!r.keepalive);
        }
        _ => panic!("did not parse"),
    }
    match p.parse_response(b"HTTP/1.1 304 Not Modified\r\n\r\n", false) {
        ProxyParse::Complete(r, _) => assert!(r.status == HttpStatus::NOT_MODIFIED && r.body.is_empty()),
        _ => panic!("did not parse"),
    }
    assert!(matches!(p.parse_response(b"SPDY 200 OK\r\n\r\n", false), ProxyParse::Invalid));
}

#[test]
fn request_filters() {
    let mut r = req(b"GET /p?a=1&b=2 HTTP/1.1\r\nHost: h\r\n\r\n");
    let m = ModArgs::new(vec![(b"c".to_vec(), Variable::complex(b"${arg_a}!"))], vec![b"a".to_vec()]);
    assert!(m.apply(&mut r) == Code::OK);
    assert_eq!(r.args, pairs(&[("b", "2"), ("c", "1!")]));
    let v = ModVars::new(vec![(b"who".to_vec(), Variable::complex(b"${http_host}"))]);
    v.apply(&mut r);
    assert_eq!(r.vars, pairs(&[("who", "h")]));
    let w = Rewrite::new(Variable::complex(b"/to/${who}"));
    assert!(w.apply(&mut r) == Code::AGAIN);
    assert_eq!(s(&r.uri), "/to/h");

    let mut resp = HttpResponse::new(HttpProtocol::HTTP11, false);
    resp.add_header(b"X-Drop", b"1");
    resp.add_header(b"X-Keep", b"2");
    let h = ModHeaders::new(vec![(b"X-Who".to_vec(), Variable::complex(b"${who}"))], vec![b"x-drop".to_vec()]);
    h.apply(&r, &mut resp);
    resp.set_body(b"");
    let out = s(&resp.serialize());
    assert!(out.contains("X-Keep: 2\r\nX-Who: h\r\n"));
    assert!(!out.contains("X-Drop"));
}

#[test]
fn router_choice() {
    assert_eq!(choose_route(b"@x", Some(true), true), RouteChoice::Named);
    assert_eq!(choose_route(b"/x", Some(true), true), RouteChoice::Trie);
    assert_eq!(choose_route(b"/x", Some(false), true), RouteChoice::Regex);
    assert_eq!(choose_route(b"/x", Some(false), false), RouteChoice::Trie);
    assert_eq!(choose_route(b"/x", None, false), RouteChoice::NotFound);
}

#[test]
fn regex_routes() {
    let mut r: RegexRouter<u32> = RegexRouter::new();
    assert!(r.add("^/a", None, 1).unwrap());
    assert!(r.add("^/a/(?P<id>[0-9]+)$", Some(b"GET".to_vec()), 2).unwrap());
    assert!(!r.add("^/a", None, 9).unwrap());
    assert!(r.add("(", None, 3).is_err());
    let m = r.get(b"/a/42", b"GET").unwrap();
    assert_eq!(*r.context(m.index), 2);
    assert_eq!(m.captures, pairs(&[("id", "42")]));
    assert!(r.get(b"/a/42", b"POST").is_none());
    let m = r.get(b"/ab", b"GET").unwrap();
    assert_eq!(*r.context(m.index), 1);
    assert!(m.captures.is_empty());
    assert!(r.get(b"/b", b"GET").is_none());
}

#[test]
fn regex_wins_over_partial_trie_match() {
    let mut routes = Routes::new();
    routes.trie.add(b"/img", None, RouteContext::echo(Echo::new(Variable::simple(b"trie"), HttpStatus::OK)));
    routes.regex.add("\\.png$", None, RouteContext::echo(Echo::new(Variable::simple(b"regex"), HttpStatus::OK))).unwrap();
    let body = |raw: &[u8]| -> String {
        let mut q = req(raw);
        match routes.handle(&mut q) {
            Handled::Response(mut resp) => {
                let out = s(&resp.serialize());
                out[out.find("\r\n\r\n").unwrap() + 4..].to_string()
            }
            Handled::Proxy(_, _) | Handled::UpstreamStatus(_) => panic!("unexpected proxy"),
        }
    };
    assert_eq!(body(b"GET /img/x.png HTTP/1.1\r\n\r\n"), "regex");
    assert_eq!(body(b"GET /img HTTP/1.1\r\n\r\n"), "trie");
    assert_eq!(body(b"GET /img/x.gif HTTP/1.1\r\n\r\n"), "trie");
    assert_eq!(body(b"GET /logo.png HTTP/1.1\r\n\r\n"), "regex");
    assert_eq!(body(b"GET /none HTTP/1.1\r\n\r\n"), "");
}

#[test]
fn query_value_round_trip() {
    let value = "a b&c=d/%41\u{e9}?";
    let encoded = format_args(&pairs(&[("q", value)]));
    assert_eq!(s(&encoded), "q=a%20b%26c%3Dd%2F%2541%C3%A9%3F");
    let mut raw = b"GET /?".to_vec();
    raw.extend_from_slice(&encoded);
    raw.extend_from_slice(b" HTTP/1.1\r\n\r\n");
    let r = req(&raw);
    assert_eq!(r.args, pairs(&[("q", value)]));
}

#[test]
fn streamed_body_chunks() {
    let mut r = HttpResponse::new(HttpProtocol::HTTP11, false);
    let first = s(&r.send_body_chunk(Some(b"abc")));
    assert_eq!(
        first,
        "HTTP/1.1 200 OK\r\nServer: web_server\r\nConnection: keep-alive\r\nTransfer-Encoding: chunked\r\n\r\n3\r\nabc\r\n"
    );
    assert_eq!(s(&r.send_body_chunk(Some(b"de"))), "2\r\nde\r\n");
    assert_eq!(s(&r.send_body_chunk(None)), "0\r\n\r\n");

    let mut r = HttpResponse::new(HttpProtocol::HTTP10, false);
    r.append_body(b"ab");
    r.append_body(b"c");
    assert_eq!(r.content_length(), Some(3));
    assert!(s(&r.serialize()).ends_with("Content-Length: 3\r\n\r\nabc"));
}

#[test]
fn route_phases_run_in_order() {
    let mut routes = Routes::new();
    let mut ctx = RouteContext::echo(Echo::new(Variable::complex(b"${who}:${arg_a}"), HttpStatus::OK));
    ctx.setvar.push(ModVars::new(vec![(b"who".to_vec(), Variable::complex(b"${http_host}"))]));
    ctx.args.push(ModArgs::new(vec![(b"a".to_vec(), Variable::simple(b"2"))], vec![b"a".to_vec()]));
    ctx.header_filter.push(ModHeaders::new(vec![(b"X-Route".to_vec(), Variable::simple(b"p"))], vec![]));
    routes.trie.add(b"/p", None, ctx);
    let mut q = req(b"GET /p?a=1 HTTP/1.1\r\nHost: h\r\n\r\n");
    match routes.handle(&mut q) {
        Handled::Response(mut resp) => {
            let out = s(&resp.serialize());
            assert!(out.contains("X-Route: p\r\n"));
            assert!(out.ends_with("\r\n\r\nh:2"), "{}", out);
        }
        Handled::Proxy(_, _) | Handled::UpstreamStatus(_) => panic!("unexpected proxy"),
    }
    let mut missing = req(b"GET /nothing HTTP/1.1\r\n\r\n");
    match routes.handle(&mut missing) {
        Handled::Response(resp) => assert!(resp.status() == HttpStatus::NOT_FOUND),
        Handled::Proxy(_, _) | Handled::UpstreamStatus(_) => panic!("unexpected proxy"),
    }
}

#[test]
fn timeout_answers() {
    assert!(timeout_status(Phase::Request, true) == Some(HttpStatus::REQUEST_TIMEOUT));
    assert!(timeout_status(Phase::Request, false).is_none());
    assert!(timeout_status(Phase::Response, true).is_none());
    assert!(timeout_status(Phase::Idle, false).is_none());
}

#[test]
fn upstream_least_connections_then_backup() {
    let mut up = Upstream::with_least_conn();
    up.add_primary();
    up.add_primary();
    up.add_backup();
    let primary = vec![2, 0];
    let backup = vec![5];
    let mut state = Failover { tier: 0, tries: 0 };
    assert_eq!(up.next_server(&mut state, 0, &primary, &backup).ok(), Some((0, 1)));
    assert_eq!(up.next_server(&mut state, 0, &primary, &backup).ok(), Some((0, 1)));
    assert_eq!(up.next_server(&mut state, 0, &primary, &backup).ok(), Some((1, 0)));
    assert!(up.next_server(&mut state, 0, &primary, &backup).is_err());

    let mut rr = Upstream::new();
    rr.add_primary();
    rr.add_backup();
    let mut state = Failover { tier: 0, tries: 0 };
    assert_eq!(rr.next_server(&mut state, 0, &vec![], &vec![]).ok(), Some((0, 0)));
    assert_eq!(rr.next_server(&mut state, 0, &vec![], &vec![]).ok(), Some((1, 0)));
    assert!(rr.next_server(&mut state, 0, &vec![], &vec![]).is_err());
}

#[test]
fn bodiless_answers() {
    assert_eq!(s(&web_server::response::continue_bytes()), "HTTP/1.1 100 Continue\r\ncontent-length: 0\r\n\r\n");
    let mut r = HttpResponse::new(HttpProtocol::HTTP11, false);
    r.set_body(b"x");
    r.send_not_modified();
    assert_eq!(s(&r.serialize()), "HTTP/1.1 304 NOT MODIFIED\r\nServer: web_server\r\nConnection: keep-alive\r\n\r\n");
    let mut r = HttpResponse::new(HttpProtocol::HTTP11, false);
    r.send_no_content();
    assert!(r.status() == HttpStatus::NO_CONTENT);
    assert!(s(&r.serialize()).ends_with("Connection: keep-alive\r\n\r\n"));
}

#[test]
fn listener_reconciliation() {
    let mut l = Listeners::new(100);
    assert_eq!(l.add(b"0.0.0.0:80").ok(), Some(100));
    assert!(l.add(b"0.0.0.0:80").is_err());
    assert_eq!(l.add(b"0.0.0.0:81").ok(), Some(101));
    let r = l.reconcile();
    assert_eq!((r.create, r.drop), (vec![100, 101], vec![]));
    l.record(100, true);
    l.record(101, false);
    assert!(l.remove(b"0.0.0.0:80"));
    assert!(!l.remove(b"0.0.0.0:99"));
    l.record(100, true);
    let r = l.reconcile();
    assert_eq!((r.create, r.drop), (vec![101], vec![100]));
    let r = l.reconcile();
    assert_eq!((r.create, r.drop), (vec![101], vec![]));
    assert_eq!(l.add(b"0.0.0.0:80").ok(), Some(102));
}

#[test]
fn server_phases_and_proxied_header_edits() {
    let mut routes = Routes::new();
    routes.server.setvar.push(ModVars::new(vec![(b"site".to_vec(), Variable::simple(b"main"))]));
    routes.server.header_filter.push(ModHeaders::new(vec![(b"X-Site".to_vec(), Variable::complex(b"${site}"))], vec![]));
    let mut ctx = RouteContext::proxy(0);
    ctx.header_filter.push(ModHeaders::new(vec![(b"X-Up".to_vec(), Variable::simple(b"yes"))], vec![b"x-drop".to_vec()]));
    routes.trie.add(b"/up", None, ctx);
    routes.trie.add(b"/site", None, RouteContext::echo(Echo::new(Variable::complex(b"${site}"), HttpStatus::OK)));

    let mut q = req(b"GET /site HTTP/1.1\r\n\r\n");
    match routes.handle(&mut q) {
        Handled::Response(mut resp) => {
            let out = s(&resp.serialize());
            assert!(out.contains("X-Site: main\r\n"));
            assert!(out.ends_with("\r\n\r\nmain"));
        }
        Handled::Proxy(_, _) | Handled::UpstreamStatus(_) => panic!("unexpected proxy"),
    }

    let mut q = req(b"GET /up HTTP/1.1\r\n\r\n");
    let edits = match routes.handle(&mut q) {
        Handled::Proxy(u, edits) => {
            assert_eq!(u, 0);
            edits
        }
        _ => panic!("expected proxy"),
    };
    let mut resp = HttpResponse::new(HttpProtocol::HTTP11, false);
    resp.add_header(b"X-Drop", b"1");
    apply_edits(&edits, &mut resp);
    resp.set_body(b"");
    let out = s(&resp.serialize());
    assert!(out.contains("X-Site: main\r\nX-Up: yes\r\n"));
    assert!(!out.contains("X-Drop"));
}

#[test]
fn upstream_cap_and_failover_decisions() {
    let mut up = Upstream::new();
    up.add_primary();
    up.set_max_active(2);
    let mut state = Failover { tier: 0, tries: 0 };
    assert!(up.next_server(&mut state, 2, &vec![], &vec![]).is_err());
    assert_eq!((state.tier, state.tries), (0, 0));
    assert_eq!(up.next_server(&mut state, 1, &vec![], &vec![]).ok(), Some((0, 0)));
    assert!(after_failure(false, false) == AfterFailure::Retry);
    assert!(after_failure(true, false) == AfterFailure::Fail(HttpStatus::BAD_GATEWAY));
    assert!(after_failure(false, true) == AfterFailure::Fail(HttpStatus::GATEWAY_TIMEOUT));
    let p = Proxy::new();
    assert!(!p.head_received(b"HTTP/1.1 200 OK\r\nContent-Length: 5\r\n"));
    assert!(p.head_received(b"HTTP/1.1 200 OK\r\nContent-Length: 5\r\n\r\nab"));
    assert!(!p.head_received(b"garbage\r\n\r\n"));
}

#[test]
fn upstream_status_handler() {
    let mut routes = Routes::new();
    let mut ctx = RouteContext::proxy(0);
    ctx.content = Some(Content::UpstreamStatus);
    routes.trie.add(b"/status", None, ctx);
    let mut q = req(b"GET /status?upstream=nginx HTTP/1.1\r\n\r\n");
    match routes.handle(&mut q) {
        Handled::UpstreamStatus(name) => assert_eq!(name, Some(b"nginx".to_vec())),
        _ => panic!("expected the status handler"),
    }
    let mut q = req(b"GET /status HTTP/1.1\r\n\r\n");
    match routes.handle(&mut q) {
        Handled::UpstreamStatus(name) => assert_eq!(name, None),
        _ => panic!("expected the status handler"),
    }
    let mut r = upstream_status_response(&q, true, Some((3, 1)));
    assert!(r.status() == HttpStatus::OK);
    assert!(s(&r.serialize()).ends_with("\r\n\r\nactive: 3\nidle: 1\n"));
    assert!(upstream_status_response(&q, true, None).status() == HttpStatus::NOT_FOUND);
    assert!(upstream_status_response(&q, false, None).status() == HttpStatus::BAD_REQUEST);
}
