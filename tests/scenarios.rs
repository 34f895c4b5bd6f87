use web_server::chunked::{decode_chunked, ChunkedParse};
use web_server::http::{HttpMethod, HttpProtocol, HttpStatus};
use web_server::pipeline::{set_captures, Handled, RouteContext, Routes};
use web_server::proxy::{upstream_vars, Proxy, ProxyParse};
use web_server::plugins::{Echo, Rewrite};
use web_server::reactor::{Action, FlushCode, Options, ParseCode, Reactor};
use web_server::request::{parse_request, HttpRequest, RequestParse};
use web_server::response::HttpResponse;
use web_server::upstream::{Failover, Upstream};
use web_server::variable::Variable;

fn parse(raw: &[u8]) -> HttpRequest {
    match parse_request(raw, b"127.0.0.1:8080") {
        RequestParse::Complete(req, used) => {
            assert_eq!(used, raw.len());
            req
        }
        _ => panic!("request did not parse"),
    }
}

fn response(h: Handled) -> HttpResponse {
    match h {
        Handled::Response(r) => r,
        Handled::Proxy(_, _) | Handled::UpstreamStatus(_) => panic!("expected a local response"),
    }
}

fn text(bytes: &[u8]) -> String {
    String::from_utf8(bytes.to_vec()).unwrap()
}

#[test]
fn echo_ping() {
    let mut routes = Routes::new();
    routes.trie.add(b"/ping", None, RouteContext::echo(Echo::new(Variable::simple(b"echo:GET"), HttpStatus::OK)));
    let mut req = parse(b"GET /ping HTTP/1.1\r\nHost: x\r\n\r\n");
    assert!(req.method == HttpMethod::GET);
    let mut resp = response(routes.handle(&mut req));
    let out = text(&resp.serialize());
    assert_eq!(
        out,
        "HTTP/1.1 200 OK\r\nServer: web_server\r\nConnection: keep-alive\r\nContent-Type: text/plain\r\nContent-Length: 8\r\n\r\necho:GET"
    );
    assert!(!resp.closed());
}

#[test]
fn capture_into_variable() {
    let mut routes = Routes::new();
    routes.trie.add(
        b"/api/customers/{customer_id}/*",
        None,
        RouteContext::echo(Echo::new(Variable::complex(b"CUSTOMER_ID=${customer_id}"), HttpStatus::OK)),
    );
    let mut req = parse(b"GET /api/customers/42/orders HTTP/1.1\r\nHost: x\r\n\r\n");
    let mut resp = response(routes.handle(&mut req));
    let out = text(&resp.serialize());
    assert!(out.ends_with("\r\n\r\nCUSTOMER_ID=42"), "{}", out);
    assert!(out.contains("Content-Length: 14\r\n"));
}

#[test]
fn named_rewrite() {
    let mut routes = Routes::new();
    routes.trie.add(b"/to_internal", None, RouteContext::rewrite(Rewrite::new(Variable::simple(b"@internal"))));
    routes.named.add(b"@internal", None, RouteContext::echo(Echo::new(Variable::simple(b"Hello from internal!"), HttpStatus::OK)));
    let mut req = parse(b"GET /to_internal HTTP/1.1\r\nHost: x\r\n\r\n");
    let mut resp = response(routes.handle(&mut req));
    let out = text(&resp.serialize());
    assert!(out.starts_with("HTTP/1.1 200 OK\r\n"));
    assert!(out.ends_with("\r\n\r\nHello from internal!"));
}

#[test]
fn keepalive_limit() {
    let opts = Options { request_timeout: 1000, response_timeout: 1000, keepalive_timeout: 5000, keepalive_requests: 3 };
    let mut reactor = Reactor::new(opts);
    reactor.accept(7, 0);
    let mut served = 0;
    let mut closed_after = None;
    for n in 0..4u64 {
        let c = match reactor.client(7) {
            Some(c) => c,
            None => break,
        };
        reactor.start_request(c, n * 10);
        let c = reactor.client(7).unwrap();
        assert_eq!(reactor.parsed(c, ParseCode::Parsed, n * 10 + 1), Action::Dispatch);
        assert!(reactor.client(7).is_none());
        reactor.respond(7, c.requests, n * 10 + 2);
        let c = reactor.client(7).unwrap();
        let a = reactor.flushed(c, FlushCode::Done, n * 10 + 3);
        served += 1;
        if a == Action::Close {
            closed_after = Some(served);
            break;
        }
        assert_eq!(a, Action::WaitRead);
    }
    assert_eq!(closed_after, Some(3));
    assert!(reactor.client(7).is_none());
}

#[test]
fn chunked_passthrough() {
    let upstream = b"HTTP/1.1 200 OK\r\nTransfer-Encoding: chunked\r\n\r\n3\r\nabc\r\n2\r\nde\r\n0\r\n\r\n";
    let parsed = match Proxy::new().parse_response(upstream, false) {
        ProxyParse::Complete(r, used) => {
            assert_eq!(used, upstream.len());
            r
        }
        _ => panic!("upstream response did not parse"),
    };
    assert_eq!(parsed.body, b"abcde".to_vec());
    assert!(parsed.headers.is_empty());
    let mut resp = HttpResponse::new(HttpProtocol::HTTP11, false);
    resp.set_status(parsed.status);
    resp.set_body(&parsed.body);
    let out = text(&resp.serialize());
    assert!(out.starts_with("HTTP/1.1 200 OK\r\n"));
    assert!(out.contains("Content-Length: 5\r\n"));
    assert!(!out.contains("Transfer-Encoding"));
    assert!(out.ends_with("\r\n\r\nabcde"));
    match decode_chunked(b"3\r\nabc\r\n2\r\nde\r\n0\r\n\r\n") {
        ChunkedParse::Done(body, _) => assert_eq!(body, b"abcde".to_vec()),
        _ => panic!("chunked body did not decode"),
    }
}

#[test]
fn failover_to_second_server() {
    let servers = ["10.0.0.1:1", "10.0.0.2:80", "10.0.0.3:80"];
    let mut up = Upstream::new();
    for _ in 0..servers.len() {
        up.add_primary();
    }
    let reachable = |i: usize| i != 0;
    let mut state = Failover { tier: 0, tries: 0 };
    let mut chosen = None;
    loop {
        match up.next_server(&mut state, 0, &vec![], &vec![]) {
            Ok((tier, i)) => {
                assert_eq!(tier, 0);
                if reachable(i) {
                    chosen = Some(i);
                    break;
                }
            }
            Err(e) => panic!("{}", e.what()),
        }
    }
    let i = chosen.unwrap();
    assert_eq!(servers[i], "10.0.0.2:80");
    let upstream = b"HTTP/1.1 200 OK\r\nContent-Length: 2\r\n\r\nok";
    let up = match Proxy::new().parse_response(upstream, false) {
        ProxyParse::Complete(r, _) => r,
        _ => panic!("upstream response did not parse"),
    };
    let mut req = parse(b"GET /nginx HTTP/1.1\r\nHost: x\r\n\r\n");
    set_captures(&mut req, upstream_vars(b"nginx", servers[i].as_bytes(), up.status, 12));
    assert_eq!(
        req.vars,
        vec![
            (b"upstream_name".to_vec(), b"nginx".to_vec()),
            (b"upstream_addr".to_vec(), b"10.0.0.2:80".to_vec()),
            (b"upstream_status".to_vec(), b"200".to_vec()),
            (b"upstream_response_time".to_vec(), b"12".to_vec())
        ]
    );
    let mut resp = Proxy::new().respond(&req, &up);
    assert_eq!(resp.status().code(), 200);
    assert!(text(&resp.serialize()).ends_with("\r\n\r\nok"));
}
