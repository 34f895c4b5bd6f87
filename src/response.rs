use vstd::prelude::*;
use crate::bytes::{bytes_eq_ignore_case, eq_ignore_case};
use crate::chunked::{chunk_frame, encode_chunk, encode_last_chunk, last_chunk, CR, LF};
use crate::http::{protocol_version, status_text, HttpProtocol, HttpStatus};
use crate::request::pairs_of;

verus! {

/// How the body of a response is delimited on the wire.
#[derive(Clone, Copy, Debug, PartialEq, Eq, Structural)]
pub enum Framing {
    /// `Content-Length` bytes.
    Length(usize),
    /// Chunked transfer coding.
    Chunked,
    /// The body ends when the connection closes.
    UntilClose,
    /// 204 and 304 carry no body.
    NoBody,
}

/// The framing a response gets: none for 204 and 304; its length when it is
/// known; chunked on HTTP/1.1; else until the connection closes.
pub open spec fn framing_of(status: HttpStatus, protocol: HttpProtocol, content_length: Option<usize>) -> Framing {
    if status == HttpStatus::NO_CONTENT || status == HttpStatus::NOT_MODIFIED {
        Framing::NoBody
    } else {
        match content_length {
            Some(n) => Framing::Length(n),
            None => if protocol == HttpProtocol::HTTP11 {
                Framing::Chunked
            } else {
                Framing::UntilClose
            },
        }
    }
}

/// The connection survives the response: HTTP/1.1, the client did not ask to
/// close, and the body does not end with the connection.
pub open spec fn keeps_alive(protocol: HttpProtocol, client_close: bool, framing: Framing) -> bool {
    protocol == HttpProtocol::HTTP11 && !client_close && framing != Framing::UntilClose
}

pub open spec fn crlf() -> Seq<u8> {
    seq![CR, LF]
}

/// `name: value` and CRLF.
pub open spec fn header_bytes(name: Seq<u8>, value: Seq<u8>) -> Seq<u8> {
    name + seq![58u8, 32u8] + value + crlf()
}

pub open spec fn headers_bytes(hs: Seq<(Seq<u8>, Seq<u8>)>) -> Seq<u8>
    decreases hs.len(),
{
    if hs.len() == 0 {
        Seq::empty()
    } else {
        headers_bytes(hs.drop_last()) + header_bytes(hs.last().0, hs.last().1)
    }
}

pub open spec fn server_name() -> Seq<u8> {
    seq![/* web_server */ 119u8, 101u8, 98u8, 95u8, 115u8, 101u8, 114u8, 118u8, 101u8, 114u8]
}

pub open spec fn server_header() -> Seq<u8> {
    seq![/* Server */ 83u8, 101u8, 114u8, 118u8, 101u8, 114u8]
}

pub open spec fn connection_header() -> Seq<u8> {
    seq![/* Connection */ 67u8, 111u8, 110u8, 110u8, 101u8, 99u8, 116u8, 105u8, 111u8, 110u8]
}

pub open spec fn keep_alive_value() -> Seq<u8> {
    seq![/* keep-alive */ 107u8, 101u8, 101u8, 112u8, 45u8, 97u8, 108u8, 105u8, 118u8, 101u8]
}

pub open spec fn close_value() -> Seq<u8> {
    seq![/* close */ 99u8, 108u8, 111u8, 115u8, 101u8]
}

pub open spec fn length_header() -> Seq<u8> {
    seq![/* Content-Length */ 67u8, 111u8, 110u8, 116u8, 101u8, 110u8, 116u8, 45u8, 76u8, 101u8, 110u8, 103u8, 116u8, 104u8]
}

pub open spec fn encoding_header() -> Seq<u8> {
    seq![/* Transfer-Encoding */ 84u8, 114u8, 97u8, 110u8, 115u8, 102u8, 101u8, 114u8, 45u8, 69u8, 110u8, 99u8, 111u8, 100u8, 105u8, 110u8, 103u8]
}

pub open spec fn chunked_value() -> Seq<u8> {
    seq![/* chunked */ 99u8, 104u8, 117u8, 110u8, 107u8, 101u8, 100u8]
}

pub open spec fn content_type_header() -> Seq<u8> {
    seq![/* Content-Type */ 67u8, 111u8, 110u8, 116u8, 101u8, 110u8, 116u8, 45u8, 84u8, 121u8, 112u8, 101u8]
}

pub open spec fn dec(n: nat) -> Seq<u8>
    decreases n,
{
    if n < 10 {
        seq![(48 + n) as u8]
    } else {
        dec(n / 10) + seq![(48 + n % 10) as u8]
    }
}

/// The framing header of a response.
pub open spec fn framing_bytes(f: Framing) -> Seq<u8> {
    match f {
        Framing::Length(n) => header_bytes(length_header(), dec(n as nat)),
        Framing::Chunked => header_bytes(encoding_header(), chunked_value()),
        _ => Seq::empty(),
    }
}

/// A response head: status line, `Server`, `Connection`, the response's own
/// headers, the framing header, and the empty line.
pub open spec fn head_bytes(
    protocol: HttpProtocol,
    status: HttpStatus,
    keep: bool,
    hs: Seq<(Seq<u8>, Seq<u8>)>,
    f: Framing,
) -> Seq<u8> {
    seq![/* HTTP/ */ 72u8, 84u8, 84u8, 80u8, 47u8] + protocol_version(protocol) + seq![32u8] + status_text(status) + crlf()
        + header_bytes(server_header(), server_name())
        + header_bytes(connection_header(), if keep { keep_alive_value() } else { close_value() })
        + headers_bytes(hs)
        + framing_bytes(f)
        + crlf()
}

/// A body as it goes on the wire with the given framing.
pub open spec fn body_bytes(f: Framing, body: Seq<u8>) -> Seq<u8> {
    match f {
        Framing::NoBody => Seq::empty(),
        Framing::Chunked => chunk_frame(body) + last_chunk(),
        _ => body,
    }
}

/// The headers without those named `name`, up to ASCII case.
pub open spec fn without(hs: Seq<(Seq<u8>, Seq<u8>)>, name: Seq<u8>) -> Seq<(Seq<u8>, Seq<u8>)>
    decreases hs.len(),
{
    if hs.len() == 0 {
        Seq::empty()
    } else if eq_ignore_case(hs.last().0, name) {
        without(hs.drop_last(), name)
    } else {
        without(hs.drop_last(), name).push(hs.last())
    }
}

/// A response under construction.
pub struct HttpResponse {
    status: HttpStatus,
    protocol: HttpProtocol,
    client_close: bool,
    headers: Vec<(Vec<u8>, Vec<u8>)>,
    content_length: Option<usize>,
    body: Option<Vec<u8>>,
    headers_sent: bool,
    closed: bool,
}

fn append(v: &mut Vec<u8>, s: &[u8])
    ensures
        final(v)@ == old(v)@ + s@,
{
    let mut i: usize = 0;
    let ghost start = v@;
    while i < s.len()
        invariant
            i <= s@.len(),
            v@ == start + s@.subrange(0, i as int),
        decreases s@.len() - i,
    {
        v.push(s[i]);
        i = i + 1;
        assert(v@ == start + s@.subrange(0, i as int));
    }
    assert(s@.subrange(0, s@.len() as int) == s@);
}

fn push_header(v: &mut Vec<u8>, name: &[u8], value: &[u8])
    ensures
        final(v)@ == old(v)@ + header_bytes(name@, value@),
{
    let ghost start = v@;
    append(v, name);
    v.push(58u8);
    v.push(32u8);
    append(v, value);
    v.push(CR);
    v.push(LF);
    assert(v@ == start + header_bytes(name@, value@));
}

/// Writes `n` in decimal.
pub fn format_dec(n: usize) -> (r: Vec<u8>)
    ensures
        r@ == dec(n as nat),
    decreases n,
{
    if n < 10 {
        vec![48u8 + n as u8]
    } else {
        let mut v = format_dec(n / 10);
        v.push(48u8 + (n % 10) as u8);
        v
    }
}

impl HttpResponse {
    pub closed spec fn spec_status(&self) -> HttpStatus {
        self.status
    }

    pub closed spec fn spec_protocol(&self) -> HttpProtocol {
        self.protocol
    }

    pub closed spec fn spec_client_close(&self) -> bool {
        self.client_close
    }

    pub closed spec fn spec_headers(&self) -> Seq<(Seq<u8>, Seq<u8>)> {
        pairs_of(self.headers@)
    }

    pub closed spec fn spec_content_length(&self) -> Option<usize> {
        self.content_length
    }

    pub closed spec fn spec_body(&self) -> Seq<u8> {
        match self.body {
            Some(b) => b@,
            None => Seq::empty(),
        }
    }

    pub closed spec fn spec_headers_sent(&self) -> bool {
        self.headers_sent
    }

    pub closed spec fn spec_closed(&self) -> bool {
        self.closed
    }

    pub open spec fn framing(&self) -> Framing {
        framing_of(self.spec_status(), self.spec_protocol(), self.spec_content_length())
    }

    /// A response to a request of `protocol`; `client_close` tells that the
    /// request asked to close the connection.
    pub fn new(protocol: HttpProtocol, client_close: bool) -> (r: HttpResponse)
        ensures
            r.spec_status() == HttpStatus::OK,
            r.spec_protocol() == protocol,
            r.spec_client_close() == client_close,
            r.spec_headers().len() == 0,
            r.spec_content_length() is None,
            r.spec_body().len() == 0,
            !r.spec_headers_sent(),
            !r.spec_closed(),
    {
        HttpResponse {
            status: HttpStatus::OK,
            protocol,
            client_close,
            headers: Vec::new(),
            content_length: None,
            body: None,
            headers_sent: false,
            closed: false,
        }
    }

    pub fn status(&self) -> (r: HttpStatus)
        ensures
            r == self.spec_status(),
    {
        self.status
    }

    pub fn set_status(&mut self, status: HttpStatus)
        ensures
            final(self).spec_status() == status,
            final(self).spec_protocol() == old(self).spec_protocol(),
            final(self).spec_client_close() == old(self).spec_client_close(),
            final(self).spec_headers() == old(self).spec_headers(),
            final(self).spec_content_length() == old(self).spec_content_length(),
            final(self).spec_body() == old(self).spec_body(),
            final(self).spec_headers_sent() == old(self).spec_headers_sent(),
            final(self).spec_closed() == old(self).spec_closed(),
    {
        self.status = status;
    }

    /// The connection must close after this response.
    pub fn closed(&self) -> (r: bool)
        ensures
            r == self.spec_closed(),
    {
        self.closed
    }

    pub fn content_length(&self) -> (r: Option<usize>)
        ensures
            r == self.spec_content_length(),
    {
        self.content_length
    }

    /// Removes every header named `name`, up to ASCII case.
    pub fn remove_header(&mut self, name: &[u8])
        ensures
            final(self).spec_headers() == without(old(self).spec_headers(), name@),
            final(self).spec_status() == old(self).spec_status(),
            final(self).spec_protocol() == old(self).spec_protocol(),
            final(self).spec_client_close() == old(self).spec_client_close(),
            final(self).spec_content_length() == old(self).spec_content_length(),
            final(self).spec_body() == old(self).spec_body(),
            final(self).spec_headers_sent() == old(self).spec_headers_sent(),
            final(self).spec_closed() == old(self).spec_closed(),
    {
        let ghost hs = pairs_of(self.headers@);
        let mut kept: Vec<(Vec<u8>, Vec<u8>)> = Vec::new();
        let mut i: usize = 0;
        while i < self.headers.len()
            invariant
                i <= self.headers@.len(),
                hs == pairs_of(self.headers@),
                pairs_of(kept@) == without(hs.take(i as int), name@),
            decreases self.headers@.len() - i,
        {
            proof {
                assert(hs.take(i + 1).drop_last() == hs.take(i as int));
                assert(hs.take(i + 1).last() == hs[i as int]);
            }
            if !bytes_eq_ignore_case(self.headers[i].0.as_slice(), name) {
                let k = crate::bytes::copy_slice(self.headers[i].0.as_slice(), 0, self.headers[i].0.len());
                let v = crate::bytes::copy_slice(self.headers[i].1.as_slice(), 0, self.headers[i].1.len());
                assert(k@ == self.headers@[i as int].0@);
                assert(v@ == self.headers@[i as int].1@);
                let ghost before = pairs_of(kept@);
                kept.push((k, v));
                assert(pairs_of(kept@) == before.push((k@, v@)));
            }
            i = i + 1;
        }
        assert(hs.take(i as int) == hs);
        self.headers = kept;
    }

    /// Sets a header: those of the same name, up to ASCII case, go, and this
    /// one comes last.
    pub fn set_header(&mut self, name: &[u8], value: &[u8])
        ensures
            final(self).spec_headers() == without(old(self).spec_headers(), name@).push((name@, value@)),
            final(self).spec_status() == old(self).spec_status(),
            final(self).spec_protocol() == old(self).spec_protocol(),
            final(self).spec_client_close() == old(self).spec_client_close(),
            final(self).spec_content_length() == old(self).spec_content_length(),
            final(self).spec_body() == old(self).spec_body(),
            final(self).spec_headers_sent() == old(self).spec_headers_sent(),
            final(self).spec_closed() == old(self).spec_closed(),
    {
        self.remove_header(name);
        self.add_header(name, value);
    }

    /// Adds a header after the others.
    pub fn add_header(&mut self, name: &[u8], value: &[u8])
        ensures
            final(self).spec_headers() == old(self).spec_headers().push((name@, value@)),
            final(self).spec_status() == old(self).spec_status(),
            final(self).spec_protocol() == old(self).spec_protocol(),
            final(self).spec_client_close() == old(self).spec_client_close(),
            final(self).spec_content_length() == old(self).spec_content_length(),
            final(self).spec_body() == old(self).spec_body(),
            final(self).spec_headers_sent() == old(self).spec_headers_sent(),
            final(self).spec_closed() == old(self).spec_closed(),
    {
        let k = crate::bytes::copy_slice(name, 0, name.len());
        let v = crate::bytes::copy_slice(value, 0, value.len());
        assert(k@ == name@ && v@ == value@);
        let ghost before = pairs_of(self.headers@);
        self.headers.push((k, v));
        assert(pairs_of(self.headers@) == before.push((name@, value@)));
    }

    /// Sets the whole body; its length becomes the content length.
    pub fn set_body(&mut self, body: &[u8])
        ensures
            final(self).spec_body() == body@,
            final(self).spec_content_length() == Some(body@.len() as usize),
            final(self).spec_status() == old(self).spec_status(),
            final(self).spec_protocol() == old(self).spec_protocol(),
            final(self).spec_client_close() == old(self).spec_client_close(),
            final(self).spec_headers() == old(self).spec_headers(),
            final(self).spec_headers_sent() == old(self).spec_headers_sent(),
            final(self).spec_closed() == old(self).spec_closed(),
    {
        let b = crate::bytes::copy_slice(body, 0, body.len());
        assert(b@ == body@);
        self.content_length = Some(body.len());
        self.body = Some(b);
    }

    /// Answers 204 with no body.
    pub fn send_no_content(&mut self)
        ensures
            final(self).spec_status() == HttpStatus::NO_CONTENT,
            final(self).spec_body().len() == 0,
            final(self).spec_content_length() is None,
            final(self).framing() == Framing::NoBody,
            final(self).spec_headers() == old(self).spec_headers(),
            final(self).spec_protocol() == old(self).spec_protocol(),
            final(self).spec_client_close() == old(self).spec_client_close(),
            final(self).spec_headers_sent() == old(self).spec_headers_sent(),
            final(self).spec_closed() == old(self).spec_closed(),
    {
        self.status = HttpStatus::NO_CONTENT;
        self.body = None;
        self.content_length = None;
    }

    /// Answers 304 with no body.
    pub fn send_not_modified(&mut self)
        ensures
            final(self).spec_status() == HttpStatus::NOT_MODIFIED,
            final(self).spec_body().len() == 0,
            final(self).spec_content_length() is None,
            final(self).framing() == Framing::NoBody,
            final(self).spec_headers() == old(self).spec_headers(),
            final(self).spec_protocol() == old(self).spec_protocol(),
            final(self).spec_client_close() == old(self).spec_client_close(),
            final(self).spec_headers_sent() == old(self).spec_headers_sent(),
            final(self).spec_closed() == old(self).spec_closed(),
    {
        self.status = HttpStatus::NOT_MODIFIED;
        self.body = None;
        self.content_length = None;
    }

    /// Answers with a status, a content type and a body.
    pub fn send(&mut self, status: HttpStatus, content_type: &[u8], text: Option<&[u8]>)
        ensures
            final(self).spec_status() == status,
            final(self).spec_headers() == without(old(self).spec_headers(), content_type_header()).push(
                (content_type_header(), content_type@),
            ),
            final(self).spec_body() == match text {
                Some(t) => t@,
                None => Seq::empty(),
            },
            final(self).spec_content_length() == Some(match text {
                Some(t) => t@.len() as usize,
                None => 0usize,
            }),
            final(self).spec_protocol() == old(self).spec_protocol(),
            final(self).spec_client_close() == old(self).spec_client_close(),
            final(self).spec_headers_sent() == old(self).spec_headers_sent(),
            final(self).spec_closed() == old(self).spec_closed(),
    {
        self.status = status;
        let ct: Vec<u8> = vec![/* Content-Type */ 67u8, 111u8, 110u8, 116u8, 101u8, 110u8, 116u8, 45u8, 84u8, 121u8, 112u8, 101u8];
        self.set_header(ct.as_slice(), content_type);
        match text {
            Some(t) => self.set_body(t),
            None => {
                let empty: Vec<u8> = Vec::new();
                self.set_body(empty.as_slice());
            },
        }
    }

    /// The response head, once: `Connection` as the protocol and the client
    /// allow, and the framing header as [`framing_of`] decides. A second call
    /// gives nothing. Marks the response closed when the connection must not
    /// be kept.
    #[verifier::rlimit(50)]
    pub fn flush_headers(&mut self) -> (r: Vec<u8>)
        ensures
            old(self).spec_headers_sent() ==> r@.len() == 0 && *final(self) == *old(self),
            !old(self).spec_headers_sent() ==> {
                let f = old(self).framing();
                let keep = keeps_alive(old(self).spec_protocol(), old(self).spec_client_close(), f);
                &&& r@ == head_bytes(old(self).spec_protocol(), old(self).spec_status(), keep, old(self).spec_headers(), f)
                &&& final(self).spec_headers_sent()
                &&& final(self).spec_closed() == !keep
                &&& final(self).spec_status() == old(self).spec_status()
                &&& final(self).spec_protocol() == old(self).spec_protocol()
                &&& final(self).spec_headers() == old(self).spec_headers()
                &&& final(self).spec_content_length() == old(self).spec_content_length()
                &&& final(self).spec_body() == old(self).spec_body()
                &&& final(self).spec_client_close() == old(self).spec_client_close()
            },
    {
        if self.headers_sent {
            return Vec::new();
        }
        let f = self.framing_exec();
        let keep = self.protocol == HttpProtocol::HTTP11 && !self.client_close && f != Framing::UntilClose;
        let mut r: Vec<u8> = vec![/* HTTP/ */ 72u8, 84u8, 84u8, 80u8, 47u8];
        let v = self.protocol.version();
        append(&mut r, v.as_slice());
        r.push(32u8);
        let st = self.status.text();
        append(&mut r, st.as_slice());
        r.push(CR);
        r.push(LF);
        let server_h: Vec<u8> = vec![/* Server */ 83u8, 101u8, 114u8, 118u8, 101u8, 114u8];
        let server_v: Vec<u8> = vec![/* web_server */ 119u8, 101u8, 98u8, 95u8, 115u8, 101u8, 114u8, 118u8, 101u8, 114u8];
        push_header(&mut r, server_h.as_slice(), server_v.as_slice());
        let conn_h: Vec<u8> = vec![/* Connection */ 67u8, 111u8, 110u8, 110u8, 101u8, 99u8, 116u8, 105u8, 111u8, 110u8];
        let conn_v: Vec<u8> = if keep {
            vec![/* keep-alive */ 107u8, 101u8, 101u8, 112u8, 45u8, 97u8, 108u8, 105u8, 118u8, 101u8]
        } else {
            vec![/* close */ 99u8, 108u8, 111u8, 115u8, 101u8]
        };
        push_header(&mut r, conn_h.as_slice(), conn_v.as_slice());
        let ghost before_headers = r@;
        let ghost hs = pairs_of(self.headers@);
        let mut i: usize = 0;
        while i < self.headers.len()
            invariant
                i <= self.headers@.len(),
                hs == pairs_of(self.headers@),
                r@ == before_headers + headers_bytes(hs.take(i as int)),
            decreases self.headers@.len() - i,
        {
            proof {
                assert(hs.take(i + 1).drop_last() == hs.take(i as int));
                assert(hs.take(i + 1).last() == hs[i as int]);
            }
            push_header(&mut r, self.headers[i].0.as_slice(), self.headers[i].1.as_slice());
            i = i + 1;
        }
        assert(hs.take(i as int) == hs);
        match f {
            Framing::Length(n) => {
                let h: Vec<u8> = vec![/* Content-Length */ 67u8, 111u8, 110u8, 116u8, 101u8, 110u8, 116u8, 45u8, 76u8, 101u8, 110u8, 103u8, 116u8, 104u8];
                let d = format_dec(n);
                push_header(&mut r, h.as_slice(), d.as_slice());
            },
            Framing::Chunked => {
                let h: Vec<u8> = vec![/* Transfer-Encoding */ 84u8, 114u8, 97u8, 110u8, 115u8, 102u8, 101u8, 114u8, 45u8, 69u8, 110u8, 99u8, 111u8, 100u8, 105u8, 110u8, 103u8];
                let c: Vec<u8> = vec![/* chunked */ 99u8, 104u8, 117u8, 110u8, 107u8, 101u8, 100u8];
                push_header(&mut r, h.as_slice(), c.as_slice());
            },
            _ => {},
        }
        r.push(CR);
        r.push(LF);
        self.headers_sent = true;
        self.closed = !keep;
        r
    }

    fn framing_exec(&self) -> (f: Framing)
        ensures
            f == self.framing(),
    {
        if self.status == HttpStatus::NO_CONTENT || self.status == HttpStatus::NOT_MODIFIED {
            Framing::NoBody
        } else {
            match self.content_length {
                Some(n) => Framing::Length(n),
                None => if self.protocol == HttpProtocol::HTTP11 {
                    Framing::Chunked
                } else {
                    Framing::UntilClose
                },
            }
        }
    }

    /// Appends bytes to the body; unless the body goes chunked, the content
    /// length grows to cover it.
    pub fn append_body(&mut self, chunk: &[u8])
        requires
            old(self).spec_body().len() + chunk@.len() <= usize::MAX,
        ensures
            final(self).spec_body() == old(self).spec_body() + chunk@,
            final(self).spec_content_length() == if old(self).spec_content_length() is None
                && old(self).spec_protocol() == HttpProtocol::HTTP11 && old(self).spec_headers_sent() {
                None
            } else {
                match old(self).spec_content_length() {
                    Some(n) => if n >= final(self).spec_body().len() { Some(n) } else { Some(final(self).spec_body().len() as usize) },
                    None => Some(final(self).spec_body().len() as usize),
                }
            },
            final(self).spec_status() == old(self).spec_status(),
            final(self).spec_protocol() == old(self).spec_protocol(),
            final(self).spec_client_close() == old(self).spec_client_close(),
            final(self).spec_headers() == old(self).spec_headers(),
            final(self).spec_headers_sent() == old(self).spec_headers_sent(),
            final(self).spec_closed() == old(self).spec_closed(),
    {
        let mut body = self.body_copy();
        append(&mut body, chunk);
        let len = body.len();
        self.body = Some(body);
        let chunked = self.content_length.is_none() && self.protocol == HttpProtocol::HTTP11 && self.headers_sent;
        if !chunked {
            self.content_length = match self.content_length {
                Some(n) => if n >= len { Some(n) } else { Some(len) },
                None => Some(len),
            };
        }
    }

    /// Sends one piece of a streamed body: the head first if it is not out
    /// yet, then the piece framed as the response's framing says; `None`
    /// ends a chunked body.
    pub fn send_body_chunk(&mut self, chunk: Option<&[u8]>) -> (r: Vec<u8>)
        ensures
            ({
                let f = old(self).framing();
                let keep = keeps_alive(old(self).spec_protocol(), old(self).spec_client_close(), f);
                let head = if old(self).spec_headers_sent() {
                    Seq::<u8>::empty()
                } else {
                    head_bytes(old(self).spec_protocol(), old(self).spec_status(), keep, old(self).spec_headers(), f)
                };
                r@ == head + match (f, chunk) {
                    (Framing::NoBody, _) => Seq::empty(),
                    (Framing::Chunked, Some(c)) => chunk_frame(c@),
                    (Framing::Chunked, None) => last_chunk(),
                    (_, Some(c)) => c@,
                    (_, None) => Seq::empty(),
                }
            }),
            final(self).spec_headers_sent(),
            final(self).spec_status() == old(self).spec_status(),
            final(self).spec_protocol() == old(self).spec_protocol(),
            final(self).spec_content_length() == old(self).spec_content_length(),
    {
        let f = self.framing_exec();
        let mut r = self.flush_headers();
        match (f, chunk) {
            (Framing::NoBody, _) => {},
            (Framing::Chunked, Some(c)) => {
                let framed = encode_chunk(c);
                append(&mut r, framed.as_slice());
            },
            (Framing::Chunked, None) => {
                let last = encode_last_chunk();
                append(&mut r, last.as_slice());
            },
            (_, Some(c)) => append(&mut r, c),
            (_, None) => {},
        }
        r
    }

    fn body_copy(&self) -> (r: Vec<u8>)
        ensures
            r@ == self.spec_body(),
    {
        match &self.body {
            Some(b) => {
                let c = crate::bytes::copy_slice(b.as_slice(), 0, b.len());
                assert(c@ == b@);
                c
            },
            None => Vec::new(),
        }
    }

    /// The whole response on the wire: its head, then its body framed.
    pub fn serialize(&mut self) -> (r: Vec<u8>)
        requires
            !old(self).spec_headers_sent(),
        ensures
            ({
                let f = old(self).framing();
                let keep = keeps_alive(old(self).spec_protocol(), old(self).spec_client_close(), f);
                &&& r@ == head_bytes(old(self).spec_protocol(), old(self).spec_status(), keep, old(self).spec_headers(), f)
                    + body_bytes(f, old(self).spec_body())
                &&& final(self).spec_closed() == !keep
                &&& final(self).spec_headers_sent()
            }),
    {
        let f = self.framing_exec();
        let mut r = self.flush_headers();
        let empty: Vec<u8> = Vec::new();
        let body: &[u8] = match &self.body {
            Some(b) => b.as_slice(),
            None => empty.as_slice(),
        };
        match f {
            Framing::NoBody => {},
            Framing::Chunked => {
                let c = encode_chunk(body);
                append(&mut r, c.as_slice());
                let l = encode_last_chunk();
                append(&mut r, l.as_slice());
                assert(r@ == head_bytes(old(self).spec_protocol(), old(self).spec_status(),
                    keeps_alive(old(self).spec_protocol(), old(self).spec_client_close(), f),
                    old(self).spec_headers(), f) + (c@ + l@));
            },
            _ => append(&mut r, body),
        }
        r
    }
}

/// The interim answer to `Expect: 100-continue`.
pub open spec fn continue_response() -> Seq<u8> {
    seq![/* HTTP/1.1 100 Continue\r\ncontent-length: 0\r\n\r\n */ 72u8, 84u8, 84u8, 80u8, 47u8, 49u8, 46u8, 49u8, 32u8, 49u8, 48u8, 48u8, 32u8, 67u8, 111u8, 110u8, 116u8, 105u8, 110u8, 117u8, 101u8, 13u8, 10u8, 99u8, 111u8, 110u8, 116u8, 101u8, 110u8, 116u8, 45u8, 108u8, 101u8, 110u8, 103u8, 116u8, 104u8, 58u8, 32u8, 48u8, 13u8, 10u8, 13u8, 10u8]
}

/// The interim answer to `Expect: 100-continue`, sent before the body is read.
pub fn continue_bytes() -> (r: Vec<u8>)
    ensures
        r@ == continue_response(),
{
    vec![/* HTTP/1.1 100 Continue\r\ncontent-length: 0\r\n\r\n */ 72u8, 84u8, 84u8, 80u8, 47u8, 49u8, 46u8, 49u8, 32u8, 49u8, 48u8, 48u8, 32u8, 67u8, 111u8, 110u8, 116u8, 105u8, 110u8, 117u8, 101u8, 13u8, 10u8, 99u8, 111u8, 110u8, 116u8, 101u8, 110u8, 116u8, 45u8, 108u8, 101u8, 110u8, 103u8, 116u8, 104u8, 58u8, 32u8, 48u8, 13u8, 10u8, 13u8, 10u8]
}

} // verus!
