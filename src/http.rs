use vstd::prelude::*;
use crate::bytes::bytes_eq;

verus! {

/// The request methods the server recognizes.
#[allow(non_camel_case_types)]
#[derive(Clone, Copy, Debug, PartialEq, Eq, Structural)]
pub enum HttpMethod {
    UNSUPPORTED,
    GET,
    HEAD,
    POST,
    PUT,
    DELETE,
    OPTIONS,
    MKCOL,
    COPY,
    MOVE,
    PROPFIND,
    PROPPATCH,
    LOCK,
    UNLOCK,
    PATCH,
    TRACE,
}

/// The method that a request line's first word names.
pub open spec fn method_of(word: Seq<u8>) -> HttpMethod {
    if word == seq![/* GET */ 71u8, 69u8, 84u8] {
        HttpMethod::GET
    } else if word == seq![/* HEAD */ 72u8, 69u8, 65u8, 68u8] {
        HttpMethod::HEAD
    } else if word == seq![/* POST */ 80u8, 79u8, 83u8, 84u8] {
        HttpMethod::POST
    } else if word == seq![/* PUT */ 80u8, 85u8, 84u8] {
        HttpMethod::PUT
    } else if word == seq![/* DELETE */ 68u8, 69u8, 76u8, 69u8, 84u8, 69u8] {
        HttpMethod::DELETE
    } else if word == seq![/* OPTIONS */ 79u8, 80u8, 84u8, 73u8, 79u8, 78u8, 83u8] {
        HttpMethod::OPTIONS
    } else if word == seq![/* MKCOL */ 77u8, 75u8, 67u8, 79u8, 76u8] {
        HttpMethod::MKCOL
    } else if word == seq![/* COPY */ 67u8, 79u8, 80u8, 89u8] {
        HttpMethod::COPY
    } else if word == seq![/* MOVE */ 77u8, 79u8, 86u8, 69u8] {
        HttpMethod::MOVE
    } else if word == seq![/* PROPFIND */ 80u8, 82u8, 79u8, 80u8, 70u8, 73u8, 78u8, 68u8] {
        HttpMethod::PROPFIND
    } else if word == seq![/* PROPPATCH */ 80u8, 82u8, 79u8, 80u8, 80u8, 65u8, 84u8, 67u8, 72u8] {
        HttpMethod::PROPPATCH
    } else if word == seq![/* LOCK */ 76u8, 79u8, 67u8, 75u8] {
        HttpMethod::LOCK
    } else if word == seq![/* UNLOCK */ 85u8, 78u8, 76u8, 79u8, 67u8, 75u8] {
        HttpMethod::UNLOCK
    } else if word == seq![/* PATCH */ 80u8, 65u8, 84u8, 67u8, 72u8] {
        HttpMethod::PATCH
    } else if word == seq![/* TRACE */ 84u8, 82u8, 65u8, 67u8, 69u8] {
        HttpMethod::TRACE
    } else {
        HttpMethod::UNSUPPORTED
    }
}

/// The name of a method, as it stands on the wire.
pub open spec fn method_name(m: HttpMethod) -> Seq<u8> {
    match m {
        HttpMethod::UNSUPPORTED => seq![/* UNSUPPORTED */ 85u8, 78u8, 83u8, 85u8, 80u8, 80u8, 79u8, 82u8, 84u8, 69u8, 68u8],
        HttpMethod::GET => seq![/* GET */ 71u8, 69u8, 84u8],
        HttpMethod::HEAD => seq![/* HEAD */ 72u8, 69u8, 65u8, 68u8],
        HttpMethod::POST => seq![/* POST */ 80u8, 79u8, 83u8, 84u8],
        HttpMethod::PUT => seq![/* PUT */ 80u8, 85u8, 84u8],
        HttpMethod::DELETE => seq![/* DELETE */ 68u8, 69u8, 76u8, 69u8, 84u8, 69u8],
        HttpMethod::OPTIONS => seq![/* OPTIONS */ 79u8, 80u8, 84u8, 73u8, 79u8, 78u8, 83u8],
        HttpMethod::MKCOL => seq![/* MKCOL */ 77u8, 75u8, 67u8, 79u8, 76u8],
        HttpMethod::COPY => seq![/* COPY */ 67u8, 79u8, 80u8, 89u8],
        HttpMethod::MOVE => seq![/* MOVE */ 77u8, 79u8, 86u8, 69u8],
        HttpMethod::PROPFIND => seq![/* PROPFIND */ 80u8, 82u8, 79u8, 80u8, 70u8, 73u8, 78u8, 68u8],
        HttpMethod::PROPPATCH => seq![/* PROPPATCH */ 80u8, 82u8, 79u8, 80u8, 80u8, 65u8, 84u8, 67u8, 72u8],
        HttpMethod::LOCK => seq![/* LOCK */ 76u8, 79u8, 67u8, 75u8],
        HttpMethod::UNLOCK => seq![/* UNLOCK */ 85u8, 78u8, 76u8, 79u8, 67u8, 75u8],
        HttpMethod::PATCH => seq![/* PATCH */ 80u8, 65u8, 84u8, 67u8, 72u8],
        HttpMethod::TRACE => seq![/* TRACE */ 84u8, 82u8, 65u8, 67u8, 69u8],
    }
}

impl HttpMethod {
    /// Recognizes a method by its name.
    pub fn from_bytes(word: &[u8]) -> (m: HttpMethod)
        ensures
            m == method_of(word@),
    {
        let w: Vec<u8> = vec![/* GET */ 71u8, 69u8, 84u8];
        if bytes_eq(word, w.as_slice()) {
            return HttpMethod::GET;
        }
        let w: Vec<u8> = vec![/* HEAD */ 72u8, 69u8, 65u8, 68u8];
        if bytes_eq(word, w.as_slice()) {
            return HttpMethod::HEAD;
        }
        let w: Vec<u8> = vec![/* POST */ 80u8, 79u8, 83u8, 84u8];
        if bytes_eq(word, w.as_slice()) {
            return HttpMethod::POST;
        }
        let w: Vec<u8> = vec![/* PUT */ 80u8, 85u8, 84u8];
        if bytes_eq(word, w.as_slice()) {
            return HttpMethod::PUT;
        }
        let w: Vec<u8> = vec![/* DELETE */ 68u8, 69u8, 76u8, 69u8, 84u8, 69u8];
        if bytes_eq(word, w.as_slice()) {
            return HttpMethod::DELETE;
        }
        let w: Vec<u8> = vec![/* OPTIONS */ 79u8, 80u8, 84u8, 73u8, 79u8, 78u8, 83u8];
        if bytes_eq(word, w.as_slice()) {
            return HttpMethod::OPTIONS;
        }
        let w: Vec<u8> = vec![/* MKCOL */ 77u8, 75u8, 67u8, 79u8, 76u8];
        if bytes_eq(word, w.as_slice()) {
            return HttpMethod::MKCOL;
        }
        let w: Vec<u8> = vec![/* COPY */ 67u8, 79u8, 80u8, 89u8];
        if bytes_eq(word, w.as_slice()) {
            return HttpMethod::COPY;
        }
        let w: Vec<u8> = vec![/* MOVE */ 77u8, 79u8, 86u8, 69u8];
        if bytes_eq(word, w.as_slice()) {
            return HttpMethod::MOVE;
        }
        let w: Vec<u8> = vec![/* PROPFIND */ 80u8, 82u8, 79u8, 80u8, 70u8, 73u8, 78u8, 68u8];
        if bytes_eq(word, w.as_slice()) {
            return HttpMethod::PROPFIND;
        }
        let w: Vec<u8> = vec![/* PROPPATCH */ 80u8, 82u8, 79u8, 80u8, 80u8, 65u8, 84u8, 67u8, 72u8];
        if bytes_eq(word, w.as_slice()) {
            return HttpMethod::PROPPATCH;
        }
        let w: Vec<u8> = vec![/* LOCK */ 76u8, 79u8, 67u8, 75u8];
        if bytes_eq(word, w.as_slice()) {
            return HttpMethod::LOCK;
        }
        let w: Vec<u8> = vec![/* UNLOCK */ 85u8, 78u8, 76u8, 79u8, 67u8, 75u8];
        if bytes_eq(word, w.as_slice()) {
            return HttpMethod::UNLOCK;
        }
        let w: Vec<u8> = vec![/* PATCH */ 80u8, 65u8, 84u8, 67u8, 72u8];
        if bytes_eq(word, w.as_slice()) {
            return HttpMethod::PATCH;
        }
        let w: Vec<u8> = vec![/* TRACE */ 84u8, 82u8, 65u8, 67u8, 69u8];
        if bytes_eq(word, w.as_slice()) {
            return HttpMethod::TRACE;
        }
        HttpMethod::UNSUPPORTED
    }

    /// The method's name.
    pub fn name(&self) -> (r: Vec<u8>)
        ensures
            r@ == method_name(*self),
    {
        match self {
            HttpMethod::UNSUPPORTED => vec![/* UNSUPPORTED */ 85u8, 78u8, 83u8, 85u8, 80u8, 80u8, 79u8, 82u8, 84u8, 69u8, 68u8],
            HttpMethod::GET => vec![/* GET */ 71u8, 69u8, 84u8],
            HttpMethod::HEAD => vec![/* HEAD */ 72u8, 69u8, 65u8, 68u8],
            HttpMethod::POST => vec![/* POST */ 80u8, 79u8, 83u8, 84u8],
            HttpMethod::PUT => vec![/* PUT */ 80u8, 85u8, 84u8],
            HttpMethod::DELETE => vec![/* DELETE */ 68u8, 69u8, 76u8, 69u8, 84u8, 69u8],
            HttpMethod::OPTIONS => vec![/* OPTIONS */ 79u8, 80u8, 84u8, 73u8, 79u8, 78u8, 83u8],
            HttpMethod::MKCOL => vec![/* MKCOL */ 77u8, 75u8, 67u8, 79u8, 76u8],
            HttpMethod::COPY => vec![/* COPY */ 67u8, 79u8, 80u8, 89u8],
            HttpMethod::MOVE => vec![/* MOVE */ 77u8, 79u8, 86u8, 69u8],
            HttpMethod::PROPFIND => vec![/* PROPFIND */ 80u8, 82u8, 79u8, 80u8, 70u8, 73u8, 78u8, 68u8],
            HttpMethod::PROPPATCH => vec![/* PROPPATCH */ 80u8, 82u8, 79u8, 80u8, 80u8, 65u8, 84u8, 67u8, 72u8],
            HttpMethod::LOCK => vec![/* LOCK */ 76u8, 79u8, 67u8, 75u8],
            HttpMethod::UNLOCK => vec![/* UNLOCK */ 85u8, 78u8, 76u8, 79u8, 67u8, 75u8],
            HttpMethod::PATCH => vec![/* PATCH */ 80u8, 65u8, 84u8, 67u8, 72u8],
            HttpMethod::TRACE => vec![/* TRACE */ 84u8, 82u8, 65u8, 67u8, 69u8],
        }
    }
}

/// The name under which a route stores a method; `None` for a route of any method.
pub fn get_method(method: Option<HttpMethod>) -> (r: Option<Vec<u8>>)
    ensures
        method is None ==> r is None,
        method matches Some(m) ==> (r matches Some(v) && v@ == method_name(m)),
{
    match method {
        Some(m) => Some(m.name()),
        None => None,
    }
}

/// The protocol versions the server speaks.
#[derive(Clone, Copy, Debug, PartialEq, Eq, Structural)]
pub enum HttpProtocol {
    HTTP10,
    HTTP11,
}

/// The protocol that a version word names.
pub open spec fn protocol_of(word: Seq<u8>) -> Option<HttpProtocol> {
    if word == seq![/* HTTP/1.0 */ 72u8, 84u8, 84u8, 80u8, 47u8, 49u8, 46u8, 48u8] {
        Some(HttpProtocol::HTTP10)
    } else if word == seq![/* HTTP/1.1 */ 72u8, 84u8, 84u8, 80u8, 47u8, 49u8, 46u8, 49u8] {
        Some(HttpProtocol::HTTP11)
    } else {
        None
    }
}

/// `major.minor` of a protocol, as the status line writes it.
pub open spec fn protocol_version(p: HttpProtocol) -> Seq<u8> {
    match p {
        HttpProtocol::HTTP10 => seq![/* 1.0 */ 49u8, 46u8, 48u8],
        HttpProtocol::HTTP11 => seq![/* 1.1 */ 49u8, 46u8, 49u8],
    }
}

impl HttpProtocol {
    /// Recognizes `HTTP/1.0` and `HTTP/1.1`.
    pub fn from_bytes(word: &[u8]) -> (r: Option<HttpProtocol>)
        ensures
            r == protocol_of(word@),
    {
        let v10: Vec<u8> = vec![/* HTTP/1.0 */ 72u8, 84u8, 84u8, 80u8, 47u8, 49u8, 46u8, 48u8];
        let v11: Vec<u8> = vec![/* HTTP/1.1 */ 72u8, 84u8, 84u8, 80u8, 47u8, 49u8, 46u8, 49u8];
        if bytes_eq(word, v10.as_slice()) {
            Some(HttpProtocol::HTTP10)
        } else if bytes_eq(word, v11.as_slice()) {
            Some(HttpProtocol::HTTP11)
        } else {
            None
        }
    }

    pub fn version(&self) -> (r: Vec<u8>)
        ensures
            r@ == protocol_version(*self),
    {
        match self {
            HttpProtocol::HTTP10 => vec![/* 1.0 */ 49u8, 46u8, 48u8],
            HttpProtocol::HTTP11 => vec![/* 1.1 */ 49u8, 46u8, 49u8],
        }
    }
}

/// Response status codes.
#[allow(non_camel_case_types)]
#[derive(Clone, Copy, Debug, PartialEq, Eq, Structural)]
pub enum HttpStatus {
    UNDEFINED,
    CONTINUE,
    SWITCHING_PROTOCOLS,
    OK,
    CREATED,
    ACCEPTED,
    NO_CONTENT,
    PARTIAL_CONTENT,
    SPECIAL_RESPONSE,
    MOVED_PERMANENTLY,
    MOVED_TEMPORARILY,
    SEE_OTHER,
    NOT_MODIFIED,
    TEMPORARY_REDIRECT,
    PERMANENT_REDIRECT,
    BAD_REQUEST,
    UNAUTHORIZED,
    PAYMENT_REQUIRED,
    FORBIDDEN,
    NOT_FOUND,
    NOT_ALLOWED,
    NOT_ACCEPTABLE,
    REQUEST_TIMEOUT,
    CONFLICT,
    GONE,
    UPGRADE_REQUIRED,
    TOO_MANY_REQUESTS,
    CLOSE,
    ILLEGAL,
    INTERNAL_SERVER_ERROR,
    METHOD_NOT_IMPLEMENTED,
    BAD_GATEWAY,
    SERVICE_UNAVAILABLE,
    GATEWAY_TIMEOUT,
    VERSION_NOT_SUPPORTED,
    INSUFFICIENT_STORAGE,
}

/// The numeric code of a status.
pub open spec fn status_code(s: HttpStatus) -> u16 {
    match s {
        HttpStatus::UNDEFINED => 0,
        HttpStatus::CONTINUE => 100,
        HttpStatus::SWITCHING_PROTOCOLS => 101,
        HttpStatus::OK => 200,
        HttpStatus::CREATED => 201,
        HttpStatus::ACCEPTED => 202,
        HttpStatus::NO_CONTENT => 204,
        HttpStatus::PARTIAL_CONTENT => 206,
        HttpStatus::SPECIAL_RESPONSE => 300,
        HttpStatus::MOVED_PERMANENTLY => 301,
        HttpStatus::MOVED_TEMPORARILY => 302,
        HttpStatus::SEE_OTHER => 303,
        HttpStatus::NOT_MODIFIED => 304,
        HttpStatus::TEMPORARY_REDIRECT => 307,
        HttpStatus::PERMANENT_REDIRECT => 308,
        HttpStatus::BAD_REQUEST => 400,
        HttpStatus::UNAUTHORIZED => 401,
        HttpStatus::PAYMENT_REQUIRED => 402,
        HttpStatus::FORBIDDEN => 403,
        HttpStatus::NOT_FOUND => 404,
        HttpStatus::NOT_ALLOWED => 405,
        HttpStatus::NOT_ACCEPTABLE => 406,
        HttpStatus::REQUEST_TIMEOUT => 408,
        HttpStatus::CONFLICT => 409,
        HttpStatus::GONE => 410,
        HttpStatus::UPGRADE_REQUIRED => 426,
        HttpStatus::TOO_MANY_REQUESTS => 429,
        HttpStatus::CLOSE => 444,
        HttpStatus::ILLEGAL => 451,
        HttpStatus::INTERNAL_SERVER_ERROR => 500,
        HttpStatus::METHOD_NOT_IMPLEMENTED => 501,
        HttpStatus::BAD_GATEWAY => 502,
        HttpStatus::SERVICE_UNAVAILABLE => 503,
        HttpStatus::GATEWAY_TIMEOUT => 504,
        HttpStatus::VERSION_NOT_SUPPORTED => 505,
        HttpStatus::INSUFFICIENT_STORAGE => 507,
    }
}

/// The status that a numeric code names; an unknown code reads as 400.
pub open spec fn status_of(code: i64) -> HttpStatus {
    if code == 100 {
        HttpStatus::CONTINUE
    } else if code == 101 {
        HttpStatus::SWITCHING_PROTOCOLS
    } else if code == 200 {
        HttpStatus::OK
    } else if code == 201 {
        HttpStatus::CREATED
    } else if code == 202 {
        HttpStatus::ACCEPTED
    } else if code == 204 {
        HttpStatus::NO_CONTENT
    } else if code == 206 {
        HttpStatus::PARTIAL_CONTENT
    } else if code == 300 {
        HttpStatus::SPECIAL_RESPONSE
    } else if code == 301 {
        HttpStatus::MOVED_PERMANENTLY
    } else if code == 302 {
        HttpStatus::MOVED_TEMPORARILY
    } else if code == 303 {
        HttpStatus::SEE_OTHER
    } else if code == 304 {
        HttpStatus::NOT_MODIFIED
    } else if code == 307 {
        HttpStatus::TEMPORARY_REDIRECT
    } else if code == 308 {
        HttpStatus::PERMANENT_REDIRECT
    } else if code == 400 {
        HttpStatus::BAD_REQUEST
    } else if code == 401 {
        HttpStatus::UNAUTHORIZED
    } else if code == 402 {
        HttpStatus::PAYMENT_REQUIRED
    } else if code == 403 {
        HttpStatus::FORBIDDEN
    } else if code == 404 {
        HttpStatus::NOT_FOUND
    } else if code == 405 {
        HttpStatus::NOT_ALLOWED
    } else if code == 406 {
        HttpStatus::NOT_ACCEPTABLE
    } else if code == 408 {
        HttpStatus::REQUEST_TIMEOUT
    } else if code == 409 {
        HttpStatus::CONFLICT
    } else if code == 410 {
        HttpStatus::GONE
    } else if code == 426 {
        HttpStatus::UPGRADE_REQUIRED
    } else if code == 429 {
        HttpStatus::TOO_MANY_REQUESTS
    } else if code == 444 {
        HttpStatus::CLOSE
    } else if code == 451 {
        HttpStatus::ILLEGAL
    } else if code == 500 {
        HttpStatus::INTERNAL_SERVER_ERROR
    } else if code == 501 {
        HttpStatus::METHOD_NOT_IMPLEMENTED
    } else if code == 502 {
        HttpStatus::BAD_GATEWAY
    } else if code == 503 {
        HttpStatus::SERVICE_UNAVAILABLE
    } else if code == 504 {
        HttpStatus::GATEWAY_TIMEOUT
    } else if code == 505 {
        HttpStatus::VERSION_NOT_SUPPORTED
    } else if code == 507 {
        HttpStatus::INSUFFICIENT_STORAGE
    } else {
        HttpStatus::BAD_REQUEST
    }
}

/// `<code> <REASON>`, as the status line writes it.
pub open spec fn status_text(s: HttpStatus) -> Seq<u8> {
    match s {
        HttpStatus::UNDEFINED => seq![/* 0 UNDEFINED */ 48u8, 32u8, 85u8, 78u8, 68u8, 69u8, 70u8, 73u8, 78u8, 69u8, 68u8],
        HttpStatus::CONTINUE => seq![/* 100 CONTINUE */ 49u8, 48u8, 48u8, 32u8, 67u8, 79u8, 78u8, 84u8, 73u8, 78u8, 85u8, 69u8],
        HttpStatus::SWITCHING_PROTOCOLS => seq![/* 101 SWITCHING PROTOCOLS */ 49u8, 48u8, 49u8, 32u8, 83u8, 87u8, 73u8, 84u8, 67u8, 72u8, 73u8, 78u8, 71u8, 32u8, 80u8, 82u8, 79u8, 84u8, 79u8, 67u8, 79u8, 76u8, 83u8],
        HttpStatus::OK => seq![/* 200 OK */ 50u8, 48u8, 48u8, 32u8, 79u8, 75u8],
        HttpStatus::CREATED => seq![/* 201 CREATED */ 50u8, 48u8, 49u8, 32u8, 67u8, 82u8, 69u8, 65u8, 84u8, 69u8, 68u8],
        HttpStatus::ACCEPTED => seq![/* 202 ACCEPTED */ 50u8, 48u8, 50u8, 32u8, 65u8, 67u8, 67u8, 69u8, 80u8, 84u8, 69u8, 68u8],
        HttpStatus::NO_CONTENT => seq![/* 204 NO CONTENT */ 50u8, 48u8, 52u8, 32u8, 78u8, 79u8, 32u8, 67u8, 79u8, 78u8, 84u8, 69u8, 78u8, 84u8],
        HttpStatus::PARTIAL_CONTENT => seq![/* 206 PARTIAL CONTENT */ 50u8, 48u8, 54u8, 32u8, 80u8, 65u8, 82u8, 84u8, 73u8, 65u8, 76u8, 32u8, 67u8, 79u8, 78u8, 84u8, 69u8, 78u8, 84u8],
        HttpStatus::SPECIAL_RESPONSE => seq![/* 300 SPECIAL RESPONSE */ 51u8, 48u8, 48u8, 32u8, 83u8, 80u8, 69u8, 67u8, 73u8, 65u8, 76u8, 32u8, 82u8, 69u8, 83u8, 80u8, 79u8, 78u8, 83u8, 69u8],
        HttpStatus::MOVED_PERMANENTLY => seq![/* 301 MOVED PERMANENTLY */ 51u8, 48u8, 49u8, 32u8, 77u8, 79u8, 86u8, 69u8, 68u8, 32u8, 80u8, 69u8, 82u8, 77u8, 65u8, 78u8, 69u8, 78u8, 84u8, 76u8, 89u8],
        HttpStatus::MOVED_TEMPORARILY => seq![/* 302 MOVED TEMPORARILY */ 51u8, 48u8, 50u8, 32u8, 77u8, 79u8, 86u8, 69u8, 68u8, 32u8, 84u8, 69u8, 77u8, 80u8, 79u8, 82u8, 65u8, 82u8, 73u8, 76u8, 89u8],
        HttpStatus::SEE_OTHER => seq![/* 303 SEE OTHER */ 51u8, 48u8, 51u8, 32u8, 83u8, 69u8, 69u8, 32u8, 79u8, 84u8, 72u8, 69u8, 82u8],
        HttpStatus::NOT_MODIFIED => seq![/* 304 NOT MODIFIED */ 51u8, 48u8, 52u8, 32u8, 78u8, 79u8, 84u8, 32u8, 77u8, 79u8, 68u8, 73u8, 70u8, 73u8, 69u8, 68u8],
        HttpStatus::TEMPORARY_REDIRECT => seq![/* 307 TEMPORARY REDIRECT */ 51u8, 48u8, 55u8, 32u8, 84u8, 69u8, 77u8, 80u8, 79u8, 82u8, 65u8, 82u8, 89u8, 32u8, 82u8, 69u8, 68u8, 73u8, 82u8, 69u8, 67u8, 84u8],
        HttpStatus::PERMANENT_REDIRECT => seq![/* 308 PERMANENT REDIRECT */ 51u8, 48u8, 56u8, 32u8, 80u8, 69u8, 82u8, 77u8, 65u8, 78u8, 69u8, 78u8, 84u8, 32u8, 82u8, 69u8, 68u8, 73u8, 82u8, 69u8, 67u8, 84u8],
        HttpStatus::BAD_REQUEST => seq![/* 400 BAD REQUEST */ 52u8, 48u8, 48u8, 32u8, 66u8, 65u8, 68u8, 32u8, 82u8, 69u8, 81u8, 85u8, 69u8, 83u8, 84u8],
        HttpStatus::UNAUTHORIZED => seq![/* 401 UNAUTHORIZED */ 52u8, 48u8, 49u8, 32u8, 85u8, 78u8, 65u8, 85u8, 84u8, 72u8, 79u8, 82u8, 73u8, 90u8, 69u8, 68u8],
        HttpStatus::PAYMENT_REQUIRED => seq![/* 402 PAYMENT REQUIRED */ 52u8, 48u8, 50u8, 32u8, 80u8, 65u8, 89u8, 77u8, 69u8, 78u8, 84u8, 32u8, 82u8, 69u8, 81u8, 85u8, 73u8, 82u8, 69u8, 68u8],
        HttpStatus::FORBIDDEN => seq![/* 403 FORBIDDEN */ 52u8, 48u8, 51u8, 32u8, 70u8, 79u8, 82u8, 66u8, 73u8, 68u8, 68u8, 69u8, 78u8],
        HttpStatus::NOT_FOUND => seq![/* 404 NOT FOUND */ 52u8, 48u8, 52u8, 32u8, 78u8, 79u8, 84u8, 32u8, 70u8, 79u8, 85u8, 78u8, 68u8],
        HttpStatus::NOT_ALLOWED => seq![/* 405 NOT ALLOWED */ 52u8, 48u8, 53u8, 32u8, 78u8, 79u8, 84u8, 32u8, 65u8, 76u8, 76u8, 79u8, 87u8, 69u8, 68u8],
        HttpStatus::NOT_ACCEPTABLE => seq![/* 406 NOT ACCEPTABLE */ 52u8, 48u8, 54u8, 32u8, 78u8, 79u8, 84u8, 32u8, 65u8, 67u8, 67u8, 69u8, 80u8, 84u8, 65u8, 66u8, 76u8, 69u8],
        HttpStatus::REQUEST_TIMEOUT => seq![/* 408 REQUEST TIMEOUT */ 52u8, 48u8, 56u8, 32u8, 82u8, 69u8, 81u8, 85u8, 69u8, 83u8, 84u8, 32u8, 84u8, 73u8, 77u8, 69u8, 79u8, 85u8, 84u8],
        HttpStatus::CONFLICT => seq![/* 409 CONFLICT */ 52u8, 48u8, 57u8, 32u8, 67u8, 79u8, 78u8, 70u8, 76u8, 73u8, 67u8, 84u8],
        HttpStatus::GONE => seq![/* 410 GONE */ 52u8, 49u8, 48u8, 32u8, 71u8, 79u8, 78u8, 69u8],
        HttpStatus::UPGRADE_REQUIRED => seq![/* 426 UPGRADE REQUIRED */ 52u8, 50u8, 54u8, 32u8, 85u8, 80u8, 71u8, 82u8, 65u8, 68u8, 69u8, 32u8, 82u8, 69u8, 81u8, 85u8, 73u8, 82u8, 69u8, 68u8],
        HttpStatus::TOO_MANY_REQUESTS => seq![/* 429 TOO MANY REQUESTS */ 52u8, 50u8, 57u8, 32u8, 84u8, 79u8, 79u8, 32u8, 77u8, 65u8, 78u8, 89u8, 32u8, 82u8, 69u8, 81u8, 85u8, 69u8, 83u8, 84u8, 83u8],
        HttpStatus::CLOSE => seq![/* 444 CLOSE */ 52u8, 52u8, 52u8, 32u8, 67u8, 76u8, 79u8, 83u8, 69u8],
        HttpStatus::ILLEGAL => seq![/* 451 ILLEGAL */ 52u8, 53u8, 49u8, 32u8, 73u8, 76u8, 76u8, 69u8, 71u8, 65u8, 76u8],
        HttpStatus::INTERNAL_SERVER_ERROR => seq![/* 500 INTERNAL SERVER ERROR */ 53u8, 48u8, 48u8, 32u8, 73u8, 78u8, 84u8, 69u8, 82u8, 78u8, 65u8, 76u8, 32u8, 83u8, 69u8, 82u8, 86u8, 69u8, 82u8, 32u8, 69u8, 82u8, 82u8, 79u8, 82u8],
        HttpStatus::METHOD_NOT_IMPLEMENTED => seq![/* 501 METHOD NOT IMPLEMENTED */ 53u8, 48u8, 49u8, 32u8, 77u8, 69u8, 84u8, 72u8, 79u8, 68u8, 32u8, 78u8, 79u8, 84u8, 32u8, 73u8, 77u8, 80u8, 76u8, 69u8, 77u8, 69u8, 78u8, 84u8, 69u8, 68u8],
        HttpStatus::BAD_GATEWAY => seq![/* 502 BAD GATEWAY */ 53u8, 48u8, 50u8, 32u8, 66u8, 65u8, 68u8, 32u8, 71u8, 65u8, 84u8, 69u8, 87u8, 65u8, 89u8],
        HttpStatus::SERVICE_UNAVAILABLE => seq![/* 503 SERVICE UNAVAILABLE */ 53u8, 48u8, 51u8, 32u8, 83u8, 69u8, 82u8, 86u8, 73u8, 67u8, 69u8, 32u8, 85u8, 78u8, 65u8, 86u8, 65u8, 73u8, 76u8, 65u8, 66u8, 76u8, 69u8],
        HttpStatus::GATEWAY_TIMEOUT => seq![/* 504 GATEWAY TIMEOUT */ 53u8, 48u8, 52u8, 32u8, 71u8, 65u8, 84u8, 69u8, 87u8, 65u8, 89u8, 32u8, 84u8, 73u8, 77u8, 69u8, 79u8, 85u8, 84u8],
        HttpStatus::VERSION_NOT_SUPPORTED => seq![/* 505 VERSION NOT SUPPORTED */ 53u8, 48u8, 53u8, 32u8, 86u8, 69u8, 82u8, 83u8, 73u8, 79u8, 78u8, 32u8, 78u8, 79u8, 84u8, 32u8, 83u8, 85u8, 80u8, 80u8, 79u8, 82u8, 84u8, 69u8, 68u8],
        HttpStatus::INSUFFICIENT_STORAGE => seq![/* 507 INSUFFICIENT STORAGE */ 53u8, 48u8, 55u8, 32u8, 73u8, 78u8, 83u8, 85u8, 70u8, 70u8, 73u8, 67u8, 73u8, 69u8, 78u8, 84u8, 32u8, 83u8, 84u8, 79u8, 82u8, 65u8, 71u8, 69u8],
    }
}

impl HttpStatus {
    pub fn from_code(code: i64) -> (s: HttpStatus)
        ensures
            s == status_of(code),
    {
        match code {
            100 => HttpStatus::CONTINUE,
            101 => HttpStatus::SWITCHING_PROTOCOLS,
            200 => HttpStatus::OK,
            201 => HttpStatus::CREATED,
            202 => HttpStatus::ACCEPTED,
            204 => HttpStatus::NO_CONTENT,
            206 => HttpStatus::PARTIAL_CONTENT,
            300 => HttpStatus::SPECIAL_RESPONSE,
            301 => HttpStatus::MOVED_PERMANENTLY,
            302 => HttpStatus::MOVED_TEMPORARILY,
            303 => HttpStatus::SEE_OTHER,
            304 => HttpStatus::NOT_MODIFIED,
            307 => HttpStatus::TEMPORARY_REDIRECT,
            308 => HttpStatus::PERMANENT_REDIRECT,
            400 => HttpStatus::BAD_REQUEST,
            401 => HttpStatus::UNAUTHORIZED,
            402 => HttpStatus::PAYMENT_REQUIRED,
            403 => HttpStatus::FORBIDDEN,
            404 => HttpStatus::NOT_FOUND,
            405 => HttpStatus::NOT_ALLOWED,
            406 => HttpStatus::NOT_ACCEPTABLE,
            408 => HttpStatus::REQUEST_TIMEOUT,
            409 => HttpStatus::CONFLICT,
            410 => HttpStatus::GONE,
            426 => HttpStatus::UPGRADE_REQUIRED,
            429 => HttpStatus::TOO_MANY_REQUESTS,
            444 => HttpStatus::CLOSE,
            451 => HttpStatus::ILLEGAL,
            500 => HttpStatus::INTERNAL_SERVER_ERROR,
            501 => HttpStatus::METHOD_NOT_IMPLEMENTED,
            502 => HttpStatus::BAD_GATEWAY,
            503 => HttpStatus::SERVICE_UNAVAILABLE,
            504 => HttpStatus::GATEWAY_TIMEOUT,
            505 => HttpStatus::VERSION_NOT_SUPPORTED,
            507 => HttpStatus::INSUFFICIENT_STORAGE,
            _ => HttpStatus::BAD_REQUEST,
        }
    }

    pub fn code(&self) -> (r: u16)
        ensures
            r == status_code(*self),
    {
        match self {
            HttpStatus::UNDEFINED => 0,
            HttpStatus::CONTINUE => 100,
            HttpStatus::SWITCHING_PROTOCOLS => 101,
            HttpStatus::OK => 200,
            HttpStatus::CREATED => 201,
            HttpStatus::ACCEPTED => 202,
            HttpStatus::NO_CONTENT => 204,
            HttpStatus::PARTIAL_CONTENT => 206,
            HttpStatus::SPECIAL_RESPONSE => 300,
            HttpStatus::MOVED_PERMANENTLY => 301,
            HttpStatus::MOVED_TEMPORARILY => 302,
            HttpStatus::SEE_OTHER => 303,
            HttpStatus::NOT_MODIFIED => 304,
            HttpStatus::TEMPORARY_REDIRECT => 307,
            HttpStatus::PERMANENT_REDIRECT => 308,
            HttpStatus::BAD_REQUEST => 400,
            HttpStatus::UNAUTHORIZED => 401,
            HttpStatus::PAYMENT_REQUIRED => 402,
            HttpStatus::FORBIDDEN => 403,
            HttpStatus::NOT_FOUND => 404,
            HttpStatus::NOT_ALLOWED => 405,
            HttpStatus::NOT_ACCEPTABLE => 406,
            HttpStatus::REQUEST_TIMEOUT => 408,
            HttpStatus::CONFLICT => 409,
            HttpStatus::GONE => 410,
            HttpStatus::UPGRADE_REQUIRED => 426,
            HttpStatus::TOO_MANY_REQUESTS => 429,
            HttpStatus::CLOSE => 444,
            HttpStatus::ILLEGAL => 451,
            HttpStatus::INTERNAL_SERVER_ERROR => 500,
            HttpStatus::METHOD_NOT_IMPLEMENTED => 501,
            HttpStatus::BAD_GATEWAY => 502,
            HttpStatus::SERVICE_UNAVAILABLE => 503,
            HttpStatus::GATEWAY_TIMEOUT => 504,
            HttpStatus::VERSION_NOT_SUPPORTED => 505,
            HttpStatus::INSUFFICIENT_STORAGE => 507,
        }
    }

    /// `<code> <REASON>`, as the status line writes it.
    pub fn text(&self) -> (r: Vec<u8>)
        ensures
            r@ == status_text(*self),
    {
        match self {
            HttpStatus::UNDEFINED => vec![/* 0 UNDEFINED */ 48u8, 32u8, 85u8, 78u8, 68u8, 69u8, 70u8, 73u8, 78u8, 69u8, 68u8],
            HttpStatus::CONTINUE => vec![/* 100 CONTINUE */ 49u8, 48u8, 48u8, 32u8, 67u8, 79u8, 78u8, 84u8, 73u8, 78u8, 85u8, 69u8],
            HttpStatus::SWITCHING_PROTOCOLS => vec![/* 101 SWITCHING PROTOCOLS */ 49u8, 48u8, 49u8, 32u8, 83u8, 87u8, 73u8, 84u8, 67u8, 72u8, 73u8, 78u8, 71u8, 32u8, 80u8, 82u8, 79u8, 84u8, 79u8, 67u8, 79u8, 76u8, 83u8],
            HttpStatus::OK => vec![/* 200 OK */ 50u8, 48u8, 48u8, 32u8, 79u8, 75u8],
            HttpStatus::CREATED => vec![/* 201 CREATED */ 50u8, 48u8, 49u8, 32u8, 67u8, 82u8, 69u8, 65u8, 84u8, 69u8, 68u8],
            HttpStatus::ACCEPTED => vec![/* 202 ACCEPTED */ 50u8, 48u8, 50u8, 32u8, 65u8, 67u8, 67u8, 69u8, 80u8, 84u8, 69u8, 68u8],
            HttpStatus::NO_CONTENT => vec![/* 204 NO CONTENT */ 50u8, 48u8, 52u8, 32u8, 78u8, 79u8, 32u8, 67u8, 79u8, 78u8, 84u8, 69u8, 78u8, 84u8],
            HttpStatus::PARTIAL_CONTENT => vec![/* 206 PARTIAL CONTENT */ 50u8, 48u8, 54u8, 32u8, 80u8, 65u8, 82u8, 84u8, 73u8, 65u8, 76u8, 32u8, 67u8, 79u8, 78u8, 84u8, 69u8, 78u8, 84u8],
            HttpStatus::SPECIAL_RESPONSE => vec![/* 300 SPECIAL RESPONSE */ 51u8, 48u8, 48u8, 32u8, 83u8, 80u8, 69u8, 67u8, 73u8, 65u8, 76u8, 32u8, 82u8, 69u8, 83u8, 80u8, 79u8, 78u8, 83u8, 69u8],
            HttpStatus::MOVED_PERMANENTLY => vec![/* 301 MOVED PERMANENTLY */ 51u8, 48u8, 49u8, 32u8, 77u8, 79u8, 86u8, 69u8, 68u8, 32u8, 80u8, 69u8, 82u8, 77u8, 65u8, 78u8, 69u8, 78u8, 84u8, 76u8, 89u8],
            HttpStatus::MOVED_TEMPORARILY => vec![/* 302 MOVED TEMPORARILY */ 51u8, 48u8, 50u8, 32u8, 77u8, 79u8, 86u8, 69u8, 68u8, 32u8, 84u8, 69u8, 77u8, 80u8, 79u8, 82u8, 65u8, 82u8, 73u8, 76u8, 89u8],
            HttpStatus::SEE_OTHER => vec![/* 303 SEE OTHER */ 51u8, 48u8, 51u8, 32u8, 83u8, 69u8, 69u8, 32u8, 79u8, 84u8, 72u8, 69u8, 82u8],
            HttpStatus::NOT_MODIFIED => vec![/* 304 NOT MODIFIED */ 51u8, 48u8, 52u8, 32u8, 78u8, 79u8, 84u8, 32u8, 77u8, 79u8, 68u8, 73u8, 70u8, 73u8, 69u8, 68u8],
            HttpStatus::TEMPORARY_REDIRECT => vec![/* 307 TEMPORARY REDIRECT */ 51u8, 48u8, 55u8, 32u8, 84u8, 69u8, 77u8, 80u8, 79u8, 82u8, 65u8, 82u8, 89u8, 32u8, 82u8, 69u8, 68u8, 73u8, 82u8, 69u8, 67u8, 84u8],
            HttpStatus::PERMANENT_REDIRECT => vec![/* 308 PERMANENT REDIRECT */ 51u8, 48u8, 56u8, 32u8, 80u8, 69u8, 82u8, 77u8, 65u8, 78u8, 69u8, 78u8, 84u8, 32u8, 82u8, 69u8, 68u8, 73u8, 82u8, 69u8, 67u8, 84u8],
            HttpStatus::BAD_REQUEST => vec![/* 400 BAD REQUEST */ 52u8, 48u8, 48u8, 32u8, 66u8, 65u8, 68u8, 32u8, 82u8, 69u8, 81u8, 85u8, 69u8, 83u8, 84u8],
            HttpStatus::UNAUTHORIZED => vec![/* 401 UNAUTHORIZED */ 52u8, 48u8, 49u8, 32u8, 85u8, 78u8, 65u8, 85u8, 84u8, 72u8, 79u8, 82u8, 73u8, 90u8, 69u8, 68u8],
            HttpStatus::PAYMENT_REQUIRED => vec![/* 402 PAYMENT REQUIRED */ 52u8, 48u8, 50u8, 32u8, 80u8, 65u8, 89u8, 77u8, 69u8, 78u8, 84u8, 32u8, 82u8, 69u8, 81u8, 85u8, 73u8, 82u8, 69u8, 68u8],
            HttpStatus::FORBIDDEN => vec![/* 403 FORBIDDEN */ 52u8, 48u8, 51u8, 32u8, 70u8, 79u8, 82u8, 66u8, 73u8, 68u8, 68u8, 69u8, 78u8],
            HttpStatus::NOT_FOUND => vec![/* 404 NOT FOUND */ 52u8, 48u8, 52u8, 32u8, 78u8, 79u8, 84u8, 32u8, 70u8, 79u8, 85u8, 78u8, 68u8],
            HttpStatus::NOT_ALLOWED => vec![/* 405 NOT ALLOWED */ 52u8, 48u8, 53u8, 32u8, 78u8, 79u8, 84u8, 32u8, 65u8, 76u8, 76u8, 79u8, 87u8, 69u8, 68u8],
            HttpStatus::NOT_ACCEPTABLE => vec![/* 406 NOT ACCEPTABLE */ 52u8, 48u8, 54u8, 32u8, 78u8, 79u8, 84u8, 32u8, 65u8, 67u8, 67u8, 69u8, 80u8, 84u8, 65u8, 66u8, 76u8, 69u8],
            HttpStatus::REQUEST_TIMEOUT => vec![/* 408 REQUEST TIMEOUT */ 52u8, 48u8, 56u8, 32u8, 82u8, 69u8, 81u8, 85u8, 69u8, 83u8, 84u8, 32u8, 84u8, 73u8, 77u8, 69u8, 79u8, 85u8, 84u8],
            HttpStatus::CONFLICT => vec![/* 409 CONFLICT */ 52u8, 48u8, 57u8, 32u8, 67u8, 79u8, 78u8, 70u8, 76u8, 73u8, 67u8, 84u8],
            HttpStatus::GONE => vec![/* 410 GONE */ 52u8, 49u8, 48u8, 32u8, 71u8, 79u8, 78u8, 69u8],
            HttpStatus::UPGRADE_REQUIRED => vec![/* 426 UPGRADE REQUIRED */ 52u8, 50u8, 54u8, 32u8, 85u8, 80u8, 71u8, 82u8, 65u8, 68u8, 69u8, 32u8, 82u8, 69u8, 81u8, 85u8, 73u8, 82u8, 69u8, 68u8],
            HttpStatus::TOO_MANY_REQUESTS => vec![/* 429 TOO MANY REQUESTS */ 52u8, 50u8, 57u8, 32u8, 84u8, 79u8, 79u8, 32u8, 77u8, 65u8, 78u8, 89u8, 32u8, 82u8, 69u8, 81u8, 85u8, 69u8, 83u8, 84u8, 83u8],
            HttpStatus::CLOSE => vec![/* 444 CLOSE */ 52u8, 52u8, 52u8, 32u8, 67u8, 76u8, 79u8, 83u8, 69u8],
            HttpStatus::ILLEGAL => vec![/* 451 ILLEGAL */ 52u8, 53u8, 49u8, 32u8, 73u8, 76u8, 76u8, 69u8, 71u8, 65u8, 76u8],
            HttpStatus::INTERNAL_SERVER_ERROR => vec![/* 500 INTERNAL SERVER ERROR */ 53u8, 48u8, 48u8, 32u8, 73u8, 78u8, 84u8, 69u8, 82u8, 78u8, 65u8, 76u8, 32u8, 83u8, 69u8, 82u8, 86u8, 69u8, 82u8, 32u8, 69u8, 82u8, 82u8, 79u8, 82u8],
            HttpStatus::METHOD_NOT_IMPLEMENTED => vec![/* 501 METHOD NOT IMPLEMENTED */ 53u8, 48u8, 49u8, 32u8, 77u8, 69u8, 84u8, 72u8, 79u8, 68u8, 32u8, 78u8, 79u8, 84u8, 32u8, 73u8, 77u8, 80u8, 76u8, 69u8, 77u8, 69u8, 78u8, 84u8, 69u8, 68u8],
            HttpStatus::BAD_GATEWAY => vec![/* 502 BAD GATEWAY */ 53u8, 48u8, 50u8, 32u8, 66u8, 65u8, 68u8, 32u8, 71u8, 65u8, 84u8, 69u8, 87u8, 65u8, 89u8],
            HttpStatus::SERVICE_UNAVAILABLE => vec![/* 503 SERVICE UNAVAILABLE */ 53u8, 48u8, 51u8, 32u8, 83u8, 69u8, 82u8, 86u8, 73u8, 67u8, 69u8, 32u8, 85u8, 78u8, 65u8, 86u8, 65u8, 73u8, 76u8, 65u8, 66u8, 76u8, 69u8],
            HttpStatus::GATEWAY_TIMEOUT => vec![/* 504 GATEWAY TIMEOUT */ 53u8, 48u8, 52u8, 32u8, 71u8, 65u8, 84u8, 69u8, 87u8, 65u8, 89u8, 32u8, 84u8, 73u8, 77u8, 69u8, 79u8, 85u8, 84u8],
            HttpStatus::VERSION_NOT_SUPPORTED => vec![/* 505 VERSION NOT SUPPORTED */ 53u8, 48u8, 53u8, 32u8, 86u8, 69u8, 82u8, 83u8, 73u8, 79u8, 78u8, 32u8, 78u8, 79u8, 84u8, 32u8, 83u8, 85u8, 80u8, 80u8, 79u8, 82u8, 84u8, 69u8, 68u8],
            HttpStatus::INSUFFICIENT_STORAGE => vec![/* 507 INSUFFICIENT STORAGE */ 53u8, 48u8, 55u8, 32u8, 73u8, 78u8, 83u8, 85u8, 70u8, 70u8, 73u8, 67u8, 73u8, 69u8, 78u8, 84u8, 32u8, 83u8, 84u8, 79u8, 82u8, 65u8, 71u8, 69u8],
        }
    }
}

} // verus!
