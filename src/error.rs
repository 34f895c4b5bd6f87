use vstd::prelude::*;

verus! {

/// Outcome of a step that may have to wait for the socket.
#[allow(non_camel_case_types)]
#[derive(Clone, Copy, Debug, PartialEq, Eq, Structural)]
pub enum Code {
    /// The step completed.
    OK,
    /// More bytes are needed, or the socket would block.
    AGAIN,
    /// The peer closed cleanly at a legal boundary.
    DECLINED,
}

impl Code {
    /// The code's name, as logs print it.
    pub fn name(&self) -> (r: &'static str)
        ensures
            r@ == code_name(*self),
    {
        match self {
            Code::OK => "OK",
            Code::AGAIN => "AGAIN",
            Code::DECLINED => "DECLINED",
        }
    }
}

pub open spec fn code_name(c: Code) -> Seq<char> {
    match c {
        Code::OK => "OK"@,
        Code::AGAIN => "AGAIN"@,
        Code::DECLINED => "DECLINED"@,
    }
}

/// An error of the core, with its message.
#[derive(Debug)]
pub struct CoreError {
    text: String,
}

impl CoreError {
    pub closed spec fn text(&self) -> Seq<char> {
        self.text@
    }

    pub fn from_str(text: &str) -> (e: CoreError)
        ensures
            e.text() == text@,
    {
        CoreError { text: text.to_owned() }
    }

    pub fn what(&self) -> (r: &str)
        ensures
            r@ == self.text(),
    {
        self.text.as_str()
    }

    /// Fails with the given message.
    pub fn throw<T>(text: &str) -> (r: Result<T, CoreError>)
        ensures
            r is Err,
            r matches Err(e) && e.text() == text@,
    {
        Err(CoreError::from_str(text))
    }
}

pub type CoreResult = Result<Code, CoreError>;

/// An error of the HTTP layer. A fatal one ends the connection; another one
/// makes the request malformed, answered with 400.
#[derive(Debug)]
pub struct HttpError {
    text: String,
    fatal: bool,
}

impl HttpError {
    pub closed spec fn text(&self) -> Seq<char> {
        self.text@
    }

    pub closed spec fn fatal(&self) -> bool {
        self.fatal
    }

    pub fn throw<T>(what: &str) -> (r: Result<T, HttpError>)
        ensures
            r matches Err(e) && e.text() == what@ && !e.fatal(),
    {
        Err(HttpError { text: what.to_owned(), fatal: false })
    }

    pub fn throw_fatal<T>(what: &str) -> (r: Result<T, HttpError>)
        ensures
            r matches Err(e) && e.text() == what@ && e.fatal(),
    {
        Err(HttpError { text: what.to_owned(), fatal: true })
    }

    pub fn what(&self) -> (r: &str)
        ensures
            r@ == self.text(),
    {
        self.text.as_str()
    }

    pub fn is_fatal(&self) -> (r: bool)
        ensures
            r == self.fatal(),
    {
        self.fatal
    }
}

pub type HttpResult = Result<Code, HttpError>;

/// An error of a plain TCP exchange.
#[derive(Debug)]
pub struct TcpError {
    text: String,
    fatal: bool,
}

impl TcpError {
    pub closed spec fn text(&self) -> Seq<char> {
        self.text@
    }

    pub closed spec fn fatal(&self) -> bool {
        self.fatal
    }

    pub fn throw<T>(what: &str) -> (r: Result<T, TcpError>)
        ensures
            r matches Err(e) && e.text() == what@ && !e.fatal(),
    {
        Err(TcpError { text: what.to_owned(), fatal: false })
    }

    pub fn throw_fatal<T>(what: &str) -> (r: Result<T, TcpError>)
        ensures
            r matches Err(e) && e.text() == what@ && e.fatal(),
    {
        Err(TcpError { text: what.to_owned(), fatal: true })
    }

    pub fn what(&self) -> (r: &str)
        ensures
            r@ == self.text(),
    {
        self.text.as_str()
    }

    pub fn is_fatal(&self) -> (r: bool)
        ensures
            r == self.fatal(),
    {
        self.fatal
    }
}

} // verus!
