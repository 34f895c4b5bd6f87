use vstd::prelude::*;
use crate::http::HttpStatus;
use crate::timeouts::Timeouts;

verus! {

/// Where a client connection stands.
#[derive(Clone, Copy, Debug, PartialEq, Eq, Structural)]
pub enum Phase {
    /// Between requests, waiting for the next one.
    Idle,
    /// Receiving a request.
    Request,
    /// Receiving its response.
    Response,
}

/// A client connection the reactor tracks.
#[derive(Clone, Copy, Debug, PartialEq, Eq, Structural)]
pub struct Client {
    pub token: usize,
    pub phase: Phase,
    /// Responses completed on this connection.
    pub requests: u64,
}

/// What parsing the bytes received so far decided.
#[derive(Clone, Copy, Debug, PartialEq, Eq, Structural)]
pub enum ParseCode {
    /// The request is complete.
    Parsed,
    /// More bytes are needed.
    Again,
    /// The client closed between requests.
    Declined,
    /// The request failed fatally.
    Failed,
}

/// What draining a response decided.
#[derive(Clone, Copy, Debug, PartialEq, Eq, Structural)]
pub enum FlushCode {
    /// The response is out; the connection may be kept.
    Done,
    /// The response is out and the connection must close.
    DoneClose,
    /// The client socket would block.
    Again,
    /// The client went away.
    Declined,
    /// Writing failed.
    Failed,
}

/// What the reactor does next for a client.
#[derive(Clone, Copy, Debug, PartialEq, Eq, Structural)]
pub enum Action {
    /// Hand the parsed request to the workers; the client leaves the table
    /// until its response is posted.
    Dispatch,
    /// Wait for the socket to become readable.
    WaitRead,
    /// Wait for the socket to become writable.
    WaitWrite,
    /// Close the connection.
    Close,
}

/// Timeouts of the reactor, in milliseconds.
#[derive(Clone, Copy, Debug, PartialEq, Eq, Structural)]
pub struct Options {
    pub request_timeout: u64,
    pub response_timeout: u64,
    pub keepalive_timeout: u64,
    /// Responses after which a connection closes; zero for no limit.
    pub keepalive_requests: u64,
}

pub open spec fn deadline(now: u64, timeout: u64) -> u64 {
    if now as int + timeout as int > u64::MAX as int {
        u64::MAX
    } else {
        (now + timeout) as u64
    }
}

fn deadline_exec(now: u64, timeout: u64) -> (r: u64)
    ensures
        r == deadline(now, timeout),
{
    if now > u64::MAX - timeout {
        u64::MAX
    } else {
        now + timeout
    }
}

/// The connection closes after this response: the client asked for it, or
/// the keepalive limit is reached.
pub open spec fn closes_after(served: nat, keepalive_requests: u64, code: FlushCode) -> bool {
    code == FlushCode::DoneClose || (keepalive_requests > 0 && served >= keepalive_requests)
}

/// The per-reactor table of clients with their deadlines.
pub struct Reactor {
    opts: Options,
    clients: Vec<Client>,
    timeouts: Timeouts,
}

impl Reactor {
    pub closed spec fn spec_clients(&self) -> Seq<Client> {
        self.clients@
    }

    pub closed spec fn spec_timeouts(&self) -> Timeouts {
        self.timeouts
    }

    pub closed spec fn spec_opts(&self) -> Options {
        self.opts
    }

    pub open spec fn has_client(&self, token: usize) -> bool {
        exists|i: int| 0 <= i < self.spec_clients().len() && (#[trigger] self.spec_clients()[i]).token == token
    }

    /// Each tracked client has exactly one deadline, and no other token has one.
    pub open spec fn wf(&self) -> bool {
        &&& self.spec_timeouts().wf()
        &&& forall|i: int, j: int| 0 <= i < self.spec_clients().len() && 0 <= j < self.spec_clients().len() && i != j
            ==> (#[trigger] self.spec_clients()[i]).token != (#[trigger] self.spec_clients()[j]).token
        &&& forall|t: usize| self.has_client(t) <==> #[trigger] self.spec_timeouts().armed(t)
    }

    pub fn new(opts: Options) -> (r: Reactor)
        ensures
            r.wf(),
            r.spec_clients().len() == 0,
            r.spec_opts() == opts,
    {
        let r = Reactor { opts, clients: Vec::new(), timeouts: Timeouts::new() };
        proof {
            assert forall|t: usize| r.has_client(t) <==> #[trigger] r.spec_timeouts().armed(t) by {}
        }
        r
    }

    fn index(&self, token: usize) -> (r: Option<usize>)
        ensures
            match r {
                Some(i) => i < self.spec_clients().len() && self.spec_clients()[i as int].token == token,
                None => !self.has_client(token),
            },
    {
        let mut i: usize = 0;
        while i < self.clients.len()
            invariant
                i <= self.spec_clients().len(),
                forall|k: int| 0 <= k < i ==> (#[trigger] self.spec_clients()[k]).token != token,
            decreases self.spec_clients().len() - i,
        {
            if self.clients[i].token == token {
                return Some(i);
            }
            i = i + 1;
        }
        None
    }

    /// The client of a token, if the table holds it.
    pub fn client(&self, token: usize) -> (r: Option<Client>)
        ensures
            match r {
                Some(c) => c.token == token && self.spec_clients().contains(c),
                None => !self.has_client(token),
            },
    {
        match self.index(token) {
            Some(i) => {
                assert(self.spec_clients()[i as int] == self.clients@[i as int]);
                Some(self.clients[i])
            },
            None => None,
        }
    }

    /// Puts a client in the table (or updates it) and gives it a deadline.
    fn put(&mut self, c: Client, deadline: u64)
        requires
            old(self).wf(),
        ensures
            final(self).wf(),
            final(self).spec_opts() == old(self).spec_opts(),
            final(self).spec_clients().contains(c),
            final(self).spec_timeouts().spec_entries().contains((deadline, c.token)),
            forall|t: usize| #[trigger] final(self).has_client(t) <==> (old(self).has_client(t) || t == c.token),
            forall|d: Client| d.token != c.token ==> (final(self).spec_clients().contains(d) <==> old(self).spec_clients().contains(d)),
    {
        let ghost prev = self.clients@;
        match self.index(c.token) {
            Some(i) => {
                self.clients.set(i, c);
                proof {
                    let s = self.clients@;
                    assert(s[i as int] == c);
                    assert forall|a: int, b: int| 0 <= a < s.len() && 0 <= b < s.len() && a != b
                        implies (#[trigger] s[a]).token != (#[trigger] s[b]).token by {
                        assert(prev[a].token == s[a].token && prev[b].token == s[b].token);
                    }
                    assert forall|t: usize| #[trigger] self.has_client(t) <==> (old(self).has_client(t) || t == c.token) by {
                        if self.has_client(t) {
                            let a = choose|a: int| 0 <= a < s.len() && (#[trigger] s[a]).token == t;
                            assert(prev[a].token == s[a].token);
                        }
                        if old(self).has_client(t) {
                            let a = choose|a: int| 0 <= a < prev.len() && (#[trigger] prev[a]).token == t;
                            assert(prev[a].token == s[a].token);
                        }
                    }
                    assert forall|d: Client| d.token != c.token implies (s.contains(d) <==> prev.contains(d)) by {
                        if s.contains(d) {
                            let a = choose|a: int| 0 <= a < s.len() && s[a] == d;
                            assert(a != i);
                            assert(prev[a] == d);
                        }
                        if prev.contains(d) {
                            let a = choose|a: int| 0 <= a < prev.len() && prev[a] == d;
                            assert(a != i);
                            assert(s[a] == d);
                        }
                    }
                }
            },
            None => {
                self.clients.push(c);
                proof {
                    let s = self.clients@;
                    let n = prev.len() as int;
                    assert(s[n] == c);
                    assert forall|a: int, b: int| 0 <= a < s.len() && 0 <= b < s.len() && a != b
                        implies (#[trigger] s[a]).token != (#[trigger] s[b]).token by {
                        if a < n && b < n {
                            assert(prev[a] == s[a] && prev[b] == s[b]);
                        } else if a < n {
                            assert(prev[a] == s[a]);
                            assert(!(0 <= a < prev.len() && prev[a].token == c.token));
                        } else if b < n {
                            assert(prev[b] == s[b]);
                            assert(!(0 <= b < prev.len() && prev[b].token == c.token));
                        }
                    }
                    assert forall|t: usize| #[trigger] self.has_client(t) <==> (old(self).has_client(t) || t == c.token) by {
                        if self.has_client(t) {
                            let a = choose|a: int| 0 <= a < s.len() && (#[trigger] s[a]).token == t;
                            if a < n {
                                assert(prev[a] == s[a]);
                            }
                        }
                        if old(self).has_client(t) {
                            let a = choose|a: int| 0 <= a < prev.len() && (#[trigger] prev[a]).token == t;
                            assert(prev[a] == s[a]);
                        }
                        if t == c.token {
                            assert(s[n].token == t);
                        }
                    }
                    assert forall|d: Client| d.token != c.token implies (s.contains(d) <==> prev.contains(d)) by {
                        if s.contains(d) {
                            let a = choose|a: int| 0 <= a < s.len() && s[a] == d;
                            assert(a != n);
                            assert(prev[a] == d);
                        }
                        if prev.contains(d) {
                            let a = choose|a: int| 0 <= a < prev.len() && prev[a] == d;
                            assert(s[a] == d);
                        }
                    }
                }
            },
        }
        let ghost before = *self;
        proof {
            assert(forall|t: usize| #[trigger] before.has_client(t) <==> (old(self).has_client(t) || t == c.token));
        }
        self.timeouts.arm(c.token, deadline);
        proof {
            assert(self.spec_clients() == before.spec_clients());
            assert forall|t: usize| #[trigger] self.has_client(t) <==> before.has_client(t) by {}
            assert forall|t: usize| self.has_client(t) <==> #[trigger] self.spec_timeouts().armed(t) by {
                if t != c.token {
                    assert(old(self).has_client(t) <==> old(self).spec_timeouts().armed(t));
                }
            }
        }
        assert(self.spec_clients().contains(c));
    }

    /// Takes a client out of the table and drops its deadline.
    fn drop_client(&mut self, token: usize)
        requires
            old(self).wf(),
        ensures
            final(self).wf(),
            final(self).spec_opts() == old(self).spec_opts(),
            !final(self).has_client(token),
            forall|t: usize| t != token ==> (#[trigger] final(self).has_client(t) <==> old(self).has_client(t)),
            forall|d: Client| d.token != token ==> (final(self).spec_clients().contains(d) <==> old(self).spec_clients().contains(d)),
    {
        let ghost prev = self.clients@;
        match self.index(token) {
            Some(i) => {
                self.clients.remove(i);
                proof {
                    let s = self.clients@;
                    assert forall|a: int, b: int| 0 <= a < s.len() && 0 <= b < s.len() && a != b
                        implies (#[trigger] s[a]).token != (#[trigger] s[b]).token by {
                        let a2 = if a < i { a } else { a + 1 };
                        let b2 = if b < i { b } else { b + 1 };
                        assert(s[a] == prev[a2] && s[b] == prev[b2]);
                    }
                    assert forall|t: usize| t != token implies (#[trigger] self.has_client(t) <==> old(self).has_client(t)) by {
                        if self.has_client(t) {
                            let a = choose|a: int| 0 <= a < s.len() && (#[trigger] s[a]).token == t;
                            let a2 = if a < i { a } else { a + 1 };
                            assert(s[a] == prev[a2]);
                        }
                        if old(self).has_client(t) {
                            let a = choose|a: int| 0 <= a < prev.len() && (#[trigger] prev[a]).token == t;
                            assert(a != i);
                            let a2 = if a < i { a } else { a - 1 };
                            assert(s[a2] == prev[a]);
                        }
                    }
                    if self.has_client(token) {
                        let a = choose|a: int| 0 <= a < s.len() && (#[trigger] s[a]).token == token;
                        let a2 = if a < i { a } else { a + 1 };
                        assert(s[a] == prev[a2]);
                    }
                    assert forall|d: Client| d.token != token implies (s.contains(d) <==> prev.contains(d)) by {
                        if s.contains(d) {
                            let a = choose|a: int| 0 <= a < s.len() && s[a] == d;
                            let a2 = if a < i { a } else { a + 1 };
                            assert(s[a] == prev[a2]);
                        }
                        if prev.contains(d) {
                            let a = choose|a: int| 0 <= a < prev.len() && prev[a] == d;
                            assert(a != i);
                            let a2 = if a < i { a } else { a - 1 };
                            assert(s[a2] == prev[a]);
                        }
                    }
                }
            },
            None => {},
        }
        let ghost before = *self;
        proof {
            assert(!before.has_client(token));
            assert(forall|t: usize| t != token ==> (#[trigger] before.has_client(t) <==> old(self).has_client(t)));
        }
        self.timeouts.disarm(token);
        proof {
            assert(self.spec_clients() == before.spec_clients());
            assert forall|t: usize| #[trigger] self.has_client(t) <==> before.has_client(t) by {}
            assert forall|t: usize| self.has_client(t) <==> #[trigger] self.spec_timeouts().armed(t) by {
                if t != token {
                    assert(old(self).has_client(t) <==> old(self).spec_timeouts().armed(t));
                }
            }
        }
    }

    /// A new connection: idle, with the request timeout as its deadline.
    pub fn accept(&mut self, token: usize, now: u64)
        requires
            old(self).wf(),
            !old(self).has_client(token),
        ensures
            final(self).spec_opts() == old(self).spec_opts(),
            final(self).wf(),
            final(self).spec_clients().contains(Client { token, phase: Phase::Idle, requests: 0 }),
            final(self).spec_timeouts().spec_entries().contains((deadline(now, old(self).spec_opts().request_timeout), token)),
            forall|t: usize| #[trigger] final(self).has_client(t) <==> (old(self).has_client(t) || t == token),
    {
        let d = deadline_exec(now, self.opts.request_timeout);
        self.put(Client { token, phase: Phase::Idle, requests: 0 }, d);
    }

    /// Bytes arrived, or the client was waiting: `Idle` becomes `Request`, and
    /// the deadline is the request timeout from now.
    pub fn start_request(&mut self, c: Client, now: u64)
        requires
            old(self).wf(),
            old(self).spec_clients().contains(c),
        ensures
            final(self).spec_opts() == old(self).spec_opts(),
            final(self).wf(),
            final(self).spec_clients().contains(Client { token: c.token, phase: Phase::Request, requests: c.requests }),
            final(self).spec_timeouts().spec_entries().contains((deadline(now, old(self).spec_opts().request_timeout), c.token)),
            forall|t: usize| #[trigger] final(self).has_client(t) <==> old(self).has_client(t),
    {
        let d = deadline_exec(now, self.opts.request_timeout);
        proof {
            let i = choose|i: int| 0 <= i < old(self).spec_clients().len() && old(self).spec_clients()[i] == c;
            assert(old(self).spec_clients()[i].token == c.token);
        }
        self.put(Client { token: c.token, phase: Phase::Request, requests: c.requests }, d);
    }

    /// Decides after a parse attempt: a complete request leaves the table for
    /// the workers; a partial one waits for more bytes under a fresh request
    /// deadline; a closed or failed one is closed.
    pub fn parsed(&mut self, c: Client, code: ParseCode, now: u64) -> (a: Action)
        requires
            old(self).wf(),
            old(self).spec_clients().contains(c),
        ensures
            final(self).spec_opts() == old(self).spec_opts(),
            final(self).wf(),
            a == match code {
                ParseCode::Parsed => Action::Dispatch,
                ParseCode::Again => Action::WaitRead,
                _ => Action::Close,
            },
            code == ParseCode::Again ==> final(self).has_client(c.token)
                && final(self).spec_timeouts().spec_entries().contains((deadline(now, old(self).spec_opts().request_timeout), c.token)),
            code != ParseCode::Again ==> !final(self).has_client(c.token),
            forall|t: usize| t != c.token ==> (#[trigger] final(self).has_client(t) <==> old(self).has_client(t)),
    {
        proof {
            let i = choose|i: int| 0 <= i < old(self).spec_clients().len() && old(self).spec_clients()[i] == c;
            assert(old(self).spec_clients()[i].token == c.token);
        }
        match code {
            ParseCode::Again => {
                let d = deadline_exec(now, self.opts.request_timeout);
                self.put(c, d);
                Action::WaitRead
            },
            ParseCode::Parsed => {
                self.drop_client(c.token);
                Action::Dispatch
            },
            _ => {
                self.drop_client(c.token);
                Action::Close
            },
        }
    }

    /// A worker posted the response: the client is back, in `Response`, with
    /// the response timeout as its deadline.
    pub fn respond(&mut self, token: usize, requests: u64, now: u64)
        requires
            old(self).wf(),
        ensures
            final(self).spec_opts() == old(self).spec_opts(),
            final(self).wf(),
            final(self).spec_clients().contains(Client { token, phase: Phase::Response, requests }),
            final(self).spec_timeouts().spec_entries().contains((deadline(now, old(self).spec_opts().response_timeout), token)),
            forall|t: usize| #[trigger] final(self).has_client(t) <==> (old(self).has_client(t) || t == token),
    {
        let d = deadline_exec(now, self.opts.response_timeout);
        self.put(Client { token, phase: Phase::Response, requests }, d);
    }

    /// Decides after draining a response. When it is out, the connection has
    /// served one more request; it closes when the client asked or when
    /// `keepalive_requests` is reached, and otherwise waits idle under the
    /// keepalive timeout. A blocked write waits for writability under the
    /// response timeout.
    pub fn flushed(&mut self, c: Client, code: FlushCode, now: u64) -> (a: Action)
        requires
            old(self).wf(),
            old(self).spec_clients().contains(c),
            c.requests < u64::MAX,
        ensures
            final(self).spec_opts() == old(self).spec_opts(),
            final(self).wf(),
            ({
                let served = c.requests + 1;
                let opts = old(self).spec_opts();
                match code {
                    FlushCode::Done | FlushCode::DoneClose => if closes_after(served as nat, opts.keepalive_requests, code) {
                        a == Action::Close && !final(self).has_client(c.token)
                    } else {
                        &&& a == Action::WaitRead
                        &&& final(self).spec_clients().contains(Client { token: c.token, phase: Phase::Idle, requests: served as u64 })
                        &&& final(self).spec_timeouts().spec_entries().contains((deadline(now, opts.keepalive_timeout), c.token))
                    },
                    FlushCode::Again => {
                        &&& a == Action::WaitWrite
                        &&& final(self).spec_clients().contains(c)
                        &&& final(self).spec_timeouts().spec_entries().contains((deadline(now, opts.response_timeout), c.token))
                    },
                    _ => a == Action::Close && !final(self).has_client(c.token),
                }
            }),
            forall|t: usize| t != c.token ==> (#[trigger] final(self).has_client(t) <==> old(self).has_client(t)),
    {
        proof {
            let i = choose|i: int| 0 <= i < old(self).spec_clients().len() && old(self).spec_clients()[i] == c;
            assert(old(self).spec_clients()[i].token == c.token);
        }
        match code {
            FlushCode::Done | FlushCode::DoneClose => {
                let served = c.requests + 1;
                let limit = self.opts.keepalive_requests;
                if code == FlushCode::DoneClose || (limit > 0 && served >= limit) {
                    self.drop_client(c.token);
                    Action::Close
                } else {
                    let d = deadline_exec(now, self.opts.keepalive_timeout);
                    self.put(Client { token: c.token, phase: Phase::Idle, requests: served }, d);
                    Action::WaitRead
                }
            },
            FlushCode::Again => {
                let d = deadline_exec(now, self.opts.response_timeout);
                self.put(c, d);
                Action::WaitWrite
            },
            _ => {
                self.drop_client(c.token);
                Action::Close
            },
        }
    }

    /// The earliest deadline of any client.
    pub fn next_deadline(&self) -> (r: Option<u64>)
        requires
            self.wf(),
        ensures
            self.spec_timeouts().spec_entries().len() == 0 ==> r is None,
            self.spec_timeouts().spec_entries().len() > 0 ==> (r matches Some(d)
                && d == self.spec_timeouts().spec_entries()[0].0
                && forall|i: int| 0 <= i < self.spec_timeouts().spec_entries().len()
                    ==> d <= #[trigger] self.spec_timeouts().spec_entries()[i].0),
    {
        self.timeouts.next_deadline()
    }

    /// Closes every client whose deadline has passed, earliest first, and
    /// returns their tokens.
    pub fn expire(&mut self, now: u64) -> (gone: Vec<usize>)
        requires
            old(self).wf(),
        ensures
            final(self).spec_opts() == old(self).spec_opts(),
            final(self).wf(),
            forall|t: usize| #[trigger] final(self).has_client(t) <==> (old(self).has_client(t) && !gone@.contains(t)),
            crate::timeouts::expired_prefix(old(self).spec_timeouts().spec_entries(), gone@, now),
            final(self).spec_timeouts().spec_entries() == old(self).spec_timeouts().spec_entries().skip(gone@.len() as int),
            forall|i: int| 0 <= i < final(self).spec_timeouts().spec_entries().len()
                ==> #[trigger] final(self).spec_timeouts().spec_entries()[i].0 > now,
    {
        let gone = self.timeouts.pop_expired(now);
        let ghost prev = self.clients@;
        let mut kept: Vec<Client> = Vec::new();
        let mut i: usize = 0;
        while i < self.clients.len()
            invariant
                i <= prev.len(),
                self.clients@ == prev,
                forall|a: int, b: int| 0 <= a < prev.len() && 0 <= b < prev.len() && a != b
                    ==> (#[trigger] prev[a]).token != (#[trigger] prev[b]).token,
                forall|a: int, b: int| 0 <= a < kept@.len() && 0 <= b < kept@.len() && a != b
                    ==> (#[trigger] kept@[a]).token != (#[trigger] kept@[b]).token,
                forall|a: int| 0 <= a < kept@.len() ==> exists|b: int| 0 <= b < i && prev[b] == #[trigger] kept@[a],
                forall|b: int| 0 <= b < i ==> (gone@.contains(#[trigger] prev[b].token) || kept@.contains(prev[b])),
                forall|a: int| 0 <= a < kept@.len() ==> !gone@.contains(#[trigger] kept@[a].token),
            decreases prev.len() - i,
        {
            let c = self.clients[i];
            if !contains_token(&gone, c.token) {
                proof {
                    assert forall|a: int| 0 <= a < kept@.len() implies (#[trigger] kept@[a]).token != c.token by {
                        let b = choose|b: int| 0 <= b < i && prev[b] == kept@[a];
                        assert(prev[b].token != prev[i as int].token);
                    }
                }
                let ghost before = kept@;
                kept.push(c);
                proof {
                    assert forall|a: int| 0 <= a < kept@.len() implies exists|b: int| 0 <= b < i + 1 && prev[b] == #[trigger] kept@[a] by {
                        if a < before.len() {
                            assert(kept@[a] == before[a]);
                        } else {
                            assert(prev[i as int] == kept@[a]);
                        }
                    }
                    assert forall|b: int| 0 <= b < i + 1 implies (gone@.contains(#[trigger] prev[b].token) || kept@.contains(prev[b])) by {
                        if b < i {
                            if before.contains(prev[b]) {
                                let x = choose|x: int| 0 <= x < before.len() && before[x] == prev[b];
                                assert(kept@[x] == prev[b]);
                            }
                        } else {
                            assert(kept@[before.len() as int] == prev[b]);
                        }
                    }
                }
            }
            i = i + 1;
        }
        self.clients = kept;
        proof {
            let s = self.clients@;
            assert forall|t: usize| #[trigger] self.has_client(t) <==> (old(self).has_client(t) && !gone@.contains(t)) by {
                if self.has_client(t) {
                    let a = choose|a: int| 0 <= a < s.len() && (#[trigger] s[a]).token == t;
                    let b = choose|b: int| 0 <= b < prev.len() && prev[b] == s[a];
                    assert(prev[b].token == t);
                }
                if old(self).has_client(t) && !gone@.contains(t) {
                    let b = choose|b: int| 0 <= b < prev.len() && (#[trigger] prev[b]).token == t;
                    assert(s.contains(prev[b]));
                    let a = choose|a: int| 0 <= a < s.len() && s[a] == prev[b];
                    assert(s[a].token == t);
                }
            }
            assert forall|t: usize| self.has_client(t) <==> #[trigger] self.spec_timeouts().armed(t) by {
                assert(self.has_client(t) <==> (old(self).has_client(t) && !gone@.contains(t)));
                assert(old(self).has_client(t) <==> old(self).spec_timeouts().armed(t));
            }
        }
        gone
    }
}

fn contains_token(v: &Vec<usize>, t: usize) -> (r: bool)
    ensures
        r == v@.contains(t),
{
    let mut i: usize = 0;
    while i < v.len()
        invariant
            i <= v@.len(),
            forall|k: int| 0 <= k < i ==> v@[k] != t,
        decreases v@.len() - i,
    {
        if v[i] == t {
            assert(v@[i as int] == t);
            return true;
        }
        i = i + 1;
    }
    false
}

/// What a client that timed out is told: 408 when part of a request had
/// arrived; otherwise the connection just closes.
pub fn timeout_status(phase: Phase, partial: bool) -> (r: Option<HttpStatus>)
    ensures
        r == if phase == Phase::Request && partial { Some(HttpStatus::REQUEST_TIMEOUT) } else { None::<HttpStatus> },
{
    if phase == Phase::Request && partial {
        Some(HttpStatus::REQUEST_TIMEOUT)
    } else {
        None
    }
}

} // verus!
