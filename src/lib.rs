//! Request-processing core of an HTTP/1.x reverse proxy and content server.
//!
//! The library decides; the program around it does the socket work. It
//! parses requests from the bytes received so far, routes them, runs the
//! route's phases, frames responses, parses upstream responses, and keeps the
//! accounting of client deadlines and upstream keepalive pools.

/// Byte buffer with parse and drain cursors.
pub mod buffer;
/// Byte-string helpers: equality, ASCII case, trimming, splitting.
pub mod bytes;
/// Step outcomes and error types.
pub mod error;
/// Methods, protocol versions and status codes.
pub mod http;
/// `Transfer-Encoding` header values.
pub mod transfer_encoding;
/// Percent-encoding of query values.
pub mod percent;
/// Chunked transfer coding.
pub mod chunked;
/// Request parsing.
pub mod request;
/// `${name}` templates.
pub mod variable;
/// Response framing and serialization.
pub mod response;
/// Path-segment router with captures.
pub mod trie;
/// Regular-expression router.
pub mod re;
/// Router of `@label` routes.
pub mod named;
/// Content handlers and request and response filters.
pub mod plugins;
/// Route lookup and the request pipeline.
pub mod pipeline;
/// Upstream leg of the proxy: request preparation and response parsing.
pub mod proxy;
/// Upstream server groups, balancers and failover.
pub mod upstream;
/// Keepalive accounting of upstream connections.
pub mod pool;
/// Client deadlines of the reactor.
pub mod timeouts;
/// Listener table of the reactor.
pub mod listeners;
/// Reactor decisions per client connection.
pub mod reactor;
