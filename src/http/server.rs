//! What a connection's worker decides: parse the bytes read, hand the request to a
//! handler, and turn the handler's answer into the bytes to send.
use crate::http::request::{lossy_utf8, parse_request, InvalidHttpRequestError, Request};
use crate::http::response::{head_text, Response};
use vstd::prelude::*;
use vstd::utf8::encode_utf8;

verus! {

#[verifier::external_type_specification]
#[verifier::external_body]
pub struct ExIoError(std::io::Error);

/// Serves requests: one request in, a response or an error out. A server shares one
/// handler among its workers and clones it for each connection.
pub trait Handler: Clone + Send + Sync + 'static {
    fn serve_http(&self, req: Request) -> Result<Response, std::io::Error>;
}

/// Why a connection ends without a response.
#[derive(Debug)]
pub enum ServeError {
    /// The bytes read do not hold a valid request.
    InvalidRequest(InvalidHttpRequestError),
    /// The handler failed.
    Handler(std::io::Error),
}

/// The bytes that a response goes on the wire as.
pub open spec fn wire_bytes(res: Response) -> Seq<u8> {
    encode_utf8(head_text(res.http_version, res.status, res.header@)) + res.body@
}

/// What to send for the handler's answer: the response's bytes, or nothing where the
/// handler failed.
pub fn response_bytes(outcome: Result<Response, std::io::Error>) -> (r: Result<
    Vec<u8>,
    ServeError,
>)
    ensures
        match outcome {
            Ok(res) => r is Ok && r->Ok_0@ == wire_bytes(res),
            Err(e) => r is Err && r->Err_0 == ServeError::Handler(e),
        },
{
    match outcome {
        Ok(res) => Ok(res.to_bytes()),
        Err(e) => Err(ServeError::Handler(e)),
    }
}

/// Serves the bytes read off one connection: a request that does not parse gets no
/// response; otherwise the handler answers, and its response is written out.
pub fn serve_bytes<H: Handler>(handler: &H, buf: &[u8]) -> (r: Result<Vec<u8>, ServeError>)
    ensures
        r matches Err(ServeError::InvalidRequest(_)) <==> parse_request(lossy_utf8(buf@)) is None,
        r is Ok ==> exists|res: Response| r->Ok_0@ == wire_bytes(res),
{
    match Request::from_bytes(buf) {
        Err(e) => Err(ServeError::InvalidRequest(e)),
        Ok(req) => {
            let outcome = handler.serve_http(req);
            response_bytes(outcome)
        },
    }
}

} // verus!
