use vstd::prelude::*;

use crate::text::ascii_bytes;
use crate::text::bytes_eq;
use crate::text::dec_digits;
use crate::text::append_bytes;
use crate::text::append_lit;
use crate::text::lit_vec;
use crate::text::str_bytes;
use crate::text::u128_dec_bytes;
use crate::arena::Arena;
use crate::arena::BoundaryError;
use crate::arena::MemoryBlock;
use crate::codec::decode_string_nul;
use crate::codec::encode_string;
use crate::codec::nul_decode;
use crate::json::copy_range;
use crate::json::find_object_member;
use crate::json::object_member;
use crate::json::read_string_content;
use crate::json::string_content;

verus! {

/// An inbound request, decoded from the canonical textual form: one JSON
/// object with keys `method`, `path`, `headers` and `body`. The header
/// mapping and the body value are carried opaquely, as the raw JSON text of
/// their spans; the router reads neither and passes the body through
/// unvalidated.
pub struct Request {
    pub method: Vec<u8>,
    pub path: Vec<u8>,
    pub headers: Vec<u8>,
    pub body: Vec<u8>,
}

/// An outbound response. It is always serialized as one JSON object with
/// the fixed keys `statusCode`, `headers` and `body` — the casing is
/// `statusCode`, everywhere. `headers` and `body` hold raw JSON text.
pub struct Response {
    pub status_code: u16,
    pub headers: Vec<u8>,
    pub body: Vec<u8>,
}

/// The one header mapping every response carries:
/// `Content-Type: application/json`, for the 404 response too.
pub open spec fn json_headers() -> Seq<u8> {
    ascii_bytes("{\"Content-Type\":\"application/json\"}"@)
}

/// The routing table's status column: the four handled `(method, path)`
/// pairs, and 404 for every other pair.
pub open spec fn route_status(m: Seq<u8>, p: Seq<u8>) -> u16 {
    if p == ascii_bytes("/api/data"@) {
        if m == ascii_bytes("GET"@) {
            200u16
        } else if m == ascii_bytes("POST"@) {
            201u16
        } else if m == ascii_bytes("PUT"@) {
            200u16
        } else if m == ascii_bytes("DELETE"@) {
            200u16
        } else {
            404u16
        }
    } else {
        404u16
    }
}

/// The routing table's body column. POST and PUT embed the request body
/// opaquely under `received`; every unhandled pair gets the fixed error
/// body.
pub open spec fn route_body(m: Seq<u8>, p: Seq<u8>, body: Seq<u8>) -> Seq<u8> {
    if p == ascii_bytes("/api/data"@) {
        if m == ascii_bytes("GET"@) {
            ascii_bytes("{\"message\":\"Hello from WebAssembly API!\"}"@)
        } else if m == ascii_bytes("POST"@) {
            ascii_bytes("{\"message\":\"Data created successfully\",\"received\":"@) + body
                + ascii_bytes("}"@)
        } else if m == ascii_bytes("PUT"@) {
            ascii_bytes("{\"message\":\"Data updated successfully\",\"received\":"@) + body
                + ascii_bytes("}"@)
        } else if m == ascii_bytes("DELETE"@) {
            ascii_bytes("{\"message\":\"Data deleted successfully\"}"@)
        } else {
            ascii_bytes("{\"error\":\"Not Found\"}"@)
        }
    } else {
        ascii_bytes("{\"error\":\"Not Found\"}"@)
    }
}

/// Routes a request: a pure total function over `(method, path)` that
/// realizes the routing table — the exact status and body for the four
/// handled pairs, 404 with the fixed error body for every other pair, and
/// the JSON content-type header on every response.
pub fn handle_request(request: &Request) -> (r: Response)
    ensures
        r.status_code == route_status(request.method@, request.path@),
        r.body@ == route_body(request.method@, request.path@, request.body@),
        r.headers@ == json_headers(),
{
    proof {
        reveal_strlit("/api/data");
        reveal_strlit("GET");
        reveal_strlit("POST");
        reveal_strlit("PUT");
        reveal_strlit("DELETE");
        reveal_strlit("{\"Content-Type\":\"application/json\"}");
        reveal_strlit("{\"message\":\"Hello from WebAssembly API!\"}");
        reveal_strlit("{\"message\":\"Data created successfully\",\"received\":");
        reveal_strlit("{\"message\":\"Data updated successfully\",\"received\":");
        reveal_strlit("{\"message\":\"Data deleted successfully\"}");
        reveal_strlit("{\"error\":\"Not Found\"}");
        reveal_strlit("}");
    }
    let headers = lit_vec("{\"Content-Type\":\"application/json\"}");
    if bytes_eq(request.path.as_slice(), str_bytes("/api/data")) {
        if bytes_eq(request.method.as_slice(), str_bytes("GET")) {
            let body = lit_vec("{\"message\":\"Hello from WebAssembly API!\"}");
            Response { status_code: 200, headers, body }
        } else if bytes_eq(request.method.as_slice(), str_bytes("POST")) {
            let mut body = lit_vec("{\"message\":\"Data created successfully\",\"received\":");
            append_bytes(&mut body, request.body.as_slice());
            append_lit(&mut body, "}");
            proof {
                assert(body@ =~= route_body(request.method@, request.path@, request.body@));
            }
            Response { status_code: 201, headers, body }
        } else if bytes_eq(request.method.as_slice(), str_bytes("PUT")) {
            let mut body = lit_vec("{\"message\":\"Data updated successfully\",\"received\":");
            append_bytes(&mut body, request.body.as_slice());
            append_lit(&mut body, "}");
            proof {
                assert(body@ =~= route_body(request.method@, request.path@, request.body@));
            }
            Response { status_code: 200, headers, body }
        } else if bytes_eq(request.method.as_slice(), str_bytes("DELETE")) {
            let body = lit_vec("{\"message\":\"Data deleted successfully\"}");
            Response { status_code: 200, headers, body }
        } else {
            let body = lit_vec("{\"error\":\"Not Found\"}");
            Response { status_code: 404, headers, body }
        }
    } else {
        let body = lit_vec("{\"error\":\"Not Found\"}");
        Response { status_code: 404, headers, body }
    }
}

/// The serialized form of a response: one JSON object with the fixed keys
/// `statusCode`, `headers` and `body`, in that order.
pub open spec fn response_bytes(status: u16, headers: Seq<u8>, body: Seq<u8>) -> Seq<u8> {
    ascii_bytes("{\"statusCode\":"@) + dec_digits(status as nat) + ascii_bytes(",\"headers\":"@)
        + headers + ascii_bytes(",\"body\":"@) + body + ascii_bytes("}"@)
}

/// Serializes a response to its canonical JSON text.
pub fn encode_response(resp: &Response) -> (r: Vec<u8>)
    ensures
        r@ == response_bytes(resp.status_code, resp.headers@, resp.body@),
{
    proof {
        reveal_strlit("{\"statusCode\":");
        reveal_strlit(",\"headers\":");
        reveal_strlit(",\"body\":");
        reveal_strlit("}");
    }
    let mut out = lit_vec("{\"statusCode\":");
    let digits = u128_dec_bytes(resp.status_code as u128);
    append_bytes(&mut out, digits.as_slice());
    append_lit(&mut out, ",\"headers\":");
    append_bytes(&mut out, resp.headers.as_slice());
    append_lit(&mut out, ",\"body\":");
    append_bytes(&mut out, resp.body.as_slice());
    append_lit(&mut out, "}");
    proof {
        assert(out@ =~= response_bytes(resp.status_code, resp.headers@, resp.body@));
    }
    out
}

/// What decoding the canonical request form from text `t` yields: the
/// method and path string contents, the raw span of the header mapping
/// (`{}` when absent) and the raw span of the body (`null` when absent).
pub open spec fn parse_request(t: Seq<u8>) -> Option<(Seq<u8>, Seq<u8>, Seq<u8>, Seq<u8>)> {
    match object_member(t, ascii_bytes("method"@)) {
        None => None,
        Some(m) => match object_member(t, ascii_bytes("path"@)) {
            None => None,
            Some(p) => match string_content(t.subrange(m.0, m.1)) {
                None => None,
                Some(ms) => match string_content(t.subrange(p.0, p.1)) {
                    None => None,
                    Some(ps) => {
                        let h = match object_member(t, ascii_bytes("headers"@)) {
                            Some(hh) => t.subrange(hh.0, hh.1),
                            None => ascii_bytes("{}"@),
                        };
                        let b = match object_member(t, ascii_bytes("body"@)) {
                            Some(bb) => t.subrange(bb.0, bb.1),
                            None => ascii_bytes("null"@),
                        };
                        Some((ms, ps, h, b))
                    },
                },
            },
        },
    }
}

/// Decodes a request from the canonical textual form: one JSON object with
/// string members `method` and `path`, and optional members `headers` and
/// `body`, which are carried as raw JSON text.
pub fn decode_request(t: &[u8]) -> (r: Option<Request>)
    ensures
        r is Some ==> parse_request(t@) == Some(
            (r->Some_0.method@, r->Some_0.path@, r->Some_0.headers@, r->Some_0.body@),
        ),
        r is None ==> parse_request(t@) is None,
{
    proof {
        reveal_strlit("method");
        reveal_strlit("path");
        reveal_strlit("headers");
        reveal_strlit("body");
        reveal_strlit("{}");
        reveal_strlit("null");
    }
    let m = match find_object_member(t, str_bytes("method")) {
        Some(span) => span,
        None => {
            return None;
        },
    };
    let p = match find_object_member(t, str_bytes("path")) {
        Some(span) => span,
        None => {
            return None;
        },
    };
    let mraw = copy_range(t, m.0, m.1);
    let method = match read_string_content(mraw.as_slice()) {
        Some(v) => v,
        None => {
            return None;
        },
    };
    let praw = copy_range(t, p.0, p.1);
    let path = match read_string_content(praw.as_slice()) {
        Some(v) => v,
        None => {
            return None;
        },
    };
    let headers = match find_object_member(t, str_bytes("headers")) {
        Some(span) => copy_range(t, span.0, span.1),
        None => lit_vec("{}"),
    };
    let body = match find_object_member(t, str_bytes("body")) {
        Some(span) => copy_range(t, span.0, span.1),
        None => lit_vec("null"),
    };
    Some(Request { method, path, headers, body })
}

/// The response text owed for the request text `t`: the routed response
/// for a well-formed request, and the fixed 400 response for text that is
/// not the canonical request form. Decode errors degrade to an error
/// response; they never unwind past the boundary.
pub open spec fn http_response_text(t: Seq<u8>) -> Seq<u8> {
    match parse_request(t) {
        Some(q) => response_bytes(route_status(q.0, q.1), json_headers(), route_body(q.0, q.1, q.3)),
        None => response_bytes(400u16, json_headers(), ascii_bytes("{\"error\":\"Bad Request\"}"@)),
    }
}

/// The dispatch entry point: decodes the null-terminated request buffer at
/// `request_addr`, routes it, and returns a fresh null-terminated buffer
/// holding the response text, which the host must later release. A buffer
/// that is not live or has no terminator within the scan limit is reported
/// as an error; every other malformed input yields the 400 response.
pub fn handle_http_request(arena: &mut Arena, request_addr: u64) -> (r: Result<
    MemoryBlock,
    BoundaryError,
>)
    requires
        old(arena).wf(),
    ensures
        final(arena).wf(),
        r is Err ==> *final(arena) == *old(arena),
        !old(arena).is_live(request_addr) ==> r == Err::<MemoryBlock, BoundaryError>(
            BoundaryError::UnknownAddress,
        ),
        old(arena).is_live(request_addr) && nul_decode(old(arena).bytes_at(request_addr))
            is None ==> r == Err::<MemoryBlock, BoundaryError>(BoundaryError::MalformedBuffer),
        old(arena).is_live(request_addr) && nul_decode(old(arena).bytes_at(request_addr))
            is Some ==> (r is Ok <==> !old(arena).exhausted()),
        old(arena).is_live(request_addr) && nul_decode(old(arena).bytes_at(request_addr))
            is Some && old(arena).exhausted() ==> r == Err::<MemoryBlock, BoundaryError>(
            BoundaryError::OutOfMemory,
        ),
        r is Ok ==> ({
            let b = r->Ok_0;
            let t = nul_decode(old(arena).bytes_at(request_addr))->Some_0;
            &&& !old(arena).is_live(b.address)
            &&& final(arena).is_live(b.address)
            &&& final(arena).bytes_at(b.address) == http_response_text(t) + seq![0u8]
            &&& b.length == http_response_text(t).len() + 1
            &&& forall|a: u64|
                a != b.address ==> final(arena).is_live(a) == old(arena).is_live(a)
            &&& forall|a: u64|
                a != b.address && old(arena).is_live(a) ==> final(arena).bytes_at(a) == old(
                    arena,
                ).bytes_at(a)
        }),
{
    let text = match decode_string_nul(arena, request_addr) {
        Ok(v) => v,
        Err(e) => {
            return Err(e);
        },
    };
    let resp = match decode_request(text.as_slice()) {
        Some(req) => handle_request(&req),
        None => {
            proof {
                reveal_strlit("{\"Content-Type\":\"application/json\"}");
                reveal_strlit("{\"error\":\"Bad Request\"}");
            }
            Response {
                status_code: 400,
                headers: lit_vec("{\"Content-Type\":\"application/json\"}"),
                body: lit_vec("{\"error\":\"Bad Request\"}"),
            }
        },
    };
    let encoded = encode_response(&resp);
    encode_string(arena, encoded.as_slice(), true)
}

} // verus!
