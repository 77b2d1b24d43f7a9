use guest_boundary::Arena;
use guest_boundary::Request;
use guest_boundary::decode_string_nul;
use guest_boundary::handle_http_request;
use guest_boundary::handle_request;

fn request(method: &str, path: &str, body: &str) -> Request {
    Request {
        method: method.as_bytes().to_vec(),
        path: path.as_bytes().to_vec(),
        headers: b"{}".to_vec(),
        body: body.as_bytes().to_vec(),
    }
}

#[test]
fn route_get_returns_greeting() {
    let r = handle_request(&request("GET", "/api/data", "null"));
    assert_eq!(r.status_code, 200);
    assert_eq!(
        r.body,
        b"{\"message\":\"Hello from WebAssembly API!\"}".to_vec()
    );
    assert_eq!(
        r.headers,
        b"{\"Content-Type\":\"application/json\"}".to_vec()
    );
}

#[test]
fn route_post_embeds_body() {
    let r = handle_request(&request("POST", "/api/data", "{\"x\":1}"));
    assert_eq!(r.status_code, 201);
    assert_eq!(
        r.body,
        b"{\"message\":\"Data created successfully\",\"received\":{\"x\":1}}".to_vec()
    );
}

#[test]
fn route_put_embeds_body() {
    let r = handle_request(&request("PUT", "/api/data", "[1,2]"));
    assert_eq!(r.status_code, 200);
    assert_eq!(
        r.body,
        b"{\"message\":\"Data updated successfully\",\"received\":[1,2]}".to_vec()
    );
}

#[test]
fn route_delete_has_fixed_body() {
    let r = handle_request(&request("DELETE", "/api/data", "null"));
    assert_eq!(r.status_code, 200);
    assert_eq!(r.body, b"{\"message\":\"Data deleted successfully\"}".to_vec());
}

#[test]
fn route_unknown_method_is_404() {
    let r = handle_request(&request("PATCH", "/api/data", "null"));
    assert_eq!(r.status_code, 404);
    assert_eq!(r.body, b"{\"error\":\"Not Found\"}".to_vec());
    assert_eq!(
        r.headers,
        b"{\"Content-Type\":\"application/json\"}".to_vec()
    );
}

#[test]
fn route_unknown_path_is_404() {
    let r = handle_request(&request("GET", "/api/other", "null"));
    assert_eq!(r.status_code, 404);
    assert_eq!(r.body, b"{\"error\":\"Not Found\"}".to_vec());
}

#[test]
fn dispatch_post_reports_created_with_received_body() {
    let mut arena = Arena::new();
    let mut text = b"{\"method\":\"POST\",\"path\":\"/api/data\",\"body\":{\"x\":1}}".to_vec();
    text.push(0);
    let req = arena.store_bytes(&text).unwrap();
    let resp = handle_http_request(&mut arena, req.address).unwrap();
    let body = decode_string_nul(&arena, resp.address).unwrap();
    assert_eq!(
        body,
        b"{\"statusCode\":201,\"headers\":{\"Content-Type\":\"application/json\"},\"body\":{\"message\":\"Data created successfully\",\"received\":{\"x\":1}}}".to_vec()
    );
}

#[test]
fn dispatch_tolerates_whitespace_and_member_order() {
    let mut arena = Arena::new();
    let mut text =
        b" { \"body\" : null , \"path\" : \"/api/data\" , \"method\" : \"DELETE\" } ".to_vec();
    text.push(0);
    let req = arena.store_bytes(&text).unwrap();
    let resp = handle_http_request(&mut arena, req.address).unwrap();
    let body = decode_string_nul(&arena, resp.address).unwrap();
    assert_eq!(
        body,
        b"{\"statusCode\":200,\"headers\":{\"Content-Type\":\"application/json\"},\"body\":{\"message\":\"Data deleted successfully\"}}".to_vec()
    );
}

#[test]
fn dispatch_of_malformed_text_is_bad_request() {
    let mut arena = Arena::new();
    let mut text = b"this is not a request".to_vec();
    text.push(0);
    let req = arena.store_bytes(&text).unwrap();
    let resp = handle_http_request(&mut arena, req.address).unwrap();
    let body = decode_string_nul(&arena, resp.address).unwrap();
    assert_eq!(
        body,
        b"{\"statusCode\":400,\"headers\":{\"Content-Type\":\"application/json\"},\"body\":{\"error\":\"Bad Request\"}}".to_vec()
    );
}

#[test]
fn dispatch_of_non_string_method_is_bad_request() {
    let mut arena = Arena::new();
    let mut text = b"{\"method\":7,\"path\":\"/api/data\"}".to_vec();
    text.push(0);
    let req = arena.store_bytes(&text).unwrap();
    let resp = handle_http_request(&mut arena, req.address).unwrap();
    let body = decode_string_nul(&arena, resp.address).unwrap();
    assert!(body.starts_with(b"{\"statusCode\":400,"));
}

#[test]
fn dispatch_of_unterminated_buffer_is_an_error() {
    let mut arena = Arena::new();
    let req = arena.store_bytes(b"{\"method\":\"GET\"}").unwrap();
    assert!(handle_http_request(&mut arena, req.address).is_err());
}

#[test]
fn dispatch_result_must_be_released_exactly_once() {
    let mut arena = Arena::new();
    let mut text = b"{\"method\":\"GET\",\"path\":\"/api/data\"}".to_vec();
    text.push(0);
    let req = arena.store_bytes(&text).unwrap();
    let resp = handle_http_request(&mut arena, req.address).unwrap();
    assert_eq!(arena.dealloc_str(resp.address), Ok(()));
    assert!(arena.dealloc_str(resp.address).is_err());
}

#[test]
fn route_method_match_is_exact() {
    let r = handle_request(&request("get", "/api/data", "null"));
    assert_eq!(r.status_code, 404);
    let r2 = handle_request(&request("GETX", "/api/data", "null"));
    assert_eq!(r2.status_code, 404);
}

#[test]
fn dispatch_post_without_body_receives_null() {
    let mut arena = Arena::new();
    let mut text = b"{\"method\":\"POST\",\"path\":\"/api/data\"}".to_vec();
    text.push(0);
    let req = arena.store_bytes(&text).unwrap();
    let resp = handle_http_request(&mut arena, req.address).unwrap();
    let body = decode_string_nul(&arena, resp.address).unwrap();
    assert_eq!(
        body,
        b"{\"statusCode\":201,\"headers\":{\"Content-Type\":\"application/json\"},\"body\":{\"message\":\"Data created successfully\",\"received\":null}}".to_vec()
    );
}
