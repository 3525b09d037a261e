use std::io::Read;
use time_db::http::{
    decimal_string, health_response, query_response, route, HttpRequest, HttpResponseBuilder, Route,
};

fn request_with_url(url: String) -> HttpRequest {
    HttpRequest { method: "".to_string(), url, headers: vec![], body: Default::default() }
}

#[test]
fn test_raw_query_param() {
    let http_request = request_with_url("/endpoint?time=1000".to_string());
    assert_eq!(http_request.raw_query_param("time"), Some("1000"));
    let http_request = request_with_url("/endpoint".to_string());
    assert_eq!(http_request.raw_query_param("time"), None);
    let http_request =
        request_with_url("/endpoint?time=1000&time=1001&other=abcde&time=1002".to_string());
    assert_eq!(http_request.raw_query_param("time"), Some("1000"));
}

#[test]
fn query_param_edge_cases() {
    let r = request_with_url("/e?flag&x=1=2&y=".to_string());
    assert_eq!(r.raw_query_param("flag"), Some(""));
    assert_eq!(r.raw_query_param("x"), Some("1=2"));
    assert_eq!(r.raw_query_param("y"), Some(""));
    assert_eq!(r.raw_query_param("z"), None);
    assert_eq!(request_with_url("/e?".to_string()).raw_query_param("a"), None);
    assert_eq!(request_with_url("/e?a=1?b=2".to_string()).raw_query_param("b"), None);
}

#[test]
fn path_stops_at_the_first_question_mark() {
    assert_eq!(request_with_url("/query?measurement=x".to_string()).path(), "/query");
    assert_eq!(request_with_url("/health".to_string()).path(), "/health");
    assert_eq!(request_with_url("?a".to_string()).path(), "");
}

#[test]
fn routes() {
    assert_eq!(route(&request_with_url("/health".to_string())), Route::Health);
    assert_eq!(
        route(&request_with_url("/query?measurement=cpu".to_string())),
        Route::Query(Some("cpu".to_string()))
    );
    assert_eq!(route(&request_with_url("/query".to_string())), Route::Query(None));
    assert_eq!(route(&request_with_url("/other".to_string())), Route::NotFound);
}

#[test]
fn builders() {
    let r = HttpResponseBuilder::not_found().build();
    assert_eq!(r.status_code, 404);
    assert_eq!(r.body, b"not found".to_vec());
    let r = HttpResponseBuilder::bad_request().build();
    assert_eq!((r.status_code, r.body), (400, b"bad request".to_vec()));
    let r = HttpResponseBuilder::server_error("boom").build();
    assert_eq!((r.status_code, r.body), (500, b"boom".to_vec()));
    let mut b = HttpResponseBuilder::ok();
    b.with_body_and_content_length(vec![1u8; 1234]);
    let r = b.build();
    assert_eq!(r.headers, vec![("Content-Length".to_string(), "1234".to_string())]);
    assert_eq!(r.body.len(), 1234);
    assert_eq!(decimal_string(0), "0");
    assert_eq!(decimal_string(907), "907");
}

#[test]
fn health() {
    let r = health_response();
    assert_eq!(r.status_code, 200);
    assert_eq!(
        r.headers,
        vec![("Content-Type".to_string(), "application/json; charset=utf-8".to_string())]
    );
    assert!(r.body.is_empty());
}

#[test]
fn short_query_bodies_are_not_attached() {
    let r = query_response(Some("cpu"), Some("[]"));
    assert_eq!(r.status_code, 200);
    assert_eq!(r.headers.len(), 1);
    assert!(r.body.is_empty());
    let r = query_response(None, None);
    assert!(r.body.is_empty());
}

#[test]
fn long_query_bodies_are_compressed() {
    let data = format!("[{}]", vec!["1"; 80].join(","));
    let r = query_response(Some("cpu"), Some(&data));
    assert_eq!(r.headers[1], ("Content-Encoding".to_string(), "gzip".to_string()));
    assert_eq!(r.headers[2], ("Content-Length".to_string(), r.body.len().to_string()));
    let mut text = String::new();
    flate2::read::GzDecoder::new(&r.body[..]).read_to_string(&mut text).unwrap();
    assert_eq!(text, format!("{{\"measurement\":\"cpu\", \"data\": {}}}", data));
    assert_ne!(r.body, text.as_bytes().to_vec());
}
