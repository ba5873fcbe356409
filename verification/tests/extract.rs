use std::io::Read;
use tide::body::{Body, BodyChunk, BodyError, Bytes, Form, Json, MultipartForm, Str, StrLossy};
use tide::extract::Extract;
use tide::head::{parse_number, Path};
use tide::params::RouteMatch;
use tide::request::{Headers, Request};
use tide::response::{IntoResponse, Response};
use tide::server::AppData;

fn request(headers: Headers, body: Body) -> Request {
    Request::new("POST".to_string(), "/".to_string(), headers, body)
}

fn plain(bytes: &[u8]) -> Request {
    request(Headers::new(), Body::from(bytes.to_vec()))
}

fn no_params() -> RouteMatch {
    RouteMatch { vec: Vec::new(), map: Vec::new() }
}

fn is_bare(res: &mut Response, status: u16) -> bool {
    res.status.0 == status
        && res.headers.entries.is_empty()
        && res.body.read_to_vec().ok() == Some(Vec::new())
}

fn failing() -> Body {
    Body::streaming(vec![
        Ok(BodyChunk::from(b"{\"a\":".to_vec())),
        Err(BodyError { message: "closed".to_string() }),
    ])
}

#[test]
fn bytes_are_the_body_as_it_is() {
    let mut req = plain(&[0, 159, 255]);
    let out = Bytes::extract(&mut (), &mut req, &no_params());
    assert_eq!(out.ok().map(|b| b.0), Some(vec![0u8, 159, 255]));
}

#[test]
fn a_taken_body_reads_as_no_bytes_afterwards() {
    let mut req = plain(b"once");
    let first = Bytes::extract(&mut (), &mut req, &no_params());
    assert_eq!(first.ok().map(|b| b.0), Some(b"once".to_vec()));
    let second = Bytes::extract(&mut (), &mut req, &no_params());
    assert_eq!(second.ok().map(|b| b.0), Some(Vec::new()));
    let third = Str::extract(&mut (), &mut req, &no_params());
    assert_eq!(third.ok().map(|s| s.0), Some(String::new()));
    assert_eq!(req.method, "POST");
    assert_eq!(req.path, "/");
}

#[test]
fn a_failed_json_read_leaves_an_empty_body_too() {
    let mut req = plain(b"not json");
    assert!(Json::extract(&mut (), &mut req, &no_params()).is_err());
    assert_eq!(req.body.read_to_vec().ok(), Some(Vec::new()));
}

#[test]
fn a_body_that_fails_to_read_is_a_bad_request() {
    let mut req = request(Headers::new(), failing());
    match Bytes::extract(&mut (), &mut req, &no_params()) {
        Err(mut res) => assert!(is_bare(&mut res, 400)),
        Ok(_) => panic!("the read fails"),
    }
    let mut req = request(Headers::new(), failing());
    assert!(Json::extract(&mut (), &mut req, &no_params()).is_err());
    let mut req = request(Headers::new(), failing());
    assert!(StrLossy::extract(&mut (), &mut req, &no_params()).is_err());
}

#[test]
fn text_must_be_utf8() {
    let mut req = plain("gr\u{fc}\u{df}e".as_bytes());
    let out = Str::extract(&mut (), &mut req, &no_params());
    assert_eq!(out.ok().map(|s| s.0), Some("gr\u{fc}\u{df}e".to_string()));
    let mut req = plain(&[b'a', 0xff, b'b']);
    match Str::extract(&mut (), &mut req, &no_params()) {
        Err(mut res) => assert!(is_bare(&mut res, 400)),
        Ok(_) => panic!("0xff is not UTF-8"),
    }
}

#[test]
fn lossy_text_replaces_what_is_not_utf8() {
    let mut req = plain(&[b'a', 0xff, b'b']);
    let out = StrLossy::extract(&mut (), &mut req, &no_params());
    assert_eq!(out.ok().map(|s| s.0), Some("a\u{fffd}b".to_string()));
    let mut req = plain(b"fine");
    let out = StrLossy::extract(&mut (), &mut req, &no_params());
    assert_eq!(out.ok().map(|s| s.0), Some("fine".to_string()));
}

#[test]
fn json_is_decoded_from_the_body() {
    let mut req = request(
        Headers::new(),
        Body::streaming(vec![
            Ok(BodyChunk::from(b"{\"author\":\"a\",".to_vec())),
            Ok(BodyChunk::from(b"\"contents\":\"hi\"}".to_vec())),
        ]),
    );
    let value = Json::extract(&mut (), &mut req, &no_params()).ok().expect("valid JSON").0;
    assert_eq!(value["author"], serde_json::Value::String("a".to_string()));
    assert_eq!(value["contents"], serde_json::Value::String("hi".to_string()));
}

#[test]
fn json_that_does_not_parse_is_a_bad_request() {
    let mut req = plain(b"{\"author\":");
    match Json::extract(&mut (), &mut req, &no_params()) {
        Err(mut res) => assert!(is_bare(&mut res, 400)),
        Ok(_) => panic!("the text is cut off"),
    }
}

#[test]
fn json_survives_a_round_through_response_and_request() {
    let text = "{\"author\":\"a\",\"contents\":\"hi\",\"n\":[1,2,{\"k\":null}],\"ok\":true}";
    let original: serde_json::Value = serde_json::from_str(text).unwrap();
    let mut res = Json(original.clone()).into_response();
    assert_eq!(res.status.0, 200);
    assert_eq!(res.headers.entries.len(), 1);
    assert_eq!(res.headers.entries[0].name, "Content-Type");
    assert_eq!(res.headers.entries[0].value, b"application/json".to_vec());
    let bytes = res.body.read_to_vec().ok().unwrap();
    assert_eq!(bytes, text.as_bytes().to_vec());
    let mut req = plain(&bytes);
    let back = Json::extract(&mut (), &mut req, &no_params()).ok().expect("valid JSON").0;
    assert_eq!(back, original);
}

#[test]
fn the_outcome_of_decoding_decides_what_json_extraction_gives() {
    let ok: Result<u32, ()> = Ok(5);
    assert_eq!(Json::from_decoded(ok).ok().map(|j| j.0), Some(5));
    let bad: Result<u32, &str> = Err("no");
    match Json::from_decoded(bad) {
        Err(mut res) => assert!(is_bare(&mut res, 400)),
        Ok(_) => panic!("there is no value"),
    }
    let ok: Result<u32, ()> = Ok(6);
    assert_eq!(Form::from_decoded(ok).ok().map(|f| f.0), Some(6));
    let bad: Result<u32, &str> = Err("no");
    match Form::from_decoded(bad) {
        Err(mut res) => assert!(is_bare(&mut res, 400)),
        Ok(_) => panic!("there is no value"),
    }
}

#[test]
fn the_outcome_of_encoding_decides_the_response() {
    let ok: Result<Vec<u8>, ()> = Ok(b"[1]".to_vec());
    let mut res = Json::<()>::respond(ok);
    assert_eq!(res.status.0, 200);
    assert_eq!(res.headers.entries[0].value, b"application/json".to_vec());
    assert_eq!(res.body.read_to_vec().ok(), Some(b"[1]".to_vec()));
    let bad: Result<Vec<u8>, ()> = Err(());
    let mut res = Json::<()>::respond(bad);
    assert!(is_bare(&mut res, 500));
    let ok: Result<String, ()> = Ok("a=1".to_string());
    let mut res = Form::<()>::respond(ok);
    assert_eq!(res.status.0, 200);
    assert_eq!(res.headers.entries[0].value, b"application/x-www-form-urlencoded".to_vec());
    assert_eq!(res.body.read_to_vec().ok(), Some(b"a=1".to_vec()));
    let bad: Result<String, ()> = Err(());
    let mut res = Form::<()>::respond(bad);
    assert!(is_bare(&mut res, 500));
}

#[test]
fn a_form_is_decoded_from_the_body() {
    let mut req = plain(b"name=Alice&address[city]=Carrot+City");
    let value = Form::extract(&mut (), &mut req, &no_params()).ok().expect("a query string").0;
    assert_eq!(value["name"], serde_json::Value::String("Alice".to_string()));
    assert_eq!(value["address"]["city"], serde_json::Value::String("Carrot City".to_string()));
}

#[test]
fn a_form_is_sent_as_a_query_string() {
    let mut map = serde_json::Map::new();
    map.insert("name".to_string(), serde_json::Value::String("Alice".to_string()));
    map.insert("occupation".to_string(), serde_json::Value::String("Student".to_string()));
    let mut res = Form(serde_json::Value::Object(map)).into_response();
    assert_eq!(res.status.0, 200);
    assert_eq!(res.headers.entries[0].name, "Content-Type");
    assert_eq!(res.headers.entries[0].value, b"application/x-www-form-urlencoded".to_vec());
    assert_eq!(res.body.read_to_vec().ok(), Some(b"name=Alice&occupation=Student".to_vec()));
}

#[test]
fn a_value_without_a_query_string_is_a_server_error() {
    let mut value = serde_json::Value::String("deep".to_string());
    for _ in 0..40 {
        let mut map = serde_json::Map::new();
        map.insert("a".to_string(), value);
        value = serde_json::Value::Object(map);
    }
    let mut res = Form(value).into_response();
    assert!(is_bare(&mut res, 500));
}

fn multipart_request(content_type: Option<&[u8]>, body: Body) -> Request {
    let mut headers = Headers::new();
    headers.append("accept".to_string(), b"*/*".to_vec());
    if let Some(value) = content_type {
        headers.append("Content-Type".to_string(), value.to_vec());
    }
    request(headers, body)
}

const PARTS: &[u8] = b"--XYZ\r\nContent-Disposition: form-data; name=\"greeting\"\r\n\r\nhello\r\n--XYZ--\r\n";

#[test]
fn a_multipart_form_reads_its_parts() {
    let mut req = multipart_request(
        Some(b"multipart/form-data; boundary=XYZ"),
        Body::from(PARTS.to_vec()),
    );
    let mut form = match MultipartForm::extract(&mut (), &mut req, &no_params()) {
        Ok(form) => form.0,
        Err(_) => panic!("the boundary is there"),
    };
    let mut names = Vec::new();
    let mut texts = Vec::new();
    while let Some(mut field) = form.read_entry().unwrap() {
        names.push(field.headers.name.to_string());
        let mut text = String::new();
        field.data.read_to_string(&mut text).unwrap();
        texts.push(text);
    }
    assert_eq!(names, vec!["greeting"]);
    assert_eq!(texts, vec!["hello"]);
    assert_eq!(req.body.read_to_vec().ok(), Some(Vec::new()));
}

#[test]
fn a_multipart_request_without_boundary_is_a_bad_request() {
    let mut req = multipart_request(Some(b"multipart/form-data"), Body::from(PARTS.to_vec()));
    match MultipartForm::extract(&mut (), &mut req, &no_params()) {
        Err(mut res) => assert!(is_bare(&mut res, 400)),
        Ok(_) => panic!("there is no boundary"),
    }
    assert_eq!(req.body.read_to_vec().ok(), Some(Vec::new()));
}

#[test]
fn a_multipart_request_without_content_type_is_a_bad_request() {
    let mut req = multipart_request(None, Body::from(PARTS.to_vec()));
    assert!(MultipartForm::extract(&mut (), &mut req, &no_params()).is_err());
}

#[test]
fn a_multipart_request_whose_header_is_no_text_is_a_bad_request() {
    let mut req = multipart_request(
        Some(b"multipart/form-data; \x01boundary=XYZ"),
        Body::from(PARTS.to_vec()),
    );
    assert!(MultipartForm::extract(&mut (), &mut req, &no_params()).is_err());
}

#[test]
fn a_multipart_request_whose_body_fails_is_a_bad_request() {
    let mut req = multipart_request(Some(b"multipart/form-data; boundary=XYZ"), failing());
    match MultipartForm::extract(&mut (), &mut req, &no_params()) {
        Err(mut res) => assert!(is_bare(&mut res, 400)),
        Ok(_) => panic!("the read fails"),
    }
}

#[test]
fn numbers_are_read_in_base_ten() {
    assert_eq!(parse_number("0"), Some(0));
    assert_eq!(parse_number("42"), Some(42));
    assert_eq!(parse_number("+42"), Some(42));
    assert_eq!(parse_number("007"), Some(7));
    assert_eq!(parse_number(&usize::MAX.to_string()), Some(usize::MAX));
    assert_eq!(parse_number(""), None);
    assert_eq!(parse_number("+"), None);
    assert_eq!(parse_number("-1"), None);
    assert_eq!(parse_number("++1"), None);
    assert_eq!(parse_number("1+"), None);
    assert_eq!(parse_number("4 2"), None);
    assert_eq!(parse_number("12a"), None);
    assert_eq!(parse_number("\u{664}"), None);
    assert_eq!(parse_number("18446744073709551616"), None);
    assert_eq!(parse_number("99999999999999999999999"), None);
}

#[test]
fn numbers_agree_with_the_standard_reading() {
    for text in ["5", "+5", "-5", "", "+", "05", "18446744073709551615", "18446744073709551616", "x"] {
        assert_eq!(parse_number(text), text.parse::<usize>().ok());
    }
}

#[test]
fn a_path_number_comes_from_a_capture() {
    let params = RouteMatch {
        vec: vec!["12".to_string(), "x".to_string()],
        map: vec![("id".to_string(), "12".to_string()), ("name".to_string(), "x".to_string())],
    };
    let mut req = plain(b"");
    assert_eq!(Path::extract(&mut (), &mut req, &params).ok().map(|p| p.0), Some(12));
    assert_eq!(Path::named(&params, "id").ok().map(|p| p.0), Some(12));
    assert_eq!(Path::placed(&params, 0).ok().map(|p| p.0), Some(12));
    match Path::named(&params, "name") {
        Err(mut res) => assert!(is_bare(&mut res, 400)),
        Ok(_) => panic!("x is no number"),
    }
    match Path::named(&params, "missing") {
        Err(mut res) => assert!(is_bare(&mut res, 400)),
        Ok(_) => panic!("there is no such capture"),
    }
    assert!(Path::placed(&params, 1).is_err());
    assert!(Path::placed(&params, 2).is_err());
    assert!(Path::extract(&mut (), &mut req, &no_params()).is_err());
}

#[test]
fn the_last_of_several_captures_with_one_name_is_given() {
    let params = RouteMatch {
        vec: vec!["1".to_string(), "2".to_string()],
        map: vec![("n".to_string(), "1".to_string()), ("n".to_string(), "2".to_string())],
    };
    assert_eq!(params.get("n").map(|s| s.as_str()), Some("2"));
}

#[test]
fn app_data_is_a_clone_of_the_data() {
    let mut data = vec![1, 2, 3];
    let mut req = plain(b"body");
    let mut handle = match AppData::extract(&mut data, &mut req, &no_params()) {
        Ok(handle) => handle,
        Err(_) => panic!("this never fails"),
    };
    assert_eq!(*handle, vec![1, 2, 3]);
    assert_eq!(handle.len(), 3);
    handle.push(4);
    assert_eq!(handle.0, vec![1, 2, 3, 4]);
    assert_eq!(data, vec![1, 2, 3]);
    assert_eq!(req.body.read_to_vec().ok(), Some(b"body".to_vec()));
}
