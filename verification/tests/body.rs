use tide::body::{Body, BodyChunk, BodyError};

#[test]
fn empty_body_reads_as_no_bytes() {
    let mut body = Body::empty();
    assert_eq!(body.read_to_vec().ok(), Some(Vec::new()));
}

#[test]
fn buffered_body_reads_the_same_twice() {
    let mut body = Body::from(vec![1u8, 2, 3]);
    assert_eq!(body.read_to_vec().ok(), Some(vec![1u8, 2, 3]));
    assert_eq!(body.read_to_vec().ok(), Some(vec![1u8, 2, 3]));
}

#[test]
fn streamed_chunks_are_joined_in_delivery_order() {
    let items = vec![
        Ok(BodyChunk::from(vec![3u8, 1])),
        Ok(BodyChunk::from(vec![])),
        Ok(BodyChunk::from(vec![2u8])),
        Ok(BodyChunk::from(vec![3u8, 1])),
    ];
    let mut body = Body::streaming(items);
    assert!(body.is_streaming());
    assert_eq!(body.read_to_vec().ok(), Some(vec![3u8, 1, 2, 3, 1]));
    assert_eq!(body.read_to_vec().ok(), Some(Vec::new()));
}

#[test]
fn streamed_failure_ends_the_read() {
    let items = vec![
        Ok(BodyChunk::from(vec![1u8])),
        Err(BodyError { message: "reset".to_string() }),
        Ok(BodyChunk::from(vec![2u8])),
    ];
    let mut body = Body::streaming(items);
    match body.read_to_vec() {
        Err(e) => assert_eq!(e.message, "reset"),
        Ok(_) => panic!("the failed item must end the read"),
    }
    assert_eq!(body.read_to_vec().ok(), Some(vec![2u8]));
}

#[test]
fn chunks_hold_their_bytes() {
    let chunk = BodyChunk::from(vec![9u8, 8]);
    assert_eq!(chunk.as_bytes(), &[9u8, 8]);
    assert_eq!(chunk.into_bytes(), vec![9u8, 8]);
    let text = BodyChunk::from("h\u{e9}".to_string());
    assert_eq!(text.as_bytes(), "h\u{e9}".as_bytes());
}

#[test]
fn a_body_comes_apart_into_what_it_was_made_of() {
    assert_eq!(Body::from(vec![1u8, 2]).into_parts().ok(), Some(vec![1u8, 2]));
    assert!(!Body::from(vec![1u8, 2]).is_streaming());
    assert_eq!(Body::empty().into_parts().ok(), Some(Vec::new()));
    let body = Body::streaming(vec![
        Ok(BodyChunk::from(vec![1u8])),
        Err(BodyError { message: "lost".to_string() }),
        Ok(BodyChunk::from(vec![2u8, 3])),
    ]);
    let items = match body.into_parts() {
        Err(items) => items,
        Ok(_) => panic!("a stream stays a stream"),
    };
    let seen: Vec<Result<Vec<u8>, String>> = items
        .into_iter()
        .map(|item| match item {
            Ok(chunk) => Ok(chunk.into_bytes()),
            Err(e) => Err(e.message),
        })
        .collect();
    assert_eq!(seen, vec![Ok(vec![1u8]), Err("lost".to_string()), Ok(vec![2u8, 3])]);
}

#[test]
fn a_stream_that_was_read_holds_what_followed_the_failure() {
    let mut body = Body::streaming(vec![
        Err(BodyError { message: "first".to_string() }),
        Ok(BodyChunk::from(vec![5u8])),
        Err(BodyError { message: "second".to_string() }),
    ]);
    assert_eq!(body.read_to_vec().err().map(|e| e.message), Some("first".to_string()));
    assert_eq!(body.read_to_vec().err().map(|e| e.message), Some("second".to_string()));
    assert_eq!(body.read_to_vec().ok(), Some(Vec::new()));
    assert!(body.is_streaming());
}

#[test]
fn an_empty_stream_reads_as_no_bytes() {
    let mut body = Body::streaming(Vec::new());
    assert_eq!(body.read_to_vec().ok(), Some(Vec::new()));
}
