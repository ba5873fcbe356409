//! The codecs that bodies go through. Each is an outside function; what is
//! said of it here is taken on trust.

use vstd::prelude::*;
use vstd::utf8::{decode_utf8, valid_utf8};
use multipart::server::Multipart;
use std::io::Cursor;
use std::string::FromUtf8Error;

verus! {

/// `serde_json::Value`: a value of any shape that JSON can write.
#[verifier::external_type_specification]
#[verifier::external_body]
pub struct ExJsonValue(serde_json::Value);

/// `serde_json::Error`: why a JSON text could not be read or written.
#[verifier::external_type_specification]
#[verifier::external_body]
pub struct ExJsonError(serde_json::Error);

/// `serde_qs::Error`: why a query string could not be read or written.
#[verifier::external_type_specification]
#[verifier::external_body]
pub struct ExFormError(serde_qs::Error);

/// `multipart::server::Multipart`: a reader of the parts of a multipart
/// body.
#[verifier::external_type_specification]
#[verifier::external_body]
#[verifier::reject_recursive_types(R)]
pub struct ExMultipart<R>(Multipart<R>);

/// `std::io::Cursor`: a buffer that is read from its start.
#[verifier::external_type_specification]
#[verifier::external_body]
#[verifier::reject_recursive_types(T)]
pub struct ExCursor<T>(Cursor<T>);

/// `std::string::FromUtf8Error`: bytes that are not UTF-8.
#[verifier::external_type_specification]
#[verifier::external_body]
pub struct ExFromUtf8Error(FromUtf8Error);

/// The value that `bytes` are the JSON text of, if they are such a text.
pub uninterp spec fn json_decoded(bytes: Seq<u8>) -> Option<serde_json::Value>;

/// The JSON text of `value`, if it has one.
pub uninterp spec fn json_encoded(value: serde_json::Value) -> Option<Seq<u8>>;

/// The value that `bytes` are the query string of, if they are one.
pub uninterp spec fn form_decoded(bytes: Seq<u8>) -> Option<serde_json::Value>;

/// The query string of `value`, if it has one.
pub uninterp spec fn form_encoded(value: serde_json::Value) -> Option<Seq<char>>;

/// The text that `bytes` decode to when whatever is not UTF-8 in them is
/// replaced.
pub uninterp spec fn lossy_text(bytes: Seq<u8>) -> Seq<char>;

/// The multipart reader over `body` with the given boundary.
pub uninterp spec fn multipart_over(body: Seq<u8>, boundary: Seq<char>) -> Multipart<
    Cursor<Vec<u8>>,
>;

/// `serde_json::from_slice` for a `serde_json::Value`: the value that the
/// bytes spell, or an error where they are no JSON text.
#[verifier::external_body]
pub(crate) fn json_from_slice(bytes: &[u8]) -> (decoded: Result<
    serde_json::Value,
    serde_json::Error,
>)
    ensures
        match decoded {
            Ok(value) => json_decoded(bytes@) == Some(value),
            Err(_) => json_decoded(bytes@) is None,
        },
{
    serde_json::from_slice(bytes)
}

/// `serde_json::to_vec` for a `serde_json::Value`: its JSON text, or an
/// error where it has none.
#[verifier::external_body]
pub(crate) fn json_to_vec(value: &serde_json::Value) -> (encoded: Result<
    Vec<u8>,
    serde_json::Error,
>)
    ensures
        match encoded {
            Ok(bytes) => json_encoded(*value) == Some(bytes@),
            Err(_) => json_encoded(*value) is None,
        },
{
    serde_json::to_vec(value)
}

/// `serde_qs::from_bytes` for a `serde_json::Value`: the value that the
/// query string spells, or an error where the bytes are no query string.
#[verifier::external_body]
pub(crate) fn form_from_bytes(bytes: &[u8]) -> (decoded: Result<
    serde_json::Value,
    serde_qs::Error,
>)
    ensures
        match decoded {
            Ok(value) => form_decoded(bytes@) == Some(value),
            Err(_) => form_decoded(bytes@) is None,
        },
{
    serde_qs::from_bytes(bytes)
}

/// `serde_qs::to_string` for a `serde_json::Value`: its query string, or an
/// error where it has none.
#[verifier::external_body]
pub(crate) fn form_to_string(value: &serde_json::Value) -> (encoded: Result<
    String,
    serde_qs::Error,
>)
    ensures
        match encoded {
            Ok(text) => form_encoded(*value) == Some(text@),
            Err(_) => form_encoded(*value) is None,
        },
{
    serde_qs::to_string(value)
}

/// `Multipart::with_body` over a cursor on `body`: a reader that has read
/// nothing yet.
#[verifier::external_body]
pub(crate) fn multipart_with_body(body: Vec<u8>, boundary: String) -> (reader: Multipart<
    Cursor<Vec<u8>>,
>)
    ensures
        reader == multipart_over(body@, boundary@),
{
    Multipart::with_body(Cursor::new(body), boundary)
}

/// `String::from_utf8`: the text that the bytes encode, where they are
/// UTF-8, and an error where they are not.
pub assume_specification[ String::from_utf8 ](bytes: Vec<u8>) -> (text: Result<
    String,
    FromUtf8Error,
>)
    ensures
        text is Ok <==> valid_utf8(bytes@),
        text matches Ok(s) ==> s@ == decode_utf8(bytes@),
;

/// `String::from_utf8_lossy`, made an owned string: the text that the bytes
/// decode to with replacements, which is their own text where they are
/// UTF-8.
#[verifier::external_body]
pub(crate) fn utf8_lossy(bytes: &[u8]) -> (text: String)
    ensures
        text@ == lossy_text(bytes@),
        valid_utf8(bytes@) ==> text@ == decode_utf8(bytes@),
{
    String::from_utf8_lossy(bytes).into_owned()
}

} // verus!
