//! What a worker computes for one connection, between reading the request
//! bytes and writing the response.
use vstd::prelude::*;
use vstd::utf8::{decode_utf8, valid_utf8};
use crate::request::{parse_request, HttpRequest};
use crate::router::{basic_response, handle_basic_request};

verus! {

/// The text that `String::from_utf8_lossy` makes of some bytes.
pub uninterp spec fn lossy_text(bytes: Seq<u8>) -> Seq<char>;

/// Relies on `String::from_utf8_lossy`: the bytes as UTF-8 text, each
/// invalid sequence replaced by U+FFFD; valid UTF-8 is decoded unchanged.
#[verifier::external_body]
fn decode_lossy(bytes: &[u8]) -> (r: String)
    ensures
        r@ == lossy_text(bytes@),
        valid_utf8(bytes@) ==> r@ == decode_utf8(bytes@),
{
    String::from_utf8_lossy(bytes).into_owned()
}

/// Parses the request held in the first `bytes_read` bytes of `buffer`, the
/// only bytes read from the connection: a longer request is cut there.
pub fn request_from_buffer(buffer: &[u8], bytes_read: usize) -> (r: HttpRequest)
    requires
        bytes_read <= buffer@.len(),
    ensures
        r@ == parse_request(lossy_text(buffer@.take(bytes_read as int))),
{
    let received = vstd::slice::slice_subrange(buffer, 0, bytes_read);
    assert(received@ =~= buffer@.take(bytes_read as int));
    let text = decode_lossy(received);
    HttpRequest::from_raw(text.as_str())
}

/// The whole work on one connection of the server with the basic route
/// table: the response to the request read into `buffer`.
pub fn respond_basic(buffer: &[u8], bytes_read: usize) -> (r: String)
    requires
        bytes_read <= buffer@.len(),
    ensures
        r@ == basic_response(parse_request(lossy_text(buffer@.take(bytes_read as int))).path),
{
    let request = request_from_buffer(buffer, bytes_read);
    handle_basic_request(&request)
}

} // verus!
