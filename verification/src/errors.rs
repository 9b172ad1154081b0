use vstd::prelude::*;

verus! {

/// Why a connection could not be served: the parse failures, the two
/// routing failures, and a failed file lookup.
#[derive(Clone, Copy, PartialEq, Eq, Structural, Debug)]
pub enum HttpError {
    /// The request buffer is not valid UTF-8 text.
    BadDecode,
    /// The request line does not hold exactly three tokens.
    BadHeader,
    /// The protocol token is not `HTTP/1.1`.
    BadProtocol,
    /// The method is not `GET`.
    BadMethod,
    /// The path is outside the download route, or names a parent directory.
    BadPath,
    /// The file could not be opened under the root.
    NotFound,
}

/// The status code each error is answered with.
pub open spec fn spec_status_of(e: HttpError) -> int {
    match e {
        HttpError::BadDecode => 500,
        HttpError::BadHeader => 500,
        HttpError::BadProtocol => 500,
        HttpError::BadMethod => 501,
        HttpError::BadPath => 400,
        HttpError::NotFound => 404,
    }
}

pub fn status_of(e: HttpError) -> (c: u16)
    ensures
        c as int == spec_status_of(e),
{
    match e {
        HttpError::BadDecode => 500,
        HttpError::BadHeader => 500,
        HttpError::BadProtocol => 500,
        HttpError::BadMethod => 501,
        HttpError::BadPath => 400,
        HttpError::NotFound => 404,
    }
}

/// The literal token the response body carries for each error:
/// `bad_decode`, `bad_http_header`, `bad_http_protocol`, `bad_method`,
/// `bad_path`, `not_found`.
pub open spec fn spec_token_of(e: HttpError) -> Seq<u8> {
    match e {
        HttpError::BadDecode => seq![
            'b' as u8, 'a' as u8, 'd' as u8, '_' as u8,
            'd' as u8, 'e' as u8, 'c' as u8, 'o' as u8, 'd' as u8, 'e' as u8,
        ],
        HttpError::BadHeader => seq![
            'b' as u8, 'a' as u8, 'd' as u8, '_' as u8,
            'h' as u8, 't' as u8, 't' as u8, 'p' as u8, '_' as u8,
            'h' as u8, 'e' as u8, 'a' as u8, 'd' as u8, 'e' as u8, 'r' as u8,
        ],
        HttpError::BadProtocol => seq![
            'b' as u8, 'a' as u8, 'd' as u8, '_' as u8,
            'h' as u8, 't' as u8, 't' as u8, 'p' as u8, '_' as u8,
            'p' as u8, 'r' as u8, 'o' as u8, 't' as u8, 'o' as u8, 'c' as u8,
            'o' as u8, 'l' as u8,
        ],
        HttpError::BadMethod => seq![
            'b' as u8, 'a' as u8, 'd' as u8, '_' as u8,
            'm' as u8, 'e' as u8, 't' as u8, 'h' as u8, 'o' as u8, 'd' as u8,
        ],
        HttpError::BadPath => seq![
            'b' as u8, 'a' as u8, 'd' as u8, '_' as u8,
            'p' as u8, 'a' as u8, 't' as u8, 'h' as u8,
        ],
        HttpError::NotFound => seq![
            'n' as u8, 'o' as u8, 't' as u8, '_' as u8,
            'f' as u8, 'o' as u8, 'u' as u8, 'n' as u8, 'd' as u8,
        ],
    }
}

pub fn token_of(e: HttpError) -> (r: Vec<u8>)
    ensures
        r@ == spec_token_of(e),
{
    match e {
        HttpError::BadDecode => vec![
            'b' as u8, 'a' as u8, 'd' as u8, '_' as u8,
            'd' as u8, 'e' as u8, 'c' as u8, 'o' as u8, 'd' as u8, 'e' as u8,
        ],
        HttpError::BadHeader => vec![
            'b' as u8, 'a' as u8, 'd' as u8, '_' as u8,
            'h' as u8, 't' as u8, 't' as u8, 'p' as u8, '_' as u8,
            'h' as u8, 'e' as u8, 'a' as u8, 'd' as u8, 'e' as u8, 'r' as u8,
        ],
        HttpError::BadProtocol => vec![
            'b' as u8, 'a' as u8, 'd' as u8, '_' as u8,
            'h' as u8, 't' as u8, 't' as u8, 'p' as u8, '_' as u8,
            'p' as u8, 'r' as u8, 'o' as u8, 't' as u8, 'o' as u8, 'c' as u8,
            'o' as u8, 'l' as u8,
        ],
        HttpError::BadMethod => vec![
            'b' as u8, 'a' as u8, 'd' as u8, '_' as u8,
            'm' as u8, 'e' as u8, 't' as u8, 'h' as u8, 'o' as u8, 'd' as u8,
        ],
        HttpError::BadPath => vec![
            'b' as u8, 'a' as u8, 'd' as u8, '_' as u8,
            'p' as u8, 'a' as u8, 't' as u8, 'h' as u8,
        ],
        HttpError::NotFound => vec![
            'n' as u8, 'o' as u8, 't' as u8, '_' as u8,
            'f' as u8, 'o' as u8, 'u' as u8, 'n' as u8, 'd' as u8,
        ],
    }
}

} // verus!
