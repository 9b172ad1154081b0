use vstd::prelude::*;

use crate::bytes::{starts_with, split_seq, views, append_bytes, lemma_split_from_len};
use crate::errors::{HttpError, spec_status_of};
use crate::headers::{HeaderModel, parse_spec, parse_headers, chunked_requested, is_chunked};
use crate::request::{resolve_spec, handle_request, method_get, download_prefix,
    has_parent_component};
use crate::headers::crlf;
use crate::response::{error_response_spec, fixed_response_spec, chunked_response_spec,
    render_error_response, render_fixed_response, render_chunked_response, status_line_spec,
    valid_status, content_length_framing_spec, chunked_framing_spec, chunked_body_spec,
    decode_chunks, lemma_chunked_round_trip};

verus! {

/// What serving a request buffer decides: the relative path to open
/// and the framing the request selected, or the error to answer with.
pub open spec fn plan_spec(buf: Seq<u8>) -> Result<(Seq<u8>, bool), HttpError> {
    match parse_spec(buf) {
        Err(e) => Err(e),
        Ok(m) => match resolve_spec(m) {
            Err(e) => Err(e),
            Ok(rel) => Ok((rel, chunked_requested(m))),
        },
    }
}

/// Parses and resolves one request buffer: everything a worker decides
/// before touching the filesystem.
pub fn plan_request(buffer: &[u8]) -> (r: Result<(Vec<u8>, bool), HttpError>)
    ensures
        match r {
            Ok(p) => plan_spec(buffer@) == Ok::<(Seq<u8>, bool), HttpError>((p.0@, p.1)),
            Err(e) => plan_spec(buffer@) == Err::<(Seq<u8>, bool), HttpError>(e),
        },
{
    match parse_headers(buffer) {
        Err(e) => Err(e),
        Ok(h) => {
            let chunked = is_chunked(&h);
            match handle_request(&h) {
                Err(e) => Err(e),
                Ok(rel) => Ok((rel, chunked)),
            }
        },
    }
}

/// The blocks a content is served in when it is all at hand: one
/// chunk, or none for an empty content.
pub open spec fn whole_blocks(content: Seq<u8>) -> Seq<Seq<u8>> {
    if content.len() == 0 {
        Seq::empty()
    } else {
        seq![content]
    }
}

/// The one response a connection is answered with, given the request
/// buffer and what opening the planned file yielded (`None`: the open
/// failed).
pub open spec fn response_spec(buf: Seq<u8>, file: Option<Seq<u8>>) -> Seq<u8> {
    match plan_spec(buf) {
        Err(e) => error_response_spec(e),
        Ok(p) => match file {
            None => error_response_spec(HttpError::NotFound),
            Some(content) => if p.1 {
                chunked_response_spec(whole_blocks(content))
            } else {
                fixed_response_spec(content)
            },
        },
    }
}

/// The status code of the one response: the error's code, 404 for a
/// failed open, 200 for a served file.
pub open spec fn response_status(buf: Seq<u8>, file: Option<Seq<u8>>) -> int {
    match plan_spec(buf) {
        Err(e) => spec_status_of(e),
        Ok(p) => match file {
            None => 404,
            Some(content) => 200,
        },
    }
}

/// Serves one request whose file content is all at hand: the whole
/// wire answer of a worker, in one byte string.
pub fn render_full_response(buffer: &[u8], file: Option<&Vec<u8>>) -> (r: Vec<u8>)
    ensures
        r@ == response_spec(
            buffer@,
            match file {
                Some(c) => Some(c@),
                None => None::<Seq<u8>>,
            },
        ),
{
    match plan_request(buffer) {
        Err(e) => render_error_response(e),
        Ok(p) => match file {
            None => render_error_response(HttpError::NotFound),
            Some(content) => {
                if p.1 {
                    let mut blocks: Vec<Vec<u8>> = Vec::new();
                    if content.len() > 0 {
                        let mut copy: Vec<u8> = Vec::new();
                        append_bytes(&mut copy, content.as_slice());
                        blocks.push(copy);
                    }
                    proof {
                        assert(views(blocks@) =~~= whole_blocks(content@));
                    }
                    render_chunked_response(&blocks)
                } else {
                    render_fixed_response(content.as_slice())
                }
            },
        },
    }
}

/// Whatever the request and whatever the filesystem said, the response
/// begins with the status line of its status code, a code from the
/// fixed table.
pub proof fn lemma_response_begins_with_status(buf: Seq<u8>, file: Option<Seq<u8>>)
    ensures
        valid_status(response_status(buf, file)),
        starts_with(response_spec(buf, file), status_line_spec(response_status(buf, file))),
{
    let c = response_status(buf, file);
    let r = response_spec(buf, file);
    assert(r.subrange(0, status_line_spec(c).len() as int) =~= status_line_spec(c));
}

/// Every response, whatever its branch, closes with one trailing
/// `\r\n`.
pub proof fn lemma_response_ends_with_crlf(buf: Seq<u8>, file: Option<Seq<u8>>)
    ensures
        response_spec(buf, file).len() >= 2,
        response_spec(buf, file).subrange(
            response_spec(buf, file).len() - 2,
            response_spec(buf, file).len() as int,
        ) == crlf(),
{
    let r = response_spec(buf, file);
    assert(r.subrange(r.len() - 2, r.len() as int) =~= crlf());
}

/// A request whose method is not `GET` is refused as a bad method, and
/// answered with status 501, whatever the filesystem would have said.
pub proof fn lemma_non_get_status(buf: Seq<u8>, m: HeaderModel, file: Option<Seq<u8>>)
    requires
        parse_spec(buf) == Ok::<HeaderModel, HttpError>(m),
        m.method != method_get(),
    ensures
        plan_spec(buf) == Err::<(Seq<u8>, bool), HttpError>(HttpError::BadMethod),
        response_status(buf, file) == 501,
        response_spec(buf, file) == error_response_spec(HttpError::BadMethod),
{
}

/// A `GET` whose path leaves the download route, or whose relative
/// part holds a parent-directory component, is refused as a bad path,
/// and answered with status 400, whatever the filesystem would have
/// said. (Under another method the bad method wins instead.)
pub proof fn lemma_bad_path_status(buf: Seq<u8>, m: HeaderModel, file: Option<Seq<u8>>)
    requires
        parse_spec(buf) == Ok::<HeaderModel, HttpError>(m),
        m.method == method_get(),
        !starts_with(m.path, download_prefix()) || has_parent_component(
            split_seq(m.path, download_prefix())[1],
        ),
    ensures
        plan_spec(buf) == Err::<(Seq<u8>, bool), HttpError>(HttpError::BadPath),
        response_status(buf, file) == 400,
        response_spec(buf, file) == error_response_spec(HttpError::BadPath),
{
    if starts_with(m.path, download_prefix()) {
        lemma_split_from_len(m.path, download_prefix(), download_prefix().len() as int);
        assert(split_seq(m.path, download_prefix()).len() >= 2);
    }
}

/// A served file without chunked framing is answered by the status
/// line 200, a `Content-Length` header equal to the file's byte
/// count, the file's bytes verbatim as the body, and the trailing
/// blank line.
pub proof fn lemma_fixed_response_exact(buf: Seq<u8>, content: Seq<u8>)
    requires
        plan_spec(buf) matches Ok(p) && !p.1,
    ensures
        response_spec(buf, Some(content)) == status_line_spec(200) + content_length_framing_spec(
            content.len(),
        ) + content + crlf(),
{
}

/// A served file with chunked framing is answered by the status line
/// 200, the chunked framing, a body of length-prefixed chunks closed
/// by the empty chunk, and the trailing blank line; reading the chunk
/// payloads back gives exactly the file's bytes.
pub proof fn lemma_chunked_response_exact(buf: Seq<u8>, content: Seq<u8>)
    requires
        plan_spec(buf) matches Ok(p) && p.1,
    ensures
        response_spec(buf, Some(content)) == status_line_spec(200) + chunked_framing_spec()
            + chunked_body_spec(whole_blocks(content)) + crlf(),
        decode_chunks(chunked_body_spec(whole_blocks(content))) == Some(content),
{
    lemma_chunked_round_trip(whole_blocks(content));
    if content.len() == 0 {
        assert(whole_blocks(content).flatten() =~= content);
    } else {
        assert(seq![content].drop_first() =~~= Seq::<Seq<u8>>::empty());
        assert(Seq::<Seq<u8>>::empty().flatten() =~= Seq::<u8>::empty());
        assert(seq![content].flatten() =~= content);
    }
}

/// A servable request whose file cannot be opened is answered with
/// status 404 and the not-found error body.
pub proof fn lemma_not_found_status(buf: Seq<u8>)
    requires
        plan_spec(buf) is Ok,
    ensures
        response_status(buf, None::<Seq<u8>>) == 404,
        response_spec(buf, None::<Seq<u8>>) == error_response_spec(HttpError::NotFound),
{
}

} // verus!
