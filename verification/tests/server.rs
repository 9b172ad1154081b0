use http_file_server::bytes::{bytes_eq, split_bytes};
use http_file_server::errors::{status_of, token_of, HttpError};
use http_file_server::headers::{header_value, is_chunked, parse_headers};
use http_file_server::plan::{plan_request, render_full_response};
use http_file_server::request::handle_request;
use http_file_server::response::{
    encode_chunk, final_chunk, render_chunked_response, render_error_response,
    render_fixed_response, u64_dec,
};
use http_file_server::utf8::check_utf8;

#[test]
fn serves_small_file_with_content_length() {
    let buffer = b"GET /download/report.txt HTTP/1.1\r\n\r\n";
    let content = b"hello".to_vec();
    let response = render_full_response(buffer, Some(&content));
    assert_eq!(
        response,
        b"HTTP/1.1 200 OK\r\nContent-Length: 5\r\n\r\nhello\r\n".to_vec()
    );
}

#[test]
fn rejects_parent_directory_path() {
    let buffer = b"GET /download/../secret HTTP/1.1\r\n\r\n";
    assert_eq!(plan_request(buffer), Err(HttpError::BadPath));
    let response = render_full_response(buffer, None);
    assert_eq!(
        response,
        b"HTTP/1.1 400 Bad Request\r\nContent-Length: 8\r\n\r\nbad_path\r\n".to_vec()
    );
}

#[test]
fn rejects_post_method() {
    let buffer = b"POST /download/report.txt HTTP/1.1\r\n\r\n";
    assert_eq!(plan_request(buffer), Err(HttpError::BadMethod));
    let response = render_full_response(buffer, None);
    assert_eq!(
        response,
        b"HTTP/1.1 501 Not Implemented\r\nContent-Length: 10\r\n\r\nbad_method\r\n".to_vec()
    );
}

#[test]
fn missing_file_is_answered_404() {
    let buffer = b"GET /download/gone.txt HTTP/1.1\r\n\r\n";
    assert!(plan_request(buffer).is_ok());
    let response = render_full_response(buffer, None);
    assert_eq!(
        response,
        b"HTTP/1.1 404 Not Found\r\nContent-Length: 9\r\n\r\nnot_found\r\n".to_vec()
    );
}

#[test]
fn chunked_request_gets_chunked_response() {
    let buffer = b"GET /download/report.txt HTTP/1.1\r\nTransfer-Encoding: chunked\r\n\r\n";
    let content = b"hello".to_vec();
    let response = render_full_response(buffer, Some(&content));
    assert_eq!(
        response,
        b"HTTP/1.1 200 OK\r\nTransfer-Encoding: chunked\r\n\r\n5\r\nhello\r\n0\r\n\r\n\r\n"
            .to_vec()
    );
}

#[test]
fn empty_file_chunked_is_only_final_chunk() {
    let buffer = b"GET /download/empty HTTP/1.1\r\nTransfer-Encoding: chunked\r\n\r\n";
    let content = Vec::new();
    let response = render_full_response(buffer, Some(&content));
    assert_eq!(
        response,
        b"HTTP/1.1 200 OK\r\nTransfer-Encoding: chunked\r\n\r\n0\r\n\r\n\r\n".to_vec()
    );
}

#[test]
fn empty_file_fixed_has_zero_length() {
    let buffer = b"GET /download/empty HTTP/1.1\r\n\r\n";
    let content = Vec::new();
    let response = render_full_response(buffer, Some(&content));
    assert_eq!(
        response,
        b"HTTP/1.1 200 OK\r\nContent-Length: 0\r\n\r\n\r\n".to_vec()
    );
}

#[test]
fn zero_padded_buffer_still_parses() {
    let mut buffer = [0u8; 1024];
    let request = b"GET /download/report.txt HTTP/1.1\r\n\r\n";
    buffer[..request.len()].copy_from_slice(request);
    let (rel, chunked) = plan_request(&buffer).expect("servable");
    assert_eq!(rel, b"report.txt".to_vec());
    assert!(!chunked);
}

#[test]
fn request_line_with_wrong_token_count_is_bad_header() {
    let buffer = b"GET /download/report.txt HTTP/1.1 extra\r\n\r\n";
    assert_eq!(plan_request(buffer), Err(HttpError::BadHeader));
    let response = render_full_response(buffer, None);
    assert_eq!(
        response,
        b"HTTP/1.1 500 Internal Server Error\r\nContent-Length: 15\r\n\r\nbad_http_header\r\n"
            .to_vec()
    );
}

#[test]
fn wrong_protocol_is_bad_protocol() {
    let buffer = b"GET /download/report.txt HTTP/1.0\r\n\r\n";
    assert_eq!(plan_request(buffer), Err(HttpError::BadProtocol));
    let response = render_full_response(buffer, None);
    assert_eq!(
        response,
        b"HTTP/1.1 500 Internal Server Error\r\nContent-Length: 17\r\n\r\nbad_http_protocol\r\n"
            .to_vec()
    );
}

#[test]
fn invalid_utf8_buffer_is_bad_decode() {
    let buffer = b"GET /download/a HTTP/1.1\r\n\xff\r\n";
    assert_eq!(plan_request(buffer), Err(HttpError::BadDecode));
    let response = render_full_response(buffer, None);
    assert_eq!(
        response,
        b"HTTP/1.1 500 Internal Server Error\r\nContent-Length: 10\r\n\r\nbad_decode\r\n"
            .to_vec()
    );
}

#[test]
fn path_outside_download_route_is_bad_path() {
    let buffer = b"GET /files/report.txt HTTP/1.1\r\n\r\n";
    assert_eq!(plan_request(buffer), Err(HttpError::BadPath));
}

#[test]
fn nested_relative_path_is_served() {
    let buffer = b"GET /download/a/b/c.txt HTTP/1.1\r\n\r\n";
    let (rel, _) = plan_request(buffer).expect("servable");
    assert_eq!(rel, b"a/b/c.txt".to_vec());
}

#[test]
fn parent_marker_deep_in_path_is_rejected() {
    let buffer = b"GET /download/a/../b HTTP/1.1\r\n\r\n";
    assert_eq!(plan_request(buffer), Err(HttpError::BadPath));
}

#[test]
fn dotted_names_are_not_parent_markers() {
    let buffer = b"GET /download/a..b/.hidden HTTP/1.1\r\n\r\n";
    let (rel, _) = plan_request(buffer).expect("servable");
    assert_eq!(rel, b"a..b/.hidden".to_vec());
}

#[test]
fn repeated_prefix_keeps_first_segment() {
    let buffer = b"GET /download/a/download/b HTTP/1.1\r\n\r\n";
    let (rel, _) = plan_request(buffer).expect("servable");
    assert_eq!(rel, b"a".to_vec());
}

#[test]
fn bare_download_prefix_resolves_to_empty_path() {
    let buffer = b"GET /download/ HTTP/1.1\r\n\r\n";
    let (rel, _) = plan_request(buffer).expect("servable");
    assert_eq!(rel, Vec::new());
}

#[test]
fn prefix_without_trailing_slash_is_bad_path() {
    let buffer = b"GET /download HTTP/1.1\r\n\r\n";
    assert_eq!(plan_request(buffer), Err(HttpError::BadPath));
}

#[test]
fn header_lookup_is_last_write_wins_and_case_sensitive() {
    let buffer =
        b"GET /x HTTP/1.1\r\nTransfer-Encoding: gzip\r\nTransfer-Encoding: chunked\r\n\r\n";
    let parsed = parse_headers(buffer).expect("parses");
    let value = header_value(&parsed, b"Transfer-Encoding").expect("present");
    assert_eq!(value, &b"chunked".to_vec());
    assert!(is_chunked(&parsed));
    assert!(header_value(&parsed, b"transfer-encoding").is_none());
}

#[test]
fn chunked_header_with_other_value_is_not_chunked() {
    let buffer = b"GET /x HTTP/1.1\r\nTransfer-Encoding: gzip\r\n\r\n";
    let parsed = parse_headers(buffer).expect("parses");
    assert!(!is_chunked(&parsed));
}

#[test]
fn parse_keeps_request_line_tokens() {
    let buffer = b"GET /download/report.txt HTTP/1.1\r\nHost: here\r\n\r\n";
    let parsed = parse_headers(buffer).expect("parses");
    assert_eq!(parsed.method, b"GET".to_vec());
    assert_eq!(parsed.path, b"/download/report.txt".to_vec());
    assert_eq!(parsed.protocol, b"HTTP/1.1".to_vec());
    assert_eq!(header_value(&parsed, b"Host"), Some(&b"here".to_vec()));
}

#[test]
fn handle_request_rejects_non_get_before_path() {
    let buffer = b"PUT /elsewhere HTTP/1.1\r\n\r\n";
    let parsed = parse_headers(buffer).expect("parses");
    assert_eq!(handle_request(&parsed), Err(HttpError::BadMethod));
}

#[test]
fn status_codes_match_error_taxonomy() {
    assert_eq!(status_of(HttpError::BadDecode), 500);
    assert_eq!(status_of(HttpError::BadHeader), 500);
    assert_eq!(status_of(HttpError::BadProtocol), 500);
    assert_eq!(status_of(HttpError::BadMethod), 501);
    assert_eq!(status_of(HttpError::BadPath), 400);
    assert_eq!(status_of(HttpError::NotFound), 404);
}

#[test]
fn error_tokens_are_the_literal_bodies() {
    assert_eq!(token_of(HttpError::BadMethod), b"bad_method".to_vec());
    assert_eq!(token_of(HttpError::BadPath), b"bad_path".to_vec());
    assert_eq!(token_of(HttpError::NotFound), b"not_found".to_vec());
}

#[test]
fn decimal_rendering_is_exact() {
    assert_eq!(u64_dec(0), b"0".to_vec());
    assert_eq!(u64_dec(7), b"7".to_vec());
    assert_eq!(u64_dec(1024), b"1024".to_vec());
    assert_eq!(u64_dec(262144), b"262144".to_vec());
}

#[test]
fn chunk_encoding_uses_byte_length() {
    assert_eq!(encode_chunk(b"hello"), b"5\r\nhello\r\n".to_vec());
    // Two-byte character: the length counts bytes, not characters.
    assert_eq!(encode_chunk("é".as_bytes()), b"2\r\n\xc3\xa9\r\n".to_vec());
    assert_eq!(final_chunk(), b"0\r\n\r\n".to_vec());
}

#[test]
fn chunked_response_concatenates_blocks_in_order() {
    let blocks = vec![b"hel".to_vec(), b"lo".to_vec()];
    let response = render_chunked_response(&blocks);
    assert_eq!(
        response,
        b"HTTP/1.1 200 OK\r\nTransfer-Encoding: chunked\r\n\r\n3\r\nhel\r\n2\r\nlo\r\n0\r\n\r\n\r\n"
            .to_vec()
    );
}

#[test]
fn fixed_response_carries_body_verbatim() {
    let response = render_fixed_response(b"abc\r\ndef");
    assert_eq!(
        response,
        b"HTTP/1.1 200 OK\r\nContent-Length: 8\r\n\r\nabc\r\ndef\r\n".to_vec()
    );
}

#[test]
fn error_response_is_framed_like_a_body() {
    let response = render_error_response(HttpError::NotFound);
    assert_eq!(
        response,
        b"HTTP/1.1 404 Not Found\r\nContent-Length: 9\r\n\r\nnot_found\r\n".to_vec()
    );
}

#[test]
fn utf8_checker_matches_std() {
    let cases: Vec<Vec<u8>> = vec![
        b"plain ascii".to_vec(),
        "héllo wörld".as_bytes().to_vec(),
        "\u{10348}".as_bytes().to_vec(),
        vec![0xff],
        vec![0xc0, 0x80],             // overlong
        vec![0xed, 0xa0, 0x80],       // surrogate
        vec![0xf4, 0x90, 0x80, 0x80], // beyond the last code point
        vec![0xe2, 0x82],             // truncated
        Vec::new(),
    ];
    for case in cases {
        assert_eq!(
            check_utf8(&case),
            std::str::from_utf8(&case).is_ok(),
            "disagreed on {:?}",
            case
        );
    }
}

#[test]
fn split_bytes_matches_str_split() {
    let parts = split_bytes(b"a: b: c", b": ");
    assert_eq!(parts, vec![b"a".to_vec(), b"b".to_vec(), b"c".to_vec()]);
    let parts = split_bytes(b"\r\n\r\n", b"\r\n");
    assert_eq!(parts, vec![Vec::new(), Vec::new(), Vec::new()]);
    let parts = split_bytes(b"aaa", b"aa");
    assert_eq!(parts, vec![b"".to_vec(), b"a".to_vec()]);
    assert!(bytes_eq(b"same", b"same"));
    assert!(!bytes_eq(b"same", b"sane"));
}
