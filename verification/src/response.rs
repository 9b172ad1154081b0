use vstd::prelude::*;

use crate::bytes::{append_bytes, views};
use crate::errors::{HttpError, spec_status_of, spec_token_of, status_of, token_of};
use crate::headers::{crlf, sp, colon_sp, http11, http11_vec, transfer_encoding,
    transfer_encoding_vec, chunked_tok, chunked_vec};

verus! {

/// A decimal digit.
pub open spec fn digit(b: u8) -> bool {
    48 <= b <= 57
}

/// The decimal digits of `n`, most significant first.
pub open spec fn dec_rep(n: nat) -> Seq<u8>
    decreases n,
{
    if n < 10 {
        seq![(48 + n) as u8]
    } else {
        dec_rep(n / 10).push((48 + n % 10) as u8)
    }
}

/// The number a run of decimal digits denotes.
pub open spec fn dec_val(digits: Seq<u8>) -> int
    decreases digits.len(),
{
    if digits.len() == 0 {
        0
    } else {
        dec_val(digits.drop_last()) * 10 + (digits.last() as int) - 48
    }
}

/// Writes `n` in decimal.
pub fn u64_dec(n: u64) -> (r: Vec<u8>)
    ensures
        r@ == dec_rep(n as nat),
    decreases n,
{
    if n < 10 {
        let d: u8 = 48 + (n as u8);
        vec![d]
    } else {
        let mut r = u64_dec(n / 10);
        let d: u8 = 48 + ((n % 10) as u8);
        r.push(d);
        r
    }
}

/// Decimal representations hold digits only, at least one.
pub proof fn lemma_dec_rep_digits(n: nat)
    ensures
        dec_rep(n).len() >= 1,
        forall|i: int| 0 <= i < dec_rep(n).len() ==> digit(#[trigger] dec_rep(n)[i]),
    decreases n,
{
    if n < 10 {
    } else {
        lemma_dec_rep_digits(n / 10);
        assert forall|i: int| 0 <= i < dec_rep(n).len() implies digit(#[trigger] dec_rep(n)[i]) by {
            if i < dec_rep(n / 10).len() {
                assert(dec_rep(n)[i] == dec_rep(n / 10)[i]);
            }
        }
    }
}

/// Reading the decimal digits of `n` back gives `n`.
pub proof fn lemma_dec_val_rep(n: nat)
    ensures
        dec_val(dec_rep(n)) == n,
    decreases n,
{
    assert(dec_val(Seq::<u8>::empty()) == 0);
    if n < 10 {
        assert(dec_rep(n).drop_last() =~= Seq::<u8>::empty());
        assert(dec_rep(n).last() == (48 + n) as u8);
    } else {
        lemma_dec_val_rep(n / 10);
        assert(dec_rep(n).drop_last() =~= dec_rep(n / 10));
    }
}

/// The status codes this server produces, and their reason phrases.
pub open spec fn valid_status(c: int) -> bool {
    c == 200 || c == 400 || c == 404 || c == 500 || c == 501
}

/// The reason phrase of each status code the server produces.
pub open spec fn reason_of(c: int) -> Seq<u8> {
    if c == 200 {
        seq!['O' as u8, 'K' as u8]
    } else if c == 400 {
        seq![
            'B' as u8, 'a' as u8, 'd' as u8, ' ' as u8,
            'R' as u8, 'e' as u8, 'q' as u8, 'u' as u8, 'e' as u8, 's' as u8,
            't' as u8,
        ]
    } else if c == 404 {
        seq![
            'N' as u8, 'o' as u8, 't' as u8, ' ' as u8,
            'F' as u8, 'o' as u8, 'u' as u8, 'n' as u8, 'd' as u8,
        ]
    } else if c == 500 {
        seq![
            'I' as u8, 'n' as u8, 't' as u8, 'e' as u8, 'r' as u8, 'n' as u8,
            'a' as u8, 'l' as u8, ' ' as u8,
            'S' as u8, 'e' as u8, 'r' as u8, 'v' as u8, 'e' as u8, 'r' as u8,
            ' ' as u8,
            'E' as u8, 'r' as u8, 'r' as u8, 'o' as u8, 'r' as u8,
        ]
    } else if c == 501 {
        seq![
            'N' as u8, 'o' as u8, 't' as u8, ' ' as u8,
            'I' as u8, 'm' as u8, 'p' as u8, 'l' as u8, 'e' as u8, 'm' as u8,
            'e' as u8, 'n' as u8, 't' as u8, 'e' as u8, 'd' as u8,
        ]
    } else {
        Seq::empty()
    }
}

fn reason_vec(c: u16) -> (r: Vec<u8>)
    requires
        valid_status(c as int),
    ensures
        r@ == reason_of(c as int),
{
    if c == 200 {
        vec!['O' as u8, 'K' as u8]
    } else if c == 400 {
        vec![
            'B' as u8, 'a' as u8, 'd' as u8, ' ' as u8,
            'R' as u8, 'e' as u8, 'q' as u8, 'u' as u8, 'e' as u8, 's' as u8,
            't' as u8,
        ]
    } else if c == 404 {
        vec![
            'N' as u8, 'o' as u8, 't' as u8, ' ' as u8,
            'F' as u8, 'o' as u8, 'u' as u8, 'n' as u8, 'd' as u8,
        ]
    } else if c == 500 {
        vec![
            'I' as u8, 'n' as u8, 't' as u8, 'e' as u8, 'r' as u8, 'n' as u8,
            'a' as u8, 'l' as u8, ' ' as u8,
            'S' as u8, 'e' as u8, 'r' as u8, 'v' as u8, 'e' as u8, 'r' as u8,
            ' ' as u8,
            'E' as u8, 'r' as u8, 'r' as u8, 'o' as u8, 'r' as u8,
        ]
    } else {
        vec![
            'N' as u8, 'o' as u8, 't' as u8, ' ' as u8,
            'I' as u8, 'm' as u8, 'p' as u8, 'l' as u8, 'e' as u8, 'm' as u8,
            'e' as u8, 'n' as u8, 't' as u8, 'e' as u8, 'd' as u8,
        ]
    }
}

/// The status line `HTTP/1.1 <code> <reason>\r\n`.
pub open spec fn status_line_spec(c: int) -> Seq<u8> {
    http11() + sp() + dec_rep(c as nat) + sp() + reason_of(c) + crlf()
}

/// Writes the status line for `code`.
pub fn status_line(code: u16) -> (r: Vec<u8>)
    requires
        valid_status(code as int),
    ensures
        r@ == status_line_spec(code as int),
{
    let mut r = http11_vec();
    r.push(32);
    let d = u64_dec(code as u64);
    append_bytes(&mut r, d.as_slice());
    r.push(32);
    let reason = reason_vec(code);
    append_bytes(&mut r, reason.as_slice());
    r.push(13);
    r.push(10);
    proof {
        assert(r@ =~= status_line_spec(code as int));
    }
    r
}

/// The header name token `Content-Length`, with its separator.
pub open spec fn content_length_tok() -> Seq<u8> {
    seq![
        'C' as u8, 'o' as u8, 'n' as u8, 't' as u8, 'e' as u8, 'n' as u8,
        't' as u8, '-' as u8, 'L' as u8, 'e' as u8, 'n' as u8, 'g' as u8,
        't' as u8, 'h' as u8, ':' as u8, ' ' as u8,
    ]
}

fn content_length_tok_vec() -> (r: Vec<u8>)
    ensures
        r@ == content_length_tok(),
{
    vec![
        'C' as u8, 'o' as u8, 'n' as u8, 't' as u8, 'e' as u8, 'n' as u8,
        't' as u8, '-' as u8, 'L' as u8, 'e' as u8, 'n' as u8, 'g' as u8,
        't' as u8, 'h' as u8, ':' as u8, ' ' as u8,
    ]
}

/// The fixed-length framing `Content-Length: <n>\r\n\r\n`.
pub open spec fn content_length_framing_spec(n: nat) -> Seq<u8> {
    content_length_tok() + dec_rep(n) + crlf() + crlf()
}

/// Writes the fixed-length framing for a body of `n` bytes.
pub fn content_length_framing(n: u64) -> (r: Vec<u8>)
    ensures
        r@ == content_length_framing_spec(n as nat),
{
    let mut r = content_length_tok_vec();
    let d = u64_dec(n);
    append_bytes(&mut r, d.as_slice());
    r.push(13);
    r.push(10);
    r.push(13);
    r.push(10);
    proof {
        assert(r@ =~= content_length_framing_spec(n as nat));
    }
    r
}

/// The chunked framing `Transfer-Encoding: chunked\r\n\r\n`.
pub open spec fn chunked_framing_spec() -> Seq<u8> {
    transfer_encoding() + colon_sp() + chunked_tok() + crlf() + crlf()
}

/// Writes the chunked framing.
pub fn chunked_framing() -> (r: Vec<u8>)
    ensures
        r@ == chunked_framing_spec(),
{
    let mut r = transfer_encoding_vec();
    r.push(58);
    r.push(32);
    let c = chunked_vec();
    append_bytes(&mut r, c.as_slice());
    r.push(13);
    r.push(10);
    r.push(13);
    r.push(10);
    proof {
        assert(r@ =~= chunked_framing_spec());
    }
    r
}

/// One chunk of a chunked body: `<len>\r\n<data>\r\n`, the length in
/// decimal, counted in raw bytes.
pub open spec fn chunk_spec(data: Seq<u8>) -> Seq<u8> {
    dec_rep(data.len()) + crlf() + data + crlf()
}

/// Encodes one block of a chunked body.
pub fn encode_chunk(data: &[u8]) -> (r: Vec<u8>)
    ensures
        r@ == chunk_spec(data@),
{
    let mut r = u64_dec(data.len() as u64);
    r.push(13);
    r.push(10);
    append_bytes(&mut r, data);
    r.push(13);
    r.push(10);
    proof {
        assert(r@ =~= chunk_spec(data@));
    }
    r
}

/// Writes the final, empty chunk `0\r\n\r\n`.
pub fn final_chunk() -> (r: Vec<u8>)
    ensures
        r@ == chunk_spec(Seq::<u8>::empty()),
{
    let r: Vec<u8> = vec![48u8, 13, 10, 13, 10];
    proof {
        assert(r@ =~= chunk_spec(Seq::<u8>::empty()));
    }
    r
}

/// The chunks of the blocks in order, concatenated, without the final
/// chunk.
pub open spec fn chunks_concat(blocks: Seq<Seq<u8>>) -> Seq<u8>
    decreases blocks.len(),
{
    if blocks.len() == 0 {
        Seq::empty()
    } else {
        chunks_concat(blocks.drop_last()) + chunk_spec(blocks.last())
    }
}

/// A whole chunked body: every block as a chunk, then the final chunk.
pub open spec fn chunked_body_spec(blocks: Seq<Seq<u8>>) -> Seq<u8> {
    chunks_concat(blocks) + chunk_spec(Seq::<u8>::empty())
}

/// Peeling the first chunk off a concatenation of chunks.
pub proof fn lemma_chunks_concat_first(blocks: Seq<Seq<u8>>)
    requires
        blocks.len() >= 1,
    ensures
        chunks_concat(blocks) == chunk_spec(blocks.first()) + chunks_concat(blocks.drop_first()),
    decreases blocks.len(),
{
    if blocks.len() == 1 {
        assert(blocks.drop_last() =~~= Seq::<Seq<u8>>::empty());
        assert(blocks.drop_first() =~~= Seq::<Seq<u8>>::empty());
        assert(chunks_concat(blocks) =~= chunk_spec(blocks.first()) + chunks_concat(
            blocks.drop_first(),
        ));
    } else {
        lemma_chunks_concat_first(blocks.drop_last());
        assert(blocks.drop_last().first() == blocks.first());
        assert(blocks.drop_first().drop_last() =~~= blocks.drop_last().drop_first());
        assert(blocks.drop_first().last() == blocks.last());
        assert(chunks_concat(blocks.drop_first()) == chunks_concat(blocks.drop_first().drop_last())
            + chunk_spec(blocks.drop_first().last()));
        assert(chunks_concat(blocks) =~= chunk_spec(blocks.first()) + chunks_concat(
            blocks.drop_first(),
        ));
    }
}

/// The run of decimal digits at position `i` of `w`.
pub open spec fn digit_run(w: Seq<u8>, i: int) -> int
    decreases w.len() - i
        when 0 <= i <= w.len()
{
    if i < w.len() && digit(w[i]) {
        1 + digit_run(w, i + 1)
    } else {
        0
    }
}

/// What reading a chunked body back yields: the concatenated chunk
/// payloads, or nothing where the framing is malformed or unterminated.
pub open spec fn decode_chunks(wire: Seq<u8>) -> Option<Seq<u8>>
    decreases wire.len(),
{
    let d = digit_run(wire, 0);
    if d <= 0 {
        None
    } else {
        let n = dec_val(wire.subrange(0, d));
        if !(d + 2 <= wire.len() && wire[d] == 13 && wire[d + 1] == 10) {
            None
        } else if n == 0 {
            if wire.len() == d + 4 && wire[d + 2] == 13 && wire[d + 3] == 10 {
                Some(Seq::empty())
            } else {
                None
            }
        } else if n >= 1 && d + 2 + n + 2 <= wire.len() && wire[d + 2 + n] == 13 && wire[d + 2 + n
            + 1] == 10 {
            match decode_chunks(wire.skip(d + 2 + n + 2)) {
                Some(t) => Some(wire.subrange(d + 2, d + 2 + n) + t),
                None => None,
            }
        } else {
            None
        }
    }
}

/// A run of digits followed by a non-digit reads back as itself.
proof fn lemma_digit_run_prefix(w: Seq<u8>, i: int, digits: Seq<u8>)
    requires
        0 <= i,
        i + digits.len() <= w.len(),
        w.subrange(i, i + digits.len()) == digits,
        forall|j: int| 0 <= j < digits.len() ==> digit(#[trigger] digits[j]),
        i + digits.len() == w.len() || !digit(w[i + digits.len()]),
    ensures
        digit_run(w, i) == digits.len(),
    decreases digits.len(),
{
    if digits.len() == 0 {
    } else {
        assert(w[i] == digits[0]);
        assert(digit(w[i]));
        assert(w.subrange(i + 1, i + digits.len()) =~= digits.drop_first());
        assert forall|j: int| 0 <= j < digits.drop_first().len() implies digit(
            #[trigger] digits.drop_first()[j],
        ) by {
            assert(digits.drop_first()[j] == digits[j + 1]);
        }
        lemma_digit_run_prefix(w, i + 1, digits.drop_first());
    }
}

/// Decoding a chunked body gives back exactly the concatenation of the
/// blocks that were encoded: the framing loses nothing and adds
/// nothing, whatever blocks the file was read in.
#[verifier::rlimit(100)]
pub proof fn lemma_chunked_round_trip(blocks: Seq<Seq<u8>>)
    requires
        forall|k: int| 0 <= k < blocks.len() ==> (#[trigger] blocks[k]).len() > 0,
    ensures
        decode_chunks(chunked_body_spec(blocks)) == Some(blocks.flatten()),
    decreases blocks.len(),
{
    let wire = chunked_body_spec(blocks);
    if blocks.len() == 0 {
        assert(chunks_concat(blocks) =~= Seq::<u8>::empty());
        assert(wire =~= seq![48u8, 13u8, 10u8, 13u8, 10u8]);
        assert(digit_run(wire, 1) == 0);
        assert(digit_run(wire, 0) == 1);
        assert(wire.subrange(0, 1) =~= seq![48u8]);
        assert(dec_val(seq![48u8]) == 0) by {
            assert(seq![48u8].drop_last() =~= Seq::<u8>::empty());
            assert(dec_val(Seq::<u8>::empty()) == 0);
        }
        assert(decode_chunks(wire) == Some(Seq::<u8>::empty()));
        assert(blocks.flatten() =~= Seq::<u8>::empty());
    } else {
        let b0 = blocks.first();
        let rest = chunked_body_spec(blocks.drop_first());
        let n0 = b0.len() as int;
        let digits = dec_rep(b0.len());
        let d = digits.len() as int;
        lemma_chunks_concat_first(blocks);
        assert(wire =~= digits + crlf() + b0 + crlf() + rest);
        lemma_dec_rep_digits(b0.len());
        lemma_dec_val_rep(b0.len());
        assert(wire.subrange(0, d) =~= digits);
        assert(wire[d] == 13) by {
            assert(wire[d] == (digits + crlf() + b0 + crlf() + rest)[d]);
        }
        assert(!digit(wire[d]));
        lemma_digit_run_prefix(wire, 0, digits);
        assert(digit_run(wire, 0) == d);
        assert(dec_val(wire.subrange(0, d)) == n0);
        assert(wire[d + 1] == 10);
        assert(n0 >= 1);
        assert(wire.len() == d + 2 + n0 + 2 + rest.len());
        assert(rest.len() >= 5) by {
            lemma_dec_rep_digits(0);
            assert(chunk_spec(Seq::<u8>::empty()).len() >= 5);
        }
        assert(wire[d + 2 + n0] == 13);
        assert(wire[d + 2 + n0 + 1] == 10);
        assert(wire.skip(d + 2 + n0 + 2) =~= rest);
        lemma_chunked_round_trip(blocks.drop_first());
        assert(wire.subrange(d + 2, d + 2 + n0) =~= b0);
        assert(decode_chunks(wire) == Some(b0 + blocks.drop_first().flatten()));
        assert(blocks.flatten() == b0 + blocks.drop_first().flatten());
    }
}

/// A full error response: status line, fixed-length framing sized to
/// the error token, the token as the body, and the trailing blank line.
pub open spec fn error_response_spec(e: HttpError) -> Seq<u8> {
    status_line_spec(spec_status_of(e)) + content_length_framing_spec(spec_token_of(e).len())
        + spec_token_of(e) + crlf()
}

/// Writes the whole response for a refused request.
pub fn render_error_response(e: HttpError) -> (r: Vec<u8>)
    ensures
        r@ == error_response_spec(e),
{
    let code = status_of(e);
    let mut r = status_line(code);
    let tok = token_of(e);
    let framing = content_length_framing(tok.len() as u64);
    append_bytes(&mut r, framing.as_slice());
    append_bytes(&mut r, tok.as_slice());
    r.push(13);
    r.push(10);
    proof {
        assert(r@ =~= error_response_spec(e));
    }
    r
}

/// A full success response with fixed-length framing: status line 200,
/// `Content-Length` equal to the body's byte count, the body verbatim,
/// and the trailing blank line.
pub open spec fn fixed_response_spec(content: Seq<u8>) -> Seq<u8> {
    status_line_spec(200) + content_length_framing_spec(content.len()) + content + crlf()
}

/// Writes the whole fixed-length response for a served file.
pub fn render_fixed_response(content: &[u8]) -> (r: Vec<u8>)
    ensures
        r@ == fixed_response_spec(content@),
{
    let mut r = status_line(200);
    let framing = content_length_framing(content.len() as u64);
    append_bytes(&mut r, framing.as_slice());
    append_bytes(&mut r, content);
    r.push(13);
    r.push(10);
    proof {
        assert(r@ =~= fixed_response_spec(content@));
    }
    r
}

/// A full success response with chunked framing: status line 200, the
/// chunked framing, one chunk per block, the final chunk, and the
/// trailing blank line.
pub open spec fn chunked_response_spec(blocks: Seq<Seq<u8>>) -> Seq<u8> {
    status_line_spec(200) + chunked_framing_spec() + chunked_body_spec(blocks) + crlf()
}

/// Writes the whole chunked response for a served file read in blocks.
pub fn render_chunked_response(blocks: &Vec<Vec<u8>>) -> (r: Vec<u8>)
    ensures
        r@ == chunked_response_spec(views(blocks@)),
{
    let mut r = status_line(200);
    let framing = chunked_framing();
    append_bytes(&mut r, framing.as_slice());
    let ghost head = status_line_spec(200) + chunked_framing_spec();
    let mut k: usize = 0;
    while k < blocks.len()
        invariant
            k <= blocks@.len(),
            r@ == head + chunks_concat(views(blocks@).take(k as int)),
        decreases blocks@.len() - k,
    {
        let chunk = encode_chunk(blocks[k].as_slice());
        append_bytes(&mut r, chunk.as_slice());
        proof {
            assert(views(blocks@)[k as int] == blocks@[k as int]@);
            assert(views(blocks@).take(k + 1).drop_last() =~~= views(blocks@).take(k as int));
            assert(views(blocks@).take(k + 1).last() == views(blocks@)[k as int]);
            assert(r@ =~= head + chunks_concat(views(blocks@).take(k + 1)));
        }
        k += 1;
    }
    proof {
        assert(views(blocks@).take(blocks@.len() as int) =~~= views(blocks@));
    }
    let fin = final_chunk();
    append_bytes(&mut r, fin.as_slice());
    r.push(13);
    r.push(10);
    proof {
        assert(r@ =~= chunked_response_spec(views(blocks@)));
    }
    r
}

} // verus!
