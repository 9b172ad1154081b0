use vstd::prelude::*;

use crate::bytes::{split_seq, split_bytes, views, bytes_eq, lemma_split_from_len};
use crate::errors::HttpError;
use crate::utf8::{is_utf8, check_utf8};

verus! {

/// The line separator `\r\n`.
pub open spec fn crlf() -> Seq<u8> {
    seq![13u8, 10u8]
}

/// The request-line separator, a single space.
pub open spec fn sp() -> Seq<u8> {
    seq![32u8]
}

/// The header-line separator `": "`.
pub open spec fn colon_sp() -> Seq<u8> {
    seq![58u8, 32u8]
}

/// The protocol token `HTTP/1.1`.
pub open spec fn http11() -> Seq<u8> {
    seq![
        'H' as u8, 'T' as u8, 'T' as u8, 'P' as u8, '/' as u8,
        '1' as u8, '.' as u8, '1' as u8,
    ]
}

pub fn http11_vec() -> (r: Vec<u8>)
    ensures
        r@ == http11(),
{
    vec![
        'H' as u8, 'T' as u8, 'T' as u8, 'P' as u8, '/' as u8,
        '1' as u8, '.' as u8, '1' as u8,
    ]
}

/// The header name `Transfer-Encoding`.
pub open spec fn transfer_encoding() -> Seq<u8> {
    seq![
        'T' as u8, 'r' as u8, 'a' as u8, 'n' as u8, 's' as u8, 'f' as u8,
        'e' as u8, 'r' as u8, '-' as u8, 'E' as u8, 'n' as u8, 'c' as u8,
        'o' as u8, 'd' as u8, 'i' as u8, 'n' as u8, 'g' as u8,
    ]
}

pub fn transfer_encoding_vec() -> (r: Vec<u8>)
    ensures
        r@ == transfer_encoding(),
{
    vec![
        'T' as u8, 'r' as u8, 'a' as u8, 'n' as u8, 's' as u8, 'f' as u8,
        'e' as u8, 'r' as u8, '-' as u8, 'E' as u8, 'n' as u8, 'c' as u8,
        'o' as u8, 'd' as u8, 'i' as u8, 'n' as u8, 'g' as u8,
    ]
}

/// The header value `chunked`.
pub open spec fn chunked_tok() -> Seq<u8> {
    seq![
        'c' as u8, 'h' as u8, 'u' as u8, 'n' as u8, 'k' as u8, 'e' as u8,
        'd' as u8,
    ]
}

pub fn chunked_vec() -> (r: Vec<u8>)
    ensures
        r@ == chunked_tok(),
{
    vec![
        'c' as u8, 'h' as u8, 'u' as u8, 'n' as u8, 'k' as u8, 'e' as u8,
        'd' as u8,
    ]
}

/// What a parsed request holds, as byte strings.
pub ghost struct HeaderModel {
    pub protocol: Seq<u8>,
    pub method: Seq<u8>,
    pub path: Seq<u8>,
    pub headers: Seq<(Seq<u8>, Seq<u8>)>,
}

/// A parsed request: the request line's three tokens, and one pair per
/// header line, in the order the lines stand in the block.
pub struct HttpHeaderStruct {
    pub protocol: Vec<u8>,
    pub method: Vec<u8>,
    pub path: Vec<u8>,
    pub headers: Vec<(Vec<u8>, Vec<u8>)>,
}

/// The byte strings a vector of header pairs holds.
pub open spec fn pairs_views(v: Seq<(Vec<u8>, Vec<u8>)>) -> Seq<(Seq<u8>, Seq<u8>)> {
    v.map_values(|p: (Vec<u8>, Vec<u8>)| (p.0@, p.1@))
}

impl View for HttpHeaderStruct {
    type V = HeaderModel;

    open spec fn view(&self) -> HeaderModel {
        HeaderModel {
            protocol: self.protocol@,
            method: self.method@,
            path: self.path@,
            headers: pairs_views(self.headers@),
        }
    }
}

/// The header pairs among `lines`: each line that `": "` cuts into
/// exactly two pieces yields the pair, in line order.
pub open spec fn header_pairs(lines: Seq<Seq<u8>>) -> Seq<(Seq<u8>, Seq<u8>)>
    decreases lines.len(),
{
    if lines.len() == 0 {
        Seq::empty()
    } else {
        let rest = header_pairs(lines.drop_last());
        let parts = split_seq(lines.last(), colon_sp());
        if parts.len() == 2 {
            rest + seq![(parts[0], parts[1])]
        } else {
            rest
        }
    }
}

/// The value of the last pair named `key`: what a last-write-wins
/// header map holds under `key`.
pub open spec fn header_value_spec(pairs: Seq<(Seq<u8>, Seq<u8>)>, key: Seq<u8>) -> Option<Seq<u8>>
    decreases pairs.len(),
{
    if pairs.len() == 0 {
        None
    } else if pairs.last().0 == key {
        Some(pairs.last().1)
    } else {
        header_value_spec(pairs.drop_last(), key)
    }
}

/// The request selects chunked framing: its `Transfer-Encoding`
/// header equals `chunked`.
pub open spec fn chunked_requested(m: HeaderModel) -> bool {
    header_value_spec(m.headers, transfer_encoding()) == Some(chunked_tok())
}

/// What parsing a request buffer yields: the buffer must decode as
/// text, its first line must hold exactly three space-separated
/// tokens, and the third must be `HTTP/1.1`.
pub open spec fn parse_spec(buf: Seq<u8>) -> Result<HeaderModel, HttpError> {
    if !is_utf8(buf) {
        Err(HttpError::BadDecode)
    } else {
        let lines = split_seq(buf, crlf());
        let toks = split_seq(lines[0], sp());
        if toks.len() != 3 {
            Err(HttpError::BadHeader)
        } else if toks[2] != http11() {
            Err(HttpError::BadProtocol)
        } else {
            Ok(
                HeaderModel {
                    protocol: toks[2],
                    method: toks[0],
                    path: toks[1],
                    headers: header_pairs(lines),
                },
            )
        }
    }
}

/// Parses a raw request buffer into the structured request, or the
/// parse error the buffer earns.
pub fn parse_headers(buffer: &[u8]) -> (r: Result<HttpHeaderStruct, HttpError>)
    ensures
        match r {
            Ok(h) => parse_spec(buffer@) == Ok::<HeaderModel, HttpError>(h@),
            Err(e) => parse_spec(buffer@) == Err::<HeaderModel, HttpError>(e),
        },
{
    if !check_utf8(buffer) {
        return Err(HttpError::BadDecode);
    }
    let crlf_v: Vec<u8> = vec![13u8, 10u8];
    proof {
        assert(crlf_v@ =~= crlf());
    }
    let lines: Vec<Vec<u8>> = split_bytes(buffer, crlf_v.as_slice());
    proof {
        lemma_split_from_len(buffer@, crlf(), 0);
        assert(lines@.len() == views(lines@).len());
    }
    let sp_v: Vec<u8> = vec![32u8];
    proof {
        assert(sp_v@ =~= sp());
    }
    let mut toks: Vec<Vec<u8>> = split_bytes(lines[0].as_slice(), sp_v.as_slice());
    proof {
        assert(views(lines@)[0] == lines@[0]@);
        assert(toks@.len() == views(toks@).len());
    }
    if toks.len() != 3 {
        return Err(HttpError::BadHeader);
    }
    let http11_v = http11_vec();
    proof {
        assert(views(toks@)[2] == toks@[2]@);
    }
    if !bytes_eq(toks[2].as_slice(), http11_v.as_slice()) {
        return Err(HttpError::BadProtocol);
    }
    let colon_v: Vec<u8> = vec![58u8, 32u8];
    proof {
        assert(colon_v@ =~= colon_sp());
    }
    let mut headers: Vec<(Vec<u8>, Vec<u8>)> = Vec::new();
    let mut k: usize = 0;
    while k < lines.len()
        invariant
            k <= lines@.len(),
            views(lines@) == split_seq(buffer@, crlf()),
            colon_v@ == colon_sp(),
            pairs_views(headers@) == header_pairs(views(lines@).take(k as int)),
        decreases lines@.len() - k,
    {
        let ghost old_headers = headers@;
        let mut parts: Vec<Vec<u8>> = split_bytes(lines[k].as_slice(), colon_v.as_slice());
        proof {
            assert(views(lines@)[k as int] == lines@[k as int]@);
            assert(parts@.len() == views(parts@).len());
            assert(views(lines@).take(k + 1).drop_last() =~~= views(lines@).take(k as int));
            assert(views(lines@).take(k + 1).last() == views(lines@)[k as int]);
        }
        if parts.len() == 2 {
            let v = parts.pop().unwrap();
            let nm = parts.pop().unwrap();
            headers.push((nm, v));
            proof {
                let lparts = split_seq(views(lines@)[k as int], colon_sp());
                assert(nm@ == lparts[0] && v@ == lparts[1]);
                assert(pairs_views(headers@) =~~= pairs_views(old_headers) + seq![(nm@, v@)]);
                assert(pairs_views(headers@) =~~= header_pairs(views(lines@).take(k + 1)));
            }
        } else {
            proof {
                assert(pairs_views(headers@) =~~= header_pairs(views(lines@).take(k + 1)));
            }
        }
        k += 1;
    }
    proof {
        assert(views(lines@).take(lines@.len() as int) =~= views(lines@));
    }
    let ghost toks0 = toks@;
    let protocol = toks.pop().unwrap();
    let path = toks.pop().unwrap();
    let method = toks.pop().unwrap();
    let h = HttpHeaderStruct { protocol, method, path, headers };
    proof {
        let lines_s = split_seq(buffer@, crlf());
        let toks_s = split_seq(lines_s[0], sp());
        assert(toks0.len() == 3);
        assert(lines_s[0] == lines@[0]@);
        assert(views(toks0) == split_seq(lines@[0]@, sp()));
        assert(protocol@ == toks0[2]@ && path@ == toks0[1]@ && method@ == toks0[0]@);
        assert(views(toks0)[0] == toks0[0]@);
        assert(views(toks0)[1] == toks0[1]@);
        assert(views(toks0)[2] == toks0[2]@);
        assert(h@.method == toks_s[0] && h@.path == toks_s[1] && h@.protocol == toks_s[2]);
        assert(h@.headers == header_pairs(lines_s));
    }
    Ok(h)
}

/// Looks a header name up, last occurrence winning, as a map filled by
/// overwriting inserts would answer.
pub fn header_value<'a>(h: &'a HttpHeaderStruct, name: &[u8]) -> (r: Option<&'a Vec<u8>>)
    ensures
        match r {
            Some(v) => header_value_spec(h@.headers, name@) == Some(v@),
            None => header_value_spec(h@.headers, name@) == None::<Seq<u8>>,
        },
{
    let mut j: usize = h.headers.len();
    proof {
        assert(h@.headers.take(h.headers@.len() as int) =~~= h@.headers);
    }
    while j > 0
        invariant
            j <= h.headers@.len(),
            header_value_spec(h@.headers, name@) == header_value_spec(
                h@.headers.take(j as int),
                name@,
            ),
        decreases j,
    {
        j -= 1;
        proof {
            assert(h@.headers.take(j + 1).drop_last() =~~= h@.headers.take(j as int));
            assert(h@.headers.take(j + 1).last() == h@.headers[j as int]);
            assert(h@.headers[j as int] == (h.headers@[j as int].0@, h.headers@[j as int].1@));
        }
        if bytes_eq(h.headers[j].0.as_slice(), name) {
            return Some(&h.headers[j].1);
        }
    }
    None
}

/// Does the request ask for a chunked-framed response?
pub fn is_chunked(h: &HttpHeaderStruct) -> (r: bool)
    ensures
        r == chunked_requested(h@),
{
    let te = transfer_encoding_vec();
    match header_value(h, te.as_slice()) {
        Some(v) => {
            let c = chunked_vec();
            bytes_eq(v.as_slice(), c.as_slice())
        },
        None => false,
    }
}

} // verus!
