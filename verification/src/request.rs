use vstd::prelude::*;

use crate::bytes::{split_seq, split_bytes, views, bytes_eq, is_sep_at, starts_with};
use crate::errors::HttpError;
use crate::headers::{HttpHeaderStruct, HeaderModel};

verus! {

/// The method token `GET`.
pub open spec fn method_get() -> Seq<u8> {
    seq!['G' as u8, 'E' as u8, 'T' as u8]
}

pub fn method_get_vec() -> (r: Vec<u8>)
    ensures
        r@ == method_get(),
{
    vec!['G' as u8, 'E' as u8, 'T' as u8]
}

/// The routing prefix `/download/`.
pub open spec fn download_prefix() -> Seq<u8> {
    seq![
        '/' as u8, 'd' as u8, 'o' as u8, 'w' as u8, 'n' as u8, 'l' as u8,
        'o' as u8, 'a' as u8, 'd' as u8, '/' as u8,
    ]
}

pub fn download_prefix_vec() -> (r: Vec<u8>)
    ensures
        r@ == download_prefix(),
{
    vec![
        '/' as u8, 'd' as u8, 'o' as u8, 'w' as u8, 'n' as u8, 'l' as u8,
        'o' as u8, 'a' as u8, 'd' as u8, '/' as u8,
    ]
}

/// The parent-directory marker `..`.
pub open spec fn dotdot() -> Seq<u8> {
    seq!['.' as u8, '.' as u8]
}

/// The path-component separator `/`.
pub open spec fn slash() -> Seq<u8> {
    seq!['/' as u8]
}

/// Some slash-separated component of `rel` is the parent-directory
/// marker: the one traversal this server refuses.
pub open spec fn has_parent_component(rel: Seq<u8>) -> bool {
    exists|i: int|
        0 <= i < split_seq(rel, slash()).len() && split_seq(rel, slash())[i] == dotdot()
}

/// What resolving a request yields: the method must be `GET`, the path
/// must begin with `/download/`, and the part after the first
/// occurrence of that prefix, the relative path to serve, must hold no
/// parent-directory component.
pub open spec fn resolve_spec(m: HeaderModel) -> Result<Seq<u8>, HttpError> {
    if m.method != method_get() {
        Err(HttpError::BadMethod)
    } else if !starts_with(m.path, download_prefix()) {
        Err(HttpError::BadPath)
    } else {
        let parts = split_seq(m.path, download_prefix());
        if parts.len() < 2 {
            Err(HttpError::BadPath)
        } else if has_parent_component(parts[1]) {
            Err(HttpError::BadPath)
        } else {
            Ok(parts[1])
        }
    }
}

/// Decides whether a parsed request is servable, and hands back the
/// relative path under the root that is to be opened.
pub fn handle_request(h: &HttpHeaderStruct) -> (r: Result<Vec<u8>, HttpError>)
    ensures
        match r {
            Ok(rel) => resolve_spec(h@) == Ok::<Seq<u8>, HttpError>(rel@),
            Err(e) => resolve_spec(h@) == Err::<Seq<u8>, HttpError>(e),
        },
{
    let get_v = method_get_vec();
    if !bytes_eq(h.method.as_slice(), get_v.as_slice()) {
        return Err(HttpError::BadMethod);
    }
    let prefix_v = download_prefix_vec();
    if !is_sep_at(h.path.as_slice(), 0, prefix_v.as_slice()) {
        return Err(HttpError::BadPath);
    }
    let mut parts: Vec<Vec<u8>> = split_bytes(h.path.as_slice(), prefix_v.as_slice());
    proof {
        assert(parts@.len() == views(parts@).len());
    }
    if parts.len() < 2 {
        return Err(HttpError::BadPath);
    }
    proof {
        assert(views(parts@)[1] == parts@[1]@);
    }
    let rel = parts.swap_remove(1);
    let ghost rel_s = split_seq(h@.path, download_prefix())[1];
    proof {
        assert(rel@ == rel_s);
    }
    let slash_v: Vec<u8> = vec!['/' as u8];
    proof {
        assert(slash_v@ =~= slash());
    }
    let comps: Vec<Vec<u8>> = split_bytes(rel.as_slice(), slash_v.as_slice());
    let dd: Vec<u8> = vec!['.' as u8, '.' as u8];
    proof {
        assert(dd@ =~= dotdot());
        assert(comps@.len() == views(comps@).len());
    }
    let mut k: usize = 0;
    while k < comps.len()
        invariant
            k <= comps@.len(),
            views(comps@) == split_seq(rel_s, slash()),
            dd@ == dotdot(),
            rel@ == rel_s,
            h@.method == method_get(),
            starts_with(h@.path, download_prefix()),
            split_seq(h@.path, download_prefix()).len() >= 2,
            rel_s == split_seq(h@.path, download_prefix())[1],
            forall|i: int| 0 <= i < k ==> views(comps@)[i] != dotdot(),
        decreases comps@.len() - k,
    {
        proof {
            assert(views(comps@)[k as int] == comps@[k as int]@);
        }
        if bytes_eq(comps[k].as_slice(), dd.as_slice()) {
            proof {
                assert(split_seq(rel_s, slash())[k as int] == dotdot());
            }
            return Err(HttpError::BadPath);
        }
        k += 1;
    }
    proof {
        assert(!has_parent_component(rel_s)) by {
            if has_parent_component(rel_s) {
                let i = choose|i: int|
                    0 <= i < split_seq(rel_s, slash()).len() && split_seq(rel_s, slash())[i]
                        == dotdot();
                assert(views(comps@)[i] != dotdot());
            }
        }
    }
    Ok(rel)
}

} // verus!
