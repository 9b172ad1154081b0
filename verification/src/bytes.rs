use vstd::prelude::*;

verus! {

/// `sep` occurs in `s` at position `i`.
pub open spec fn sep_at(s: Seq<u8>, sep: Seq<u8>, i: int) -> bool {
    &&& 0 <= i
    &&& i + sep.len() <= s.len()
    &&& s.subrange(i, i + sep.len()) == sep
}

/// `s` begins with `p`.
pub open spec fn starts_with(s: Seq<u8>, p: Seq<u8>) -> bool {
    sep_at(s, p, 0)
}

/// Puts `b` in front of the first piece of `parts`.
pub open spec fn prepend_first(b: u8, parts: Seq<Seq<u8>>) -> Seq<Seq<u8>> {
    if parts.len() == 0 {
        seq![seq![b]]
    } else {
        parts.update(0, seq![b] + parts[0])
    }
}

/// The pieces of `s` from position `i` on, cut at every occurrence of
/// `sep`, leftmost occurrence first: the splitting that `str::split`
/// performs on text, stated over bytes.
pub open spec fn split_from(s: Seq<u8>, sep: Seq<u8>, i: int) -> Seq<Seq<u8>>
    decreases s.len() - i
        when 0 <= i <= s.len() && sep.len() > 0
{
    if i == s.len() {
        seq![Seq::<u8>::empty()]
    } else if sep_at(s, sep, i) {
        seq![Seq::<u8>::empty()] + split_from(s, sep, i + sep.len())
    } else {
        prepend_first(s[i], split_from(s, sep, i + 1))
    }
}

/// The pieces of `s`, cut at every occurrence of `sep`.
pub open spec fn split_seq(s: Seq<u8>, sep: Seq<u8>) -> Seq<Seq<u8>> {
    split_from(s, sep, 0)
}

/// The byte strings a vector of byte vectors holds.
pub open spec fn views(v: Seq<Vec<u8>>) -> Seq<Seq<u8>> {
    v.map_values(|x: Vec<u8>| x@)
}

/// Splitting yields at least one piece.
pub proof fn lemma_split_from_len(s: Seq<u8>, sep: Seq<u8>, i: int)
    requires
        0 <= i <= s.len(),
        sep.len() > 0,
    ensures
        split_from(s, sep, i).len() >= 1,
    decreases s.len() - i,
{
    if i == s.len() {
    } else if sep_at(s, sep, i) {
    } else {
        lemma_split_from_len(s, sep, i + 1);
    }
}

/// Puts `pre` in front of the first piece of `parts`.
pub open spec fn prepend_seq(pre: Seq<u8>, parts: Seq<Seq<u8>>) -> Seq<Seq<u8>> {
    parts.update(0, pre + parts[0])
}

proof fn lemma_prepend_prepend(pre: Seq<u8>, b: u8, parts: Seq<Seq<u8>>)
    requires
        parts.len() >= 1,
    ensures
        prepend_seq(pre, prepend_first(b, parts)) == prepend_seq(pre + seq![b], parts),
{
    assert(prepend_seq(pre, prepend_first(b, parts)) =~~= prepend_seq(pre + seq![b], parts));
}

/// Compares two byte strings.
pub fn bytes_eq(a: &[u8], b: &[u8]) -> (r: bool)
    ensures
        r == (a@ == b@),
{
    if a.len() != b.len() {
        return false;
    }
    let mut i: usize = 0;
    while i < a.len()
        invariant
            i <= a@.len(),
            a@.len() == b@.len(),
            forall|k: int| 0 <= k < i ==> a@[k] == b@[k],
        decreases a@.len() - i,
    {
        if a[i] != b[i] {
            return false;
        }
        i += 1;
    }
    proof {
        assert(a@ =~= b@);
    }
    true
}

/// Does `sep` occur in `s` at position `i`?
pub fn is_sep_at(s: &[u8], i: usize, sep: &[u8]) -> (r: bool)
    requires
        i <= s@.len(),
    ensures
        r == sep_at(s@, sep@, i as int),
{
    if s.len() - i < sep.len() {
        return false;
    }
    let mut j: usize = 0;
    while j < sep.len()
        invariant
            i + sep@.len() <= s@.len(),
            s@.len() <= usize::MAX,
            j <= sep@.len(),
            forall|k: int| 0 <= k < j ==> s@[i + k] == sep@[k],
        decreases sep@.len() - j,
    {
        assert(i + j < s@.len());
        if s[i + j] != sep[j] {
            proof {
                assert(!sep_at(s@, sep@, i as int)) by {
                    if sep_at(s@, sep@, i as int) {
                        assert(s@.subrange(i as int, i + sep@.len())[j as int] == sep@[j as int]);
                    }
                }
            }
            return false;
        }
        j += 1;
    }
    proof {
        assert(s@.subrange(i as int, i + sep@.len()) =~= sep@);
    }
    true
}

/// Cuts `s` at every occurrence of `sep`, leftmost occurrence first,
/// as `str::split` does on text.
pub fn split_bytes(s: &[u8], sep: &[u8]) -> (r: Vec<Vec<u8>>)
    requires
        sep@.len() > 0,
    ensures
        views(r@) == split_seq(s@, sep@),
{
    let mut parts: Vec<Vec<u8>> = Vec::new();
    let mut cur: Vec<u8> = Vec::new();
    let mut i: usize = 0;
    while i < s.len()
        invariant
            i <= s@.len(),
            sep@.len() > 0,
            split_seq(s@, sep@) =~~= views(parts@) + prepend_seq(cur@, split_from(s@, sep@, i as int)),
        decreases s@.len() - i,
    {
        let ghost old_parts = parts@;
        let ghost old_cur = cur@;
        let ghost old_i = i as int;
        if is_sep_at(s, i, sep) {
            parts.push(cur);
            cur = Vec::new();
            i = i + sep.len();
            proof {
                lemma_split_from_len(s@, sep@, i as int);
                let rest = split_from(s@, sep@, i as int);
                assert(split_from(s@, sep@, old_i) == seq![Seq::<u8>::empty()] + rest);
                assert(prepend_seq(old_cur, seq![Seq::<u8>::empty()] + rest) =~~= seq![old_cur] + rest);
                assert(prepend_seq(cur@, rest) =~~= rest);
                assert(views(parts@) =~~= views(old_parts) + seq![old_cur]);
            }
        } else {
            cur.push(s[i]);
            i = i + 1;
            proof {
                lemma_split_from_len(s@, sep@, i as int);
                lemma_prepend_prepend(old_cur, s@[old_i], split_from(s@, sep@, i as int));
                assert(split_from(s@, sep@, old_i) == prepend_first(s@[old_i], split_from(s@, sep@, i as int)));
                assert(old_cur + seq![s@[old_i]] =~= cur@);
            }
        }
    }
    let ghost last_cur = cur@;
    parts.push(cur);
    proof {
        assert(split_from(s@, sep@, s@.len() as int) == seq![Seq::<u8>::empty()]);
        assert(prepend_seq(last_cur, seq![Seq::<u8>::empty()]) =~~= seq![last_cur]);
        assert(views(parts@) =~~= split_seq(s@, sep@));
    }
    parts
}

/// Appends every byte of `s` to the end of `v`.
pub fn append_bytes(v: &mut Vec<u8>, s: &[u8])
    ensures
        final(v)@ == old(v)@ + s@,
{
    let mut i: usize = 0;
    while i < s.len()
        invariant
            i <= s@.len(),
            v@ == old(v)@ + s@.take(i as int),
        decreases s@.len() - i,
    {
        v.push(s[i]);
        i += 1;
        proof {
            assert(s@.take(i as int) =~= s@.take(i - 1) + seq![s@[i - 1]]);
            assert(v@ =~= old(v)@ + s@.take(i as int));
        }
    }
    proof {
        assert(s@.take(s@.len() as int) =~= s@);
    }
}

} // verus!
