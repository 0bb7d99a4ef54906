//! Relative paths inside the destination tree, and the parsing of archive
//! entry names into validated path segments.
//!
//! An entry name is a sequence of bytes; `/` (byte 47) separates segments and
//! a trailing `/` marks a directory entry. A name is accepted only when every
//! segment is non-empty, is neither `.` nor `..`, and contains no separator,
//! backslash or NUL byte. Anything else (absolute names, traversal attempts,
//! empty names) is rejected, so an accepted path can never escape the
//! destination root.
//!
//! No normalization is applied, deliberately: a name such as `./a`, `a//b`
//! or `a/../b`, which common archive-path sanitizers resolve to an in-bounds
//! path, is rejected here rather than rewritten. Only names that directly
//! spell a confined path are materialized; the same policy governs blacklist
//! names during pruning.

use vstd::prelude::*;

verus! {

/// A single path segment is valid: non-empty, not `.` or `..`, and free of
/// `/`, `\` and NUL bytes.
pub open spec fn valid_segment(s: Seq<u8>) -> bool {
    &&& s.len() > 0
    &&& s != seq![46u8]
    &&& s != seq![46u8, 46u8]
    &&& forall|i: int| 0 <= i < s.len() ==> s[i] != 47u8 && s[i] != 92u8 && s[i] != 0u8
}

/// A path confined to the destination: at least one segment, all valid.
pub open spec fn safe_path(p: Seq<Seq<u8>>) -> bool {
    &&& p.len() > 0
    &&& forall|i: int| 0 <= i < p.len() ==> valid_segment(#[trigger] p[i])
}

/// Splitting a byte string on `/`, front to back, with `cur` the segment
/// accumulated so far.
pub open spec fn split_acc(name: Seq<u8>, cur: Seq<u8>) -> Seq<Seq<u8>>
    decreases name.len(),
{
    if name.len() == 0 {
        seq![cur]
    } else if name[0] == 47u8 {
        seq![cur] + split_acc(name.skip(1), Seq::empty())
    } else {
        split_acc(name.skip(1), cur.push(name[0]))
    }
}

/// The raw segments of a name: the pieces between `/` separators, in order,
/// including any empty pieces.
pub open spec fn segments_of(name: Seq<u8>) -> Seq<Seq<u8>> {
    split_acc(name, Seq::empty())
}

/// Does a name carry a trailing separator, marking a directory entry?
pub open spec fn name_is_dir(name: Seq<u8>) -> bool {
    name.len() > 0 && name.last() == 47u8
}

/// The candidate path of a name: its raw segments, without the empty piece
/// that a trailing separator leaves behind.
pub open spec fn raw_path_of(name: Seq<u8>) -> Seq<Seq<u8>> {
    if name_is_dir(name) {
        segments_of(name).drop_last()
    } else {
        segments_of(name)
    }
}

/// The meaning of an archive entry name: `Some((path, is_dir))` when the name
/// resolves to a safe path under the destination, `None` when it must be
/// rejected.
pub open spec fn parse_entry_name(name: Seq<u8>) -> Option<(Seq<Seq<u8>>, bool)> {
    if safe_path(raw_path_of(name)) {
        Some((raw_path_of(name), name_is_dir(name)))
    } else {
        None
    }
}

pub proof fn lemma_split_acc_len(name: Seq<u8>, cur: Seq<u8>)
    ensures
        split_acc(name, cur).len() >= 1,
    decreases name.len(),
{
    if name.len() != 0 {
        if name[0] == 47u8 {
            lemma_split_acc_len(name.skip(1), Seq::empty());
        } else {
            lemma_split_acc_len(name.skip(1), cur.push(name[0]));
        }
    }
}

/// An accepted entry name always yields a safe path.
pub proof fn lemma_parse_safe(name: Seq<u8>)
    ensures
        parse_entry_name(name) matches Some(pd) ==> safe_path(pd.0),
{
}

/// Every non-empty prefix of a safe path is itself a safe path.
pub proof fn lemma_prefix_safe(p: Seq<Seq<u8>>, k: int)
    requires
        safe_path(p),
        1 <= k <= p.len(),
    ensures
        safe_path(p.take(k)),
{
    assert forall|i: int| 0 <= i < p.take(k).len() implies valid_segment(#[trigger] p.take(k)[i]) by {
        assert(p.take(k)[i] == p[i]);
    }
}

/// Byte-for-byte equality of two byte vectors.
pub fn bytes_eq(a: &Vec<u8>, b: &Vec<u8>) -> (r: bool)
    ensures
        r == (a@ == b@),
{
    if a.len() != b.len() {
        return false;
    }
    let mut i: usize = 0;
    while i < a.len()
        invariant
            i <= a@.len(),
            a@.len() == b@.len(),
            forall|j: int| 0 <= j < i ==> a@[j] == b@[j],
        decreases a@.len() - i,
    {
        if a[i] != b[i] {
            return false;
        }
        i += 1;
    }
    proof {
        assert(a@ =~= b@);
    }
    true
}

pub proof fn lemma_deep_view_index(v: Seq<Vec<u8>>, i: int)
    requires
        0 <= i < v.len(),
    ensures
        v.map_values(|x: Vec<u8>| x@)[i] == v[i]@,
{
}

/// The view of a segment path: each segment as its byte sequence.
pub open spec fn path_view(p: Vec<Vec<u8>>) -> Seq<Seq<u8>> {
    p@.map_values(|x: Vec<u8>| x@)
}

/// Segment-for-segment equality of two paths.
pub fn path_eq(a: &Vec<Vec<u8>>, b: &Vec<Vec<u8>>) -> (r: bool)
    ensures
        r == (path_view(*a) == path_view(*b)),
{
    if a.len() != b.len() {
        proof {
            assert(path_view(*a).len() != path_view(*b).len());
        }
        return false;
    }
    let mut i: usize = 0;
    while i < a.len()
        invariant
            i <= a@.len(),
            a@.len() == b@.len(),
            forall|j: int| 0 <= j < i ==> a@[j]@ == b@[j]@,
        decreases a@.len() - i,
    {
        if !bytes_eq(&a[i], &b[i]) {
            proof {
                lemma_deep_view_index(a@, i as int);
                lemma_deep_view_index(b@, i as int);
            }
            return false;
        }
        i += 1;
    }
    proof {
        assert(path_view(*a) =~~= path_view(*b));
    }
    true
}

/// A fresh copy of a byte vector.
pub fn copy_bytes(s: &Vec<u8>) -> (r: Vec<u8>)
    ensures
        r@ == s@,
{
    vstd::slice::slice_to_vec(s.as_slice())
}

/// The first `k` segments of a path, as a fresh vector.
pub fn path_prefix(p: &Vec<Vec<u8>>, k: usize) -> (r: Vec<Vec<u8>>)
    requires
        k <= p@.len(),
    ensures
        path_view(r) == path_view(*p).take(k as int),
{
    let mut r: Vec<Vec<u8>> = Vec::new();
    let mut j: usize = 0;
    while j < k
        invariant
            j <= k,
            k <= p@.len(),
            r@.len() == j,
            forall|m: int| 0 <= m < j ==> r@[m]@ == p@[m]@,
        decreases k - j,
    {
        r.push(copy_bytes(&p[j]));
        j += 1;
    }
    proof {
        assert forall|m: int| 0 <= m < k implies path_view(r)[m] == path_view(*p).take(k as int)[m] by {
            lemma_deep_view_index(r@, m);
            lemma_deep_view_index(p@, m);
        }
        assert(path_view(r) =~~= path_view(*p).take(k as int));
    }
    r
}

/// Is one byte segment valid as a path component?
fn segment_ok(s: &Vec<u8>) -> (r: bool)
    ensures
        r == valid_segment(s@),
{
    if s.len() == 0 {
        return false;
    }
    if s.len() == 1 && s[0] == 46 {
        proof {
            assert(s@ =~= seq![46u8]);
        }
        return false;
    }
    if s.len() == 2 && s[0] == 46 && s[1] == 46 {
        proof {
            assert(s@ =~= seq![46u8, 46u8]);
        }
        return false;
    }
    let mut i: usize = 0;
    while i < s.len()
        invariant
            i <= s@.len(),
            forall|j: int| 0 <= j < i ==> s@[j] != 47u8 && s@[j] != 92u8 && s@[j] != 0u8,
        decreases s@.len() - i,
    {
        let b = s[i];
        if b == 47 || b == 92 || b == 0 {
            return false;
        }
        i += 1;
    }
    proof {
        if s@ == seq![46u8] {
            assert(s@.len() == 1);
        }
        if s@ == seq![46u8, 46u8] {
            assert(s@.len() == 2);
        }
    }
    true
}

proof fn lemma_path_view_push(s: Seq<Vec<u8>>, x: Vec<u8>)
    ensures
        s.push(x).map_values(|v: Vec<u8>| v@) == s.map_values(|v: Vec<u8>| v@).push(x@),
{
    assert(s.push(x).map_values(|v: Vec<u8>| v@) =~= s.map_values(|v: Vec<u8>| v@).push(x@));
}

proof fn lemma_path_view_drop_last(s: Seq<Vec<u8>>)
    requires
        s.len() > 0,
    ensures
        s.drop_last().map_values(|v: Vec<u8>| v@) == s.map_values(|v: Vec<u8>| v@).drop_last(),
{
    assert(s.drop_last().map_values(|v: Vec<u8>| v@) =~= s.map_values(
        |v: Vec<u8>| v@,
    ).drop_last());
}

/// Parses an archive entry name into path segments and a directory flag,
/// rejecting any name that `parse_entry_name` rejects.
pub fn sanitize_entry_name(name: &Vec<u8>) -> (r: Option<(Vec<Vec<u8>>, bool)>)
    ensures
        r is None ==> parse_entry_name(name@) is None,
        r matches Some(pd) ==> parse_entry_name(name@) == Some((path_view(pd.0), pd.1)),
{
    let mut segs: Vec<Vec<u8>> = Vec::new();
    let mut cur: Vec<u8> = Vec::new();
    let mut i: usize = 0;
    proof {
        assert(name@.skip(0) =~= name@);
        assert(segs@.map_values(|x: Vec<u8>| x@) =~= Seq::<Seq<u8>>::empty());
        assert(Seq::<Seq<u8>>::empty() + split_acc(name@, Seq::<u8>::empty()) =~= split_acc(
            name@,
            Seq::<u8>::empty(),
        ));
    }
    while i < name.len()
        invariant
            i <= name@.len(),
            segments_of(name@) == segs@.map_values(|x: Vec<u8>| x@) + split_acc(
                name@.skip(i as int),
                cur@,
            ),
        decreases name@.len() - i,
    {
        proof {
            assert(name@.skip(i as int)[0] == name@[i as int]);
            assert(name@.skip(i as int).skip(1) =~= name@.skip(i as int + 1));
        }
        let b = name[i];
        if b == 47 {
            let ghost old_segs = segs@;
            let ghost cur_v: Vec<u8> = cur;
            segs.push(cur);
            cur = Vec::new();
            proof {
                lemma_path_view_push(old_segs, cur_v);
                assert(old_segs.map_values(|x: Vec<u8>| x@).push(cur_v@) + split_acc(
                    name@.skip(i as int + 1),
                    Seq::<u8>::empty(),
                ) =~= old_segs.map_values(|x: Vec<u8>| x@) + (seq![cur_v@] + split_acc(
                    name@.skip(i as int + 1),
                    Seq::<u8>::empty(),
                )));
            }
        } else {
            cur.push(b);
        }
        i += 1;
    }
    proof {
        assert(name@.skip(i as int) =~= Seq::<u8>::empty());
    }
    let ghost pre_segs = segs@;
    let ghost cur_v: Vec<u8> = cur;
    segs.push(cur);
    proof {
        lemma_path_view_push(pre_segs, cur_v);
        assert(pre_segs.map_values(|x: Vec<u8>| x@).push(cur_v@) =~= pre_segs.map_values(
            |x: Vec<u8>| x@,
        ) + seq![cur_v@]);
        assert(segs@.map_values(|x: Vec<u8>| x@) == segments_of(name@));
    }
    // segs now holds the raw segments of the name.
    let is_dir = name.len() > 0 && name[name.len() - 1] == 47;
    if is_dir {
        proof {
            lemma_split_acc_len(name@, Seq::empty());
            lemma_path_view_drop_last(segs@);
        }
        segs.pop();
    }
    proof {
        assert(segs@.map_values(|x: Vec<u8>| x@) == raw_path_of(name@));
        assert(is_dir == name_is_dir(name@));
    }
    let mut j: usize = 0;
    while j < segs.len()
        invariant
            j <= segs@.len(),
            segs@.map_values(|x: Vec<u8>| x@) == raw_path_of(name@),
            is_dir == name_is_dir(name@),
            forall|m: int| 0 <= m < j ==> valid_segment(#[trigger] segs@[m]@),
        decreases segs@.len() - j,
    {
        if !segment_ok(&segs[j]) {
            proof {
                assert(segs@.map_values(|x: Vec<u8>| x@)[j as int] == segs@[j as int]@);
                assert(!safe_path(raw_path_of(name@)));
            }
            return None;
        }
        j += 1;
    }
    if segs.len() == 0 {
        return None;
    }
    proof {
        assert forall|m: int| 0 <= m < segs@.len() implies valid_segment(
            #[trigger] raw_path_of(name@)[m],
        ) by {
            assert(raw_path_of(name@)[m] == segs@[m]@);
        }
        assert(safe_path(raw_path_of(name@)));
    }
    Some((segs, is_dir))
}

} // verus!
