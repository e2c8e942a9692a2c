use vstd::prelude::*;

verus! {

/// `p` occurs in `s` starting at offset `i`.
pub open spec fn occurs_at(s: Seq<u8>, p: Seq<u8>, i: int) -> bool {
    0 <= i && i + p.len() <= s.len() && s.subrange(i, i + p.len()) == p
}

/// The offset of the leftmost occurrence of `p` in `s`, if any.
pub open spec fn first_match(s: Seq<u8>, p: Seq<u8>) -> Option<int> {
    if exists|i: int| occurs_at(s, p, i) {
        Some(choose|i: int| occurs_at(s, p, i) && forall|j: int| 0 <= j < i ==> !occurs_at(s, p, j))
    } else {
        None
    }
}

proof fn lemma_least_occurrence(s: Seq<u8>, p: Seq<u8>, i: int)
    requires
        occurs_at(s, p, i),
    ensures
        exists|m: int| occurs_at(s, p, m) && forall|j: int| 0 <= j < m ==> !occurs_at(s, p, j),
    decreases i,
{
    if exists|j: int| 0 <= j < i && occurs_at(s, p, j) {
        let j = choose|j: int| 0 <= j < i && occurs_at(s, p, j);
        lemma_least_occurrence(s, p, j);
    } else {
        assert(forall|j: int| 0 <= j < i ==> !occurs_at(s, p, j));
    }
}

/// What `first_match` reports is an occurrence with none before it, and
/// `None` means that there is no occurrence at all.
pub proof fn lemma_first_match(s: Seq<u8>, p: Seq<u8>)
    ensures
        match first_match(s, p) {
            Some(i) => occurs_at(s, p, i) && forall|j: int| 0 <= j < i ==> !occurs_at(s, p, j),
            None => forall|i: int| !occurs_at(s, p, i),
        },
{
    if exists|i: int| occurs_at(s, p, i) {
        let i = choose|i: int| occurs_at(s, p, i);
        lemma_least_occurrence(s, p, i);
    }
}

/// Number of bytes of `s` equal to `b`.
pub open spec fn count_byte(s: Seq<u8>, b: u8) -> nat
    decreases s.len(),
{
    if s.len() == 0 {
        0
    } else {
        count_byte(s.drop_last(), b) + if s.last() == b { 1nat } else { 0nat }
    }
}

/// Whether `pat` occurs in `hay` at offset `start`.
pub fn matches_at(hay: &[u8], start: usize, pat: &[u8]) -> (r: bool)
    ensures
        r == occurs_at(hay@, pat@, start as int),
{
    if start > hay.len() || pat.len() > hay.len() - start {
        return false;
    }
    let hay_len = hay.len();
    let mut k: usize = 0;
    while k < pat.len()
        invariant
            hay_len == hay@.len(),
            start + pat@.len() <= hay@.len(),
            0 <= k <= pat@.len(),
            forall|j: int| 0 <= j < k ==> hay@[start + j] == pat@[j],
        decreases pat@.len() - k,
    {
        if hay[start + k] != pat[k] {
            assert(hay@.subrange(start as int, start + pat@.len())[k as int] != pat@[k as int]);
            return false;
        }
        k = k + 1;
    }
    assert(hay@.subrange(start as int, start + pat@.len()) =~= pat@);
    true
}

/// Leftmost offset at which `pat` occurs in `hay`, as `str::find` reports it.
pub fn find_motif(hay: &[u8], pat: &[u8]) -> (r: Option<usize>)
    ensures
        match r {
            Some(i) => first_match(hay@, pat@) == Some(i as int),
            None => first_match(hay@, pat@) is None,
        },
{
    if pat.len() > hay.len() {
        assert forall|i: int| !occurs_at(hay@, pat@, i) by {}
        return None;
    }
    let last: usize = hay.len() - pat.len();
    let mut i: usize = 0;
    loop
        invariant
            last == hay@.len() - pat@.len(),
            0 <= i <= last,
            forall|j: int| 0 <= j < i ==> !occurs_at(hay@, pat@, j),
        decreases last - i,
    {
        if matches_at(hay, i, pat) {
            let ghost w = choose|w: int|
                occurs_at(hay@, pat@, w) && forall|j: int| 0 <= j < w ==> !occurs_at(hay@, pat@, j);
            assert(occurs_at(hay@, pat@, i as int));
            assert(w == i) by {
                if w < i {
                } else if w > i {
                    assert(!occurs_at(hay@, pat@, i as int));
                }
            }
            return Some(i);
        }
        if i == last {
            assert forall|j: int| !occurs_at(hay@, pat@, j) by {
                if 0 <= j <= i {
                }
            }
            return None;
        }
        i = i + 1;
    }
}

/// Number of bytes of `s` equal to `b`.
pub fn count_of(s: &[u8], b: u8) -> (r: usize)
    ensures
        r == count_byte(s@, b),
{
    let mut n: usize = 0;
    let mut i: usize = 0;
    while i < s.len()
        invariant
            0 <= i <= s@.len(),
            n == count_byte(s@.take(i as int), b),
            n <= i,
        decreases s@.len() - i,
    {
        assert(s@.take(i + 1).drop_last() =~= s@.take(i as int));
        if s[i] == b {
            n = n + 1;
        }
        i = i + 1;
    }
    assert(s@.take(i as int) =~= s@);
    n
}

/// Copy of `s[start..start + len]`.
pub fn copy_range(s: &[u8], start: usize, len: usize) -> (r: Vec<u8>)
    requires
        start + len <= s@.len(),
    ensures
        r@ == s@.subrange(start as int, start + len),
{
    let _n = s.len();
    vstd::slice::slice_to_vec(vstd::slice::slice_subrange(s, start, start + len))
}

/// Whether `s[start..start + len]` is one of `set`.
pub fn contains_at(set: &Vec<Vec<u8>>, s: &[u8], start: usize, len: usize) -> (r: bool)
    requires
        start + len <= s@.len(),
    ensures
        r == exists|k: int| 0 <= k < set@.len() && set@[k]@ == s@.subrange(start as int, start + len),
{
    let _n = s.len();
    let piece = vstd::slice::slice_subrange(s, start, start + len);
    let mut k: usize = 0;
    while k < set.len()
        invariant
            0 <= k <= set@.len(),
            piece@ == s@.subrange(start as int, start + len),
            forall|m: int| 0 <= m < k ==> set@[m]@ != piece@,
        decreases set@.len() - k,
    {
        let cand: &Vec<u8> = &set[k];
        assert(piece@.subrange(0, piece@.len() as int) =~= piece@);
        if cand.len() == piece.len() && matches_at(piece, 0, cand.as_slice()) {
            assert(piece@.subrange(0, cand@.len() as int) =~= piece@);
            return true;
        }
        k = k + 1;
    }
    false
}

} // verus!
