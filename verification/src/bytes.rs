//! Byte-sequence search helpers shared by the text post-processors.
use vstd::prelude::*;

verus! {

/// `needle` occurs in `hay` starting at byte `i`.
pub open spec fn occurs_at(hay: Seq<u8>, needle: Seq<u8>, i: int) -> bool {
    &&& 0 <= i
    &&& i + needle.len() <= hay.len()
    &&& hay.subrange(i, i + needle.len()) == needle
}

/// First start at or after `from` where `needle` occurs in `hay`.
pub open spec fn find_from(hay: Seq<u8>, needle: Seq<u8>, from: int) -> Option<int>
    decreases hay.len() + 1 - from,
{
    if from < 0 || from + needle.len() > hay.len() {
        None
    } else if occurs_at(hay, needle, from) {
        Some(from)
    } else {
        find_from(hay, needle, from + 1)
    }
}

/// First position at or after `from` that holds byte `b`.
pub open spec fn find_byte_from(hay: Seq<u8>, b: u8, from: int) -> Option<int>
    decreases hay.len() - from,
{
    if from < 0 || from >= hay.len() {
        None
    } else if hay[from] == b {
        Some(from)
    } else {
        find_byte_from(hay, b, from + 1)
    }
}

pub proof fn lemma_find_byte_from_bounds(hay: Seq<u8>, b: u8, from: int)
    ensures
        find_byte_from(hay, b, from) matches Some(i) ==> from <= i < hay.len() && hay[i] == b,
    decreases hay.len() - from,
{
    if !(from < 0 || from >= hay.len()) && hay[from] != b {
        lemma_find_byte_from_bounds(hay, b, from + 1);
    }
}

pub proof fn lemma_find_from_bounds(hay: Seq<u8>, needle: Seq<u8>, from: int)
    ensures
        find_from(hay, needle, from) matches Some(i) ==> from <= i && occurs_at(hay, needle, i),
    decreases hay.len() + 1 - from,
{
    if !(from < 0 || from + needle.len() > hay.len()) && !occurs_at(hay, needle, from) {
        lemma_find_from_bounds(hay, needle, from + 1);
    }
}

/// Does `needle` occur in `hay` at byte `at`?
pub fn matches_at(hay: &Vec<u8>, needle: &Vec<u8>, at: usize) -> (r: bool)
    ensures
        r == occurs_at(hay@, needle@, at as int),
{
    if needle.len() > hay.len() || at > hay.len() - needle.len() {
        return false;
    }
    let mut k: usize = 0;
    while k < needle.len()
        invariant
            at + needle.len() <= hay.len(),
            k <= needle.len(),
            forall|j: int| 0 <= j < k ==> hay@[at + j] == needle@[j],
        decreases needle.len() - k,
    {
        if hay[at + k] != needle[k] {
            assert(hay@.subrange(at as int, at + needle.len())[k as int] != needle@[k as int]);
            return false;
        }
        k = k + 1;
    }
    assert(hay@.subrange(at as int, at + needle.len()) =~= needle@);
    true
}

/// First start at or after `from` where `needle` occurs in `hay`.
pub fn find_subslice(hay: &Vec<u8>, needle: &Vec<u8>, from: usize) -> (r: Option<usize>)
    ensures
        match r {
            Some(i) => find_from(hay@, needle@, from as int) == Some(i as int),
            None => find_from(hay@, needle@, from as int) is None,
        },
{
    if needle.len() > hay.len() {
        return None;
    }
    let last = hay.len() - needle.len();
    let mut i = from;
    while i <= last
        invariant
            last == hay.len() - needle.len(),
            from <= i,
            find_from(hay@, needle@, from as int) == find_from(hay@, needle@, i as int),
        decreases last + 1 - i,
    {
        if matches_at(hay, needle, i) {
            return Some(i);
        }
        if i == last {
            assert(find_from(hay@, needle@, i + 1) is None);
            return None;
        }
        i = i + 1;
    }
    None
}

/// First position at or after `from` that holds byte `b`.
pub fn find_byte(hay: &Vec<u8>, b: u8, from: usize) -> (r: Option<usize>)
    ensures
        match r {
            Some(i) => find_byte_from(hay@, b, from as int) == Some(i as int),
            None => find_byte_from(hay@, b, from as int) is None,
        },
{
    let mut i = from;
    while i < hay.len()
        invariant
            from <= i,
            find_byte_from(hay@, b, from as int) == find_byte_from(hay@, b, i as int),
        decreases hay.len() - i,
    {
        if hay[i] == b {
            return Some(i);
        }
        i = i + 1;
    }
    None
}

/// Append `src[from..to]` to `out`.
pub fn push_range(out: &mut Vec<u8>, src: &Vec<u8>, from: usize, to: usize)
    requires
        from <= to <= src.len(),
    ensures
        final(out)@ == old(out)@ + src@.subrange(from as int, to as int),
{
    let mut i = from;
    while i < to
        invariant
            from <= i <= to <= src.len(),
            out@ == old(out)@ + src@.subrange(from as int, i as int),
        decreases to - i,
    {
        out.push(src[i]);
        i = i + 1;
        assert(out@ =~= old(out)@ + src@.subrange(from as int, i as int));
    }
}

/// Copy a byte slice into a vector.
pub fn bytes_to_vec(src: &[u8]) -> (v: Vec<u8>)
    ensures
        v@ == src@,
{
    let mut v: Vec<u8> = Vec::new();
    let mut i: usize = 0;
    while i < src.len()
        invariant
            i <= src.len(),
            v@ == src@.subrange(0, i as int),
        decreases src.len() - i,
    {
        v.push(src[i]);
        i = i + 1;
        assert(v@ =~= src@.subrange(0, i as int));
    }
    assert(v@ =~= src@);
    v
}

/// Nothing occurs between `from` and the first occurrence found.
pub proof fn lemma_find_from_first(hay: Seq<u8>, needle: Seq<u8>, from: int)
    requires
        0 <= from,
    ensures
        forall|j: int|
            from <= j && (match find_from(hay, needle, from) {
                Some(i) => j < i,
                None => true,
            }) ==> !#[trigger] occurs_at(hay, needle, j),
    decreases hay.len() + 1 - from,
{
    if !(from + needle.len() > hay.len()) && !occurs_at(hay, needle, from) {
        lemma_find_from_first(hay, needle, from + 1);
    }
}

/// Skipping positions where nothing occurs finds the same occurrence.
pub proof fn lemma_find_from_skip(hay: Seq<u8>, needle: Seq<u8>, from: int, m: int)
    requires
        0 <= from <= m,
        forall|j: int| from <= j < m ==> !#[trigger] occurs_at(hay, needle, j),
    ensures
        find_from(hay, needle, from) == find_from(hay, needle, m),
    decreases m - from,
{
    if from < m && !(from + needle.len() > hay.len()) {
        assert(!occurs_at(hay, needle, from));
        lemma_find_from_skip(hay, needle, from + 1, m);
    }
}

/// Searching the back part of `a + b` is searching `b`.
pub proof fn lemma_find_from_suffix(a: Seq<u8>, b: Seq<u8>, needle: Seq<u8>, k: int)
    requires
        0 <= k,
    ensures
        find_from(a + b, needle, a.len() + k) == match find_from(b, needle, k) {
            Some(i) => Some(a.len() + i),
            None => None::<int>,
        },
    decreases b.len() + 1 - k,
{
    let ab = a + b;
    if !(a.len() + k + needle.len() > ab.len()) {
        assert(ab.subrange(a.len() + k, a.len() + k + needle.len()) =~= b.subrange(k, k + needle.len()));
        if !occurs_at(ab, needle, a.len() + k) {
            lemma_find_from_suffix(a, b, needle, k + 1);
        }
    }
}

/// Searching the back part of `a + b` for a byte is searching `b`.
pub proof fn lemma_find_byte_suffix(a: Seq<u8>, b: Seq<u8>, c: u8, k: int)
    requires
        0 <= k,
    ensures
        find_byte_from(a + b, c, a.len() + k) == match find_byte_from(b, c, k) {
            Some(i) => Some(a.len() + i),
            None => None::<int>,
        },
    decreases b.len() - k,
{
    if k < b.len() && (a + b)[a.len() + k] != c {
        lemma_find_byte_suffix(a, b, c, k + 1);
    }
}

} // verus!
