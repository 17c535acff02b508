//! STEP text post-processing that keeps exports deterministic.
//!
//! All searches look for ASCII bytes only.  In UTF-8 text every byte of a
//! multi-byte character is at least 0x80, so working on the bytes of the
//! text finds exactly the places a character search would find.
use vstd::prelude::*;
use vstd::utf8::*;
use crate::bytes::{
    bytes_to_vec, find_byte, find_byte_from, find_from, occurs_at, find_subslice, lemma_find_byte_from_bounds,
    lemma_find_byte_suffix, lemma_find_from_bounds, lemma_find_from_first, lemma_find_from_skip,
    lemma_find_from_suffix, push_range,
};

verus! {

/// Fixed timestamp written into every exported STEP header.
pub const STEP_TIMESTAMP: &'static str = "1970-01-01T00:00:00";

/// Product name written instead of OCCT's per-process translator counter.
pub const STEP_PRODUCT_NAME: &'static str = "MusubiCAD";

/// The STEP string quote.
pub const QUOTE: u8 = 39u8;

/// Bytes of the product name prefix OCCT writes: `Open CASCADE STEP translator `.
pub open spec fn product_prefix() -> Seq<u8> {
    seq![79u8, 112u8, 101u8, 110u8, 32u8, 67u8, 65u8, 83u8, 67u8, 65u8, 68u8, 69u8, 32u8, 83u8, 84u8,
        69u8, 80u8, 32u8, 116u8, 114u8, 97u8, 110u8, 115u8, 108u8, 97u8, 116u8, 111u8, 114u8, 32u8]
}

/// Bytes of [`STEP_PRODUCT_NAME`].
pub open spec fn product_name() -> Seq<u8> {
    seq![77u8, 117u8, 115u8, 117u8, 98u8, 105u8, 67u8, 65u8, 68u8]
}

/// Bytes of [`STEP_TIMESTAMP`].
pub open spec fn time_stamp() -> Seq<u8> {
    seq![49u8, 57u8, 55u8, 48u8, 45u8, 48u8, 49u8, 45u8, 48u8, 49u8, 84u8, 48u8, 48u8, 58u8, 48u8,
        48u8, 58u8, 48u8, 48u8]
}

/// Bytes of `FILE_NAME(`.
pub open spec fn file_name_open() -> Seq<u8> {
    seq![70u8, 73u8, 76u8, 69u8, 95u8, 78u8, 65u8, 77u8, 69u8, 40u8]
}

/// The text from byte `r` on, with every `Open CASCADE STEP translator ...`
/// product name (up to its closing quote) replaced by `MusubiCAD`.  A prefix
/// with no quote after it ends the replacement: the rest is kept as it is.
/// (The prefix holds no quote, so the first quote after the start of the
/// prefix is the first quote after its end.)
pub open spec fn replace_products_from(t: Seq<u8>, r: int) -> Seq<u8>
    decreases t.len() + 1 - r,
{
    if r < 0 || r > t.len() {
        Seq::empty()
    } else {
        match find_from(t, product_prefix(), r) {
            None => t.subrange(r, t.len() as int),
            Some(s) => match find_byte_from(t, QUOTE, s + product_prefix().len()) {
                None => t.subrange(r, t.len() as int),
                Some(q) => {
                    proof {
                        lemma_find_from_bounds(t, product_prefix(), r);
                        lemma_find_byte_from_bounds(t, QUOTE, s + product_prefix().len());
                    }
                    t.subrange(r, s) + product_name() + replace_products_from(t, q)
                },
            },
        }
    }
}

/// The whole text with its counting product names replaced.
pub open spec fn replace_products(t: Seq<u8>) -> Seq<u8> {
    replace_products_from(t, 0)
}

/// Position of the quote that closes a STEP string whose body starts at `i`
/// (a doubled quote is an escaped quote); the text length when unclosed.
pub open spec fn string_end(t: Seq<u8>, i: int) -> int
    decreases t.len() - i,
{
    if i < 0 || i >= t.len() {
        t.len() as int
    } else if t[i] == QUOTE {
        if i + 1 < t.len() && t[i + 1] == QUOTE {
            string_end(t, i + 2)
        } else {
            i
        }
    } else {
        string_end(t, i + 1)
    }
}

/// The next quoted string at or after `i`: its opening and closing quote.
pub open spec fn next_quoted(t: Seq<u8>, i: int) -> Option<(int, int)> {
    match find_byte_from(t, QUOTE, i) {
        None => None,
        Some(open) => Some((open, string_end(t, open + 1))),
    }
}

/// The `FILE_NAME(...)` time stamp -- the second quoted string after the
/// first `FILE_NAME(` -- replaced by the fixed time stamp; text without it
/// is kept as it is.
pub open spec fn normalize_time_stamp_spec(t: Seq<u8>) -> Seq<u8> {
    match find_from(t, file_name_open(), 0) {
        None => t,
        Some(s) => match next_quoted(t, s + file_name_open().len()) {
            None => t,
            Some(first) => match next_quoted(t, first.1 + 1) {
                None => t,
                Some(second) => t.subrange(0, second.0 + 1) + time_stamp() + t.subrange(
                    second.1,
                    t.len() as int,
                ),
            },
        },
    }
}

/// What [`String::from_utf8_lossy`] makes of a byte string: the bytes of the
/// resulting text.
pub uninterp spec fn utf8_lossy(bytes: Seq<u8>) -> Seq<u8>;

/// Calls `String::from_utf8_lossy` and takes the bytes of the text.  Its
/// documentation promises that valid UTF-8 comes back unchanged, and the
/// result is a Rust string, so it is valid UTF-8; what it makes of invalid
/// input (replacement characters) is left to the name `utf8_lossy`.
#[verifier::external_body]
fn lossy_utf8(bytes: &[u8]) -> (text: Vec<u8>)
    ensures
        text@ == utf8_lossy(bytes@),
        valid_utf8(bytes@) ==> text@ == bytes@,
        valid_utf8(text@),
{
    String::from_utf8_lossy(bytes).into_owned().into_bytes()
}

fn product_prefix_bytes() -> (v: Vec<u8>)
    ensures
        v@ == product_prefix(),
{
    let v = vec![79u8, 112u8, 101u8, 110u8, 32u8, 67u8, 65u8, 83u8, 67u8, 65u8, 68u8, 69u8, 32u8, 83u8,
        84u8, 69u8, 80u8, 32u8, 116u8, 114u8, 97u8, 110u8, 115u8, 108u8, 97u8, 116u8, 111u8, 114u8, 32u8];
    assert(v@ =~= product_prefix());
    v
}

fn product_name_bytes() -> (v: Vec<u8>)
    ensures
        v@ == product_name(),
{
    let v = vec![77u8, 117u8, 115u8, 117u8, 98u8, 105u8, 67u8, 65u8, 68u8];
    assert(v@ =~= product_name());
    v
}

fn time_stamp_bytes() -> (v: Vec<u8>)
    ensures
        v@ == time_stamp(),
{
    let v = vec![49u8, 57u8, 55u8, 48u8, 45u8, 48u8, 49u8, 45u8, 48u8, 49u8, 84u8, 48u8, 48u8, 58u8,
        48u8, 48u8, 58u8, 48u8, 48u8];
    assert(v@ =~= time_stamp());
    v
}

fn file_name_open_bytes() -> (v: Vec<u8>)
    ensures
        v@ == file_name_open(),
{
    let v = vec![70u8, 73u8, 76u8, 69u8, 95u8, 78u8, 65u8, 77u8, 69u8, 40u8];
    assert(v@ =~= file_name_open());
    v
}

/// Make STEP output depend only on geometry: OCCT's counting product names
/// become `MusubiCAD` and the wall-clock time stamp of the `FILE_NAME` header
/// entity becomes `1970-01-01T00:00:00`.  The input is first read as UTF-8,
/// invalid sequences replaced as `String::from_utf8_lossy` does.
pub fn normalize_step_header(step: &[u8]) -> (out: Vec<u8>)
    ensures
        out@ == normalize_time_stamp_spec(replace_products(utf8_lossy(step@))),
        valid_utf8(step@) ==> out@ == normalize_time_stamp_spec(replace_products(step@)),
        valid_utf8(out@),
{
    let text = lossy_utf8(step);
    proof {
        lemma_normalized_text_is_utf8(text@);
    }
    let replaced = replace_product_names(&text);
    normalize_time_stamp(&replaced)
}

/// Replace every `Open CASCADE STEP translator <ver> <n>` product name by
/// `MusubiCAD`.
pub fn replace_product_names(text: &[u8]) -> (out: Vec<u8>)
    ensures
        out@ == replace_products(text@),
{
    let t = bytes_to_vec(text);
    let prefix = product_prefix_bytes();
    let name = product_name_bytes();
    let mut out: Vec<u8> = Vec::new();
    let mut rest: usize = 0;
    loop
        invariant
            prefix@ == product_prefix(),
            name@ == product_name(),
            t@ == text@,
            rest <= t.len(),
            out@ + replace_products_from(t@, rest as int) == replace_products(t@),
        decreases t.len() - rest,
    {
        let start = match find_subslice(&t, &prefix, rest) {
            Some(start) => start,
            None => {
                assert(replace_products_from(t@, rest as int) == t@.subrange(
                    rest as int,
                    t.len() as int,
                ));
                push_range(&mut out, &t, rest, t.len());
                return out;
            },
        };
        proof {
            lemma_find_from_bounds(t@, product_prefix(), rest as int);
        }
        let quote = match find_byte(&t, QUOTE, start + prefix.len()) {
            Some(quote) => quote,
            None => {
                assert(replace_products_from(t@, rest as int) == t@.subrange(
                    rest as int,
                    t.len() as int,
                ));
                push_range(&mut out, &t, rest, t.len());
                return out;
            },
        };
        proof {
            lemma_find_byte_from_bounds(t@, QUOTE, start + prefix.len());
        }
        let ghost before = out@;
        push_range(&mut out, &t, rest, start);
        let mut k: usize = 0;
        while k < name.len()
            invariant
                k <= name.len(),
                rest <= start <= t.len(),
                out@ == before + t@.subrange(rest as int, start as int) + name@.subrange(
                    0,
                    k as int,
                ),
            decreases name.len() - k,
        {
            out.push(name[k]);
            k = k + 1;
            assert(out@ =~= before + t@.subrange(rest as int, start as int)
                + name@.subrange(0, k as int));
        }
        assert(name@.subrange(0, k as int) =~= name@);
        assert(out@ + replace_products_from(t@, quote as int) =~= before
            + replace_products_from(t@, rest as int));
        rest = quote;
    }
}

/// Position of the quote closing the STEP string whose body starts at `i`.
fn string_end_at(t: &Vec<u8>, i: usize) -> (end: usize)
    ensures
        end == string_end(t@, i as int),
{
    let mut index = i;
    while index < t.len()
        invariant
            string_end(t@, i as int) == string_end(t@, index as int),
        decreases t.len() - index,
    {
        if t[index] == QUOTE {
            if index + 1 < t.len() && t[index + 1] == QUOTE {
                index = index + 2;
                continue;
            }
            return index;
        }
        index = index + 1;
    }
    t.len()
}

/// The next quoted string at or after `i`.
fn next_quoted_at(t: &Vec<u8>, i: usize) -> (r: Option<(usize, usize)>)
    ensures
        match r {
            Some((open, close)) => next_quoted(t@, i as int) == Some((open as int, close as int))
                && open < t.len() && close <= t.len(),
            None => next_quoted(t@, i as int) is None,
        },
{
    match find_byte(t, QUOTE, i) {
        None => None,
        Some(open) => {
            proof {
                lemma_find_byte_from_bounds(t@, QUOTE, i as int);
                lemma_string_end_bound(t@, open + 1);
            }
            assert(open < t.len());
            Some((open, string_end_at(t, open + 1)))
        },
    }
}

proof fn lemma_string_end_bound(t: Seq<u8>, i: int)
    ensures
        string_end(t, i) <= t.len(),
        i >= 0 ==> (string_end(t, i) >= i || string_end(t, i) == t.len()),
    decreases t.len() - i,
{
    if !(i < 0 || i >= t.len()) {
        if t[i] == QUOTE {
            if i + 1 < t.len() && t[i + 1] == QUOTE {
                lemma_string_end_bound(t, i + 2);
            }
        } else {
            lemma_string_end_bound(t, i + 1);
        }
    }
}

/// Replace the `FILE_NAME(...)` time stamp (its second quoted string,
/// honouring `''` escapes) by the fixed time stamp.
pub fn normalize_time_stamp(text: &[u8]) -> (out: Vec<u8>)
    ensures
        out@ == normalize_time_stamp_spec(text@),
{
    let t = bytes_to_vec(text);
    let marker = file_name_open_bytes();
    let start = match find_subslice(&t, &marker, 0) {
        Some(start) => start,
        None => return t,
    };
    proof {
        lemma_find_from_bounds(t@, file_name_open(), 0);
    }
    assert(occurs_at(t@, marker@, start as int));
    assert(start + marker.len() <= t.len());
    let first = match next_quoted_at(&t, start + marker.len()) {
        Some(first) => first,
        None => return t,
    };
    if first.1 >= t.len() {
        assert(next_quoted(t@, first.1 + 1) is None);
        return t;
    }
    let second = match next_quoted_at(&t, first.1 + 1) {
        Some(second) => second,
        None => return t,
    };
    let (open, close) = second;
    let mut out: Vec<u8> = Vec::new();
    push_range(&mut out, &t, 0, open + 1);
    let stamp = time_stamp_bytes();
    push_range(&mut out, &stamp, 0, stamp.len());
    push_range(&mut out, &t, close, t.len());
    assert(stamp@.subrange(0, stamp@.len() as int) =~= stamp@);
    out
}

// ---------------------------------------------------------------------------
// Normalized headers stay put
// ---------------------------------------------------------------------------

proof fn lemma_find_from_agree(t: Seq<u8>, u: Seq<u8>, needle: Seq<u8>, from: int, i: int)
    requires
        0 <= from <= i,
        find_from(t, needle, from) == Some(i),
        i + needle.len() <= u.len(),
        forall|k: int| 0 <= k < i + needle.len() ==> t[k] == u[k],
    ensures
        find_from(u, needle, from) == Some(i),
    decreases i - from,
{
    lemma_find_from_bounds(t, needle, from);
    if from == i {
        assert(u.subrange(i, i + needle.len()) =~= t.subrange(i, i + needle.len()));
    } else {
        assert(!occurs_at(t, needle, from));
        assert(u.subrange(from, from + needle.len()) =~= t.subrange(from, from + needle.len()));
        lemma_find_from_agree(t, u, needle, from + 1, i);
    }
}

proof fn lemma_find_byte_agree(t: Seq<u8>, u: Seq<u8>, b: u8, from: int, i: int)
    requires
        0 <= from <= i,
        find_byte_from(t, b, from) == Some(i),
        i < u.len(),
        forall|k: int| 0 <= k <= i ==> t[k] == u[k],
    ensures
        find_byte_from(u, b, from) == Some(i),
    decreases i - from,
{
    lemma_find_byte_from_bounds(t, b, from);
    if from < i {
        lemma_find_byte_agree(t, u, b, from + 1, i);
    }
}

/// Where a string ends, when it ends inside the text: a quote not followed
/// by another.
proof fn lemma_string_end_closes(t: Seq<u8>, i: int)
    requires
        0 <= i,
        string_end(t, i) < t.len(),
    ensures
        t[string_end(t, i)] == QUOTE,
        string_end(t, i) + 1 < t.len() ==> t[string_end(t, i) + 1] != QUOTE,
        string_end(t, i) >= i,
    decreases t.len() - i,
{
    if i < t.len() {
        if t[i] == QUOTE {
            if i + 1 < t.len() && t[i + 1] == QUOTE {
                lemma_string_end_closes(t, i + 2);
            }
        } else {
            lemma_string_end_closes(t, i + 1);
        }
    }
}

proof fn lemma_string_end_agree(t: Seq<u8>, u: Seq<u8>, i: int)
    requires
        0 <= i,
        string_end(t, i) + 1 < t.len(),
        string_end(t, i) + 1 < u.len(),
        forall|k: int| 0 <= k <= string_end(t, i) + 1 ==> t[k] == u[k],
    ensures
        string_end(u, i) == string_end(t, i),
    decreases t.len() - i,
{
    lemma_string_end_closes(t, i);
    if t[i] == QUOTE {
        if i + 1 < t.len() && t[i + 1] == QUOTE {
            lemma_string_end_agree(t, u, i + 2);
        }
    } else {
        lemma_string_end_agree(t, u, i + 1);
    }
}

proof fn lemma_string_end_skips(t: Seq<u8>, i: int, j: int)
    requires
        0 <= i <= j <= t.len(),
        forall|k: int| i <= k < j ==> t[k] != QUOTE,
    ensures
        string_end(t, i) == string_end(t, j),
    decreases j - i,
{
    if i < j {
        lemma_string_end_skips(t, i + 1, j);
    }
}

/// A normalized header is left as it is by normalizing again: the time
/// stamp written is the only thing normalization changes, and it changes it
/// to itself.
pub proof fn law_time_stamp_normalization_is_idempotent(t: Seq<u8>)
    ensures
        normalize_time_stamp_spec(normalize_time_stamp_spec(t)) == normalize_time_stamp_spec(t),
{
    let f = file_name_open();
    match find_from(t, f, 0) {
        None => {},
        Some(s) => {
            lemma_find_from_bounds(t, f, 0);
            match next_quoted(t, s + f.len()) {
                None => {},
                Some(first) => {
                    let (o1, c1) = first;
                    lemma_find_byte_from_bounds(t, QUOTE, s + f.len());
                    lemma_string_end_bound(t, o1 + 1);
                    match next_quoted(t, c1 + 1) {
                        None => {},
                        Some(second) => {
                            let (o, c) = second;
                            lemma_find_byte_from_bounds(t, QUOTE, c1 + 1);
                            lemma_string_end_bound(t, o + 1);
                            let ts = time_stamp();
                            let u = t.subrange(0, o + 1) + ts + t.subrange(c, t.len() as int);
                            assert(normalize_time_stamp_spec(t) == u);
                            assert(forall|k: int| 0 <= k <= o ==> #[trigger] u[k] == t[k]);
                            lemma_find_from_agree(t, u, f, 0, s);
                            lemma_find_byte_agree(t, u, QUOTE, s + f.len(), o1);
                            if c1 < t.len() {
                                lemma_string_end_closes(t, o1 + 1);
                            }
                            lemma_string_end_agree(t, u, o1 + 1);
                            assert(next_quoted(u, s + f.len()) == Some((o1, c1)));
                            lemma_find_byte_agree(t, u, QUOTE, c1 + 1, o);
                            assert forall|k: int| o + 1 <= k < o + 1 + ts.len() implies u[k]
                                != QUOTE by {
                                assert(u[k] == ts[k - o - 1]);
                            }
                            lemma_string_end_skips(u, o + 1, o + 1 + ts.len());
                            if c < t.len() {
                                lemma_string_end_closes(t, o + 1);
                                assert(u[o + 1 + ts.len()] == t[c]);
                                if o + 2 + ts.len() < u.len() {
                                    assert(u[o + 2 + ts.len()] == t[c + 1]);
                                }
                            }
                            assert(string_end(u, o + 1 + ts.len()) == o + 1 + ts.len());
                            assert(next_quoted(u, c1 + 1) == Some((o, o + 1 + ts.len())));
                            assert(u.subrange(0, o + 1) + ts + u.subrange(
                                o + 1 + ts.len(),
                                u.len() as int,
                            ) =~= u);
                        },
                    }
                },
            }
        },
    }
}

proof fn lemma_replace_suffix(a: Seq<u8>, b: Seq<u8>, k: int)
    requires
        0 <= k <= b.len(),
    ensures
        replace_products_from(a + b, a.len() + k) == replace_products_from(b, k),
    decreases b.len() + 1 - k,
{
    let ab = a + b;
    let p = product_prefix();
    lemma_find_from_suffix(a, b, p, k);
    lemma_find_from_bounds(b, p, k);
    match find_from(b, p, k) {
        None => {
            assert(ab.subrange(a.len() + k, ab.len() as int) =~= b.subrange(k, b.len() as int));
        },
        Some(s) => {
            lemma_find_byte_suffix(a, b, QUOTE, s + p.len());
            lemma_find_byte_from_bounds(b, QUOTE, s + p.len());
            match find_byte_from(b, QUOTE, s + p.len()) {
                None => {
                    assert(ab.subrange(a.len() + k, ab.len() as int) =~= b.subrange(k, b.len() as int));
                },
                Some(q) => {
                    assert(ab.subrange(a.len() + k, a.len() + s) =~= b.subrange(k, s));
                    lemma_replace_suffix(a, b, q);
                },
            }
        },
    }
}

proof fn lemma_replace_skip(x: Seq<u8>, m: int)
    requires
        0 <= m <= x.len(),
        forall|j: int| 0 <= j < m ==> !#[trigger] occurs_at(x, product_prefix(), j),
    ensures
        replace_products_from(x, 0) == x.subrange(0, m) + replace_products_from(x, m),
{
    let p = product_prefix();
    lemma_find_from_skip(x, p, 0, m);
    lemma_find_from_bounds(x, p, m);
    match find_from(x, p, m) {
        None => {
            assert(x.subrange(0, x.len() as int) =~= x.subrange(0, m) + x.subrange(m, x.len() as int));
        },
        Some(s) => {
            lemma_find_byte_from_bounds(x, QUOTE, s + p.len());
            match find_byte_from(x, QUOTE, s + p.len()) {
                None => {
                    assert(x.subrange(0, x.len() as int) =~= x.subrange(0, m) + x.subrange(
                        m,
                        x.len() as int,
                    ));
                },
                Some(q) => {
                    assert(x.subrange(0, s) =~= x.subrange(0, m) + x.subrange(m, s));
                },
            }
        },
    }
}

/// The translator prefix holds no `M`, and `MusubiCAD` no `O`: a prefix
/// match can neither cover the start of a replaced name nor start inside
/// one.
proof fn lemma_name_breaks_prefix(head: Seq<u8>, tail: Seq<u8>, j: int)
    requires
        0 <= j < head.len() + product_name().len(),
        j + product_prefix().len() > head.len(),
    ensures
        !occurs_at(head + product_name() + tail, product_prefix(), j),
{
    let p = product_prefix();
    let n = product_name();
    let out = head + n + tail;
    if occurs_at(out, p, j) {
        if j < head.len() {
            assert(out[head.len() as int] == 77u8);
            assert(p[head.len() - j] == out.subrange(j, j + p.len())[head.len() - j]);
        } else {
            assert(out[j] == n[j - head.len()]);
            assert(p[0] == out.subrange(j, j + p.len())[0]);
        }
    }
}

proof fn lemma_no_prefix_before_name(t: Seq<u8>, r: int, s: int, tail: Seq<u8>)
    requires
        0 <= r <= s <= t.len(),
        forall|j: int| r <= j < s ==> !#[trigger] occurs_at(t, product_prefix(), j),
    ensures
        forall|j: int|
            0 <= j < (s - r) + product_name().len() ==> !#[trigger] occurs_at(
                t.subrange(r, s) + product_name() + tail,
                product_prefix(),
                j,
            ),
{
    let p = product_prefix();
    let head = t.subrange(r, s);
    let out = head + product_name() + tail;
    assert forall|j: int| 0 <= j < (s - r) + product_name().len() implies !#[trigger] occurs_at(
        out,
        p,
        j,
    ) by {
        if j + p.len() <= head.len() {
            if occurs_at(out, p, j) {
                assert(t.subrange(r + j, r + j + p.len()) =~= out.subrange(j, j + p.len()));
                assert(occurs_at(t, p, r + j));
            }
        } else {
            lemma_name_breaks_prefix(head, tail, j);
        }
    }
}

proof fn lemma_replaced_is_fixed(t: Seq<u8>, r: int)
    requires
        0 <= r <= t.len(),
    ensures
        replace_products_from(replace_products_from(t, r), 0) == replace_products_from(t, r),
    decreases t.len() + 1 - r,
{
    let p = product_prefix();
    let n = product_name();
    let out = replace_products_from(t, r);
    lemma_find_from_bounds(t, p, r);
    lemma_find_from_first(t, p, r);
    let rest = t.subrange(r, t.len() as int);
    let front = t.subrange(0, r);
    assert(t =~= front + rest);
    match find_from(t, p, r) {
        None => {
            lemma_find_from_suffix(front, rest, p, 0);
            assert(out == rest);
        },
        Some(s) => {
            match find_byte_from(t, QUOTE, s + p.len()) {
                None => {
                    lemma_find_from_suffix(front, rest, p, 0);
                    lemma_find_byte_suffix(front, rest, QUOTE, s - r + p.len());
                    assert(out == rest);
                },
                Some(q) => {
                    lemma_find_byte_from_bounds(t, QUOTE, s + p.len());
                    let head = t.subrange(r, s);
                    let tail = replace_products_from(t, q);
                    assert(out == head + n + tail);
                    lemma_replaced_is_fixed(t, q);
                    lemma_no_prefix_before_name(t, r, s, tail);
                    let m: int = (head.len() + n.len()) as int;
                    lemma_replace_skip(out, m);
                    assert(out.subrange(0, m) =~= head + n);
                    assert(out.subrange(m, out.len() as int) =~= tail);
                    assert(out =~= (head + n) + tail);
                    lemma_replace_suffix(head + n, tail, 0);
                },
            }
        },
    }
}

/// Replacing product names a second time changes nothing: `MusubiCAD`
/// shares no byte sequence with the translator prefix that could start a
/// new match.
pub proof fn law_product_replacement_is_idempotent(t: Seq<u8>)
    ensures
        replace_products(replace_products(t)) == replace_products(t),
{
    lemma_replaced_is_fixed(t, 0);
}

/// No translator prefix of the text has a quote after it, so replacement
/// finds nothing to do.
pub open spec fn prefixes_unquoted(t: Seq<u8>) -> bool {
    forall|j: int, k: int|
        #[trigger] occurs_at(t, product_prefix(), j) && j + product_prefix().len() <= k < t.len()
            ==> #[trigger] t[k] != QUOTE
}

proof fn lemma_find_byte_none(t: Seq<u8>, b: u8, from: int)
    requires
        0 <= from,
    ensures
        find_byte_from(t, b, from) is None <==> forall|k: int| from <= k < t.len() ==> t[k] != b,
    decreases t.len() - from,
{
    if from < t.len() && t[from] != b {
        lemma_find_byte_none(t, b, from + 1);
    }
}

proof fn lemma_prefix_has_no_quote()
    ensures
        forall|i: int| 0 <= i < product_prefix().len() ==> product_prefix()[i] != QUOTE,
        product_prefix()[0] == 79u8,
        product_prefix().len() == 29,
{
}

proof fn lemma_stamp_has_no_prefix_start()
    ensures
        forall|i: int| 0 <= i < time_stamp().len() ==> time_stamp()[i] != 79u8,
        forall|i: int| 0 <= i < time_stamp().len() ==> time_stamp()[i] != QUOTE,
        time_stamp().len() == 19,
{
}

proof fn lemma_unquoted_is_fixed(t: Seq<u8>)
    requires
        prefixes_unquoted(t),
    ensures
        replace_products(t) == t,
{
    let p = product_prefix();
    lemma_find_from_bounds(t, p, 0);
    match find_from(t, p, 0) {
        None => {
            assert(t.subrange(0, t.len() as int) =~= t);
        },
        Some(s) => {
            assert(occurs_at(t, p, s));
            assert forall|k: int| s + p.len() <= k < t.len() implies t[k] != QUOTE by {
                assert(occurs_at(t, p, s) && t[k] == t[k]);
            }
            lemma_find_byte_none(t, QUOTE, s + p.len());
            assert(t.subrange(0, t.len() as int) =~= t);
        },
    }
}

proof fn lemma_fixed_is_unquoted(t: Seq<u8>)
    requires
        replace_products(t) == t,
    ensures
        prefixes_unquoted(t),
{
    let p = product_prefix();
    let n = product_name();
    assert forall|j: int, k: int|
        #[trigger] occurs_at(t, p, j) && j + p.len() <= k < t.len() implies #[trigger] t[k]
        != QUOTE by {
        if t[k] == QUOTE {
            lemma_find_from_first(t, p, 0);
            lemma_find_from_bounds(t, p, 0);
            let s = find_from(t, p, 0)->0;
            assert(s <= j);
            assert(false) by {
                lemma_find_byte_none(t, QUOTE, s + p.len());
                lemma_find_byte_from_bounds(t, QUOTE, s + p.len());
                let q = find_byte_from(t, QUOTE, s + p.len())->0;
                let out = t.subrange(0, s) + n + replace_products_from(t, q);
                assert(replace_products(t) == out);
                assert(out[s] == n[0]);
                assert(t[s] == t.subrange(s, s + p.len())[0]);
                lemma_prefix_has_no_quote();
            }
        }
    }
}

proof fn lemma_stamp_keeps_unquoted(y: Seq<u8>)
    requires
        prefixes_unquoted(y),
    ensures
        prefixes_unquoted(normalize_time_stamp_spec(y)),
{
    let f = file_name_open();
    let p = product_prefix();
    let ts = time_stamp();
    lemma_prefix_has_no_quote();
    lemma_stamp_has_no_prefix_start();
    match find_from(y, f, 0) {
        None => {},
        Some(s) => {
            match next_quoted(y, s + f.len()) {
                None => {},
                Some(first) => {
                    match next_quoted(y, first.1 + 1) {
                        None => {},
                        Some(second) => {
                            let (o, c) = second;
                            lemma_find_from_bounds(y, f, 0);
                            lemma_find_byte_from_bounds(y, QUOTE, s + f.len());
                            lemma_string_end_bound(y, first.0 + 1);
                            lemma_find_byte_from_bounds(y, QUOTE, first.1 + 1);
                            lemma_string_end_bound(y, o + 1);
                            let u = y.subrange(0, o + 1) + ts + y.subrange(c, y.len() as int);
                            assert(normalize_time_stamp_spec(y) == u);
                            let shift = o + 1 + ts.len();
                            assert forall|j: int, k: int|
                                #[trigger] occurs_at(u, p, j) && j + p.len() <= k < u.len()
                                    implies #[trigger] u[k] != QUOTE by {
                                assert(u[j] == u.subrange(j, j + p.len())[0]);
                                if j + p.len() <= o {
                                    assert(y.subrange(j, j + p.len()) =~= u.subrange(j, j + p.len()));
                                    assert(occurs_at(y, p, j) && y[o] == QUOTE);
                                } else if j <= o {
                                    assert(u[o] == y[o]);
                                    assert(u[o] == u.subrange(j, j + p.len())[o - j]);
                                } else if j < shift {
                                    assert(u[j] == ts[j - o - 1]);
                                } else {
                                    let j2 = j - shift + c;
                                    let k2 = k - shift + c;
                                    assert(y.subrange(j2, j2 + p.len()) =~= u.subrange(j, j + p.len()));
                                    assert(occurs_at(y, p, j2));
                                    assert(u[k] == y[k2]);
                                    assert(occurs_at(y, p, j2) && y[k2] == y[k2]);
                                }
                            }
                        },
                    }
                },
            }
        },
    }
}

/// Normalizing a STEP header's text a second time changes nothing: neither
/// the product names written nor the time stamp written give the other
/// step anything to do. As `normalize_step_header` returns valid UTF-8,
/// which it reads back unchanged, normalizing its output again returns that
/// output.
pub proof fn law_header_normalization_is_idempotent(t: Seq<u8>)
    ensures
        normalize_time_stamp_spec(replace_products(normalize_time_stamp_spec(replace_products(t))))
            == normalize_time_stamp_spec(replace_products(t)),
{
    let y = replace_products(t);
    law_product_replacement_is_idempotent(t);
    lemma_fixed_is_unquoted(y);
    lemma_stamp_keeps_unquoted(y);
    lemma_unquoted_is_fixed(normalize_time_stamp_spec(y));
    law_time_stamp_normalization_is_idempotent(y);
}

// ---------------------------------------------------------------------------
// Normalized text stays UTF-8
// ---------------------------------------------------------------------------

/// Every byte is ASCII.
pub open spec fn all_ascii(s: Seq<u8>) -> bool {
    forall|i: int| 0 <= i < s.len() ==> #[trigger] s[i] < 0x80
}

proof fn lemma_ascii_is_utf8(s: Seq<u8>)
    requires
        all_ascii(s),
    ensures
        valid_utf8(s),
    decreases s.len(),
{
    if s.len() > 0 {
        assert(s[0] < 0x80);
        let rest = pop_first_scalar(s);
        assert(rest =~= s.subrange(1, s.len() as int));
        assert(all_ascii(rest)) by {
            assert forall|i: int| 0 <= i < rest.len() implies #[trigger] rest[i] < 0x80 by {
                assert(rest[i] == s[i + 1]);
            }
        }
        lemma_ascii_is_utf8(rest);
    }
}

/// The first scalar of `a + b` is the first scalar of `a`.
proof fn lemma_first_scalar_of_concat(a: Seq<u8>, b: Seq<u8>)
    requires
        a.len() > 0,
        valid_first_scalar(a),
    ensures
        valid_first_scalar(a + b),
        length_of_first_scalar(a + b) == length_of_first_scalar(a),
        pop_first_scalar(a + b) == pop_first_scalar(a) + b,
{
    let ab = a + b;
    assert(ab[0] == a[0]);
    if a.len() >= 2 {
        assert(ab[1] == a[1]);
    }
    if a.len() >= 3 {
        assert(ab[2] == a[2]);
    }
    if a.len() >= 4 {
        assert(ab[3] == a[3]);
    }
    assert(pop_first_scalar(ab) =~= pop_first_scalar(a) + b);
}

proof fn lemma_concat_utf8(a: Seq<u8>, b: Seq<u8>)
    requires
        valid_utf8(a),
        valid_utf8(b),
    ensures
        valid_utf8(a + b),
    decreases a.len(),
{
    if a.len() == 0 {
        assert(a + b =~= b);
    } else {
        lemma_first_scalar_of_concat(a, b);
        lemma_concat_utf8(pop_first_scalar(a), b);
    }
}

/// Valid UTF-8 splits into valid UTF-8 at an ASCII byte (or at the end).
proof fn lemma_split_utf8(t: Seq<u8>, i: int)
    requires
        valid_utf8(t),
        0 <= i <= t.len(),
        i < t.len() ==> t[i] < 0x80,
    ensures
        valid_utf8(t.subrange(0, i)),
        valid_utf8(t.subrange(i, t.len() as int)),
    decreases t.len(),
{
    if i == 0 {
        assert(t.subrange(0, 0) =~= Seq::<u8>::empty());
        assert(t.subrange(0, t.len() as int) =~= t);
    } else {
        let n = length_of_first_scalar(t);
        let rest = pop_first_scalar(t);
        assert(n <= i) by {
            if n > i {
                assert(is_continuation_byte(t[i]));
            }
        }
        lemma_split_utf8(rest, i - n);
        assert(rest.subrange(i - n, rest.len() as int) =~= t.subrange(i, t.len() as int));
        let head = t.subrange(0, i);
        assert(head =~= t.subrange(0, n) + rest.subrange(0, i - n));
        let first = t.subrange(0, n);
        assert(first[0] == t[0]);
        if n >= 2 {
            assert(first[1] == t[1]);
        }
        if n >= 3 {
            assert(first[2] == t[2]);
        }
        if n >= 4 {
            assert(first[3] == t[3]);
        }
        lemma_first_scalar_of_concat(first, rest.subrange(0, i - n));
        assert(pop_first_scalar(t.subrange(0, n)) =~= Seq::<u8>::empty());
        assert(pop_first_scalar(head) =~= rest.subrange(0, i - n));
    }
}

proof fn lemma_replaced_utf8(t: Seq<u8>, r: int)
    requires
        0 <= r <= t.len(),
        valid_utf8(t.subrange(r, t.len() as int)),
    ensures
        valid_utf8(replace_products_from(t, r)),
    decreases t.len() + 1 - r,
{
    let p = product_prefix();
    lemma_find_from_bounds(t, p, r);
    match find_from(t, p, r) {
        None => {},
        Some(s) => {
            lemma_find_byte_from_bounds(t, QUOTE, s + p.len());
            match find_byte_from(t, QUOTE, s + p.len()) {
                None => {},
                Some(q) => {
                    let tail = t.subrange(r, t.len() as int);
                    lemma_prefix_has_no_quote();
                    assert(t[s] == t.subrange(s, s + p.len())[0]);
                    assert(tail[s - r] == t[s]);
                    lemma_split_utf8(tail, s - r);
                    assert(tail.subrange(0, s - r) =~= t.subrange(r, s));
                    assert(tail[q - r] == t[q]);
                    lemma_split_utf8(tail, q - r);
                    assert(tail.subrange(q - r, tail.len() as int) =~= t.subrange(q, t.len() as int));
                    lemma_replaced_utf8(t, q);
                    assert(all_ascii(product_name()));
                    lemma_ascii_is_utf8(product_name());
                    lemma_concat_utf8(t.subrange(r, s), product_name());
                    lemma_concat_utf8(t.subrange(r, s) + product_name(), replace_products_from(t, q));
                },
            }
        },
    }
}

proof fn lemma_stamped_utf8(y: Seq<u8>)
    requires
        valid_utf8(y),
    ensures
        valid_utf8(normalize_time_stamp_spec(y)),
{
    let f = file_name_open();
    let ts = time_stamp();
    match find_from(y, f, 0) {
        None => {},
        Some(s) => {
            match next_quoted(y, s + f.len()) {
                None => {},
                Some(first) => {
                    match next_quoted(y, first.1 + 1) {
                        None => {},
                        Some(second) => {
                            let (o, c) = second;
                            lemma_find_from_bounds(y, f, 0);
                            lemma_find_byte_from_bounds(y, QUOTE, s + f.len());
                            lemma_string_end_bound(y, first.0 + 1);
                            lemma_find_byte_from_bounds(y, QUOTE, first.1 + 1);
                            lemma_string_end_bound(y, o + 1);
                            if c < y.len() {
                                lemma_string_end_closes(y, o + 1);
                            }
                            lemma_split_utf8(y, o);
                            lemma_split_utf8(y, c);
                            let q = seq![QUOTE];
                            assert(all_ascii(q));
                            lemma_ascii_is_utf8(q);
                            assert(all_ascii(ts));
                            lemma_ascii_is_utf8(ts);
                            assert(y.subrange(0, o + 1) =~= y.subrange(0, o) + q);
                            lemma_concat_utf8(y.subrange(0, o), q);
                            lemma_concat_utf8(y.subrange(0, o + 1), ts);
                            lemma_concat_utf8(y.subrange(0, o + 1) + ts, y.subrange(c, y.len() as int));
                        },
                    }
                },
            }
        },
    }
}

/// Normalizing keeps valid UTF-8 text valid: every splice sits at an ASCII
/// byte and puts in ASCII bytes.
pub proof fn lemma_normalized_text_is_utf8(t: Seq<u8>)
    requires
        valid_utf8(t),
    ensures
        valid_utf8(replace_products(t)),
        valid_utf8(normalize_time_stamp_spec(replace_products(t))),
{
    assert(t.subrange(0, t.len() as int) =~= t);
    lemma_replaced_utf8(t, 0);
    lemma_stamped_utf8(replace_products(t));
}

/// Text with no `FILE_NAME(` entity and no translator product name is left
/// exactly as it is: there is neither a time stamp nor a name to replace.
pub proof fn law_text_without_header_markers_is_unchanged(t: Seq<u8>)
    requires
        forall|j: int| !occurs_at(t, file_name_open(), j),
        forall|j: int| !occurs_at(t, product_prefix(), j),
    ensures
        normalize_time_stamp_spec(replace_products(t)) == t,
{
    lemma_find_from_bounds(t, product_prefix(), 0);
    lemma_find_from_bounds(t, file_name_open(), 0);
    assert(replace_products(t) =~= t);
    lemma_find_from_bounds(replace_products(t), file_name_open(), 0);
}

} // verus!
