//! Lexicographic order of texts (the order of `str::cmp`: UTF-8 keeps the
//! order of code points, so comparing bytes and comparing characters agree).
use vstd::prelude::*;
use crate::refs::strings_view;

verus! {

/// `a` sorts strictly before `b`.
pub open spec fn lex_lt(a: Seq<char>, b: Seq<char>) -> bool
    decreases a.len(),
{
    if a.len() == 0 {
        b.len() > 0
    } else if b.len() == 0 {
        false
    } else if a[0] != b[0] {
        (a[0] as u32) < (b[0] as u32)
    } else {
        lex_lt(a.drop_first(), b.drop_first())
    }
}

pub proof fn lemma_lex_irreflexive(a: Seq<char>)
    ensures
        !lex_lt(a, a),
    decreases a.len(),
{
    if a.len() > 0 {
        lemma_lex_irreflexive(a.drop_first());
    }
}

pub proof fn lemma_lex_asymmetric(a: Seq<char>, b: Seq<char>)
    ensures
        !(lex_lt(a, b) && lex_lt(b, a)),
    decreases a.len(),
{
    if a.len() > 0 && b.len() > 0 && a[0] == b[0] {
        lemma_lex_asymmetric(a.drop_first(), b.drop_first());
    }
}

pub proof fn lemma_lex_total(a: Seq<char>, b: Seq<char>)
    ensures
        a != b ==> lex_lt(a, b) || lex_lt(b, a),
    decreases a.len(),
{
    if a.len() > 0 && b.len() > 0 {
        if a[0] == b[0] {
            lemma_lex_total(a.drop_first(), b.drop_first());
            if a.drop_first() == b.drop_first() {
                assert(a =~= seq![a[0]] + a.drop_first());
                assert(b =~= seq![b[0]] + b.drop_first());
            }
        } else {
            vstd::utf8::char_u32_cast(a[0], a[0] as u32);
            vstd::utf8::char_u32_cast(b[0], b[0] as u32);
            assert((a[0] as u32) != (b[0] as u32));
        }
    } else if a.len() == 0 && b.len() == 0 {
        assert(a =~= b);
    }
}

pub proof fn lemma_lex_transitive(a: Seq<char>, b: Seq<char>, c: Seq<char>)
    requires
        lex_lt(a, b),
        lex_lt(b, c),
    ensures
        lex_lt(a, c),
    decreases a.len(),
{
    if a.len() > 0 && b.len() > 0 && c.len() > 0 && a[0] == b[0] && b[0] == c[0] {
        lemma_lex_transitive(a.drop_first(), b.drop_first(), c.drop_first());
    }
}

/// `a` sorts strictly before `b`.
pub fn str_lt(a: &str, b: &str) -> (r: bool)
    ensures
        r == lex_lt(a@, b@),
{
    let x = crate::text::chars_of(a);
    let y = crate::text::chars_of(b);
    let mut i: usize = 0;
    assert(x@.subrange(0, x@.len() as int) =~= x@);
    assert(y@.subrange(0, y@.len() as int) =~= y@);
    while i < x.len() && i < y.len() && x[i] == y[i]
        invariant
            x@ == a@,
            y@ == b@,
            i <= x.len(),
            i <= y.len(),
            lex_lt(a@, b@) == lex_lt(x@.subrange(i as int, x@.len() as int), y@.subrange(
                i as int,
                y@.len() as int,
            )),
        decreases x.len() - i,
    {
        proof {
            let xs = x@.subrange(i as int, x@.len() as int);
            let ys = y@.subrange(i as int, y@.len() as int);
            assert(xs.drop_first() =~= x@.subrange(i + 1, x@.len() as int));
            assert(ys.drop_first() =~= y@.subrange(i + 1, y@.len() as int));
        }
        i = i + 1;
    }
    if i == x.len() {
        i < y.len()
    } else if i == y.len() {
        false
    } else {
        assert(x@.subrange(i as int, x@.len() as int)[0] == x@[i as int]);
        assert(y@.subrange(i as int, y@.len() as int)[0] == y@[i as int]);
        (x[i] as u32) < (y[i] as u32)
    }
}

/// A sequence of texts in strictly increasing order (hence without repeats).
pub open spec fn strictly_sorted(s: Seq<Seq<char>>) -> bool {
    forall|i: int, j: int| 0 <= i < j < s.len() ==> lex_lt(#[trigger] s[i], #[trigger] s[j])
}

/// The position of the first text of `s` that is not below `x`
/// (`s.len()` when every text is below it).
pub open spec fn first_not_below(s: Seq<Seq<char>>, x: Seq<char>) -> int
    decreases s.len(),
{
    if s.len() == 0 {
        0
    } else if !lex_lt(s[0], x) {
        0
    } else {
        1 + first_not_below(s.drop_first(), x)
    }
}

/// `x` put into its place in `s`, unless `s` already holds it.
pub open spec fn sorted_insert(s: Seq<Seq<char>>, x: Seq<char>) -> Seq<Seq<char>> {
    if s.contains(x) {
        s
    } else {
        s.insert(first_not_below(s, x), x)
    }
}

/// Each text of `xs`, in turn, put into its place in `s`.
pub open spec fn sorted_insert_all(s: Seq<Seq<char>>, xs: Seq<Seq<char>>) -> Seq<Seq<char>>
    decreases xs.len(),
{
    if xs.len() == 0 {
        s
    } else {
        sorted_insert(sorted_insert_all(s, xs.drop_last()), xs.last())
    }
}

proof fn lemma_first_not_below(s: Seq<Seq<char>>, x: Seq<char>, i: int)
    requires
        0 <= i <= s.len(),
        forall|k: int| 0 <= k < i ==> lex_lt(#[trigger] s[k], x),
        i == s.len() || !lex_lt(s[i], x),
    ensures
        first_not_below(s, x) == i,
    decreases i,
{
    if i > 0 {
        assert(lex_lt(s[0], x));
        let t = s.drop_first();
        assert forall|k: int| 0 <= k < i - 1 implies lex_lt(#[trigger] t[k], x) by {
            assert(t[k] == s[k + 1]);
        }
        if i - 1 < t.len() {
            assert(t[i - 1] == s[i]);
        }
        lemma_first_not_below(t, x, i - 1);
    }
}

/// Insert `x` into a strictly sorted vector of texts unless it is there.
pub fn insert_sorted(v: &mut Vec<String>, x: &str)
    requires
        strictly_sorted(strings_view(old(v)@)),
    ensures
        strictly_sorted(strings_view(final(v)@)),
        strings_view(final(v)@) == sorted_insert(strings_view(old(v)@), x@),
        forall|e: Seq<char>| #[trigger] strings_view(final(v)@).contains(e) <==> (strings_view(
            old(v)@,
        ).contains(e) || e == x@),
{
    let ghost old_view = strings_view(v@);
    let mut i: usize = 0;
    while i < v.len() && str_lt(v[i].as_str(), x)
        invariant
            i <= v.len(),
            strings_view(v@) == old_view,
            forall|k: int| 0 <= k < i ==> lex_lt(#[trigger] old_view[k], x@),
        decreases v.len() - i,
    {
        i = i + 1;
    }
    if i < v.len() && crate::text::str_eq(v[i].as_str(), x) {
        assert(old_view[i as int] == x@);
        return;
    }
    proof {
        if i < v.len() {
            lemma_lex_total(old_view[i as int], x@);
        }
        lemma_first_not_below(old_view, x@, i as int);
        if old_view.contains(x@) {
            let k = old_view.index_of(x@);
            if k < i {
                lemma_lex_irreflexive(x@);
            } else if k > i {
                lemma_lex_asymmetric(old_view[i as int], x@);
            }
        }
    }
    v.insert(i, x.to_owned());
    let ghost new_view = strings_view(v@);
    assert(new_view =~= old_view.insert(i as int, x@));
    assert forall|a: int, b: int| 0 <= a < b < new_view.len() implies lex_lt(
        #[trigger] new_view[a],
        #[trigger] new_view[b],
    ) by {
        if a < i && b == i {
        } else if a < i && b > i {
        } else if a == i && b > i {
            if b > i + 1 {
                lemma_lex_transitive(x@, old_view[i as int], old_view[b - 1]);
            }
        }
    }
    assert forall|e: Seq<char>| #[trigger] new_view.contains(e) <==> (old_view.contains(e) || e
        == x@) by {
        if old_view.contains(e) {
            let k = old_view.index_of(e);
            if k < i {
                assert(new_view[k] == e);
            } else {
                assert(new_view[k + 1] == e);
            }
        }
        if e == x@ {
            assert(new_view[i as int] == e);
        }
        if new_view.contains(e) {
            let k = new_view.index_of(e);
            if k < i {
                assert(old_view[k] == e);
            } else if k > i {
                assert(old_view[k - 1] == e);
            }
        }
    }
}

proof fn lemma_first_not_below_splits(s: Seq<Seq<char>>, x: Seq<char>)
    ensures
        0 <= first_not_below(s, x) <= s.len(),
        forall|k: int| 0 <= k < first_not_below(s, x) ==> lex_lt(#[trigger] s[k], x),
        first_not_below(s, x) < s.len() ==> !lex_lt(s[first_not_below(s, x)], x),
    decreases s.len(),
{
    if s.len() > 0 && lex_lt(s[0], x) {
        let t = s.drop_first();
        lemma_first_not_below_splits(t, x);
        assert forall|k: int| 0 <= k < first_not_below(s, x) implies lex_lt(#[trigger] s[k], x) by {
            if k > 0 {
                assert(s[k] == t[k - 1]);
            }
        }
        if first_not_below(s, x) < s.len() {
            assert(s[first_not_below(s, x)] == t[first_not_below(t, x)]);
        }
    }
}

/// Putting a text into its place keeps a strictly sorted sequence strictly
/// sorted, and adds exactly that text.
pub proof fn lemma_sorted_insert(s: Seq<Seq<char>>, x: Seq<char>)
    requires
        strictly_sorted(s),
    ensures
        strictly_sorted(sorted_insert(s, x)),
        forall|e: Seq<char>| #[trigger] sorted_insert(s, x).contains(e) <==> (s.contains(e) || e == x),
{
    if !s.contains(x) {
        let p = first_not_below(s, x);
        lemma_first_not_below_splits(s, x);
        let u = s.insert(p, x);
        if p < s.len() {
            lemma_lex_total(s[p], x);
        }
        assert forall|a: int, b: int| 0 <= a < b < u.len() implies lex_lt(#[trigger] u[a], #[trigger] u[b]) by {
            if a < p && b == p {
            } else if a < p && b > p {
                assert(u[a] == s[a] && u[b] == s[b - 1]);
            } else if a == p && b > p {
                assert(u[b] == s[b - 1]);
                if b > p + 1 {
                    lemma_lex_transitive(x, s[p], s[b - 1]);
                }
            } else if b < p {
                assert(u[a] == s[a] && u[b] == s[b]);
            } else {
                assert(u[a] == s[a - 1] && u[b] == s[b - 1]);
            }
        }
        assert forall|e: Seq<char>| #[trigger] u.contains(e) <==> (s.contains(e) || e == x) by {
            if s.contains(e) {
                let k = s.index_of(e);
                if k < p {
                    assert(u[k] == e);
                } else {
                    assert(u[k + 1] == e);
                }
            }
            if e == x {
                assert(u[p] == e);
            }
            if u.contains(e) {
                let k = u.index_of(e);
                if k < p {
                    assert(s[k] == e);
                } else if k > p {
                    assert(s[k - 1] == e);
                }
            }
        }
    }
}

/// Inserting texts one by one into an empty sequence gives them strictly
/// sorted, each once.
pub proof fn lemma_sorted_insert_all(xs: Seq<Seq<char>>)
    ensures
        strictly_sorted(sorted_insert_all(Seq::empty(), xs)),
        forall|e: Seq<char>| #[trigger] sorted_insert_all(Seq::empty(), xs).contains(e) <==> xs.contains(e),
    decreases xs.len(),
{
    if xs.len() > 0 {
        let prev = xs.drop_last();
        lemma_sorted_insert_all(prev);
        lemma_sorted_insert(sorted_insert_all(Seq::empty(), prev), xs.last());
        assert forall|e: Seq<char>| xs.contains(e) <==> (prev.contains(e) || e == xs.last()) by {
            if xs.contains(e) {
                let k = xs.index_of(e);
                if k < xs.len() - 1 {
                    assert(prev[k] == e);
                }
            }
            if prev.contains(e) {
                let k = prev.index_of(e);
                assert(xs[k] == e);
            }
        }
    }
}

} // verus!
