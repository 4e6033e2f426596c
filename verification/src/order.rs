//! The order projects are listed in: by the components of their file paths.
use vstd::prelude::*;
use crate::text::{chars_of, same_text};

verus! {

/// Text order: character by character, and a proper prefix first.
pub open spec fn text_less(a: Seq<char>, b: Seq<char>) -> bool
    decreases a.len(),
{
    if a.len() == 0 {
        b.len() > 0
    } else if b.len() == 0 {
        false
    } else if a[0] != b[0] {
        (a[0] as u32) < (b[0] as u32)
    } else {
        text_less(a.drop_first(), b.drop_first())
    }
}

/// Path order: component by component in text order, and a path that is a
/// proper prefix of another first.
pub open spec fn parts_less(a: Seq<Seq<char>>, b: Seq<Seq<char>>) -> bool
    decreases a.len(),
{
    if a.len() == 0 {
        b.len() > 0
    } else if b.len() == 0 {
        false
    } else if a[0] != b[0] {
        text_less(a[0], b[0])
    } else {
        parts_less(a.drop_first(), b.drop_first())
    }
}

proof fn lemma_text_less_irreflexive(a: Seq<char>)
    ensures
        !text_less(a, a),
    decreases a.len(),
{
    if a.len() > 0 {
        lemma_text_less_irreflexive(a.drop_first());
    }
}

proof fn lemma_text_less_asymmetric(a: Seq<char>, b: Seq<char>)
    requires
        text_less(a, b),
    ensures
        !text_less(b, a),
    decreases a.len(),
{
    if a.len() > 0 && b.len() > 0 && a[0] == b[0] {
        lemma_text_less_asymmetric(a.drop_first(), b.drop_first());
    }
}

proof fn lemma_text_less_transitive(a: Seq<char>, b: Seq<char>, c: Seq<char>)
    requires
        text_less(a, b),
        text_less(b, c),
    ensures
        text_less(a, c),
    decreases a.len(),
{
    if a.len() > 0 && b.len() > 0 && c.len() > 0 && a[0] == b[0] && b[0] == c[0] {
        lemma_text_less_transitive(a.drop_first(), b.drop_first(), c.drop_first());
    }
}

/// No path comes before itself.
pub proof fn lemma_parts_less_irreflexive(a: Seq<Seq<char>>)
    ensures
        !parts_less(a, a),
    decreases a.len(),
{
    if a.len() > 0 {
        lemma_parts_less_irreflexive(a.drop_first());
    }
}

/// Of two paths, at most one comes before the other.
pub proof fn lemma_parts_less_asymmetric(a: Seq<Seq<char>>, b: Seq<Seq<char>>)
    requires
        parts_less(a, b),
    ensures
        !parts_less(b, a),
    decreases a.len(),
{
    if a.len() > 0 && b.len() > 0 {
        if a[0] == b[0] {
            lemma_parts_less_asymmetric(a.drop_first(), b.drop_first());
        } else {
            lemma_text_less_asymmetric(a[0], b[0]);
        }
    }
}

/// Path order is transitive.
pub proof fn lemma_parts_less_transitive(a: Seq<Seq<char>>, b: Seq<Seq<char>>, c: Seq<Seq<char>>)
    requires
        parts_less(a, b),
        parts_less(b, c),
    ensures
        parts_less(a, c),
    decreases a.len(),
{
    if a.len() > 0 && b.len() > 0 && c.len() > 0 {
        if a[0] == b[0] && b[0] == c[0] {
            lemma_parts_less_transitive(a.drop_first(), b.drop_first(), c.drop_first());
        } else if a[0] != b[0] && b[0] != c[0] {
            lemma_text_less_transitive(a[0], b[0], c[0]);
            if a[0] == c[0] {
                lemma_text_less_asymmetric(a[0], b[0]);
            }
        }
    }
}

/// Whether `a` comes before `b` in text order.
fn text_before(a: &str, b: &str) -> (r: bool)
    ensures
        r == text_less(a@, b@),
{
    let x = chars_of(a);
    let y = chars_of(b);
    let mut i: usize = 0;
    assert(a@.skip(0) =~= a@ && b@.skip(0) =~= b@);
    while i < x.len() && i < y.len()
        invariant
            x@ == a@,
            y@ == b@,
            i <= x.len(),
            i <= y.len(),
            text_less(a@, b@) == text_less(a@.skip(i as int), b@.skip(i as int)),
        decreases x.len() - i,
    {
        if x[i] != y[i] {
            return (x[i] as u32) < (y[i] as u32);
        }
        assert(a@.skip(i as int).drop_first() =~= a@.skip(i + 1));
        assert(b@.skip(i as int).drop_first() =~= b@.skip(i + 1));
        i = i + 1;
    }
    i == x.len() && i < y.len()
}

/// Whether path `a` comes before path `b`, both given by their components.
fn parts_before(a: &Vec<String>, b: &Vec<String>) -> (r: bool)
    ensures
        r == parts_less(a.deep_view(), b.deep_view()),
{
    let ghost da = a.deep_view();
    let ghost db = b.deep_view();
    let mut i: usize = 0;
    assert(da.skip(0) =~= da && db.skip(0) =~= db);
    while i < a.len() && i < b.len()
        invariant
            da == a.deep_view(),
            db == b.deep_view(),
            i <= a.len(),
            i <= b.len(),
            parts_less(da, db) == parts_less(da.skip(i as int), db.skip(i as int)),
        decreases a.len() - i,
    {
        if !same_text(a[i].as_str(), b[i].as_str()) {
            return text_before(a[i].as_str(), b[i].as_str());
        }
        assert(da.skip(i as int).drop_first() =~= da.skip(i + 1));
        assert(db.skip(i as int).drop_first() =~= db.skip(i + 1));
        i = i + 1;
    }
    i == a.len() && i < b.len()
}

/// The order in which to list items whose paths have the components `keys`:
/// every index once, by path order, and items with the same path in the
/// order they were given.
pub fn sorted_order(keys: &Vec<Vec<String>>) -> (r: Vec<usize>)
    ensures
        r.len() == keys.len(),
        r@.no_duplicates(),
        forall|i: int| 0 <= i < r.len() ==> r@[i] < keys.len(),
        forall|i: int, j: int|
            0 <= i < j < r.len() ==> !parts_less(keys@[r@[j] as int].deep_view(), keys@[r@[i] as int].deep_view()),
        forall|i: int, j: int|
            0 <= i < j < r.len() && keys@[r@[i] as int].deep_view() == keys@[r@[j] as int].deep_view() ==> r@[i]
                < r@[j],
{
    let n = keys.len();
    let mut r: Vec<usize> = Vec::new();
    let mut k: usize = 0;
    while k < n
        invariant
            n == keys.len(),
            k <= n,
            r.len() == k,
            r@.no_duplicates(),
            forall|i: int| 0 <= i < r.len() ==> r@[i] < k,
            forall|i: int, j: int|
                0 <= i < j < r.len() ==> !parts_less(keys@[r@[j] as int].deep_view(), keys@[r@[i] as int].deep_view()),
            forall|i: int, j: int|
                0 <= i < j < r.len() && keys@[r@[i] as int].deep_view() == keys@[r@[j] as int].deep_view() ==> r@[i]
                    < r@[j],
        decreases n - k,
    {
        let mut pos: usize = 0;
        while pos < r.len() && !parts_before(&keys[k], &keys[r[pos]])
            invariant
                n == keys.len(),
                k < n,
                pos <= r.len(),
                forall|i: int| 0 <= i < r.len() ==> r@[i] < k,
                forall|q: int| 0 <= q < pos ==> !parts_less(keys@[k as int].deep_view(), keys@[r@[q] as int].deep_view()),
            decreases r.len() - pos,
        {
            pos = pos + 1;
        }
        let ghost old_r = r@;
        let ghost kk = keys@[k as int].deep_view();
        r.insert(pos, k);
        proof {
            let s = r@;
            assert(s =~= old_r.insert(pos as int, k));
            assert forall|i: int, j: int| 0 <= i < j < s.len() implies !parts_less(
                keys@[s[j] as int].deep_view(),
                keys@[s[i] as int].deep_view(),
            ) && (keys@[s[i] as int].deep_view() == keys@[s[j] as int].deep_view() ==> s[i] < s[j]) by {
                if j == pos {
                    assert(s[i] == old_r[i]);
                } else if i == pos {
                    let y = old_r[j - 1];
                    let x = old_r[pos as int];
                    assert(s[j] == y);
                    assert(parts_less(kk, keys@[x as int].deep_view()));
                    if parts_less(keys@[y as int].deep_view(), kk) {
                        lemma_parts_less_transitive(keys@[y as int].deep_view(), kk, keys@[x as int].deep_view());
                        if j - 1 == pos {
                            lemma_parts_less_asymmetric(kk, keys@[x as int].deep_view());
                        }
                    }
                    if keys@[y as int].deep_view() == kk {
                        if j - 1 == pos {
                            lemma_parts_less_irreflexive(kk);
                        }
                    }
                } else {
                    let i0 = if i < pos { i } else { i - 1 };
                    let j0 = if j < pos { j } else { j - 1 };
                    assert(s[i] == old_r[i0] && s[j] == old_r[j0]);
                }
            }
            assert forall|a: int, b: int| 0 <= a < s.len() && 0 <= b < s.len() && a != b implies s[a] != s[b] by {
                if a != pos && b != pos {
                    let a0 = if a < pos { a } else { a - 1 };
                    let b0 = if b < pos { b } else { b - 1 };
                    assert(s[a] == old_r[a0] && s[b] == old_r[b0]);
                } else if a == pos {
                    let b0 = if b < pos { b } else { b - 1 };
                    assert(s[b] == old_r[b0]);
                } else {
                    let a0 = if a < pos { a } else { a - 1 };
                    assert(s[a] == old_r[a0]);
                }
            }
            assert forall|i: int| 0 <= i < s.len() implies s[i] < k + 1 by {
                if i != pos {
                    let i0 = if i < pos { i } else { i - 1 };
                    assert(s[i] == old_r[i0]);
                }
            }
        }
        k = k + 1;
    }
    r
}

} // verus!
