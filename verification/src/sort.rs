//! Stable insertion sort of keyed items, for the deterministic orderings of
//! netlists and bills of materials.

use vstd::prelude::*;
use vstd::seq_lib::lemma_multiset_commutative;
use crate::natord::{Comparison, compare_nat, flip, lemma_natural_order_flip, natural_compare, natural_order};

verus! {

/// A sort key: a value with an executable comparison, described by a spec
/// function that reads the same either way round.
pub trait SortKey: Sized {
    /// How two keys compare.
    spec fn order(a: Self, b: Self) -> Comparison;

    /// Compares two keys.
    fn compare(&self, other: &Self) -> (c: Comparison)
        ensures
            c == Self::order(*self, *other);

    /// Comparing the other way round gives the opposite answer.
    proof fn lemma_order_flip(a: Self, b: Self)
        ensures
            Self::order(b, a) == flip(Self::order(a, b));
}

/// Every key is at most the next one.
pub open spec fn sorted_by_key<K: SortKey, T>(s: Seq<(K, T)>) -> bool {
    forall|i: int| 0 <= i < s.len() - 1 ==> K::order(#[trigger] s[i].0, s[i + 1].0) != Comparison::Greater
}

proof fn lemma_insert_multiset<A>(s: Seq<A>, p: int, x: A)
    requires
        0 <= p <= s.len(),
    ensures
        s.insert(p, x).to_multiset() == s.to_multiset().insert(x),
{
    broadcast use vstd::seq_lib::group_to_multiset_ensures;
    let a = s.subrange(0, p);
    let b = s.subrange(p, s.len() as int);
    lemma_multiset_commutative(a.push(x), b);
    lemma_multiset_commutative(a, b);
    assert(a + b =~= s);
    assert(a.push(x).to_multiset() =~= a.to_multiset().insert(x));
    assert(s.to_multiset().insert(x) =~= a.to_multiset().insert(x).add(b.to_multiset()));
}

proof fn lemma_move_keeps_multiset<A>(s0: Seq<A>, j: int, p: int)
    requires
        0 <= j < s0.len(),
        0 <= p <= j,
    ensures
        s0.remove(j).insert(p, s0[j]).to_multiset() == s0.to_multiset(),
{
    broadcast use vstd::seq_lib::group_to_multiset_ensures;
    let s1 = s0.remove(j);
    lemma_insert_multiset(s1, p, s0[j]);
    assert(s1.to_multiset() == s0.to_multiset().remove(s0[j]));
    assert(s0.to_multiset().count(s0[j]) > 0) by {
        assert(s0.contains(s0[j]));
    }
    assert(s0.to_multiset().remove(s0[j]).insert(s0[j]) =~= s0.to_multiset());
}

#[verifier::spinoff_prover]
#[verifier::rlimit(50)]
proof fn lemma_insert_keeps_sorted<K: SortKey, T>(s0: Seq<(K, T)>, j: int, p: int, v: Seq<(K, T)>)
    requires
        0 < j < s0.len(),
        0 <= p <= j,
        forall|i: int| 0 <= i < j - 1 ==> K::order(#[trigger] s0[i].0, s0[i + 1].0) != Comparison::Greater,
        p > 0 ==> K::order(s0.remove(j)[p - 1].0, s0[j].0) != Comparison::Greater,
        forall|t: int| p <= t < j ==> K::order(#[trigger] s0.remove(j)[t].0, s0[j].0) == Comparison::Greater,
        v == s0.remove(j).insert(p, s0[j]),
    ensures
        forall|i: int| 0 <= i < j ==> K::order(#[trigger] v[i].0, v[i + 1].0) != Comparison::Greater,
{
    let s1 = s0.remove(j);
    let x = s0[j];
    assert forall|i: int| 0 <= i < p implies #[trigger] v[i] == s0[i] by {
        assert(v[i] == s1.subrange(0, p)[i]);
        assert(s1[i] == s0.subrange(0, j)[i]);
    }
    assert(v[p] == x);
    assert forall|i: int| p < i <= j implies #[trigger] v[i] == s0[i - 1] by {
        assert(v[i] == s1.subrange(p, s1.len() as int)[i - p - 1]);
        assert(s1[i - 1] == s0.subrange(0, j)[i - 1]);
    }
    assert forall|t: int| p <= t < j implies #[trigger] s1[t] == s0[t] by {
        assert(s1[t] == s0.subrange(0, j)[t]);
    }
    if p > 0 {
        assert(s1[p - 1] == s0.subrange(0, j)[p - 1]);
    }
    assert forall|i: int| 0 <= i < j implies K::order(#[trigger] v[i].0, v[i + 1].0) != Comparison::Greater by {
        if i < p - 1 {
            assert(v[i] == s0[i] && v[i + 1] == s0[i + 1]);
        } else if i == p - 1 {
            assert(v[i] == s0[i]);
        } else if i == p {
            assert(v[i + 1] == s0[i]);
            assert(K::order(s1[p].0, x.0) == Comparison::Greater);
            K::lemma_order_flip(s1[p].0, x.0);
        } else {
            assert(v[i] == s0[i - 1] && v[i + 1] == s0[i]);
        }
    }
}

/// Where insertion puts `x` among the first `p` items of `t`: just after the
/// last of them that is not greater than `x`, scanning from the back.
pub open spec fn insert_pos<T>(t: Seq<T>, x: T, p: int, ord: spec_fn(T, T) -> Comparison) -> int
    decreases p,
{
    if p <= 0 {
        0
    } else if ord(t[p - 1], x) == Comparison::Greater {
        insert_pos(t, x, p - 1, ord)
    } else {
        p
    }
}

/// The stable insertion sort of `s` by `ord`: each item in turn is put just
/// after the sorted items that are not greater than it.
pub open spec fn isort_by<T>(s: Seq<T>, ord: spec_fn(T, T) -> Comparison) -> Seq<T>
    decreases s.len(),
{
    if s.len() == 0 {
        s
    } else {
        let t = isort_by(s.drop_last(), ord);
        t.insert(insert_pos(t, s.last(), t.len() as int, ord), s.last())
    }
}

/// Keyed pairs compared by their keys.
pub open spec fn by_key<K: SortKey, T>() -> spec_fn((K, T), (K, T)) -> Comparison {
    |a: (K, T), b: (K, T)| K::order(a.0, b.0)
}

proof fn lemma_insert_pos_range<T>(t: Seq<T>, x: T, p: int, ord: spec_fn(T, T) -> Comparison)
    ensures
        p >= 0 ==> 0 <= insert_pos(t, x, p, ord) <= p,
    decreases p,
{
    if p > 0 {
        lemma_insert_pos_range(t, x, p - 1, ord);
    }
}

/// Sorting keeps the length.
pub proof fn lemma_isort_len<T>(s: Seq<T>, ord: spec_fn(T, T) -> Comparison)
    ensures
        isort_by(s, ord).len() == s.len(),
    decreases s.len(),
{
    if s.len() > 0 {
        lemma_isort_len(s.drop_last(), ord);
        let t = isort_by(s.drop_last(), ord);
        lemma_insert_pos_range(t, s.last(), t.len() as int, ord);
    }
}

proof fn lemma_isort_step<T>(orig: Seq<T>, s0: Seq<T>, j: int, p: int, v: Seq<T>, ord: spec_fn(T, T) -> Comparison)
    requires
        s0.len() == orig.len(),
        0 <= p <= j < orig.len(),
        s0.take(j) == isort_by(orig.take(j), ord),
        s0.skip(j) == orig.skip(j),
        v == s0.remove(j).insert(p, s0[j]),
        insert_pos(isort_by(orig.take(j), ord), s0[j], j, ord) == p,
    ensures
        v.take(j + 1) == isort_by(orig.take(j + 1), ord),
        v.skip(j + 1) == orig.skip(j + 1),
{
    let t = isort_by(orig.take(j), ord);
    lemma_isort_len(orig.take(j), ord);
    assert(s0[j] == s0.skip(j)[0]);
    assert(orig[j] == orig.skip(j)[0]);
    let o1 = orig.take(j + 1);
    assert(o1.drop_last() =~= orig.take(j));
    assert(o1.last() == s0[j]);
    assert(isort_by(o1, ord) == t.insert(p, s0[j]));
    assert forall|k: int| 0 <= k < j + 1 implies #[trigger] v.take(j + 1)[k] == t.insert(p, s0[j])[k] by {
        if k < p {
            assert(s0.take(j)[k] == s0[k]);
        } else if k > p {
            assert(s0.take(j)[k - 1] == s0[k - 1]);
        }
    }
    assert(v.take(j + 1) =~= t.insert(p, s0[j]));
    assert forall|k: int| 0 <= k < orig.len() - j - 1 implies #[trigger] v.skip(j + 1)[k] == orig.skip(j + 1)[k] by {
        assert(s0[j + 1 + k] == s0.skip(j)[k + 1]);
        assert(orig[j + 1 + k] == orig.skip(j)[k + 1]);
    }
    assert(v.skip(j + 1) =~= orig.skip(j + 1));
}

proof fn lemma_insert_pos_map<A, B>(
    t: Seq<A>,
    x: A,
    k: int,
    f: spec_fn(A) -> B,
    p: spec_fn(A) -> bool,
    o1: spec_fn(A, A) -> Comparison,
    o2: spec_fn(B, B) -> Comparison,
)
    requires
        k <= t.len(),
        p(x),
        forall|i: int| 0 <= i < t.len() ==> p(#[trigger] t[i]),
        forall|a: A, b: A| p(a) && p(b) ==> #[trigger] o1(a, b) == o2(f(a), f(b)),
    ensures
        insert_pos(t, x, k, o1) == insert_pos(t.map_values(f), f(x), k, o2),
    decreases k,
{
    if k > 0 {
        assert(p(t[k - 1]));
        assert(o1(t[k - 1], x) == o2(f(t[k - 1]), f(x)));
        lemma_insert_pos_map(t, x, k - 1, f, p, o1, o2);
    }
}

/// Sorting and then mapping gives what mapping and then sorting gives, when
/// the two orders agree on the items.
pub proof fn lemma_isort_map<A, B>(
    s: Seq<A>,
    f: spec_fn(A) -> B,
    p: spec_fn(A) -> bool,
    o1: spec_fn(A, A) -> Comparison,
    o2: spec_fn(B, B) -> Comparison,
)
    requires
        forall|i: int| 0 <= i < s.len() ==> p(#[trigger] s[i]),
        forall|a: A, b: A| p(a) && p(b) ==> #[trigger] o1(a, b) == o2(f(a), f(b)),
    ensures
        isort_by(s, o1).map_values(f) == isort_by(s.map_values(f), o2),
        forall|i: int| 0 <= i < isort_by(s, o1).len() ==> p(#[trigger] isort_by(s, o1)[i]),
    decreases s.len(),
{
    lemma_isort_len(s, o1);
    if s.len() == 0 {
        assert(s.map_values(f) =~= Seq::<B>::empty());
        assert(isort_by(s, o1).map_values(f) =~= Seq::<B>::empty());
    } else {
        let s1 = s.drop_last();
        assert forall|i: int| 0 <= i < s1.len() implies p(#[trigger] s1[i]) by {
            assert(s1[i] == s[i]);
        }
        lemma_isort_map(s1, f, p, o1, o2);
        lemma_isort_len(s1, o1);
        let t = isort_by(s1, o1);
        let x = s.last();
        assert(p(x)) by {
            assert(x == s[s.len() - 1]);
        }
        lemma_insert_pos_map(t, x, t.len() as int, f, p, o1, o2);
        lemma_insert_pos_range(t, x, t.len() as int, o1);
        let ip = insert_pos(t, x, t.len() as int, o1);
        assert(s.map_values(f).drop_last() =~= s1.map_values(f));
        assert(s.map_values(f).last() == f(x));
        assert(t.map_values(f).len() == t.len());
        assert(t.insert(ip, x).map_values(f) =~= t.map_values(f).insert(ip, f(x)));
        assert forall|i: int| 0 <= i < t.insert(ip, x).len() implies p(#[trigger] t.insert(ip, x)[i]) by {
            if i < ip {
                assert(t.insert(ip, x)[i] == t[i]);
            } else if i > ip {
                assert(t.insert(ip, x)[i] == t[i - 1]);
            }
        }
    }
}

/// Sorts pairs by their keys, keeping the order of pairs whose keys are
/// equal; the result holds the same pairs.
#[verifier::spinoff_prover]
#[verifier::rlimit(100)]
pub fn sort_by_key<K: SortKey, T>(v: &mut Vec<(K, T)>)
    ensures
        final(v)@.to_multiset() == old(v)@.to_multiset(),
        final(v)@.len() == old(v)@.len(),
        sorted_by_key(final(v)@),
        final(v)@ == isort_by(old(v)@, by_key::<K, T>()),
{
    let ghost ord = by_key::<K, T>();
    let ghost orig = v@;
    let n = v.len();
    if n == 0 {
        return;
    }
    proof {
        assert(orig.take(1).drop_last() =~= Seq::<(K, T)>::empty());
        assert(isort_by(orig.take(1).drop_last(), ord) =~= Seq::<(K, T)>::empty());
        assert(orig.take(1) =~= v@.take(1));
    }
    let mut j: usize = 1;
    while j < n
        invariant
            1 <= j <= n,
            n == orig.len(),
            ord == by_key::<K, T>(),
            v@.len() == n,
            v@.to_multiset() == orig.to_multiset(),
            forall|i: int| 0 <= i < j - 1 ==> K::order(#[trigger] v@[i].0, v@[i + 1].0) != Comparison::Greater,
            v@.take(j as int) == isort_by(orig.take(j as int), ord),
            v@.skip(j as int) == orig.skip(j as int),
        decreases n - j,
    {
        let ghost s0 = v@;
        let ghost t = isort_by(orig.take(j as int), ord);
        proof {
            lemma_isort_len(orig.take(j as int), ord);
            assert(s0[j as int] == s0.skip(j as int)[0]);
            assert(orig[j as int] == orig.skip(j as int)[0]);
        }
        let x = v.remove(j);
        let ghost s1 = v@;
        proof { s0.remove_ensures(j as int); }
        let mut p = j;
        let mut done = false;
        while !done && p > 0
            invariant
                0 <= p <= j,
                j < n,
                s1.len() == n - 1,
                v@ == s1,
                x == s0[j as int],
                t.len() == j,
                forall|t2: int| 0 <= t2 < j ==> #[trigger] s1[t2] == t[t2],
                ord == by_key::<K, T>(),
                done ==> p > 0 && K::order(s1[p - 1].0, x.0) != Comparison::Greater,
                done ==> insert_pos(t, x, j as int, ord) == p,
                !done ==> insert_pos(t, x, j as int, ord) == insert_pos(t, x, p as int, ord),
                forall|t2: int| p <= t2 < j ==> K::order(#[trigger] s1[t2].0, x.0) == Comparison::Greater,
            decreases p + (if done { 0int } else { 1int }),
        {
            let c = v[p - 1].0.compare(&x.0);
            proof {
                assert(s1[p - 1] == t[p - 1]);
                assert(ord(t[p - 1], x) == K::order(t[p - 1].0, x.0));
            }
            if c == Comparison::Greater {
                p = p - 1;
            } else {
                done = true;
            }
        }
        let ghost px = x;
        v.insert(p, x);
        proof {
            assert(s1 == s0.remove(j as int));
            assert(px == s0[j as int]);
            assert(v@ == s0.remove(j as int).insert(p as int, s0[j as int]));
            lemma_move_keeps_multiset(s0, j as int, p as int);
            assert(p > 0 ==> K::order(s0.remove(j as int)[p - 1].0, s0[j as int].0) != Comparison::Greater);
            lemma_insert_keeps_sorted(s0, j as int, p as int, v@);
            lemma_isort_step(orig, s0, j as int, p as int, v@, ord);
        }
        j = j + 1;
    }
    proof {
        assert(v@.take(n as int) =~= v@);
        assert(orig.take(n as int) =~= orig);
    }
}


/// The items of keyed pairs, in order.
pub fn take_items<K, T>(v: Vec<(K, T)>) -> (r: Vec<T>)
    ensures
        r@ == v@.map_values(|e: (K, T)| e.1),
{
    let ghost orig = v@;
    let mut v = v;
    let mut r: Vec<T> = Vec::new();
    while v.len() > 0
        invariant
            r@.len() <= orig.len(),
            v@ == orig.skip(r@.len() as int),
            r@ == orig.take(r@.len() as int).map_values(|e: (K, T)| e.1),
        decreases v.len(),
    {
        proof {
            assert(v@[0] == orig[r@.len() as int]);
        }
        let (_k, item) = v.remove(0);
        r.push(item);
        proof {
            assert(v@ =~= orig.skip(r@.len() as int));
            assert(r@ =~= orig.take(r@.len() as int).map_values(|e: (K, T)| e.1));
        }
    }
    proof {
        assert(orig.take(orig.len() as int) =~= orig);
    }
    r
}

/// Two arrangements of the same items have the same length, the same
/// members, and are both free of duplicates or neither is.
pub proof fn lemma_same_items<A>(a: Seq<A>, b: Seq<A>)
    requires
        a.to_multiset() == b.to_multiset(),
    ensures
        a.len() == b.len(),
        forall|x: A| a.contains(x) <==> b.contains(x),
        a.no_duplicates() ==> b.no_duplicates(),
{
    broadcast use vstd::seq_lib::group_to_multiset_ensures;
    assert(a.to_multiset().len() == a.len());
    assert(b.to_multiset().len() == b.len());
    assert forall|x: A| a.contains(x) <==> b.contains(x) by {
        assert(a.contains(x) <==> a.to_multiset().count(x) > 0);
        assert(b.contains(x) <==> b.to_multiset().count(x) > 0);
    }
    if a.no_duplicates() {
        a.lemma_multiset_has_no_duplicates();
        b.lemma_multiset_has_no_duplicates_conv();
    }
}

/// Two arrangements of the same items, mapped by the same function, are
/// arrangements of the same images.
pub proof fn lemma_map_multiset<A, B>(s1: Seq<A>, s2: Seq<A>, f: spec_fn(A) -> B)
    requires
        s1.to_multiset() == s2.to_multiset(),
    ensures
        s1.map_values(f).to_multiset() == s2.map_values(f).to_multiset(),
    decreases s1.len(),
{
    broadcast use vstd::seq_lib::group_to_multiset_ensures;
    broadcast use vstd::multiset::group_multiset_axioms;
    if s1.len() == 0 {
        assert(s1.to_multiset().len() == s1.len());
        assert(s2.to_multiset().len() == s2.len());
        assert(s2.len() == 0);
        assert(s1.map_values(f) =~= Seq::<B>::empty());
        assert(s2.map_values(f) =~= Seq::<B>::empty());
    } else {
        let x = s1[0];
        assert(s1.contains(x));
        assert(s1.to_multiset().count(x) > 0);
        assert(s2.to_multiset().count(x) > 0);
        assert(s2.contains(x));
        let k = choose|k: int| 0 <= k < s2.len() && s2[k] == x;
        let r1 = s1.remove(0);
        let r2 = s2.remove(k);
        assert(r1.to_multiset() =~= r2.to_multiset());
        lemma_map_multiset(r1, r2, f);
        let m1 = s1.map_values(f);
        let m2 = s2.map_values(f);
        assert(m1.remove(0) =~= r1.map_values(f));
        assert(m2.remove(k) =~= r2.map_values(f));
        assert(m1[0] == f(x));
        assert(m2[k] == f(x));
        assert(m1.contains(f(x)));
        assert(m2.contains(f(x)));
        assert(m1.to_multiset() =~= m1.remove(0).to_multiset().insert(f(x)));
        assert(m2.to_multiset() =~= m2.remove(k).to_multiset().insert(f(x)));
    }
}

/// A property of every item of one arrangement holds of every item of any
/// other arrangement of the same items.
pub proof fn lemma_multiset_property<A>(s1: Seq<A>, s2: Seq<A>, p: spec_fn(A) -> bool)
    requires
        s1.to_multiset() == s2.to_multiset(),
        forall|i: int| 0 <= i < s1.len() ==> p(#[trigger] s1[i]),
    ensures
        forall|i: int| 0 <= i < s2.len() ==> p(#[trigger] s2[i]),
{
    broadcast use vstd::seq_lib::group_to_multiset_ensures;
    assert forall|i: int| 0 <= i < s2.len() implies p(#[trigger] s2[i]) by {
        assert(s2.contains(s2[i]));
        assert(s2.to_multiset().count(s2[i]) > 0);
        assert(s1.to_multiset().count(s2[i]) > 0);
        assert(s1.contains(s2[i]));
        let k = choose|k: int| 0 <= k < s1.len() && s1[k] == s2[i];
        assert(p(s1[k]));
    }
}

/// Lexicographic order of `a[i..]` and `b[i..]` by code point; a proper
/// prefix comes first.
pub open spec fn lex_order_from(a: Seq<char>, b: Seq<char>, i: int) -> Comparison
    decreases a.len() - i,
{
    if i < 0 || i > a.len() || i > b.len() {
        Comparison::Equal
    } else if i == a.len() && i == b.len() {
        Comparison::Equal
    } else if i == a.len() {
        Comparison::Less
    } else if i == b.len() {
        Comparison::Greater
    } else if a[i] < b[i] {
        Comparison::Less
    } else if a[i] > b[i] {
        Comparison::Greater
    } else {
        lex_order_from(a, b, i + 1)
    }
}

/// Lexicographic order of two strings by code point.
pub open spec fn lex_order(a: Seq<char>, b: Seq<char>) -> Comparison {
    lex_order_from(a, b, 0)
}

/// Lexicographic order reads the same either way round.
pub proof fn lemma_lex_order_flip(a: Seq<char>, b: Seq<char>, i: int)
    requires
        0 <= i,
    ensures
        lex_order_from(b, a, i) == flip(lex_order_from(a, b, i)),
    decreases a.len() - i,
{
    if i <= a.len() && i <= b.len() && i < a.len() && i < b.len() && a[i] == b[i] {
        lemma_lex_order_flip(a, b, i + 1);
    }
}

/// Lexicographic order is transitive.
pub proof fn lemma_lex_order_trans(a: Seq<char>, b: Seq<char>, c: Seq<char>, i: int)
    requires
        0 <= i,
        i <= a.len(),
        i <= b.len(),
        i <= c.len(),
        lex_order_from(a, b, i) != Comparison::Greater,
        lex_order_from(b, c, i) != Comparison::Greater,
    ensures
        lex_order_from(a, c, i) != Comparison::Greater,
    decreases a.len() - i,
{
    if i < a.len() && i < b.len() && i < c.len() && a[i] == b[i] && b[i] == c[i] {
        lemma_lex_order_trans(a, b, c, i + 1);
    }
}

/// A string is equal to itself in lexicographic order.
pub proof fn lemma_lex_order_refl(a: Seq<char>, i: int)
    requires
        0 <= i <= a.len(),
    ensures
        lex_order_from(a, a, i) == Comparison::Equal,
    decreases a.len() - i,
{
    if i < a.len() {
        lemma_lex_order_refl(a, i + 1);
    }
}

/// In a sequence whose neighbours are in strictly increasing lexicographic
/// order, every element is at most every later one.
pub proof fn lemma_sorted_texts_pairwise(v: Seq<Seq<char>>, i: int, j: int)
    requires
        forall|k: int| 0 <= k < v.len() - 1 ==> lex_order(#[trigger] v[k], v[k + 1]) == Comparison::Less,
        0 <= i <= j < v.len(),
    ensures
        lex_order(v[i], v[j]) != Comparison::Greater,
    decreases j - i,
{
    if i == j {
        lemma_lex_order_refl(v[i], 0);
    } else {
        lemma_sorted_texts_pairwise(v, i, j - 1);
        assert(lex_order(v[j - 1], v[j]) == Comparison::Less);
        lemma_lex_order_trans(v[i], v[j - 1], v[j], 0);
    }
}

/// Compares two character sequences lexicographically.
pub fn lex_compare(a: &Vec<char>, b: &Vec<char>) -> (c: Comparison)
    ensures
        c == lex_order(a@, b@),
{
    let mut i: usize = 0;
    loop
        invariant
            i <= a.len(),
            i <= b.len(),
            lex_order_from(a@, b@, i as int) == lex_order(a@, b@),
        decreases a.len() - i,
    {
        if i == a.len() && i == b.len() {
            return Comparison::Equal;
        }
        if i == a.len() {
            return Comparison::Less;
        }
        if i == b.len() {
            return Comparison::Greater;
        }
        if a[i] < b[i] {
            return Comparison::Less;
        }
        if a[i] > b[i] {
            return Comparison::Greater;
        }
        i = i + 1;
    }
}

/// A string key in lexicographic (code point) order.
#[derive(Debug)]
pub struct TextKey(pub Vec<char>);

impl SortKey for TextKey {
    open spec fn order(a: Self, b: Self) -> Comparison {
        lex_order(a.0@, b.0@)
    }

    fn compare(&self, other: &Self) -> (c: Comparison) {
        lex_compare(&self.0, &other.0)
    }

    proof fn lemma_order_flip(a: Self, b: Self) {
        lemma_lex_order_flip(a.0@, b.0@, 0);
    }
}

/// A string key in natural order (runs of digits by value).
#[derive(Debug)]
pub struct NaturalKey(pub Vec<char>);

impl SortKey for NaturalKey {
    open spec fn order(a: Self, b: Self) -> Comparison {
        natural_order(a.0@, b.0@)
    }

    fn compare(&self, other: &Self) -> (c: Comparison) {
        natural_compare(&self.0, &other.0)
    }

    proof fn lemma_order_flip(a: Self, b: Self) {
        lemma_natural_order_flip(a.0@, 0, b.0@, 0);
    }
}

/// A number key in numeric order.
#[derive(Debug)]
pub struct NumberKey(pub u32);

impl SortKey for NumberKey {
    open spec fn order(a: Self, b: Self) -> Comparison {
        compare_nat(a.0 as nat, b.0 as nat)
    }

    fn compare(&self, other: &Self) -> (c: Comparison) {
        if self.0 < other.0 {
            Comparison::Less
        } else if self.0 > other.0 {
            Comparison::Greater
        } else {
            Comparison::Equal
        }
    }

    proof fn lemma_order_flip(a: Self, b: Self) {
    }
}

/// A pair of keys in lexicographic order: by the first, then by the second.
#[derive(Debug)]
pub struct PairKey<A, B>(pub A, pub B);

impl<A: SortKey, B: SortKey> SortKey for PairKey<A, B> {
    open spec fn order(a: Self, b: Self) -> Comparison {
        let c = A::order(a.0, b.0);
        if c == Comparison::Equal {
            B::order(a.1, b.1)
        } else {
            c
        }
    }

    fn compare(&self, other: &Self) -> (c: Comparison) {
        let c = self.0.compare(&other.0);
        if c == Comparison::Equal {
            self.1.compare(&other.1)
        } else {
            c
        }
    }

    proof fn lemma_order_flip(a: Self, b: Self) {
        A::lemma_order_flip(a.0, b.0);
        B::lemma_order_flip(a.1, b.1);
    }
}


/// Strings that compare equal lexicographically are the same.
pub proof fn lemma_lex_equal(a: Seq<char>, b: Seq<char>, i: int)
    requires
        0 <= i <= a.len(),
        i <= b.len(),
        a.take(i) == b.take(i),
        lex_order_from(a, b, i) == Comparison::Equal,
    ensures
        a == b,
    decreases a.len() - i,
{
    if i == a.len() && i == b.len() {
        assert(a =~= a.take(i));
        assert(b =~= b.take(i));
    } else if i < a.len() && i < b.len() && a[i] == b[i] {
        assert(a.take(i + 1) =~= a.take(i).push(a[i]));
        assert(b.take(i + 1) =~= b.take(i).push(b[i]));
        lemma_lex_equal(a, b, i + 1);
    }
}

/// The character sequences of a list of strings.
pub open spec fn texts(v: Seq<String>) -> Seq<Seq<char>> {
    v.map_values(|s: String| s@)
}

proof fn lemma_multiset_to_set<A>(a: Seq<A>, b: Seq<A>)
    requires
        a.to_multiset() == b.to_multiset(),
    ensures
        a.to_set() == b.to_set(),
{
    broadcast use vstd::seq_lib::group_to_multiset_ensures;
    assert forall|x: A| a.to_set().contains(x) <==> b.to_set().contains(x) by {
        assert(a.contains(x) <==> a.to_multiset().count(x) > 0);
        assert(b.contains(x) <==> b.to_multiset().count(x) > 0);
    }
    assert(a.to_set() =~= b.to_set());
}

#[verifier::spinoff_prover]
#[verifier::rlimit(40)]
proof fn lemma_sorted_texts(before: Seq<(TextKey, String)>, after: Seq<(TextKey, String)>, v: Seq<String>) -> (w: Seq<Seq<char>>)
    requires
        before.to_multiset() == after.to_multiset(),
        sorted_by_key(after),
        before.len() == v.len(),
        forall|t: int| 0 <= t < v.len() ==> (#[trigger] before[t]).1 == v[t] && before[t].0.0@ == v[t]@,
    ensures
        w.len() == after.len(),
        forall|t: int| 0 <= t < w.len() ==> #[trigger] w[t] == after[t].1@,
        w.to_set() == texts(v).to_set(),
        forall|t: int| 0 <= t < w.len() - 1 ==> lex_order(#[trigger] w[t], w[t + 1]) != Comparison::Greater,
{
    let p = |e: (TextKey, String)| e.0.0@ == e.1@;
    assert forall|t: int| 0 <= t < before.len() implies p(#[trigger] before[t]) by {}
    lemma_multiset_property(before, after, p);
    let f = |e: (TextKey, String)| e.1@;
    lemma_map_multiset(before, after, f);
    assert(before.map_values(f) =~= texts(v));
    let w = after.map_values(f);
    lemma_multiset_to_set(texts(v), w);
    assert forall|t: int| 0 <= t < w.len() - 1 implies lex_order(#[trigger] w[t], w[t + 1]) != Comparison::Greater by {
        assert(p(after[t]));
        assert(p(after[t + 1]));
        assert(TextKey::order(after[t].0, after[t + 1].0) != Comparison::Greater);
    }
    w
}

/// The strings of `v`, sorted by code point, each once.
#[verifier::spinoff_prover]
#[verifier::rlimit(60)]
pub fn sorted_unique(v: Vec<String>) -> (r: Vec<String>)
    ensures
        forall|i: int| 0 <= i < r@.len() - 1 ==>
            lex_order(#[trigger] texts(r@)[i], texts(r@)[i + 1]) == Comparison::Less,
        texts(r@).to_set() == texts(v@).to_set(),
{
    let mut keyed: Vec<(TextKey, String)> = Vec::new();
    let mut i: usize = 0;
    while i < v.len()
        invariant
            i <= v.len(),
            keyed@.len() == i,
            forall|t: int| 0 <= t < i ==> (#[trigger] keyed@[t]).1 == v@[t] && keyed@[t].0.0@ == v@[t]@,
        decreases v.len() - i,
    {
        keyed.push((TextKey(crate::text::chars_of(v[i].as_str())), v[i].clone()));
        i = i + 1;
    }
    let ghost before = keyed@;
    sort_by_key(&mut keyed);
    let ghost w = lemma_sorted_texts(before, keyed@, v@);
    let mut r: Vec<String> = Vec::new();
    let mut i: usize = 0;
    while i < keyed.len()
        invariant
            i <= keyed.len(),
            w.len() == keyed@.len(),
            forall|t: int| 0 <= t < w.len() ==> #[trigger] w[t] == keyed@[t].1@,
            forall|t: int| 0 <= t < w.len() - 1 ==> lex_order(#[trigger] w[t], w[t + 1]) != Comparison::Greater,
            i > 0 ==> r@.len() > 0 && texts(r@).last() == w[i - 1],
            i == 0 ==> r@.len() == 0,
            forall|k: int| 0 <= k < r@.len() - 1 ==>
                lex_order(#[trigger] texts(r@)[k], texts(r@)[k + 1]) == Comparison::Less,
            texts(r@).to_set() == w.take(i as int).to_set(),
        decreases keyed.len() - i,
    {
        let s = &keyed[i].1;
        let keep = if r.len() == 0 {
            true
        } else {
            !crate::text::str_eq(r[r.len() - 1].as_str(), s.as_str())
        };
        let ghost r0 = texts(r@);
        proof {
            assert(w.take(i + 1) =~= w.take(i as int).push(w[i as int]));
            w.take(i as int).lemma_push_to_set_commute(w[i as int]);
            r0.lemma_push_to_set_commute(w[i as int]);
        }
        if keep {
            r.push(s.clone());
            proof {
                assert(texts(r@) =~= r0.push(w[i as int]));
                if i > 0 {
                    if lex_order(w[i - 1], w[i as int]) == Comparison::Equal {
                        assert(w[i - 1].take(0) =~= w[i as int].take(0));
                        lemma_lex_equal(w[i - 1], w[i as int], 0);
                    }
                }
            }
        } else {
            proof {
                assert(r0.contains(w[i as int])) by {
                    assert(r0[r0.len() - 1] == w[i as int]);
                }
                assert(w.take(i as int).to_set().contains(w[i as int]));
                assert(w.take(i as int).to_set().insert(w[i as int]) =~= w.take(i as int).to_set());
            }
        }
        i = i + 1;
    }
    proof {
        assert(w.take(w.len() as int) =~= w);
    }
    r
}

} // verus!
