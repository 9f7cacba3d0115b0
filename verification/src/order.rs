use vstd::prelude::*;
use crate::text::{chars_of, views};

verus! {

broadcast use vstd::seq_lib::group_to_multiset_ensures;

/// Lexicographic order on character sequences, by code point; this is the
/// order of `str` and `String` in Rust.
pub open spec fn seq_lt(a: Seq<char>, b: Seq<char>) -> bool
    decreases a.len(),
{
    if a.len() == 0 {
        b.len() > 0
    } else if b.len() == 0 {
        false
    } else if a[0] < b[0] {
        true
    } else if a[0] > b[0] {
        false
    } else {
        seq_lt(a.drop_first(), b.drop_first())
    }
}

/// Lexicographic order on pairs of character sequences (the order of `(String, String)`).
pub open spec fn pair_lt(a: (Seq<char>, Seq<char>), b: (Seq<char>, Seq<char>)) -> bool {
    seq_lt(a.0, b.0) || (a.0 == b.0 && seq_lt(a.1, b.1))
}

pub proof fn lemma_seq_lt_irreflexive(a: Seq<char>)
    ensures
        !seq_lt(a, a),
    decreases a.len(),
{
    if a.len() > 0 {
        lemma_seq_lt_irreflexive(a.drop_first());
    }
}

pub proof fn lemma_seq_lt_transitive(a: Seq<char>, b: Seq<char>, c: Seq<char>)
    requires
        seq_lt(a, b),
        seq_lt(b, c),
    ensures
        seq_lt(a, c),
    decreases a.len(),
{
    if a.len() > 0 && b.len() > 0 && c.len() > 0 {
        if a[0] == b[0] && b[0] == c[0] {
            lemma_seq_lt_transitive(a.drop_first(), b.drop_first(), c.drop_first());
        }
    }
}

pub proof fn lemma_seq_lt_total(a: Seq<char>, b: Seq<char>)
    ensures
        a == b || seq_lt(a, b) || seq_lt(b, a),
    decreases a.len(),
{
    if a.len() > 0 && b.len() > 0 {
        if a[0] == b[0] {
            lemma_seq_lt_total(a.drop_first(), b.drop_first());
            if a.drop_first() == b.drop_first() {
                assert(a =~= seq![a[0]] + a.drop_first());
                assert(b =~= seq![b[0]] + b.drop_first());
            }
        }
    } else if a.len() == 0 && b.len() == 0 {
        assert(a =~= b);
    }
}

pub proof fn lemma_seq_lt_asymmetric(a: Seq<char>, b: Seq<char>)
    requires
        seq_lt(a, b),
    ensures
        !seq_lt(b, a),
{
    if seq_lt(b, a) {
        lemma_seq_lt_transitive(a, b, a);
        lemma_seq_lt_irreflexive(a);
    }
}

pub proof fn lemma_pair_lt_facts()
    ensures
        forall|a: (Seq<char>, Seq<char>)| !pair_lt(a, a),
        forall|a: (Seq<char>, Seq<char>), b: (Seq<char>, Seq<char>), c: (Seq<char>, Seq<char>)|
            #![trigger pair_lt(a, b), pair_lt(b, c)]
            pair_lt(a, b) && pair_lt(b, c) ==> pair_lt(a, c),
        forall|a: (Seq<char>, Seq<char>), b: (Seq<char>, Seq<char>)|
            #![trigger pair_lt(a, b)]
            a == b || pair_lt(a, b) || pair_lt(b, a),
{
    lemma_seq_lt_facts();
    assert forall|a: (Seq<char>, Seq<char>), b: (Seq<char>, Seq<char>)|
        #![trigger pair_lt(a, b)]
        a == b || pair_lt(a, b) || pair_lt(b, a) by {
        if a.0 == b.0 && a.1 == b.1 {
            assert(a == b);
        }
    }
}

pub proof fn lemma_seq_lt_facts()
    ensures
        forall|a: Seq<char>| !seq_lt(a, a),
        forall|a: Seq<char>, b: Seq<char>, c: Seq<char>|
            #![trigger seq_lt(a, b), seq_lt(b, c)]
            seq_lt(a, b) && seq_lt(b, c) ==> seq_lt(a, c),
        forall|a: Seq<char>, b: Seq<char>| #![trigger seq_lt(a, b)]
            a == b || seq_lt(a, b) || seq_lt(b, a),
        forall|a: Seq<char>, b: Seq<char>| #![trigger seq_lt(a, b)]
            seq_lt(a, b) ==> !seq_lt(b, a),
{
    assert forall|a: Seq<char>| !seq_lt(a, a) by {
        lemma_seq_lt_irreflexive(a);
    }
    assert forall|a: Seq<char>, b: Seq<char>, c: Seq<char>|
        #![trigger seq_lt(a, b), seq_lt(b, c)]
        seq_lt(a, b) && seq_lt(b, c) implies seq_lt(a, c) by {
        lemma_seq_lt_transitive(a, b, c);
    }
    assert forall|a: Seq<char>, b: Seq<char>| #![trigger seq_lt(a, b)]
        a == b || seq_lt(a, b) || seq_lt(b, a) by {
        lemma_seq_lt_total(a, b);
    }
    assert forall|a: Seq<char>, b: Seq<char>| #![trigger seq_lt(a, b)]
        seq_lt(a, b) implies !seq_lt(b, a) by {
        lemma_seq_lt_asymmetric(a, b);
    }
}

/// Whether `a` orders before `b`.
pub fn lt_chars(a: &Vec<char>, b: &Vec<char>) -> (r: bool)
    ensures
        r == seq_lt(a@, b@),
{
    let mut i: usize = 0;
    assert(a@.skip(0) =~= a@ && b@.skip(0) =~= b@);
    while i < a.len() && i < b.len() && a[i] == b[i]
        invariant
            i <= a.len(),
            i <= b.len(),
            seq_lt(a@, b@) == seq_lt(a@.skip(i as int), b@.skip(i as int)),
        decreases a.len() - i,
    {
        proof {
            let x = a@.skip(i as int);
            let y = b@.skip(i as int);
            assert(x.drop_first() =~= a@.skip(i + 1));
            assert(y.drop_first() =~= b@.skip(i + 1));
        }
        i += 1;
    }
    let ghost x = a@.skip(i as int);
    let ghost y = b@.skip(i as int);
    if i == a.len() {
        i < b.len()
    } else if i == b.len() {
        false
    } else {
        assert(x[0] == a@[i as int] && y[0] == b@[i as int]);
        a[i] < b[i]
    }
}

/// Whether `a` orders before `b`.
pub fn lt_str(a: &str, b: &str) -> (r: bool)
    ensures
        r == seq_lt(a@, b@),
{
    lt_chars(&chars_of(a), &chars_of(b))
}

/// Strictly increasing: sorted with no element twice.
pub open spec fn strictly_sorted(s: Seq<Seq<char>>) -> bool {
    forall|i: int, j: int| 0 <= i < j < s.len() ==> seq_lt(#[trigger] s[i], #[trigger] s[j])
}

/// Non-decreasing.
pub open spec fn sorted(s: Seq<Seq<char>>) -> bool {
    forall|i: int, j: int| 0 <= i < j < s.len() ==> !seq_lt(#[trigger] s[j], #[trigger] s[i])
}

/// Strictly increasing pairs.
pub open spec fn strictly_sorted_pairs(s: Seq<(Seq<char>, Seq<char>)>) -> bool {
    forall|i: int, j: int| 0 <= i < j < s.len() ==> pair_lt(#[trigger] s[i], #[trigger] s[j])
}

/// Inserts `x` into the strictly sorted `v`, unless it is there already.
pub fn insert_unique(v: &mut Vec<Vec<char>>, x: Vec<char>)
    requires
        strictly_sorted(views(old(v)@)),
    ensures
        strictly_sorted(views(final(v)@)),
        views(final(v)@).to_set() == views(old(v)@).to_set().insert(x@),
{
    proof {
        lemma_seq_lt_facts();
    }
    let ghost old_v = views(v@);
    let mut p: usize = 0;
    while p < v.len() && lt_chars(&v[p], &x)
        invariant
            p <= v.len(),
            views(v@) == old_v,
            forall|i: int| 0 <= i < p ==> seq_lt(#[trigger] old_v[i], x@),
        decreases v.len() - p,
    {
        p += 1;
    }
    if p < v.len() && !lt_chars(&x, &v[p]) {
        // equal to v[p]
        assert(old_v[p as int] == x@);
        assert(old_v.to_set().insert(x@) =~= old_v.to_set());
        return;
    }
    proof {
        assert forall|j: int| p <= j < old_v.len() implies seq_lt(x@, #[trigger] old_v[j]) by {
            if j > p {
                assert(seq_lt(old_v[p as int], old_v[j]));
            }
        }
    }
    v.insert(p, x);
    proof {
        let nv = views(v@);
        assert(nv =~= old_v.insert(p as int, x@));
        assert(nv.to_set() =~= old_v.to_set().insert(x@)) by {
            assert forall|e: Seq<char>| nv.to_set().contains(e) <==> old_v.to_set().insert(x@).contains(e) by {
                if nv.contains(e) {
                    let k = choose|k: int| 0 <= k < nv.len() && nv[k] == e;
                    if k < p {
                        assert(old_v[k] == e);
                    } else if k > p {
                        assert(old_v[k - 1] == e);
                    }
                }
                if old_v.contains(e) {
                    let k = choose|k: int| 0 <= k < old_v.len() && old_v[k] == e;
                    if k < p {
                        assert(nv[k] == e);
                    } else {
                        assert(nv[k + 1] == e);
                    }
                }
                if e == x@ {
                    assert(nv[p as int] == e);
                }
            }
        }
    }
}

/// The views of a sequence of character-vector pairs.
pub open spec fn pair_views(vs: Seq<(Vec<char>, Vec<char>)>) -> Seq<(Seq<char>, Seq<char>)> {
    vs.map_values(|p: (Vec<char>, Vec<char>)| (p.0@, p.1@))
}

/// The views of a sequence of string slices.
pub open spec fn str_views(vs: Seq<&str>) -> Seq<Seq<char>> {
    vs.map_values(|v: &str| v@)
}

/// Whether pair `a` orders before pair `b`.
pub fn lt_pair(a: &(Vec<char>, Vec<char>), b: &(Vec<char>, Vec<char>)) -> (r: bool)
    ensures
        r == pair_lt((a.0@, a.1@), (b.0@, b.1@)),
{
    if lt_chars(&a.0, &b.0) {
        true
    } else if lt_chars(&b.0, &a.0) {
        false
    } else {
        proof {
            lemma_seq_lt_total(a.0@, b.0@);
        }
        lt_chars(&a.1, &b.1)
    }
}

/// Inserts the pair `x` into the strictly sorted `v`, unless it is there already.
pub fn insert_unique_pair(v: &mut Vec<(Vec<char>, Vec<char>)>, x: (Vec<char>, Vec<char>))
    requires
        strictly_sorted_pairs(pair_views(old(v)@)),
    ensures
        strictly_sorted_pairs(pair_views(final(v)@)),
        pair_views(final(v)@).to_set() == pair_views(old(v)@).to_set().insert((x.0@, x.1@)),
{
    proof {
        lemma_pair_lt_facts();
    }
    let ghost old_v = pair_views(v@);
    let ghost xv = (x.0@, x.1@);
    let mut p: usize = 0;
    while p < v.len() && lt_pair(&v[p], &x)
        invariant
            p <= v.len(),
            pair_views(v@) == old_v,
            xv == (x.0@, x.1@),
            forall|i: int| 0 <= i < p ==> pair_lt(#[trigger] old_v[i], xv),
        decreases v.len() - p,
    {
        p += 1;
    }
    if p < v.len() && !lt_pair(&x, &v[p]) {
        assert(old_v[p as int] == xv);
        assert(old_v.to_set().insert(xv) =~= old_v.to_set());
        return;
    }
    proof {
        assert forall|j: int| p <= j < old_v.len() implies pair_lt(xv, #[trigger] old_v[j]) by {
            if j > p {
                assert(pair_lt(old_v[p as int], old_v[j]));
            }
        }
    }
    v.insert(p, x);
    proof {
        let nv = pair_views(v@);
        assert(nv =~= old_v.insert(p as int, xv));
        assert forall|e: (Seq<char>, Seq<char>)|
            nv.to_set().contains(e) <==> old_v.to_set().insert(xv).contains(e) by {
            if nv.contains(e) {
                let k = choose|k: int| 0 <= k < nv.len() && nv[k] == e;
                if k < p {
                    assert(old_v[k] == e);
                } else if k > p {
                    assert(old_v[k - 1] == e);
                }
            }
            if old_v.contains(e) {
                let k = choose|k: int| 0 <= k < old_v.len() && old_v[k] == e;
                if k < p {
                    assert(nv[k] == e);
                } else {
                    assert(nv[k + 1] == e);
                }
            }
            if e == xv {
                assert(nv[p as int] == e);
            }
        }
        assert(nv.to_set() =~= old_v.to_set().insert(xv));
    }
}

/// Inserts `x` into the non-decreasing `v`, after the elements equal to it.
pub fn insert_sorted_str<'a>(v: &mut Vec<&'a str>, x: &'a str)
    requires
        sorted(str_views(old(v)@)),
    ensures
        sorted(str_views(final(v)@)),
        str_views(final(v)@).to_multiset() == str_views(old(v)@).to_multiset().insert(x@),
{
    proof {
        lemma_seq_lt_facts();
    }
    let ghost old_v = str_views(v@);
    let mut p: usize = 0;
    while p < v.len() && !lt_str(x, v[p])
        invariant
            p <= v.len(),
            str_views(v@) == old_v,
            forall|i: int| 0 <= i < p ==> !seq_lt(x@, #[trigger] old_v[i]),
        decreases v.len() - p,
    {
        p += 1;
    }
    proof {
        assert forall|j: int| p <= j < old_v.len() implies seq_lt(x@, #[trigger] old_v[j]) by {
            if j > p {
                assert(!seq_lt(old_v[j], old_v[p as int]));
            }
        }
    }
    v.insert(p, x);
    proof {
        let nv = str_views(v@);
        assert(nv =~= old_v.insert(p as int, x@));
        vstd::seq_lib::to_multiset_insert(old_v, p as int, x@);
        assert forall|i: int, j: int| 0 <= i < j < nv.len() implies !seq_lt(
            #[trigger] nv[j],
            #[trigger] nv[i],
        ) by {
            if j < p {
                assert(nv[i] == old_v[i] && nv[j] == old_v[j]);
            } else if j == p {
                assert(nv[i] == old_v[i]);
            } else if i == p {
                assert(nv[j] == old_v[j - 1]);
            } else if i < p {
                assert(nv[i] == old_v[i] && nv[j] == old_v[j - 1]);
            } else {
                assert(nv[i] == old_v[i - 1] && nv[j] == old_v[j - 1]);
            }
        }
    }
}

/// `s` in non-decreasing order: the one sorted sequence with the same elements.
pub open spec fn sort_seq(s: Seq<Seq<char>>) -> Seq<Seq<char>> {
    choose|t: Seq<Seq<char>>| sorted(t) && t.to_multiset() == s.to_multiset()
}

proof fn lemma_sorted_head_least(t: Seq<Seq<char>>, x: Seq<char>)
    requires
        sorted(t),
        t.contains(x),
    ensures
        t.len() > 0,
        !seq_lt(x, t[0]),
{
    let i = choose|i: int| 0 <= i < t.len() && t[i] == x;
    if i > 0 {
        assert(!seq_lt(t[i], t[0]));
    } else {
        lemma_seq_lt_irreflexive(x);
    }
}

/// Two sorted sequences with the same elements are equal.
pub proof fn lemma_sorted_unique(t1: Seq<Seq<char>>, t2: Seq<Seq<char>>)
    requires
        sorted(t1),
        sorted(t2),
        t1.to_multiset() == t2.to_multiset(),
    ensures
        t1 == t2,
    decreases t1.len(),
{
    broadcast use vstd::seq_lib::group_to_multiset_ensures;

    if t1.len() == 0 {
        assert(t2.to_multiset().len() == 0);
        assert(t1 =~= t2);
    } else {
        assert(t1.contains(t1[0]));
        assert(t1.to_multiset().count(t1[0]) > 0);
        assert(t2.contains(t1[0]));
        lemma_sorted_head_least(t2, t1[0]);
        assert(t2.contains(t2[0]));
        assert(t2.to_multiset().count(t2[0]) > 0);
        assert(t1.contains(t2[0]));
        lemma_sorted_head_least(t1, t2[0]);
        lemma_seq_lt_total(t1[0], t2[0]);
        assert(t1[0] == t2[0]);
        assert(t1.remove(0) =~= t1.drop_first());
        assert(t2.remove(0) =~= t2.drop_first());
        lemma_sorted_unique(t1.drop_first(), t2.drop_first());
        assert(t1 =~= seq![t1[0]] + t1.drop_first());
        assert(t2 =~= seq![t2[0]] + t2.drop_first());
    }
}

/// A sorted sequence with the elements of `s` is `sort_seq(s)`.
pub proof fn lemma_sort_seq(t: Seq<Seq<char>>, s: Seq<Seq<char>>)
    requires
        sorted(t),
        t.to_multiset() == s.to_multiset(),
    ensures
        sort_seq(s) == t,
{
    let u = sort_seq(s);
    assert(sorted(u) && u.to_multiset() == s.to_multiset());
    lemma_sorted_unique(u, t);
}

/// The elements of `s` in increasing order, each once.
pub open spec fn sorted_set(s: Set<Seq<char>>) -> Seq<Seq<char>> {
    choose|t: Seq<Seq<char>>| strictly_sorted(t) && t.to_set() == s
}

/// Two strictly sorted sequences with the same elements are equal.
pub proof fn lemma_strictly_sorted_unique(t1: Seq<Seq<char>>, t2: Seq<Seq<char>>)
    requires
        strictly_sorted(t1),
        strictly_sorted(t2),
        t1.to_set() == t2.to_set(),
    ensures
        t1 == t2,
    decreases t1.len(),
{
    lemma_seq_lt_facts();
    if t1.len() == 0 {
        if t2.len() > 0 {
            assert(t2.to_set().contains(t2[0]));
        }
        assert(t1 =~= t2);
    } else {
        assert(t1.to_set().contains(t1[0]));
        assert(t2.len() > 0);
        assert(t2.to_set().contains(t2[0]));
        let j = choose|j: int| 0 <= j < t2.len() && t2[j] == t1[0];
        let k = choose|k: int| 0 <= k < t1.len() && t1[k] == t2[0];
        if j > 0 {
            assert(seq_lt(t2[0], t2[j]));
        }
        if k > 0 {
            assert(seq_lt(t1[0], t1[k]));
        }
        assert(t1[0] == t2[0]);
        let a = t1.drop_first();
        let b = t2.drop_first();
        assert forall|e: Seq<char>| a.to_set().contains(e) <==> b.to_set().contains(e) by {
            if a.to_set().contains(e) {
                let i = choose|i: int| 0 <= i < a.len() && a[i] == e;
                assert(t1[i + 1] == e);
                assert(seq_lt(t1[0], t1[i + 1]));
                assert(t2.to_set().contains(e));
                let m = choose|m: int| 0 <= m < t2.len() && t2[m] == e;
                if m == 0 {
                    assert(e == t1[0]);
                }
                assert(b[m - 1] == e);
            }
            if b.to_set().contains(e) {
                let i = choose|i: int| 0 <= i < b.len() && b[i] == e;
                assert(t2[i + 1] == e);
                assert(seq_lt(t2[0], t2[i + 1]));
                assert(t1.to_set().contains(e));
                let m = choose|m: int| 0 <= m < t1.len() && t1[m] == e;
                if m == 0 {
                    assert(e == t2[0]);
                }
                assert(a[m - 1] == e);
            }
        }
        assert(a.to_set() =~= b.to_set());
        assert forall|x: int, y: int| 0 <= x < y < a.len() implies seq_lt(#[trigger] a[x], #[trigger] a[y]) by {
            assert(a[x] == t1[x + 1] && a[y] == t1[y + 1]);
        }
        assert forall|x: int, y: int| 0 <= x < y < b.len() implies seq_lt(#[trigger] b[x], #[trigger] b[y]) by {
            assert(b[x] == t2[x + 1] && b[y] == t2[y + 1]);
        }
        lemma_strictly_sorted_unique(a, b);
        assert(t1 =~= seq![t1[0]] + a);
        assert(t2 =~= seq![t2[0]] + b);
    }
}

/// A strictly sorted sequence with the elements of `s` is `sorted_set(s)`.
pub proof fn lemma_sorted_set(t: Seq<Seq<char>>, s: Set<Seq<char>>)
    requires
        strictly_sorted(t),
        t.to_set() == s,
    ensures
        sorted_set(s) == t,
{
    let u = sorted_set(s);
    assert(strictly_sorted(u) && u.to_set() == s);
    lemma_strictly_sorted_unique(u, t);
}

/// A finite non-empty set of names has a greatest name.
proof fn lemma_greatest(s: Set<Seq<char>>) -> (m: Seq<char>)
    requires
        s.finite(),
        s.len() > 0,
    ensures
        s.contains(m),
        forall|x: Seq<char>| s.contains(x) && x != m ==> seq_lt(x, m),
    decreases s.len(),
{
    lemma_seq_lt_facts();
    let x = s.choose();
    let rest = s.remove(x);
    if rest.len() == 0 {
        assert forall|y: Seq<char>| s.contains(y) && y != x implies seq_lt(y, x) by {
            assert(rest.contains(y));
        }
        x
    } else {
        let m0 = lemma_greatest(rest);
        if seq_lt(x, m0) {
            m0
        } else {
            assert forall|y: Seq<char>| s.contains(y) && y != x implies seq_lt(y, x) by {
                if y != m0 {
                    assert(rest.contains(y));
                }
            }
            x
        }
    }
}

/// Every finite set of names has its strictly sorted listing.
pub proof fn lemma_sorted_set_facts(s: Set<Seq<char>>)
    requires
        s.finite(),
    ensures
        strictly_sorted(sorted_set(s)),
        sorted_set(s).to_set() == s,
{
    let t = lemma_sorted_listing(s);
    assert(strictly_sorted(t) && t.to_set() == s);
}

proof fn lemma_sorted_listing(s: Set<Seq<char>>) -> (t: Seq<Seq<char>>)
    requires
        s.finite(),
    ensures
        strictly_sorted(t),
        t.to_set() == s,
    decreases s.len(),
{
    if s.len() == 0 {
        assert(s =~= Set::<Seq<char>>::empty());
        let t = Seq::<Seq<char>>::empty();
        assert(t.to_set() =~= s);
        t
    } else {
        let m = lemma_greatest(s);
        let t0 = lemma_sorted_listing(s.remove(m));
        let t = t0.push(m);
        assert forall|i: int, j: int| 0 <= i < j < t.len() implies seq_lt(#[trigger] t[i], #[trigger] t[j]) by {
            if j == t.len() - 1 {
                assert(t0.to_set().contains(t0[i]));
                assert(t[i] == t0[i]);
            } else {
                assert(t[i] == t0[i] && t[j] == t0[j]);
            }
        }
        t0.lemma_push_to_set_commute(m);
        assert(t.to_set() =~= s);
        t
    }
}

/// A position of a greatest name in a non-empty sequence.
proof fn lemma_greatest_index(s: Seq<Seq<char>>) -> (i: int)
    requires
        s.len() > 0,
    ensures
        0 <= i < s.len(),
        forall|j: int| 0 <= j < s.len() ==> !seq_lt(s[i], #[trigger] s[j]),
    decreases s.len(),
{
    lemma_seq_lt_facts();
    if s.len() == 1 {
        0
    } else {
        let t = s.drop_last();
        let i0 = lemma_greatest_index(t);
        assert forall|j: int| 0 <= j < t.len() implies s[j] == #[trigger] t[j] by {}
        if seq_lt(s[i0], s.last()) {
            let n = s.len() - 1;
            assert forall|j: int| 0 <= j < s.len() implies !seq_lt(s[n], #[trigger] s[j]) by {
                if j < n {
                    assert(!seq_lt(t[i0], t[j]));
                }
            }
            n
        } else {
            assert forall|j: int| 0 <= j < s.len() implies !seq_lt(s[i0], #[trigger] s[j]) by {
                if j < s.len() - 1 {
                    assert(!seq_lt(t[i0], t[j]));
                }
            }
            i0
        }
    }
}

proof fn lemma_sorted_permutation(s: Seq<Seq<char>>) -> (t: Seq<Seq<char>>)
    ensures
        sorted(t),
        t.to_multiset() == s.to_multiset(),
    decreases s.len(),
{
    broadcast use vstd::seq_lib::group_to_multiset_ensures;

    if s.len() == 0 {
        s
    } else {
        let i = lemma_greatest_index(s);
        let m = s[i];
        let rest = s.remove(i);
        let t0 = lemma_sorted_permutation(rest);
        let t = t0.push(m);
        assert forall|a: int, b: int| 0 <= a < b < t.len() implies !seq_lt(#[trigger] t[b], #[trigger] t[a]) by {
            if b == t.len() - 1 {
                assert(t[a] == t0[a]);
                assert(t0.contains(t0[a]));
                assert(t0.to_multiset().count(t0[a]) > 0);
                assert(rest.contains(t0[a]));
                let k = choose|k: int| 0 <= k < rest.len() && rest[k] == t0[a];
                if k < i {
                    assert(rest[k] == s[k]);
                } else {
                    assert(rest[k] == s[k + 1]);
                }
            } else {
                assert(t[a] == t0[a] && t[b] == t0[b]);
            }
        }
        assert(t.to_multiset() =~= s.to_multiset());
        t
    }
}

/// The sorted listing of `s` is sorted and holds the same names as `s`,
/// each as often.
pub proof fn lemma_sort_seq_facts(s: Seq<Seq<char>>)
    ensures
        sorted(sort_seq(s)),
        sort_seq(s).to_multiset() == s.to_multiset(),
{
    let t = lemma_sorted_permutation(s);
    assert(sorted(t) && t.to_multiset() == s.to_multiset());
}

} // verus!
