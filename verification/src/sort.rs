//! Stable sorting by a key, and the byte order of strings.
use vstd::prelude::*;
use vstd::string::*;

verus! {

// ---------------------------------------------------------------------------
// Order of strings
// ---------------------------------------------------------------------------
/// The lexicographic order of character sequences, which is the byte order of
/// their UTF-8 encodings (the order of `String` in std).
pub open spec fn str_lt(a: Seq<char>, b: Seq<char>) -> bool
    decreases a.len(),
{
    if b.len() == 0 {
        false
    } else if a.len() == 0 {
        true
    } else if a[0] != b[0] {
        a[0] < b[0]
    } else {
        str_lt(a.drop_first(), b.drop_first())
    }
}

pub proof fn lemma_str_lt_irreflexive(a: Seq<char>)
    ensures
        !str_lt(a, a),
    decreases a.len(),
{
    if a.len() > 0 {
        lemma_str_lt_irreflexive(a.drop_first());
    }
}

pub proof fn lemma_str_lt_transitive(a: Seq<char>, b: Seq<char>, c: Seq<char>)
    requires
        str_lt(a, b),
        str_lt(b, c),
    ensures
        str_lt(a, c),
    decreases a.len(),
{
    if a.len() > 0 && b.len() > 0 && c.len() > 0 && a[0] == b[0] && b[0] == c[0] {
        lemma_str_lt_transitive(a.drop_first(), b.drop_first(), c.drop_first());
    }
}

pub proof fn lemma_str_lt_total(a: Seq<char>, b: Seq<char>)
    ensures
        str_lt(a, b) || str_lt(b, a) || a == b,
    decreases a.len(),
{
    if a.len() > 0 && b.len() > 0 && a[0] == b[0] {
        lemma_str_lt_total(a.drop_first(), b.drop_first());
        if a.drop_first() == b.drop_first() {
            assert(a =~= seq![a[0]] + a.drop_first());
            assert(b =~= seq![b[0]] + b.drop_first());
        }
    } else if a.len() == 0 && b.len() == 0 {
        assert(a =~= b);
    }
}

/// Compares two strings in byte order.
pub fn str_less(a: &str, b: &str) -> (r: bool)
    ensures
        r == str_lt(a@, b@),
{
    let n = a.unicode_len();
    let m = b.unicode_len();
    let mut i: usize = 0;
    assert(a@.subrange(0, n as int) =~= a@);
    assert(b@.subrange(0, m as int) =~= b@);
    while i < n && i < m
        invariant
            n == a@.len(),
            m == b@.len(),
            i <= n,
            i <= m,
            str_lt(a@, b@) == str_lt(a@.subrange(i as int, n as int), b@.subrange(i as int, m as int)),
        decreases n - i,
    {
        let x = a.get_char(i);
        let y = b.get_char(i);
        let ghost sa = a@.subrange(i as int, n as int);
        let ghost sb = b@.subrange(i as int, m as int);
        assert(sa[0] == x && sb[0] == y);
        if x != y {
            return x < y;
        }
        assert(sa.drop_first() =~= a@.subrange(i + 1, n as int));
        assert(sb.drop_first() =~= b@.subrange(i + 1, m as int));
        i = i + 1;
    }
    i < m
}

// ---------------------------------------------------------------------------
// Stable insertion sort
// ---------------------------------------------------------------------------
/// Something ordered by a key; `key_lt` is a strict order on the keys.
pub trait Keyed: Sized {
    spec fn key_lt(a: Self, b: Self) -> bool;

    fn less(&self, other: &Self) -> (r: bool)
        ensures
            r == Self::key_lt(*self, *other),
    ;
}

impl Keyed for String {
    open spec fn key_lt(a: Self, b: Self) -> bool {
        str_lt(a@, b@)
    }

    fn less(&self, other: &Self) -> (r: bool) {
        str_less(self.as_str(), other.as_str())
    }
}

/// `s` with `x` put after every element whose key is not above that of `x`,
/// counting from the end: where `s` is sorted, the stable place of a later element.
pub open spec fn insert_stable<T>(s: Seq<T>, x: T, lt: spec_fn(T, T) -> bool) -> Seq<T>
    decreases s.len(),
{
    if s.len() == 0 {
        seq![x]
    } else if lt(x, s.last()) {
        insert_stable(s.drop_last(), x, lt).push(s.last())
    } else {
        s.push(x)
    }
}

/// The stable sort of `s` by the order `lt`: equal keys keep their order in `s`.
pub open spec fn sort_stable<T>(s: Seq<T>, lt: spec_fn(T, T) -> bool) -> Seq<T>
    decreases s.len(),
{
    if s.len() == 0 {
        s
    } else {
        insert_stable(sort_stable(s.drop_last(), lt), s.last(), lt)
    }
}

pub open spec fn keyed_lt<T: Keyed>() -> spec_fn(T, T) -> bool {
    |a: T, b: T| T::key_lt(a, b)
}

proof fn lemma_insert_at<T>(s: Seq<T>, x: T, lt: spec_fn(T, T) -> bool, j: int)
    requires
        0 <= j <= s.len(),
        forall|k: int| j <= k < s.len() ==> lt(x, #[trigger] s[k]),
        j == 0 || !lt(x, s[j - 1]),
    ensures
        insert_stable(s, x, lt) == s.take(j).push(x) + s.skip(j),
    decreases s.len(),
{
    if s.len() == 0 {
        assert(s.take(j).push(x) + s.skip(j) =~= seq![x]);
    } else if j == s.len() {
        assert(s.take(j).push(x) + s.skip(j) =~= s.push(x));
    } else {
        lemma_insert_at(s.drop_last(), x, lt, j);
        assert(s.take(j).push(x) + s.skip(j) =~= (s.drop_last().take(j).push(x) + s.drop_last().skip(
            j,
        )).push(s.last()));
    }
}

/// Sorts `v` stably by its key.
pub fn sort_by_key<T: Keyed>(v: Vec<T>) -> (r: Vec<T>)
    ensures
        r@ == sort_stable(v@, keyed_lt::<T>()),
{
    let mut v = v;
    let ghost orig = v@;
    let mut r: Vec<T> = Vec::new();
    let mut i: usize = 0;
    let n = v.len();
    while v.len() > 0
        invariant
            i + v@.len() == n,
            n == orig.len(),
            v@ == orig.skip(i as int),
            r@ == sort_stable(orig.take(i as int), keyed_lt::<T>()),
        decreases v@.len(),
    {
        let x = v.remove(0);
        assert(orig.take(i + 1).drop_last() =~= orig.take(i as int));
        assert(orig.take(i + 1).last() == x);
        assert(v@ =~= orig.skip(i + 1));
        let ghost before = r@;
        let mut j = r.len();
        while j > 0 && x.less(&r[j - 1])
            invariant
                j <= r@.len(),
                r@ == before,
                forall|k: int| j <= k < r@.len() ==> T::key_lt(x, #[trigger] r@[k]),
            decreases j,
        {
            j = j - 1;
        }
        proof {
            lemma_insert_at(before, x, keyed_lt::<T>(), j as int);
        }
        r.insert(j, x);
        assert(r@ =~= before.take(j as int).push(x) + before.skip(j as int));
        i = i + 1;
    }
    assert(orig.take(n as int) =~= orig);
    r
}

/// The names sorted in byte order.
pub open spec fn spec_sorted_strings(s: Seq<String>) -> Seq<String> {
    sort_stable(s, keyed_lt::<String>())
}

pub fn sort_strings(v: Vec<String>) -> (r: Vec<String>)
    ensures
        r@ == spec_sorted_strings(v@),
{
    sort_by_key(v)
}

// ---------------------------------------------------------------------------
// What a stable sort keeps
// ---------------------------------------------------------------------------
/// `lt` is a strict weak order whose incomparable elements are equal.
pub open spec fn strict_total<T>(lt: spec_fn(T, T) -> bool) -> bool {
    &&& forall|a: T| !#[trigger] lt(a, a)
    &&& forall|a: T, b: T, c: T| #[trigger] lt(a, b) && #[trigger] lt(b, c) ==> lt(a, c)
    &&& forall|a: T, b: T, c: T|
        #![trigger lt(a, c), lt(a, b)]
        #![trigger lt(a, c), lt(b, c)]
        lt(a, c) ==> lt(a, b) || lt(b, c)
}

pub open spec fn sorted_by<T>(s: Seq<T>, lt: spec_fn(T, T) -> bool) -> bool {
    forall|i: int, j: int| 0 <= i < j < s.len() ==> !lt(s[j], s[i])
}

proof fn lemma_insert_keeps<T>(s: Seq<T>, x: T, lt: spec_fn(T, T) -> bool)
    requires
        strict_total(lt),
        sorted_by(s, lt),
    ensures
        sorted_by(insert_stable(s, x, lt), lt),
        insert_stable(s, x, lt).to_multiset() == s.to_multiset().insert(x),
        insert_stable(s, x, lt).len() == s.len() + 1,
    decreases s.len(),
{
    broadcast use vstd::seq_lib::group_to_multiset_ensures;

    if s.len() == 0 {
        assert(seq![x] =~= Seq::<T>::empty().push(x));
    } else if lt(x, s.last()) {
        let t = s.drop_last();
        assert(sorted_by(t, lt)) by {
            assert forall|i: int, j: int| 0 <= i < j < t.len() implies !lt(t[j], t[i]) by {
                assert(t[i] == s[i] && t[j] == s[j]);
            }
        }
        lemma_insert_keeps(t, x, lt);
        let u = insert_stable(t, x, lt);
        assert(s =~= t.push(s.last()));
        // every element of u is not above s.last()
        assert forall|k: int| 0 <= k < u.len() implies !lt(s.last(), #[trigger] u[k]) by {
            assert(u.to_multiset().count(u[k]) > 0);
            if u[k] == x {
            } else {
                assert(t.to_multiset().insert(x).count(u[k]) > 0);
                assert(t.to_multiset().count(u[k]) > 0);
                assert(t.contains(u[k]));
                let m = choose|m: int| 0 <= m < t.len() && t[m] == u[k];
                assert(s[m] == t[m]);
                assert(!lt(s[s.len() - 1], s[m]));
            }
        }
        let w = u.push(s.last());
        assert forall|i: int, j: int| 0 <= i < j < w.len() implies !lt(w[j], w[i]) by {
            if j < u.len() {
                assert(w[i] == u[i] && w[j] == u[j]);
            } else {
                assert(w[i] == u[i]);
            }
        }
    } else {
        let w = s.push(x);
        assert forall|i: int, j: int| 0 <= i < j < w.len() implies !lt(w[j], w[i]) by {
            if j < s.len() {
                assert(w[i] == s[i] && w[j] == s[j]);
            } else {
                assert(w[i] == s[i]);
                if lt(x, s[i]) {
                    if i < s.len() - 1 {
                        assert(!lt(s[s.len() - 1], s[i]));
                    }
                    assert(lt(x, s.last()) || lt(s.last(), s[i]));
                }
            }
        }
    }
}

/// A stable sort gives back the same elements, in order.
pub proof fn lemma_sort_stable_sorted_permutation<T>(s: Seq<T>, lt: spec_fn(T, T) -> bool)
    requires
        strict_total(lt),
    ensures
        sorted_by(sort_stable(s, lt), lt),
        sort_stable(s, lt).to_multiset() == s.to_multiset(),
        sort_stable(s, lt).len() == s.len(),
    decreases s.len(),
{
    broadcast use vstd::seq_lib::group_to_multiset_ensures;

    if s.len() > 0 {
        lemma_sort_stable_sorted_permutation(s.drop_last(), lt);
        lemma_insert_keeps(sort_stable(s.drop_last(), lt), s.last(), lt);
        assert(s =~= s.drop_last().push(s.last()));
    }
}

/// `list_dir_sorted` gives back the listed names, each as often as listed, in byte order.
pub proof fn lemma_sorted_strings(s: Seq<String>)
    ensures
        spec_sorted_strings(s).to_multiset() == s.to_multiset(),
        forall|i: int, j: int|
            0 <= i < j < s.len() ==> !str_lt(
                #[trigger] spec_sorted_strings(s)[j]@,
                #[trigger] spec_sorted_strings(s)[i]@,
            ),
{
    let lt = keyed_lt::<String>();
    lemma_by_name_total(|x: String| x@);
    assert(by_name(|x: String| x@) =~= lt);
    lemma_sort_stable_sorted_permutation(s, lt);
}


// ---------------------------------------------------------------------------
// Sorting commutes with a view that the order goes by
// ---------------------------------------------------------------------------
/// The order of character sequences, as a function.
pub open spec fn seq_lt() -> spec_fn(Seq<char>, Seq<char>) -> bool {
    |a: Seq<char>, b: Seq<char>| str_lt(a, b)
}

proof fn lemma_insert_map<T, U>(
    s: Seq<T>,
    x: T,
    lt: spec_fn(T, T) -> bool,
    f: spec_fn(T) -> U,
    ltu: spec_fn(U, U) -> bool,
)
    requires
        forall|a: T, b: T| #[trigger] lt(a, b) == ltu(f(a), f(b)),
    ensures
        insert_stable(s, x, lt).map_values(f) == insert_stable(s.map_values(f), f(x), ltu),
    decreases s.len(),
{
    if s.len() == 0 {
        assert(seq![x].map_values(f) =~= seq![f(x)]);
    } else {
        let t = s.map_values(f);
        assert(t.last() == f(s.last()));
        assert(t.drop_last() =~= s.drop_last().map_values(f));
        if lt(x, s.last()) {
            lemma_insert_map(s.drop_last(), x, lt, f, ltu);
            assert(insert_stable(s, x, lt).map_values(f) =~= insert_stable(
                s.drop_last(),
                x,
                lt,
            ).map_values(f).push(f(s.last())));
        } else {
            assert(s.push(x).map_values(f) =~= t.push(f(x)));
        }
    }
}

/// Sorting, then taking views, is taking views, then sorting by the views.
pub proof fn lemma_sort_map<T, U>(
    s: Seq<T>,
    lt: spec_fn(T, T) -> bool,
    f: spec_fn(T) -> U,
    ltu: spec_fn(U, U) -> bool,
)
    requires
        forall|a: T, b: T| #[trigger] lt(a, b) == ltu(f(a), f(b)),
    ensures
        sort_stable(s, lt).map_values(f) == sort_stable(s.map_values(f), ltu),
    decreases s.len(),
{
    if s.len() == 0 {
        assert(s.map_values(f) =~= Seq::<U>::empty());
    } else {
        lemma_sort_map(s.drop_last(), lt, f, ltu);
        lemma_insert_map(sort_stable(s.drop_last(), lt), s.last(), lt, f, ltu);
        assert(s.map_values(f).drop_last() =~= s.drop_last().map_values(f));
        assert(s.map_values(f).last() == f(s.last()));
    }
}

/// The names sorted in byte order, as character sequences.
pub proof fn lemma_sorted_strings_view(s: Seq<String>)
    ensures
        crate::types::strs_view(spec_sorted_strings(s)) == sort_stable(
            crate::types::strs_view(s),
            seq_lt(),
        ),
{
    let f = |x: String| x@;
    lemma_sort_map(s, keyed_lt::<String>(), f, seq_lt());
    assert(crate::types::strs_view(spec_sorted_strings(s)) =~= spec_sorted_strings(s).map_values(f));
    assert(crate::types::strs_view(s) =~= s.map_values(f));
}

/// The order of values by the byte order of a name they carry.
pub open spec fn by_name<T>(name: spec_fn(T) -> Seq<char>) -> spec_fn(T, T) -> bool {
    |a: T, b: T| str_lt(name(a), name(b))
}

/// Ordering by a name is a strict weak order whose ties are the values with equal names.
pub proof fn lemma_by_name_total<T>(name: spec_fn(T) -> Seq<char>)
    ensures
        strict_total(by_name(name)),
{
    let lt = by_name(name);
    assert forall|a: T| !#[trigger] lt(a, a) by {
        lemma_str_lt_irreflexive(name(a));
    }
    assert forall|a: T, b: T, c: T| #[trigger] lt(a, b) && #[trigger] lt(b, c) implies lt(a, c) by {
        lemma_str_lt_transitive(name(a), name(b), name(c));
    }
    assert forall|a: T, b: T, c: T|
        #![trigger lt(a, c), lt(a, b)]
        #![trigger lt(a, c), lt(b, c)]
        lt(a, c) implies lt(a, b) || lt(b, c) by {
        let (x, y, z) = (name(a), name(b), name(c));
        lemma_str_lt_total(x, y);
        lemma_str_lt_total(y, z);
        if !lt(a, b) && !lt(b, c) {
            if str_lt(y, x) && str_lt(z, y) {
                lemma_str_lt_transitive(z, y, x);
                lemma_str_lt_transitive(x, z, x);
                lemma_str_lt_irreflexive(x);
            } else if str_lt(y, x) {
                lemma_str_lt_transitive(x, z, x);
                lemma_str_lt_irreflexive(x);
            } else if str_lt(z, y) {
                lemma_str_lt_transitive(x, z, y);
            } else {
                lemma_str_lt_irreflexive(x);
            }
        }
    }
}
} // verus!
