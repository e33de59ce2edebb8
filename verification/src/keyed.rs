//! Sequences of keyed entries (a name or key with its value), the model
//! of JSON object members and of the entries an `lru::LruCache` holds, with
//! the facts about them that the library's proofs use.
use vstd::prelude::*;

verus! {

/// The names of an object's members, in order.
pub open spec fn member_names<V>(s: Seq<(Seq<char>, V)>) -> Seq<Seq<char>> {
    s.map_values(|f: (Seq<char>, V)| f.0)
}

/// The value of the first member named `k`.
pub open spec fn first_value<V>(s: Seq<(Seq<char>, V)>, k: Seq<char>) -> Option<V>
    decreases s.len(),
{
    if s.len() == 0 {
        None
    } else if s[0].0 == k {
        Some(s[0].1)
    } else {
        first_value(s.drop_first(), k)
    }
}

/// No name occurs twice among the members.
pub open spec fn distinct_names<V>(s: Seq<(Seq<char>, V)>) -> bool {
    forall|i: int, j: int| 0 <= i < j < s.len() ==> #[trigger] s[i].0 != #[trigger] s[j].0
}

pub proof fn lemma_names_cons<V>(f: (Seq<char>, V), s: Seq<(Seq<char>, V)>)
    ensures
        member_names(seq![f] + s) == seq![f.0] + member_names(s),
{
    assert(member_names(seq![f] + s) =~= seq![f.0] + member_names(s));
}

pub proof fn lemma_first_value_contains<V>(s: Seq<(Seq<char>, V)>, k: Seq<char>)
    ensures
        first_value(s, k) is Some <==> member_names(s).contains(k),
    decreases s.len(),
{
    if s.len() > 0 {
        let t = s.drop_first();
        lemma_first_value_contains(t, k);
        assert(s =~= seq![s[0]] + t);
        lemma_names_cons(s[0], t);
        let ns = member_names(s);
        let nt = member_names(t);
        if ns.contains(k) && s[0].0 != k {
            let i = choose|i: int| 0 <= i < ns.len() && ns[i] == k;
            assert(nt[i - 1] == k);
        }
        if nt.contains(k) {
            let i = choose|i: int| 0 <= i < nt.len() && nt[i] == k;
            assert(ns[i + 1] == k);
        }
        if s[0].0 == k {
            assert(ns[0] == k);
        }
    }
}

pub proof fn lemma_first_value_at<V>(s: Seq<(Seq<char>, V)>, i: int)
    requires
        0 <= i < s.len(),
        forall|m: int| 0 <= m < i ==> #[trigger] s[m].0 != s[i].0,
    ensures
        first_value(s, s[i].0) == Some(s[i].1),
    decreases i,
{
    if i > 0 {
        let t = s.drop_first();
        assert forall|m: int| 0 <= m < i - 1 implies #[trigger] t[m].0 != t[i - 1].0 by {
            assert(t[m] == s[m + 1]);
        }
        lemma_first_value_at(t, i - 1);
        assert(s[0].0 != s[i].0);
    }
}

/// `lru::LruCache`, an opaque type here: its entries are named by the
/// library's caches, which reach it only through their trusted items.
#[verifier::external_type_specification]
#[verifier::external_body]
#[verifier::reject_recursive_types(K)]
#[verifier::reject_recursive_types(V)]
#[verifier::reject_recursive_types(S)]
pub struct ExLruCache<K, V, S>(lru::LruCache<K, V, S>);

/// The hasher `lru::LruCache` uses by default, opaque here.
#[verifier::external_type_specification]
#[verifier::external_body]
pub struct ExLruDefaultHasher(lru::DefaultHasher);

/// The members of `s` that satisfy `p`, in order.
pub open spec fn keep<T>(s: Seq<T>, p: spec_fn(T) -> bool) -> Seq<T>
    decreases s.len(),
{
    if s.len() == 0 {
        s
    } else if p(s.last()) {
        keep(s.drop_last(), p).push(s.last())
    } else {
        keep(s.drop_last(), p)
    }
}

/// The test that an entry is not under key `k`.
pub open spec fn key_differs<V>(k: Seq<char>) -> spec_fn((Seq<char>, V)) -> bool {
    |e: (Seq<char>, V)| e.0 != k
}

/// The entries without the one under key `k`.
pub open spec fn without_key<V>(s: Seq<(Seq<char>, V)>, k: Seq<char>) -> Seq<(Seq<char>, V)> {
    keep(s, key_differs(k))
}

/// Some entry is under key `k`.
pub open spec fn has_key<V>(s: Seq<(Seq<char>, V)>, k: Seq<char>) -> bool {
    exists|i: int| 0 <= i < s.len() && #[trigger] s[i].0 == k
}

pub proof fn lemma_keep_contains<T>(s: Seq<T>, p: spec_fn(T) -> bool, x: T)
    ensures
        keep(s, p).contains(x) <==> (s.contains(x) && p(x)),
        keep(s, p).len() <= s.len(),
    decreases s.len(),
{
    if s.len() > 0 {
        let init = s.drop_last();
        lemma_keep_contains(init, p, x);
        let k0 = keep(init, p);
        if p(s.last()) {
            if keep(s, p).contains(x) {
                let i = choose|i: int| 0 <= i < keep(s, p).len() && keep(s, p)[i] == x;
                if i < k0.len() {
                    assert(k0[i] == x);
                }
            }
            if k0.contains(x) {
                let i = choose|i: int| 0 <= i < k0.len() && k0[i] == x;
                assert(keep(s, p)[i] == x);
            }
            if x == s.last() {
                assert(keep(s, p)[k0.len() as int] == x);
            }
        }
        if s.contains(x) {
            let i = choose|i: int| 0 <= i < s.len() && s[i] == x;
            if i < s.len() - 1 {
                assert(init[i] == x);
            }
        }
        if init.contains(x) {
            let i = choose|i: int| 0 <= i < init.len() && init[i] == x;
            assert(s[i] == x);
        }
    }
}

pub proof fn lemma_keep_keep<T>(s: Seq<T>, p: spec_fn(T) -> bool, q: spec_fn(T) -> bool)
    ensures
        keep(keep(s, p), q) == keep(s, |x: T| p(x) && q(x)),
    decreases s.len(),
{
    if s.len() > 0 {
        lemma_keep_keep(s.drop_last(), p, q);
        if p(s.last()) {
            let k = keep(s, p);
            assert(k.drop_last() =~= keep(s.drop_last(), p));
        }
    }
}

pub proof fn lemma_keep_ext<T>(s: Seq<T>, p: spec_fn(T) -> bool, q: spec_fn(T) -> bool)
    requires
        forall|i: int| 0 <= i < s.len() ==> p(#[trigger] s[i]) == q(s[i]),
    ensures
        keep(s, p) == keep(s, q),
    decreases s.len(),
{
    if s.len() > 0 {
        assert(p(s[s.len() - 1]) == q(s[s.len() - 1]));
        lemma_keep_ext(s.drop_last(), p, q);
    }
}

pub proof fn lemma_keep_cons<T>(x: T, s: Seq<T>, p: spec_fn(T) -> bool)
    ensures
        keep(seq![x] + s, p) == if p(x) {
            seq![x] + keep(s, p)
        } else {
            keep(s, p)
        },
    decreases s.len(),
{
    if s.len() == 0 {
        assert((seq![x] + s).drop_last() =~= Seq::<T>::empty());
        assert(seq![x] + s =~= seq![x]);
        reveal_with_fuel(keep, 2);
        assert(keep(s, p) == s);
    } else {
        lemma_keep_cons(x, s.drop_last(), p);
        assert((seq![x] + s).drop_last() =~= seq![x] + s.drop_last());
        assert((seq![x] + s).last() == s.last());
        if p(x) {
            assert((seq![x] + keep(s.drop_last(), p)).push(s.last()) =~= seq![x] + keep(
                s.drop_last(),
                p,
            ).push(s.last()));
        }
    }
}

pub proof fn lemma_keep_all<T>(s: Seq<T>, p: spec_fn(T) -> bool)
    requires
        forall|i: int| 0 <= i < s.len() ==> p(#[trigger] s[i]),
    ensures
        keep(s, p) == s,
    decreases s.len(),
{
    if s.len() > 0 {
        assert(p(s[s.len() - 1]));
        lemma_keep_all(s.drop_last(), p);
        assert(s.drop_last().push(s.last()) =~= s);
    }
}

pub proof fn lemma_keep_index<T>(s: Seq<T>, p: spec_fn(T) -> bool, i: int)
    requires
        0 <= i < keep(s, p).len(),
    ensures
        s.contains(keep(s, p)[i]),
{
    lemma_keep_contains(s, p, keep(s, p)[i]);
}

pub proof fn lemma_keep_distinct<V>(s: Seq<(Seq<char>, V)>, p: spec_fn((Seq<char>, V)) -> bool)
    requires
        distinct_names(s),
    ensures
        distinct_names(keep(s, p)),
    decreases s.len(),
{
    if s.len() > 0 {
        let init = s.drop_last();
        lemma_keep_distinct(init, p);
        let k0 = keep(init, p);
        if p(s.last()) {
            let k = keep(s, p);
            assert forall|i: int, j: int| 0 <= i < j < k.len() implies #[trigger] k[i].0 != #[trigger] k[j].0 by {
                if j == k.len() - 1 {
                    lemma_keep_index(init, p, i);
                    let m = choose|m: int| 0 <= m < init.len() && init[m] == k0[i];
                    assert(s[m] == init[m]);
                    assert(s[m].0 != s[s.len() - 1].0);
                } else {
                    assert(k[i] == k0[i] && k[j] == k0[j]);
                }
            }
        }
    }
}

pub proof fn lemma_has_key_contains<V>(s: Seq<(Seq<char>, V)>, k: Seq<char>)
    ensures
        has_key(s, k) <==> exists|v: V| s.contains((k, v)),
{
    if has_key(s, k) {
        let i = choose|i: int| 0 <= i < s.len() && #[trigger] s[i].0 == k;
        assert(s[i] == (k, s[i].1));
        assert(s.contains((k, s[i].1)));
    }
    if exists|v: V| s.contains((k, v)) {
        let v = choose|v: V| s.contains((k, v));
        let i = choose|i: int| 0 <= i < s.len() && s[i] == (k, v);
        assert(s[i].0 == k);
    }
}

pub proof fn lemma_without_key_drops<V>(s: Seq<(Seq<char>, V)>, k: Seq<char>)
    ensures
        !has_key(without_key(s, k), k),
        has_key(s, k) ==> without_key(s, k).len() < s.len(),
        without_key(s, k).len() <= s.len(),
    decreases s.len(),
{
    let w = without_key(s, k);
    let p = key_differs(k);
    if has_key(w, k) {
        let i = choose|i: int| 0 <= i < w.len() && #[trigger] w[i].0 == k;
        lemma_keep_contains(s, p, w[i]);
        assert(w.contains(w[i]));
    }
    lemma_keep_contains(s, p, (k, arbitrary()));
    if s.len() > 0 {
        lemma_without_key_drops(s.drop_last(), k);
        if has_key(s, k) && s.last().0 != k {
            let i = choose|i: int| 0 <= i < s.len() && #[trigger] s[i].0 == k;
            assert(s.drop_last()[i].0 == k);
        }
    }
}

pub proof fn lemma_first_value_distinct<V>(s: Seq<(Seq<char>, V)>, k: Seq<char>, v: V)
    requires
        distinct_names(s),
        s.contains((k, v)),
    ensures
        first_value(s, k) == Some(v),
{
    let i = choose|i: int| 0 <= i < s.len() && s[i] == (k, v);
    assert forall|m: int| 0 <= m < i implies #[trigger] s[m].0 != s[i].0 by {}
    lemma_first_value_at(s, i);
}

pub proof fn lemma_first_value_absent<V>(s: Seq<(Seq<char>, V)>, k: Seq<char>)
    ensures
        first_value(s, k) is None <==> !has_key(s, k),
{
    lemma_first_value_contains(s, k);
    if has_key(s, k) {
        let i = choose|i: int| 0 <= i < s.len() && #[trigger] s[i].0 == k;
        assert(member_names(s)[i] == k);
    }
    if member_names(s).contains(k) {
        let i = choose|i: int| 0 <= i < member_names(s).len() && member_names(s)[i] == k;
        assert(s[i].0 == k);
    }
}

/// What `LruCache::put` leaves: the entry in front; a key already there
/// loses its old entry, else a full cache loses its least recently used.
pub open spec fn put_entry<V>(
    s: Seq<(Seq<char>, V)>,
    k: Seq<char>,
    v: V,
    cap: nat,
) -> Seq<(Seq<char>, V)> {
    seq![(k, v)] + if has_key(s, k) {
        without_key(s, k)
    } else if s.len() >= cap {
        s.drop_last()
    } else {
        s
    }
}

/// A well-formed entry list: unique keys, within the capacity.
pub open spec fn entries_ok<V>(s: Seq<(Seq<char>, V)>, cap: nat) -> bool {
    distinct_names(s) && s.len() <= cap
}

pub proof fn lemma_put_entry_ok<V>(s: Seq<(Seq<char>, V)>, k: Seq<char>, v: V, cap: nat)
    requires
        entries_ok(s, cap),
        cap > 0,
    ensures
        entries_ok(put_entry(s, k, v, cap), cap),
        first_value(put_entry(s, k, v, cap), k) == Some(v),
{
    let r = put_entry(s, k, v, cap);
    let rest = if has_key(s, k) {
        without_key(s, k)
    } else if s.len() >= cap {
        s.drop_last()
    } else {
        s
    };
    lemma_without_key_drops(s, k);
    if has_key(s, k) {
        lemma_keep_distinct(s, key_differs(k));
    } else if s.len() >= cap {
        let d = s.drop_last();
        assert forall|i: int, j: int| 0 <= i < j < d.len() implies #[trigger] d[i].0 != #[trigger] d[j].0 by {
            assert(d[i] == s[i] && d[j] == s[j]);
        }
    }
    assert(distinct_names(rest));
    assert(!has_key(rest, k)) by {
        if !has_key(s, k) && has_key(rest, k) {
            let i = choose|i: int| 0 <= i < rest.len() && #[trigger] rest[i].0 == k;
            assert(s[i].0 == k);
        }
    }
    assert forall|i: int, j: int| 0 <= i < j < r.len() implies #[trigger] r[i].0 != #[trigger] r[j].0 by {
        if i == 0 {
            assert(r[j] == rest[j - 1]);
        } else {
            assert(r[i] == rest[i - 1] && r[j] == rest[j - 1]);
        }
    }
}

} // verus!
