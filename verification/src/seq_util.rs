//! Facts about sequences whose elements are told apart by a key.

use vstd::prelude::*;

verus! {

/// Dropping the last element of a sequence with distinct keys leaves the
/// keys distinct, and the dropped key is not among them.
pub proof fn lemma_distinct_drop_last<A, K>(s: Seq<A>, key: spec_fn(A) -> K)
    requires
        s.len() > 0,
        s.map_values(key).no_duplicates(),
    ensures
        s.drop_last().map_values(key).no_duplicates(),
        !s.drop_last().map_values(key).contains(key(s.last())),
{
    let ks = s.map_values(key);
    let kh = s.drop_last().map_values(key);
    assert forall|a: int, b: int| 0 <= a < kh.len() && 0 <= b < kh.len() && a != b implies kh[a]
        != kh[b] by {
        assert(ks[a] != ks[b]);
    }
    if kh.contains(key(s.last())) {
        let a = choose|a: int| 0 <= a < kh.len() && kh[a] == key(s.last());
        assert(ks[a] == ks[s.len() - 1]);
    }
}

/// Adding an element whose key is new keeps the keys distinct.
pub proof fn lemma_distinct_push<A, K>(s: Seq<A>, x: A, key: spec_fn(A) -> K)
    requires
        s.map_values(key).no_duplicates(),
        !s.map_values(key).contains(key(x)),
    ensures
        s.push(x).map_values(key).no_duplicates(),
        s.push(x).map_values(key) == s.map_values(key).push(key(x)),
{
    let ks = s.map_values(key);
    let kp = s.push(x).map_values(key);
    assert(kp =~= ks.push(key(x)));
    assert forall|a: int, b: int| 0 <= a < kp.len() && 0 <= b < kp.len() && a != b implies kp[a]
        != kp[b] by {
        if a == s.len() {
            assert(ks.contains(ks[b]));
        } else if b == s.len() {
            assert(ks.contains(ks[a]));
        } else {
            assert(ks[a] != ks[b]);
        }
    }
}

/// Replacing an element by one of the same key changes no key.
pub proof fn lemma_update_same_key<A, K>(s: Seq<A>, i: int, x: A, key: spec_fn(A) -> K)
    requires
        0 <= i < s.len(),
        key(x) == key(s[i]),
    ensures
        s.update(i, x).map_values(key) == s.map_values(key),
{
    assert(s.update(i, x).map_values(key) =~= s.map_values(key));
}

/// Among distinct keys, an element's position is the position of its key.
pub proof fn lemma_index_of_key<A, K>(s: Seq<A>, i: int, key: spec_fn(A) -> K)
    requires
        0 <= i < s.len(),
        s.map_values(key).no_duplicates(),
    ensures
        s.map_values(key).contains(key(s[i])),
        s.map_values(key).index_of(key(s[i])) == i,
{
    let ks = s.map_values(key);
    assert(ks[i] == key(s[i]));
    let j = ks.index_of(key(s[i]));
    assert(ks[j] == key(s[i]));
}

/// A key that is present sits at a valid position and is the key of the
/// element there.
pub proof fn lemma_key_position<A, K>(s: Seq<A>, k: K, key: spec_fn(A) -> K)
    requires
        s.map_values(key).contains(k),
    ensures
        0 <= s.map_values(key).index_of(k) < s.len(),
        key(s[s.map_values(key).index_of(k)]) == k,
{
    let ks = s.map_values(key);
    let j = ks.index_of(k);
    assert(0 <= j < ks.len() && ks[j] == k);
}

/// Choosing elements by a predicate keeps distinct keys distinct and brings
/// in no key.
pub proof fn lemma_filter_distinct<A, K>(s: Seq<A>, key: spec_fn(A) -> K, keep: spec_fn(A) -> bool)
    requires
        s.map_values(key).no_duplicates(),
    ensures
        s.filter(keep).map_values(key).no_duplicates(),
        forall|k: K| #[trigger]
            s.filter(keep).map_values(key).contains(k) ==> s.map_values(key).contains(k),
    decreases s.len(),
{
    if s.len() == 0 {
        reveal(Seq::filter);
        assert(s.filter(keep) =~= s);
    } else {
        let head = s.drop_last();
        assert(s =~= head.push(s.last()));
        lemma_distinct_drop_last(s, key);
        lemma_filter_distinct(head, key, keep);
        head.lemma_filter_push(s.last(), keep);
        let fh = head.filter(keep);
        assert forall|k: K| #[trigger] fh.map_values(key).contains(k) implies s.map_values(
            key,
        ).contains(k) by {
            assert(head.map_values(key).contains(k));
            let a = choose|a: int| 0 <= a < head.len() && head.map_values(key)[a] == k;
            assert(s.map_values(key)[a] == k);
        }
        if keep(s.last()) {
            lemma_distinct_push(fh, s.last(), key);
            let fs = fh.push(s.last());
            assert forall|k: K| #[trigger] fs.map_values(key).contains(k) implies s.map_values(
                key,
            ).contains(k) by {
                let a = choose|a: int| 0 <= a < fs.len() && fs.map_values(key)[a] == k;
                if a == fh.len() {
                    assert(s.map_values(key)[s.len() - 1] == k);
                } else {
                    assert(fh.map_values(key)[a] == k);
                    assert(fh.map_values(key).contains(k));
                }
            }
        }
    }
}

/// Adding an element moves no other key: a key other than the new one is
/// present exactly when it was, at the position it had.
pub proof fn lemma_push_other_key<A, K>(s: Seq<A>, x: A, key: spec_fn(A) -> K, k: K)
    requires
        s.map_values(key).no_duplicates(),
        !s.map_values(key).contains(key(x)),
        k != key(x),
    ensures
        s.push(x).map_values(key).contains(k) == s.map_values(key).contains(k),
        s.map_values(key).contains(k) ==> s.push(x).map_values(key).index_of(k) == s.map_values(
            key,
        ).index_of(k),
{
    let ks = s.map_values(key);
    let kp = s.push(x).map_values(key);
    lemma_distinct_push(s, x, key);
    if ks.contains(k) {
        let j = ks.index_of(k);
        assert(ks[j] == k);
        assert(kp[j] == k);
        let j2 = kp.index_of(k);
        assert(kp[j2] == k);
    }
    if kp.contains(k) {
        let j = kp.index_of(k);
        assert(kp[j] == k);
        assert(j < s.len());
        assert(ks[j] == k);
    }
}

} // verus!
