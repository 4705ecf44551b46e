//! Laws of the deterministic map-key order: it sorts keys strictly, a value
//! brought into canonical form keeps its encoding, and a map keeps its
//! encoding when its entries are rearranged or its values are replaced by
//! values with the same encoding.

use vstd::prelude::*;
use crate::cbor::{
    has_duplicate, insert_by_key, key_order, key_precedes, spec_encode, spec_encode_items, spec_encode_pairs,
    spec_encode_raw, spec_head, spec_key_encodings, Cbor,
};
use crate::cbor_laws::{
    canonical_form, canonical_items, canonical_pairs, identity_order, lemma_key_order_identity,
    lemma_key_order_range, lemma_key_precedes_order,
};
use crate::map_laws::{lemma_canonical_pairs_index, lemma_key_order_permutes, no_duplicates};

verus! {

/// Whether positions are in strictly increasing key order.
pub open spec fn sorted_by_keys(s: Seq<int>, keys: Seq<Seq<u8>>) -> bool {
    forall|p: int, q: int| 0 <= p < q < s.len() ==> key_precedes(#[trigger] keys[s[p]], #[trigger] keys[s[q]])
}

proof fn lemma_insert_sorted(s: Seq<int>, keys: Seq<Seq<u8>>, x: int)
    requires
        sorted_by_keys(s, keys),
        forall|j: int| 0 <= j < s.len() ==> keys[#[trigger] s[j]] != keys[x],
    ensures
        sorted_by_keys(insert_by_key(s, keys, x), keys),
    decreases s.len(),
{
    let r = insert_by_key(s, keys, x);
    if s.len() == 0 {
    } else if key_precedes(keys[x], keys[s[0]]) {
        assert(r =~= seq![x] + s);
        assert forall|p: int, q: int| 0 <= p < q < r.len() implies key_precedes(#[trigger] keys[r[p]], #[trigger] keys[r[q]]) by {
            if p == 0 {
                if q > 1 {
                    lemma_key_precedes_order(keys[x], keys[s[0]], keys[s[q - 1]]);
                }
            } else {
                assert(r[p] == s[p - 1] && r[q] == s[q - 1]);
            }
        }
    } else {
        let tail = s.drop_first();
        assert(sorted_by_keys(tail, keys)) by {
            assert forall|p: int, q: int| 0 <= p < q < tail.len() implies key_precedes(#[trigger] keys[tail[p]], #[trigger] keys[tail[q]]) by {
                assert(tail[p] == s[p + 1] && tail[q] == s[q + 1]);
            }
        }
        assert forall|j: int| 0 <= j < tail.len() implies keys[#[trigger] tail[j]] != keys[x] by {
            assert(tail[j] == s[j + 1]);
        }
        lemma_insert_sorted(tail, keys, x);
        let t = insert_by_key(tail, keys, x);
        crate::map_laws::lemma_insert_members(tail, keys, x);
        assert(r =~= seq![s[0]] + t);
        lemma_key_precedes_order(keys[x], keys[s[0]], keys[s[0]]);
        assert(key_precedes(keys[s[0]], keys[x]));
        assert forall|p: int, q: int| 0 <= p < q < r.len() implies key_precedes(#[trigger] keys[r[p]], #[trigger] keys[r[q]]) by {
            if p == 0 {
                let y = t[q - 1];
                assert(r[q] == y);
                assert(t.contains(y));
                if tail.contains(y) {
                    let k = choose|k: int| 0 <= k < tail.len() && tail[k] == y;
                    assert(s[k + 1] == y);
                }
            } else {
                assert(r[p] == t[p - 1] && r[q] == t[q - 1]);
            }
        }
    }
}

/// The key order of distinct keys is strictly increasing.
pub proof fn lemma_key_order_sorted(keys: Seq<Seq<u8>>, n: nat)
    requires
        n <= keys.len(),
        forall|i: int, j: int| 0 <= i < j < n ==> keys[i] != keys[j],
    ensures
        sorted_by_keys(key_order(keys, n), keys),
    decreases n,
{
    if n > 0 {
        let s = key_order(keys, (n - 1) as nat);
        lemma_key_order_sorted(keys, (n - 1) as nat);
        lemma_key_order_permutes(keys, (n - 1) as nat);
        assert forall|j: int| 0 <= j < s.len() implies keys[#[trigger] s[j]] != keys[n - 1] by {
            assert(s.contains(s[j]));
        }
        lemma_insert_sorted(s, keys, n - 1);
    }
}

/// Each key encoding is the profile-checked encoding of its key.
pub proof fn lemma_key_encodings_index(es: Seq<(Cbor, Cbor)>, n: nat)
    requires
        n <= es.len(),
        spec_key_encodings(es, n) is Ok,
    ensures
        spec_key_encodings(es, n)->Ok_0.len() == n,
        forall|j: int| 0 <= j < n ==> spec_encode(#[trigger] es[j].0) == Ok::<Seq<u8>, crate::cbor::EncodeError>(spec_key_encodings(es, n)->Ok_0[j]),
    decreases n,
{
    if n > 0 {
        lemma_key_encodings_index(es, (n - 1) as nat);
    }
}

proof fn lemma_key_encodings_from(es: Seq<(Cbor, Cbor)>, ks: Seq<Seq<u8>>, n: nat)
    requires
        n <= es.len(),
        n <= ks.len(),
        forall|j: int| 0 <= j < n ==> spec_encode(#[trigger] es[j].0) == Ok::<Seq<u8>, crate::cbor::EncodeError>(ks[j]),
    ensures
        spec_key_encodings(es, n) == Ok::<Seq<Seq<u8>>, crate::cbor::EncodeError>(ks.subrange(0, n as int)),
    decreases n,
{
    if n > 0 {
        lemma_key_encodings_from(es, ks, (n - 1) as nat);
        assert(ks.subrange(0, n - 1).push(ks[n - 1]) =~= ks.subrange(0, n as int));
    } else {
        assert(ks.subrange(0, 0) =~= Seq::<Seq<u8>>::empty());
    }
}

proof fn lemma_encode_items_values(items: Seq<Cbor>, k: nat)
    requires
        k <= items.len(),
        spec_encode_items(items, k) is Ok,
    ensures
        forall|j: int| 0 <= j < k ==> spec_encode_raw(#[trigger] items[j]) is Ok,
    decreases k,
{
    if k > 0 {
        lemma_encode_items_values(items, (k - 1) as nat);
    }
}

proof fn lemma_encode_pairs_parts(es: Seq<(Cbor, Cbor)>, order: Seq<int>, n: nat)
    requires
        n <= order.len(),
        forall|p: int| 0 <= p < n ==> 0 <= #[trigger] order[p] < es.len(),
        spec_encode_pairs(es, order, n) is Ok,
    ensures
        forall|p: int| 0 <= p < n ==> spec_encode_raw(es[#[trigger] order[p]].0) is Ok && spec_encode_raw(es[order[p]].1) is Ok,
    decreases n,
{
    if n > 0 {
        lemma_encode_pairs_parts(es, order, (n - 1) as nat);
    }
}

proof fn lemma_items_raw(items: Seq<Cbor>, k: nat)
    requires
        k <= items.len(),
        forall|j: int| 0 <= j < k ==> spec_encode_raw(#[trigger] items[j]) is Ok,
    ensures
        canonical_items(items, k).len() == k,
        spec_encode_items(canonical_items(items, k), k) == spec_encode_items(items, k),
    decreases items, k,
{
    if k > 0 {
        lemma_items_raw(items, (k - 1) as nat);
        let prev = canonical_items(items, (k - 1) as nat);
        let ci = canonical_items(items, k);
        lemma_raw_canonical(items[k - 1]);
        assert(ci == prev.push(canonical_form(items[k - 1])));
        lemma_encode_items_prefix(prev, canonical_form(items[k - 1]), (k - 1) as nat);
        assert(ci[k - 1] == canonical_form(items[k - 1]));
    }
}

proof fn lemma_encode_items_prefix(items: Seq<Cbor>, x: Cbor, k: nat)
    requires
        k <= items.len(),
    ensures
        spec_encode_items(items.push(x), k) == spec_encode_items(items, k),
    decreases k,
{
    if k > 0 {
        lemma_encode_items_prefix(items, x, (k - 1) as nat);
        assert(items.push(x)[k - 1] == items[k - 1]);
    }
}

proof fn lemma_pairs_raw(es: Seq<(Cbor, Cbor)>, order: Seq<int>, cp: Seq<(Cbor, Cbor)>, k: nat)
    requires
        k <= order.len(),
        k <= cp.len(),
        forall|p: int| 0 <= p < k ==> 0 <= #[trigger] order[p] < es.len(),
        forall|p: int| 0 <= p < k ==> #[trigger] cp[p] == (canonical_form(es[order[p]].0), canonical_form(es[order[p]].1)),
        forall|p: int| 0 <= p < k ==> spec_encode_raw(es[#[trigger] order[p]].0) is Ok && spec_encode_raw(es[order[p]].1) is Ok,
    ensures
        spec_encode_pairs(cp, identity_order(cp.len()), k) == spec_encode_pairs(es, order, k),
    decreases es, k,
{
    if k > 0 {
        lemma_pairs_raw(es, order, cp, (k - 1) as nat);
        let i = order[k - 1];
        assert(decreases_to!(es => es[i]));
        lemma_raw_canonical(es[i].0);
        lemma_raw_canonical(es[i].1);
        assert(identity_order(cp.len())[k - 1] == k - 1);
    }
}

/// Bringing a value into canonical form does not change its encoding.
pub proof fn lemma_raw_canonical(v: Cbor)
    requires
        spec_encode_raw(v) is Ok,
    ensures
        spec_encode_raw(canonical_form(v)) == spec_encode_raw(v),
    decreases v, 1int,
{
    match v {
        Cbor::Array(items) => {
            lemma_encode_items_values(items, items.len());
            lemma_items_raw(items, items.len());
        },
        Cbor::Entries(es) => {
            let n = es.len();
            let keys = spec_key_encodings(es, n)->Ok_0;
            let order = key_order(keys, n);
            lemma_key_encodings_index(es, n);
            lemma_key_order_permutes(keys, n);
            lemma_key_order_range(keys, n);
            assert forall|i: int, j: int| 0 <= i < j < n implies keys[i] != keys[j] by {
                if keys[i] == keys[j] {
                    assert(has_duplicate(keys));
                }
            }
            lemma_key_order_sorted(keys, n);
            lemma_canonical_pairs_index(es, order, n);
            let cp = canonical_pairs(es, order, n);
            lemma_encode_pairs_parts(es, order, n);
            let ck = Seq::new(n, |p: int| keys[order[p]]);
            assert forall|p: int| 0 <= p < n implies spec_encode(#[trigger] cp[p].0) == Ok::<Seq<u8>, crate::cbor::EncodeError>(ck[p]) by {
                let i = order[p];
                assert(decreases_to!(es => es[i]));
                lemma_raw_canonical(es[i].0);
            }
            lemma_key_encodings_from(cp, ck, n);
            assert(ck.subrange(0, n as int) =~= ck);
            assert forall|i: int, j: int| 0 <= i < j < n implies key_precedes(#[trigger] ck[i], #[trigger] ck[j]) by {
            }
            lemma_key_order_identity(ck, n);
            assert(!has_duplicate(ck)) by {
                if has_duplicate(ck) {
                    let (i, j) = choose|i: int, j: int| 0 <= i < j < ck.len() && ck[i] == ck[j];
                    lemma_key_precedes_order(ck[i], ck[j], ck[j]);
                }
            }
            lemma_pairs_raw(es, order, cp, n);
        },
        _ => {},
    }
}

proof fn lemma_same_keys_encodings(es: Seq<(Cbor, Cbor)>, cs: Seq<(Cbor, Cbor)>, n: nat)
    requires
        n <= es.len(),
        es.len() == cs.len(),
        forall|i: int| 0 <= i < es.len() ==> #[trigger] cs[i].0 == es[i].0,
    ensures
        spec_key_encodings(cs, n) == spec_key_encodings(es, n),
    decreases n,
{
    if n > 0 {
        lemma_same_keys_encodings(es, cs, (n - 1) as nat);
        assert(cs[n - 1].0 == es[n - 1].0);
    }
}

proof fn lemma_same_values_pairs(es: Seq<(Cbor, Cbor)>, cs: Seq<(Cbor, Cbor)>, order: Seq<int>, n: nat)
    requires
        n <= order.len(),
        es.len() == cs.len(),
        forall|i: int| 0 <= i < es.len() ==> #[trigger] cs[i].0 == es[i].0,
        forall|i: int| 0 <= i < es.len() ==> spec_encode_raw(#[trigger] cs[i].1) == spec_encode_raw(es[i].1),
    ensures
        spec_encode_pairs(cs, order, n) == spec_encode_pairs(es, order, n),
    decreases n,
{
    if n > 0 {
        lemma_same_values_pairs(es, cs, order, (n - 1) as nat);
        if 0 <= order[n - 1] < es.len() {
            let i = order[n - 1];
            assert(cs[i].0 == es[i].0);
            assert(spec_encode_raw(cs[i].1) == spec_encode_raw(es[i].1));
        }
    }
}

/// A map whose entries keep their keys and order, each value replaced by one
/// with the same encoding, has the same encoding.
pub proof fn lemma_same_values_encode(es: Seq<(Cbor, Cbor)>, cs: Seq<(Cbor, Cbor)>)
    requires
        es.len() == cs.len(),
        forall|i: int| 0 <= i < es.len() ==> #[trigger] cs[i].0 == es[i].0,
        forall|i: int| 0 <= i < es.len() ==> spec_encode_raw(#[trigger] cs[i].1) == spec_encode_raw(es[i].1),
    ensures
        spec_encode_raw(Cbor::Entries(cs)) == spec_encode_raw(Cbor::Entries(es)),
        spec_encode(Cbor::Entries(cs)) == spec_encode(Cbor::Entries(es)),
{
    let n = es.len();
    lemma_same_keys_encodings(es, cs, n);
    if spec_key_encodings(es, n) is Ok {
        let keys = spec_key_encodings(es, n)->Ok_0;
        lemma_key_order_range(keys, n);
        lemma_same_values_pairs(es, cs, key_order(keys, n), n);
    }
}

/// Whether `perm` arranges the positions `0..n`, each exactly once.
pub open spec fn is_permutation(perm: Seq<int>, n: nat) -> bool {
    &&& perm.len() == n
    &&& forall|i: int| 0 <= i < n ==> 0 <= #[trigger] perm[i] < n
    &&& forall|i: int, j: int| 0 <= i < j < n ==> #[trigger] perm[i] != #[trigger] perm[j]
    &&& forall|k: int| 0 <= k < n ==> #[trigger] perm.contains(k)
}

/// Whether keys are in strictly increasing order.
pub open spec fn increasing_keys(a: Seq<Seq<u8>>) -> bool {
    forall|i: int, j: int| 0 <= i < j < a.len() ==> key_precedes(#[trigger] a[i], #[trigger] a[j])
}

proof fn lemma_increasing_prefix(a: Seq<Seq<u8>>, b: Seq<Seq<u8>>, m: nat)
    requires
        m <= a.len(),
        a.len() == b.len(),
        increasing_keys(a),
        increasing_keys(b),
        forall|i: int| 0 <= i < a.len() ==> #[trigger] b.contains(a[i]),
        forall|j: int| 0 <= j < b.len() ==> #[trigger] a.contains(b[j]),
    ensures
        forall|p: int| 0 <= p < m ==> #[trigger] a[p] == b[p],
    decreases m,
{
    if m > 0 {
        lemma_increasing_prefix(a, b, (m - 1) as nat);
        let p = m - 1;
        assert(b.contains(a[p]));
        assert(a.contains(b[p]));
        let q = choose|j: int| 0 <= j < b.len() && b[j] == a[p];
        let r = choose|i: int| 0 <= i < a.len() && a[i] == b[p];
        lemma_key_precedes_order(a[p], b[p], a[p]);
        lemma_key_precedes_order(b[p], a[p], b[p]);
        if q < p {
            assert(a[q] == b[q]);
            assert(key_precedes(a[q], a[p]));
        }
        if r < p {
            assert(a[r] == b[r]);
            assert(key_precedes(b[r], b[p]));
        }
        if q > p && r > p {
            assert(key_precedes(b[p], b[q]));
            assert(key_precedes(a[p], a[r]));
        }
        assert(a[p] == b[p]);
    }
}

/// Two strictly increasing key sequences holding the same keys are equal.
pub proof fn lemma_increasing_unique(a: Seq<Seq<u8>>, b: Seq<Seq<u8>>)
    requires
        a.len() == b.len(),
        increasing_keys(a),
        increasing_keys(b),
        forall|i: int| 0 <= i < a.len() ==> #[trigger] b.contains(a[i]),
        forall|j: int| 0 <= j < b.len() ==> #[trigger] a.contains(b[j]),
    ensures
        a == b,
{
    lemma_increasing_prefix(a, b, a.len());
    assert(a =~= b);
}

proof fn lemma_pairs_reindexed(es: Seq<(Cbor, Cbor)>, o: Seq<int>, cs: Seq<(Cbor, Cbor)>, o2: Seq<int>, n: nat)
    requires
        n <= o.len(),
        n <= o2.len(),
        forall|p: int| 0 <= p < n ==> 0 <= #[trigger] o[p] < es.len(),
        forall|p: int| 0 <= p < n ==> 0 <= #[trigger] o2[p] < cs.len(),
        forall|p: int| 0 <= p < n ==> #[trigger] cs[o2[p]] == es[o[p]],
    ensures
        spec_encode_pairs(cs, o2, n) == spec_encode_pairs(es, o, n),
    decreases n,
{
    if n > 0 {
        lemma_pairs_reindexed(es, o, cs, o2, (n - 1) as nat);
        assert(cs[o2[n - 1]] == es[o[n - 1]]);
    }
}

/// Rearranging the entries of an encodable map does not change its
/// encoding: the encoder orders entries by key alone.
pub proof fn lemma_entry_order_irrelevant(es: Seq<(Cbor, Cbor)>, perm: Seq<int>)
    requires
        is_permutation(perm, es.len()),
        spec_encode_raw(Cbor::Entries(es)) is Ok,
    ensures
        spec_encode_raw(Cbor::Entries(Seq::new(es.len(), |i: int| es[perm[i]]))) == spec_encode_raw(Cbor::Entries(es)),
        spec_encode(Cbor::Entries(Seq::new(es.len(), |i: int| es[perm[i]]))) == spec_encode(Cbor::Entries(es)),
{
    let n = es.len();
    let cs = Seq::new(n, |i: int| es[perm[i]]);
    let ks = spec_key_encodings(es, n)->Ok_0;
    lemma_key_encodings_index(es, n);
    let ks2 = Seq::new(n, |i: int| ks[perm[i]]);
    assert forall|j: int| 0 <= j < n implies spec_encode(#[trigger] cs[j].0) == Ok::<Seq<u8>, crate::cbor::EncodeError>(ks2[j]) by {
        assert(spec_encode(es[perm[j]].0) == Ok::<Seq<u8>, crate::cbor::EncodeError>(ks[perm[j]]));
    }
    lemma_key_encodings_from(cs, ks2, n);
    assert(ks2.subrange(0, n as int) =~= ks2);
    assert forall|i: int, j: int| 0 <= i < j < n implies ks[i] != ks[j] by {
        if ks[i] == ks[j] {
            assert(has_duplicate(ks));
        }
    }
    assert forall|i: int, j: int| 0 <= i < j < n implies ks2[i] != ks2[j] by {
        assert(perm[i] != perm[j]);
    }
    assert(!has_duplicate(ks2));
    let o = key_order(ks, n);
    let o2 = key_order(ks2, n);
    lemma_key_order_sorted(ks, n);
    lemma_key_order_sorted(ks2, n);
    lemma_key_order_permutes(ks, n);
    lemma_key_order_permutes(ks2, n);
    lemma_key_order_range(ks, n);
    lemma_key_order_range(ks2, n);
    let a = Seq::new(n, |p: int| ks[o[p]]);
    let b = Seq::new(n, |p: int| ks2[o2[p]]);
    assert forall|i: int| 0 <= i < a.len() implies #[trigger] b.contains(a[i]) by {
        let k = o[i];
        assert(perm.contains(k));
        let t = choose|t: int| 0 <= t < perm.len() && perm[t] == k;
        assert(o2.contains(t));
        let q = choose|q: int| 0 <= q < o2.len() && o2[q] == t;
        assert(b[q] == a[i]);
    }
    assert forall|j: int| 0 <= j < b.len() implies #[trigger] a.contains(b[j]) by {
        let k = perm[o2[j]];
        assert(o.contains(k));
        let p = choose|p: int| 0 <= p < o.len() && o[p] == k;
        assert(a[p] == b[j]);
    }
    assert(increasing_keys(a)) by {
        assert forall|i: int, j: int| 0 <= i < j < a.len() implies key_precedes(#[trigger] a[i], #[trigger] a[j]) by {
            assert(key_precedes(ks[o[i]], ks[o[j]]));
        }
    }
    assert(increasing_keys(b)) by {
        assert forall|i: int, j: int| 0 <= i < j < b.len() implies key_precedes(#[trigger] b[i], #[trigger] b[j]) by {
            assert(key_precedes(ks2[o2[i]], ks2[o2[j]]));
        }
    }
    lemma_increasing_unique(a, b);
    assert forall|p: int| 0 <= p < n implies #[trigger] cs[o2[p]] == es[o[p]] by {
        assert(a[p] == b[p]);
        if perm[o2[p]] != o[p] {
            if perm[o2[p]] < o[p] {
                assert(ks[perm[o2[p]]] != ks[o[p]]);
            } else {
                assert(ks[o[p]] != ks[perm[o2[p]]]);
            }
        }
    }
    lemma_pairs_reindexed(es, o, cs, o2, n);
}

} // verus!
