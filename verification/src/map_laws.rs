//! Laws of integer-keyed maps under the canonical form: the deterministic
//! key order only rearranges entries, so every field keeps its value in
//! canonical form and no field appears or disappears.

use vstd::prelude::*;
use crate::cbor::{insert_by_key, key_order, spec_encode, spec_encode_raw, spec_key_encodings, Cbor};
use crate::cbor_laws::{canonical_form, canonical_pairs, lemma_key_order_range};
use crate::cbor::spec_encode_pairs;
use crate::fields::{
    approval_context_rules, check_message, first_unknown, flat_rules_error, flat_value_error, lookup,
    nested_error, nested_kind, operation_input_rules, rule_keys, rules_error, spec_fields, spec_fields_of,
    value_error, FieldKind, FieldRule, FieldSeq,
};

verus! {

/// Whether no position occurs twice.
pub open spec fn no_duplicates(s: Seq<int>) -> bool {
    forall|i: int, j: int| 0 <= i < j < s.len() ==> s[i] != s[j]
}

/// Whether no field number occurs twice.
pub open spec fn distinct_keys(fs: FieldSeq) -> bool {
    forall|i: int, j: int| 0 <= i < j < fs.len() ==> fs[i].0 != fs[j].0
}

/// The canonical form of an optional value.
pub open spec fn canonical_option(v: Option<Cbor>) -> Option<Cbor> {
    match v {
        Some(c) => Some(canonical_form(c)),
        None => None,
    }
}

/// Inserting a position adds exactly that position, keeping the others.
pub proof fn lemma_insert_members(s: Seq<int>, keys: Seq<Seq<u8>>, x: int)
    ensures
        insert_by_key(s, keys, x).len() == s.len() + 1,
        forall|y: int| #[trigger] insert_by_key(s, keys, x).contains(y) <==> (s.contains(y) || y == x),
        no_duplicates(s) && !s.contains(x) ==> no_duplicates(insert_by_key(s, keys, x)),
    decreases s.len(),
{
    let r = insert_by_key(s, keys, x);
    if s.len() == 0 {
        assert forall|y: int| r.contains(y) <==> (s.contains(y) || y == x) by {
            if r.contains(y) {
                let i = choose|i: int| 0 <= i < r.len() && r[i] == y;
                assert(i == 0);
            }
            if y == x {
                assert(r[0] == x);
            }
        }
    } else if key_precedes_first(s, keys, x) {
        assert(r =~= seq![x] + s);
        assert forall|y: int| r.contains(y) <==> (s.contains(y) || y == x) by {
            if r.contains(y) {
                let i = choose|i: int| 0 <= i < r.len() && r[i] == y;
                if i > 0 {
                    assert(s[i - 1] == y);
                }
            }
            if s.contains(y) {
                let i = choose|i: int| 0 <= i < s.len() && s[i] == y;
                assert(r[i + 1] == y);
            }
            if y == x {
                assert(r[0] == x);
            }
        }
        if no_duplicates(s) && !s.contains(x) {
            assert forall|i: int, j: int| 0 <= i < j < r.len() implies r[i] != r[j] by {
                if i == 0 {
                    assert(r[j] == s[j - 1]);
                } else {
                    assert(r[i] == s[i - 1] && r[j] == s[j - 1]);
                }
            }
        }
    } else {
        let tail = s.drop_first();
        let t = insert_by_key(tail, keys, x);
        lemma_insert_members(tail, keys, x);
        assert(r =~= seq![s[0]] + t);
        assert forall|y: int| r.contains(y) <==> (s.contains(y) || y == x) by {
            if r.contains(y) {
                let i = choose|i: int| 0 <= i < r.len() && r[i] == y;
                if i > 0 {
                    assert(t[i - 1] == y);
                    assert(t.contains(y));
                    if tail.contains(y) {
                        let k = choose|k: int| 0 <= k < tail.len() && tail[k] == y;
                        assert(s[k + 1] == y);
                    }
                } else {
                    assert(s[0] == y);
                }
            }
            if s.contains(y) {
                let i = choose|i: int| 0 <= i < s.len() && s[i] == y;
                if i > 0 {
                    assert(tail[i - 1] == y);
                    assert(tail.contains(y));
                    assert(t.contains(y));
                    let k = choose|k: int| 0 <= k < t.len() && t[k] == y;
                    assert(r[k + 1] == y);
                } else {
                    assert(r[0] == y);
                }
            }
            if y == x {
                assert(t.contains(x));
                let k = choose|k: int| 0 <= k < t.len() && t[k] == x;
                assert(r[k + 1] == x);
            }
        }
        if no_duplicates(s) && !s.contains(x) {
            assert(no_duplicates(tail)) by {
                assert forall|i: int, j: int| 0 <= i < j < tail.len() implies tail[i] != tail[j] by {
                    assert(tail[i] == s[i + 1] && tail[j] == s[j + 1]);
                }
            }
            assert(!tail.contains(x)) by {
                if tail.contains(x) {
                    let k = choose|k: int| 0 <= k < tail.len() && tail[k] == x;
                    assert(s[k + 1] == x);
                }
            }
            assert forall|i: int, j: int| 0 <= i < j < r.len() implies r[i] != r[j] by {
                if i == 0 {
                    assert(r[j] == t[j - 1]);
                    assert(t.contains(t[j - 1]));
                    if tail.contains(t[j - 1]) {
                        let k = choose|k: int| 0 <= k < tail.len() && tail[k] == t[j - 1];
                        assert(s[k + 1] == t[j - 1]);
                    } else {
                        assert(t[j - 1] == x);
                        assert(s[0] != x);
                    }
                } else {
                    assert(r[i] == t[i - 1] && r[j] == t[j - 1]);
                }
            }
        }
    }
}

/// Whether `x` is inserted before the first element.
spec fn key_precedes_first(s: Seq<int>, keys: Seq<Seq<u8>>, x: int) -> bool {
    crate::cbor::key_precedes(keys[x], keys[s[0]])
}

/// The key order holds each position below `n` exactly once.
pub proof fn lemma_key_order_permutes(keys: Seq<Seq<u8>>, n: nat)
    ensures
        key_order(keys, n).len() == n,
        no_duplicates(key_order(keys, n)),
        forall|y: int| #[trigger] key_order(keys, n).contains(y) <==> 0 <= y < n,
    decreases n,
{
    if n > 0 {
        let s = key_order(keys, (n - 1) as nat);
        lemma_key_order_permutes(keys, (n - 1) as nat);
        assert(!s.contains(n - 1));
        lemma_insert_members(s, keys, n - 1);
    }
}

/// The canonical entries at an order are the canonical forms of the
/// entries at the order's positions.
pub proof fn lemma_canonical_pairs_index(es: Seq<(Cbor, Cbor)>, order: Seq<int>, n: nat)
    requires
        n <= order.len(),
        forall|p: int| 0 <= p < n ==> 0 <= #[trigger] order[p] < es.len(),
    ensures
        canonical_pairs(es, order, n).len() == n,
        forall|p: int| 0 <= p < n ==> #[trigger] canonical_pairs(es, order, n)[p]
            == (canonical_form(es[order[p]].0), canonical_form(es[order[p]].1)),
    decreases n,
{
    if n > 0 {
        lemma_canonical_pairs_index(es, order, (n - 1) as nat);
    }
}

/// The entries of the first `n` fields of a map that passed field collection
/// are those fields with unsigned keys, and no key repeats.
pub proof fn lemma_fields_of_shape(es: Seq<(Cbor, Cbor)>, n: nat)
    requires
        n <= es.len(),
        spec_fields_of(es, n) is Ok,
    ensures
        spec_fields_of(es, n)->Ok_0.len() == n,
        distinct_keys(spec_fields_of(es, n)->Ok_0),
        forall|i: int| 0 <= i < n ==> es[i] == (Cbor::Unsigned(#[trigger] spec_fields_of(es, n)->Ok_0[i].0), spec_fields_of(es, n)->Ok_0[i].1),
    decreases n,
{
    if n > 0 {
        lemma_fields_of_shape(es, (n - 1) as nat);
        let prev = spec_fields_of(es, (n - 1) as nat)->Ok_0;
        let fs = spec_fields_of(es, n)->Ok_0;
        let k = fs[n - 1].0;
        assert(lookup(prev, k) is None);
        assert forall|i: int| 0 <= i < n - 1 implies prev[i].0 != k by {
            lemma_lookup_present(prev, i);
        }
        assert forall|i: int| 0 <= i < n implies es[i] == (Cbor::Unsigned(#[trigger] fs[i].0), fs[i].1) by {
            if i < n - 1 {
                assert(fs[i] == prev[i]);
            }
        }
        assert forall|i: int, j: int| 0 <= i < j < fs.len() implies fs[i].0 != fs[j].0 by {
            if j < n - 1 {
                assert(fs[i] == prev[i] && fs[j] == prev[j]);
            } else {
                assert(fs[i] == prev[i]);
            }
        }
    }
}

/// A key that occurs is found; with distinct keys, at its own position.
pub proof fn lemma_lookup_present(fs: FieldSeq, i: int)
    requires
        0 <= i < fs.len(),
    ensures
        lookup(fs, fs[i].0) is Some,
        distinct_keys(fs) ==> lookup(fs, fs[i].0) == Some(fs[i].1),
    decreases fs.len(),
{
    if i < fs.len() - 1 && fs.last().0 != fs[i].0 {
        let d = fs.drop_last();
        assert(d[i] == fs[i]);
        lemma_lookup_present(d, i);
        if distinct_keys(fs) {
            assert(distinct_keys(d)) by {
                assert forall|a: int, b: int| 0 <= a < b < d.len() implies d[a].0 != d[b].0 by {
                    assert(d[a] == fs[a] && d[b] == fs[b]);
                }
            }
        }
    } else if i < fs.len() - 1 {
        if distinct_keys(fs) {
            assert(fs[i].0 != fs[fs.len() - 1].0);
        }
    }
}

/// A key that occurs nowhere is not found.
pub proof fn lemma_lookup_absent(fs: FieldSeq, k: u64)
    requires
        forall|i: int| 0 <= i < fs.len() ==> fs[i].0 != k,
    ensures
        lookup(fs, k) is None,
    decreases fs.len(),
{
    if fs.len() > 0 {
        let d = fs.drop_last();
        assert forall|i: int| 0 <= i < d.len() implies d[i].0 != k by {
            assert(d[i] == fs[i]);
        }
        lemma_lookup_absent(d, k);
    }
}

/// Entries with distinct unsigned keys pass field collection as themselves.
pub proof fn lemma_fields_of_distinct(es: Seq<(Cbor, Cbor)>, fs: FieldSeq, n: nat)
    requires
        n <= es.len(),
        n <= fs.len(),
        distinct_keys(fs),
        forall|i: int| 0 <= i < n ==> #[trigger] es[i] == (Cbor::Unsigned(fs[i].0), fs[i].1),
    ensures
        spec_fields_of(es, n) == Ok::<FieldSeq, crate::fields::SchemaError>(fs.subrange(0, n as int)),
    decreases n,
{
    if n > 0 {
        lemma_fields_of_distinct(es, fs, (n - 1) as nat);
        let prev = fs.subrange(0, n - 1);
        assert forall|i: int| 0 <= i < prev.len() implies prev[i].0 != fs[n - 1].0 by {
            assert(prev[i] == fs[i]);
        }
        lemma_lookup_absent(prev, fs[n - 1].0);
        assert(es[n - 1] == (Cbor::Unsigned(fs[n - 1].0), fs[n - 1].1));
        assert(prev.push(fs[n - 1]) =~= fs.subrange(0, n as int));
    } else {
        assert(fs.subrange(0, 0) =~= Seq::<(u64, Cbor)>::empty());
    }
}

/// The canonical form of an encodable map whose fields were collected has
/// fields of its own, with the same keys and each value in canonical form.
pub proof fn lemma_canonical_fields(m: Cbor)
    requires
        spec_fields(m) is Ok,
        spec_encode_raw(m) is Ok,
    ensures
        spec_fields(canonical_form(m)) is Ok,
        forall|k: u64| #[trigger] lookup(spec_fields(canonical_form(m))->Ok_0, k) == canonical_option(lookup(spec_fields(m)->Ok_0, k)),
        forall|i: int| 0 <= i < spec_fields(canonical_form(m))->Ok_0.len() ==>
            exists|j: int| 0 <= j < spec_fields(m)->Ok_0.len() && #[trigger] spec_fields(canonical_form(m))->Ok_0[i].0 == spec_fields(m)->Ok_0[j].0,
{
    let es = m->Entries_0;
    let n = es.len();
    let fs = spec_fields(m)->Ok_0;
    lemma_fields_of_shape(es, n);
    assert(spec_key_encodings(es, n) is Ok);
    let keys = spec_key_encodings(es, n)->Ok_0;
    let order = key_order(keys, n);
    lemma_key_order_permutes(keys, n);
    lemma_key_order_range(keys, n);
    lemma_canonical_pairs_index(es, order, n);
    let cp = canonical_pairs(es, order, n);
    assert(canonical_form(m) == Cbor::Entries(cp));
    let cfs = Seq::new(n, |p: int| (fs[order[p]].0, canonical_form(fs[order[p]].1)));
    assert forall|p: int| 0 <= p < n implies #[trigger] cp[p] == (Cbor::Unsigned(cfs[p].0), cfs[p].1) by {
        assert(es[order[p]] == (Cbor::Unsigned(fs[order[p]].0), fs[order[p]].1));
    }
    assert(distinct_keys(cfs)) by {
        assert forall|a: int, b: int| 0 <= a < b < cfs.len() implies cfs[a].0 != cfs[b].0 by {
            assert(order[a] != order[b]);
        }
    }
    lemma_fields_of_distinct(cp, cfs, n);
    assert(cfs.subrange(0, n as int) =~= cfs);
    assert(spec_fields(canonical_form(m)) == Ok::<FieldSeq, crate::fields::SchemaError>(cfs));
    assert forall|k: u64| #[trigger] lookup(cfs, k) == canonical_option(lookup(fs, k)) by {
        if exists|i: int| 0 <= i < n && fs[i].0 == k {
            let i = choose|i: int| 0 <= i < n && fs[i].0 == k;
            assert(order.contains(i));
            let p = choose|p: int| 0 <= p < order.len() && order[p] == i;
            lemma_lookup_present(cfs, p);
            lemma_lookup_present(fs, i);
        } else {
            lemma_lookup_absent(fs, k);
            assert forall|p: int| 0 <= p < cfs.len() implies cfs[p].0 != k by {
                assert(0 <= order[p] < n);
            }
            lemma_lookup_absent(cfs, k);
        }
    }
    assert forall|i: int| 0 <= i < cfs.len() implies
        exists|j: int| 0 <= j < fs.len() && #[trigger] cfs[i].0 == fs[j].0 by {
        assert(cfs[i].0 == fs[order[i]].0);
    }
}

proof fn lemma_encode_pairs_values(es: Seq<(Cbor, Cbor)>, order: Seq<int>, n: nat)
    requires
        n <= order.len(),
        forall|p: int| 0 <= p < n ==> 0 <= #[trigger] order[p] < es.len(),
        spec_encode_pairs(es, order, n) is Ok,
    ensures
        forall|p: int| 0 <= p < n ==> spec_encode_raw(es[#[trigger] order[p]].1) is Ok,
    decreases n,
{
    if n > 0 {
        lemma_encode_pairs_values(es, order, (n - 1) as nat);
    }
}

/// Every value of an encodable map is encodable.
pub proof fn lemma_entry_values_encode(m: Cbor)
    requires
        m is Entries,
        spec_encode_raw(m) is Ok,
    ensures
        forall|i: int| 0 <= i < m->Entries_0.len() ==> spec_encode_raw(#[trigger] m->Entries_0[i].1) is Ok,
{
    let es = m->Entries_0;
    let n = es.len();
    let keys = spec_key_encodings(es, n)->Ok_0;
    let order = key_order(keys, n);
    lemma_key_order_permutes(keys, n);
    lemma_key_order_range(keys, n);
    lemma_encode_pairs_values(es, order, n);
    assert forall|i: int| 0 <= i < n implies spec_encode_raw(#[trigger] es[i].1) is Ok by {
        assert(order.contains(i));
        let p = choose|p: int| 0 <= p < order.len() && order[p] == i;
    }
}

/// A field set whose keys all occur in a set of permitted keys has no
/// unknown field.
proof fn lemma_no_unknown(fs: FieldSeq, known: Seq<u64>)
    requires
        forall|i: int| 0 <= i < fs.len() ==> known.contains(#[trigger] fs[i].0),
    ensures
        first_unknown(fs, known) is None,
{
}

/// Fields whose keys are among the keys of fields with no unknown field have
/// no unknown field either.
proof fn lemma_no_unknown_subset(fs: FieldSeq, gs: FieldSeq, known: Seq<u64>)
    requires
        first_unknown(fs, known) is None,
        forall|i: int| 0 <= i < gs.len() ==> exists|j: int| 0 <= j < fs.len() && #[trigger] gs[i].0 == fs[j].0,
    ensures
        first_unknown(gs, known) is None,
{
    assert forall|i: int| 0 <= i < gs.len() implies known.contains(#[trigger] gs[i].0) by {
        let j = choose|j: int| 0 <= j < fs.len() && gs[i].0 == fs[j].0;
        assert(known.contains(fs[j].0));
    }
    lemma_no_unknown(gs, known);
}

/// A value that passes a non-nested rule still passes in canonical form.
proof fn lemma_flat_value_canonical(k: u64, kind: FieldKind, v: Cbor)
    requires
        flat_value_error(k, kind, v) is None,
    ensures
        flat_value_error(k, kind, canonical_form(v)) is None,
{
}

proof fn lemma_flat_rules_canonical(fs: FieldSeq, cfs: FieldSeq, rules: Seq<FieldRule>, n: nat)
    requires
        n <= rules.len(),
        flat_rules_error(fs, rules, n) is None,
        forall|k: u64| #[trigger] lookup(cfs, k) == canonical_option(lookup(fs, k)),
    ensures
        flat_rules_error(cfs, rules, n) is None,
    decreases n,
{
    if n > 0 {
        lemma_flat_rules_canonical(fs, cfs, rules, (n - 1) as nat);
        let r = rules[n - 1];
        assert(lookup(cfs, r.key) == canonical_option(lookup(fs, r.key)));
        if !nested_kind(r.kind) {
            if let Some(v) = lookup(fs, r.key) {
                lemma_flat_value_canonical(r.key, r.kind, v);
            }
        }
    }
}

/// A nested message that passes its rules still passes in canonical form.
proof fn lemma_nested_canonical(v: Cbor, rules: Seq<FieldRule>)
    requires
        nested_error(v, rules) is None,
        spec_encode_raw(v) is Ok,
    ensures
        nested_error(canonical_form(v), rules) is None,
{
    lemma_canonical_fields(v);
    let fs = spec_fields(v)->Ok_0;
    let cfs = spec_fields(canonical_form(v))->Ok_0;
    lemma_no_unknown_subset(fs, cfs, rule_keys(rules));
    lemma_flat_rules_canonical(fs, cfs, rules, rules.len());
}

/// A value that passes a rule still passes in canonical form.
proof fn lemma_value_canonical(k: u64, kind: FieldKind, v: Cbor)
    requires
        value_error(k, kind, v) is None,
        spec_encode_raw(v) is Ok,
    ensures
        value_error(k, kind, canonical_form(v)) is None,
{
    match kind {
        FieldKind::OperationInput => lemma_nested_canonical(v, operation_input_rules()),
        FieldKind::ApprovalContext => lemma_nested_canonical(v, approval_context_rules()),
        _ => lemma_flat_value_canonical(k, kind, v),
    }
}

proof fn lemma_rules_canonical(fs: FieldSeq, cfs: FieldSeq, rules: Seq<FieldRule>, n: nat)
    requires
        n <= rules.len(),
        rules_error(fs, rules, n) is None,
        forall|k: u64| #[trigger] lookup(cfs, k) == canonical_option(lookup(fs, k)),
        forall|i: int| 0 <= i < fs.len() ==> spec_encode_raw(#[trigger] fs[i].1) is Ok,
    ensures
        rules_error(cfs, rules, n) is None,
    decreases n,
{
    if n > 0 {
        lemma_rules_canonical(fs, cfs, rules, (n - 1) as nat);
        let r = rules[n - 1];
        assert(lookup(cfs, r.key) == canonical_option(lookup(fs, r.key)));
        if let Some(v) = lookup(fs, r.key) {
            lemma_lookup_value_encodes(fs, r.key);
            lemma_value_canonical(r.key, r.kind, v);
        }
    }
}

proof fn lemma_lookup_value_encodes(fs: FieldSeq, k: u64)
    requires
        forall|i: int| 0 <= i < fs.len() ==> spec_encode_raw(#[trigger] fs[i].1) is Ok,
        lookup(fs, k) is Some,
    ensures
        spec_encode_raw(lookup(fs, k)->Some_0) is Ok,
    decreases fs.len(),
{
    if fs.last().0 != k {
        let d = fs.drop_last();
        assert forall|i: int| 0 <= i < d.len() implies spec_encode_raw(#[trigger] d[i].1) is Ok by {
            assert(d[i] == fs[i]);
        }
        lemma_lookup_value_encodes(d, k);
    } else {
        assert(spec_encode_raw(fs[fs.len() - 1].1) is Ok);
    }
}

/// An encodable map that passes a rule table passes it in canonical form
/// too, and each of its fields holds the map's own value in canonical form.
pub proof fn lemma_check_canonical(m: Cbor, rules: Seq<FieldRule>)
    requires
        check_message(m, rules) is Ok,
        spec_encode_raw(m) is Ok,
    ensures
        check_message(canonical_form(m), rules) is Ok,
        forall|k: u64| #[trigger] lookup(check_message(canonical_form(m), rules)->Ok_0, k)
            == canonical_option(lookup(check_message(m, rules)->Ok_0, k)),
{
    lemma_canonical_fields(m);
    let es = m->Entries_0;
    let fs = spec_fields(m)->Ok_0;
    let cfs = spec_fields(canonical_form(m))->Ok_0;
    lemma_fields_of_shape(es, es.len());
    lemma_entry_values_encode(m);
    assert forall|i: int| 0 <= i < fs.len() implies spec_encode_raw(#[trigger] fs[i].1) is Ok by {
        assert(es[i].1 == fs[i].1);
    }
    lemma_no_unknown_subset(fs, cfs, rule_keys(rules));
    lemma_rules_canonical(fs, cfs, rules, rules.len());
}

proof fn lemma_rules_same_lookups(f1: FieldSeq, f2: FieldSeq, rules: Seq<FieldRule>, n: nat)
    requires
        n <= rules.len(),
        rules_error(f1, rules, n) is None,
        forall|k: u64| #[trigger] lookup(f1, k) == lookup(f2, k),
    ensures
        rules_error(f2, rules, n) is None,
    decreases n,
{
    if n > 0 {
        lemma_rules_same_lookups(f1, f2, rules, (n - 1) as nat);
        assert(lookup(f1, rules[n - 1].key) == lookup(f2, rules[n - 1].key));
    }
}

/// Two maps whose fields have the same values, the second's keys among the
/// first's, fare alike under a rule table the first passes.
pub proof fn lemma_check_same_lookups(m1: Cbor, m2: Cbor, rules: Seq<FieldRule>)
    requires
        check_message(m1, rules) is Ok,
        spec_fields(m2) is Ok,
        forall|k: u64| #[trigger] lookup(spec_fields(m1)->Ok_0, k) == lookup(spec_fields(m2)->Ok_0, k),
        forall|i: int| 0 <= i < spec_fields(m2)->Ok_0.len() ==>
            exists|j: int| 0 <= j < spec_fields(m1)->Ok_0.len() && #[trigger] spec_fields(m2)->Ok_0[i].0 == spec_fields(m1)->Ok_0[j].0,
    ensures
        check_message(m2, rules) == Ok::<FieldSeq, crate::fields::SchemaError>(spec_fields(m2)->Ok_0),
{
    let f1 = spec_fields(m1)->Ok_0;
    let f2 = spec_fields(m2)->Ok_0;
    lemma_no_unknown_subset(f1, f2, rule_keys(rules));
    lemma_rules_same_lookups(f1, f2, rules, rules.len());
}

/// Keys that occur in a field set whose lookups agree with another's occur
/// in the other.
pub proof fn lemma_keys_from_lookups(f1: FieldSeq, f2: FieldSeq)
    requires
        forall|k: u64| #[trigger] lookup(f1, k) == lookup(f2, k),
    ensures
        forall|i: int| 0 <= i < f2.len() ==> exists|j: int| 0 <= j < f1.len() && #[trigger] f2[i].0 == f1[j].0,
{
    assert forall|i: int| 0 <= i < f2.len() implies exists|j: int| 0 <= j < f1.len() && #[trigger] f2[i].0 == f1[j].0 by {
        let k = f2[i].0;
        lemma_lookup_present(f2, i);
        if forall|j: int| 0 <= j < f1.len() ==> f1[j].0 != k {
            lemma_lookup_absent(f1, k);
        }
    }
}

} // verus!
