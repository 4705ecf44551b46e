//! The encoding of a message map depends only on which field holds a value
//! with which encoding, not on the order of its entries; and what the field
//! rules guarantee of the fields of a message that passed them.

use vstd::prelude::*;
use crate::cbor::{spec_encode, spec_encode_raw, Cbor};
use crate::fields::{
    check_message, first_unknown, flat_rule_error, flat_value_error, lemma_flat_rules_hold, lemma_rules_hold,
    lookup, nested_error, nested_kind, rule_error, rule_keys, signed_cbor, signed_value, spec_fields, FieldKind,
    FieldRule, FieldSeq,
};
use crate::map_laws::{
    distinct_keys, lemma_entry_values_encode, lemma_fields_of_shape, lemma_lookup_absent, lemma_lookup_present,
};
use crate::order_laws::{is_permutation, lemma_entry_order_irrelevant, lemma_same_values_encode};

verus! {

/// Whether two optional values are both absent, or both present with the
/// same encoding.
pub open spec fn same_encoding(a: Option<Cbor>, b: Option<Cbor>) -> bool {
    match (a, b) {
        (None, None) => true,
        (Some(x), Some(y)) => spec_encode_raw(x) == spec_encode_raw(y),
        _ => false,
    }
}

/// A field that is found occurs in the field sequence with the found value.
pub proof fn lemma_lookup_found(fs: FieldSeq, k: u64)
    requires
        lookup(fs, k) is Some,
    ensures
        exists|i: int| 0 <= i < fs.len() && #[trigger] fs[i] == (k, lookup(fs, k)->Some_0),
    decreases fs.len(),
{
    if fs.last().0 == k {
        assert(fs[fs.len() - 1] == (k, lookup(fs, k)->Some_0));
    } else {
        let d = fs.drop_last();
        lemma_lookup_found(d, k);
        let i = choose|i: int| 0 <= i < d.len() && #[trigger] d[i] == (k, lookup(d, k)->Some_0);
        assert(fs[i] == d[i]);
    }
}

/// The keys of a field sequence.
pub open spec fn field_keys(fs: FieldSeq) -> Seq<u64> {
    Seq::new(fs.len(), |i: int| fs[i].0)
}

proof fn lemma_same_key_count(f1: FieldSeq, f2: FieldSeq)
    requires
        distinct_keys(f1),
        distinct_keys(f2),
        forall|k: u64| #[trigger] lookup(f1, k) is Some <==> lookup(f2, k) is Some,
    ensures
        f1.len() == f2.len(),
{
    let k1 = field_keys(f1);
    let k2 = field_keys(f2);
    assert(k1.no_duplicates());
    assert(k2.no_duplicates());
    assert forall|k: u64| k1.to_set().contains(k) <==> k2.to_set().contains(k) by {
        if k1.contains(k) {
            let i = choose|i: int| 0 <= i < k1.len() && k1[i] == k;
            lemma_lookup_present(f1, i);
            lemma_lookup_found(f2, k);
            let j = choose|j: int| 0 <= j < f2.len() && #[trigger] f2[j] == (k, lookup(f2, k)->Some_0);
            assert(k2[j] == k);
        }
        if k2.contains(k) {
            let i = choose|i: int| 0 <= i < k2.len() && k2[i] == k;
            lemma_lookup_present(f2, i);
            lemma_lookup_found(f1, k);
            let j = choose|j: int| 0 <= j < f1.len() && #[trigger] f1[j] == (k, lookup(f1, k)->Some_0);
            assert(k1[j] == k);
        }
    }
    assert(k1.to_set() =~= k2.to_set());
    k1.unique_seq_to_set();
    k2.unique_seq_to_set();
}

/// Two maps whose fields hold values with the same encodings under the same
/// keys encode alike, whatever order their entries are in.
pub proof fn lemma_same_fields_encode(m1: Cbor, m2: Cbor)
    requires
        spec_fields(m1) is Ok,
        spec_fields(m2) is Ok,
        spec_encode_raw(m1) is Ok,
        forall|k: u64| #[trigger] same_encoding(lookup(spec_fields(m1)->Ok_0, k), lookup(spec_fields(m2)->Ok_0, k)),
    ensures
        spec_encode_raw(m2) == spec_encode_raw(m1),
        spec_encode(m2) == spec_encode(m1),
{
    let es1 = m1->Entries_0;
    let es2 = m2->Entries_0;
    let f1 = spec_fields(m1)->Ok_0;
    let f2 = spec_fields(m2)->Ok_0;
    lemma_fields_of_shape(es1, es1.len());
    lemma_fields_of_shape(es2, es2.len());
    assert forall|k: u64| #[trigger] lookup(f1, k) is Some <==> lookup(f2, k) is Some by {
        assert(same_encoding(lookup(f1, k), lookup(f2, k)));
    }
    lemma_same_key_count(f1, f2);
    let n = es1.len();
    let perm = Seq::new(n, |i: int| choose|j: int| 0 <= j < n && #[trigger] f1[j].0 == f2[i].0);
    assert forall|i: int| 0 <= i < n implies 0 <= #[trigger] perm[i] < n && f1[perm[i]].0 == f2[i].0 by {
        lemma_lookup_present(f2, i);
        let k = f2[i].0;
        assert(same_encoding(lookup(f1, k), lookup(f2, k)));
        lemma_lookup_found(f1, k);
        let j = choose|j: int| 0 <= j < f1.len() && #[trigger] f1[j] == (k, lookup(f1, k)->Some_0);
        assert(f1[j].0 == f2[i].0);
        assert(exists|j: int| 0 <= j < n && #[trigger] f1[j].0 == f2[i].0);
    }
    assert forall|i: int, j: int| 0 <= i < j < n implies #[trigger] perm[i] != #[trigger] perm[j] by {
        assert(f1[perm[i]].0 == f2[i].0);
        assert(f1[perm[j]].0 == f2[j].0);
    }
    assert forall|k: int| 0 <= k < n implies #[trigger] perm.contains(k) by {
        let key = f1[k].0;
        lemma_lookup_present(f1, k);
        assert(same_encoding(lookup(f1, key), lookup(f2, key)));
        lemma_lookup_found(f2, key);
        let i = choose|i: int| 0 <= i < f2.len() && #[trigger] f2[i] == (key, lookup(f2, key)->Some_0);
        assert(f1[perm[i]].0 == key);
        assert(perm[i] == k);
    }
    assert(is_permutation(perm, n));
    lemma_entry_order_irrelevant(es1, perm);
    let cs = Seq::new(n, |i: int| es1[perm[i]]);
    assert forall|i: int| 0 <= i < n implies #[trigger] es2[i].0 == cs[i].0 by {
        assert(f1[perm[i]].0 == f2[i].0);
    }
    assert forall|i: int| 0 <= i < n implies spec_encode_raw(#[trigger] es2[i].1) == spec_encode_raw(cs[i].1) by {
        let j = perm[i];
        let k = f2[i].0;
        assert(f1[j].0 == k);
        lemma_lookup_present(f1, j);
        lemma_lookup_present(f2, i);
        assert(same_encoding(lookup(f1, k), lookup(f2, k)));
    }
    lemma_same_values_encode(cs, es2);
    assert(m2 == Cbor::Entries(es2));
    assert(m1 == Cbor::Entries(es1));
}

/// A field sequence without unknown keys finds nothing under a key outside
/// the permitted ones.
pub proof fn lemma_unknown_absent(fs: FieldSeq, known: Seq<u64>, k: u64)
    requires
        forall|i: int| 0 <= i < fs.len() ==> known.contains(#[trigger] fs[i].0),
        !known.contains(k),
    ensures
        lookup(fs, k) is None,
{
    assert forall|i: int| 0 <= i < fs.len() implies fs[i].0 != k by {
        assert(known.contains(fs[i].0));
    }
    lemma_lookup_absent(fs, k);
}

/// Whether one rule holds of a field set: nested rules with their nested
/// checks, the others as flat rules.
pub open spec fn rule_holds(fs: FieldSeq, rule: FieldRule) -> bool {
    if nested_kind(rule.kind) {
        rule_error(fs, rule) is None
    } else {
        flat_rule_error(fs, rule) is None
    }
}

/// Whether a field set has no unknown field and every rule holds of it.
pub open spec fn rules_hold(fs: FieldSeq, rules: Seq<FieldRule>) -> bool {
    &&& first_unknown(fs, rule_keys(rules)) is None
    &&& forall|j: int| 0 <= j < rules.len() ==> #[trigger] rule_holds(fs, rules[j])
}

/// The fields of a message that passed its check satisfy its rules.
pub proof fn lemma_checked_rules_hold(m: Cbor, rules: Seq<FieldRule>)
    requires
        check_message(m, rules) is Ok,
    ensures
        spec_fields(m) is Ok,
        check_message(m, rules) == Ok::<FieldSeq, crate::fields::SchemaError>(spec_fields(m)->Ok_0),
        rules_hold(spec_fields(m)->Ok_0, rules),
{
    let fs = spec_fields(m)->Ok_0;
    lemma_rules_hold(fs, rules, rules.len());
    assert forall|j: int| 0 <= j < rules.len() implies #[trigger] rule_holds(fs, rules[j]) by {
        assert(rule_error(fs, rules[j]) is None);
    }
}

/// The fields of a nested message without nested rules that passed its
/// check satisfy its rules.
pub proof fn lemma_nested_rules_hold(m: Cbor, rules: Seq<FieldRule>)
    requires
        nested_error(m, rules) is None,
        forall|j: int| 0 <= j < rules.len() ==> !nested_kind(#[trigger] rules[j].kind),
    ensures
        spec_fields(m) is Ok,
        rules_hold(spec_fields(m)->Ok_0, rules),
{
    let fs = spec_fields(m)->Ok_0;
    lemma_flat_rules_hold(fs, rules, rules.len());
    assert forall|j: int| 0 <= j < rules.len() implies #[trigger] rule_holds(fs, rules[j]) by {
        assert(!nested_kind(rules[j].kind));
        assert(flat_rule_error(fs, rules[j]) is None);
    }
}

/// A field set without unknown fields finds nothing under a key outside
/// the range of its rules' keys.
pub proof fn lemma_outside_rules_absent(fs: FieldSeq, rules: Seq<FieldRule>, lo: u64, hi: u64, k: u64)
    requires
        first_unknown(fs, rule_keys(rules)) is None,
        forall|j: int| 0 <= j < rules.len() ==> lo <= #[trigger] rules[j].key <= hi,
        k < lo || k > hi,
    ensures
        lookup(fs, k) is None,
{
    let known = rule_keys(rules);
    assert forall|i: int| 0 <= i < fs.len() implies known.contains(#[trigger] fs[i].0) by {
        if !known.contains(fs[i].0) {
            assert(exists|i: int| 0 <= i < fs.len() && !known.contains(#[trigger] fs[i].0));
        }
    }
    if known.contains(k) {
        let j = choose|j: int| 0 <= j < known.len() && known[j] == k;
        assert(known[j] == rules[j].key);
        assert(lo <= rules[j].key <= hi);
    }
    lemma_unknown_absent(fs, known, k);
}

/// A value found in the fields of an encodable map is encodable.
pub proof fn lemma_found_value_encodes(m: Cbor, k: u64)
    requires
        spec_fields(m) is Ok,
        spec_encode_raw(m) is Ok,
        lookup(spec_fields(m)->Ok_0, k) is Some,
    ensures
        spec_encode_raw(lookup(spec_fields(m)->Ok_0, k)->Some_0) is Ok,
{
    let fs = spec_fields(m)->Ok_0;
    let es = m->Entries_0;
    lemma_fields_of_shape(es, es.len());
    lemma_entry_values_encode(m);
    lemma_lookup_found(fs, k);
    let i = choose|i: int| 0 <= i < fs.len() && #[trigger] fs[i] == (k, lookup(fs, k)->Some_0);
    assert(es[i].1 == fs[i].1);
}

/// An encodable value that passed a signed-integer rule is the model of the
/// integer it denotes.
pub proof fn lemma_signed_model(k: u64, v: Cbor, x: i64)
    requires
        flat_value_error(k, FieldKind::Signed, v) is None,
        spec_encode_raw(v) is Ok,
        signed_value(v) == x,
    ensures
        signed_cbor(x) == v,
{
}

} // verus!
