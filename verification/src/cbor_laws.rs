//! Laws of the deterministic-CBOR profile: the decoder accepts exactly the
//! canonical encodings, and decoding an encoding gives back the value with its
//! maps in deterministic key order.

use vstd::prelude::*;
use vstd::utf8::*;
use crate::cbor::{
    be_bytes, be_value, byte_power, spec_head, spec_argument, lemma_be_value_bound, DecodeError,
    spec_value, spec_items, spec_entries, spec_length, CborLimits, CollectionKind, Cbor,
    key_precedes, bytes_before, key_order, insert_by_key, has_duplicate, lemma_insert_by_key_at, spec_encode_items,
    spec_key_encodings, spec_encode_pairs, spec_encode_raw, spec_encode, spec_decode, default_limits,
    EncodeError,
};

verus! {

/// The powers of 256 used by fixed-width big-endian fields.
pub proof fn lemma_byte_powers()
    ensures
        byte_power(1) == 0x100,
        byte_power(2) == 0x1_0000,
        byte_power(4) == 0x1_0000_0000,
        byte_power(8) == 0x1_0000_0000_0000_0000,
{
    reveal_with_fuel(byte_power, 9);
}

/// Bytes read back as a big-endian number re-encode to themselves.
pub proof fn lemma_be_roundtrip(s: Seq<u8>)
    ensures
        be_bytes(be_value(s), s.len()) == s,
    decreases s.len(),
{
    if s.len() > 0 {
        let d = s.drop_last();
        lemma_be_roundtrip(d);
        let v = be_value(s);
        assert(v == be_value(d) * 256 + s.last() as nat);
        assert(v / 256 == be_value(d));
        assert(v % 256 == s.last() as nat);
        assert(be_bytes(v, s.len()) =~= be_bytes(be_value(d), d.len()).push(s.last()));
        assert(d.push(s.last()) =~= s);
    }
}

/// A number below `256^n` written in `n` big-endian bytes reads back as itself.
pub proof fn lemma_be_bytes_value(v: nat, n: nat)
    requires
        v < byte_power(n),
    ensures
        be_value(be_bytes(v, n)) == v,
        be_bytes(v, n).len() == n,
    decreases n,
{
    if n > 0 {
        assert(v / 256 < byte_power((n - 1) as nat));
        lemma_be_bytes_value(v / 256, (n - 1) as nat);
        let b = be_bytes(v, n);
        assert(b.drop_last() =~= be_bytes(v / 256, (n - 1) as nat));
    }
}

/// A head accepted by the argument reader is the shortest head of its
/// major type and argument.
proof fn lemma_argument_is_head(input: Seq<u8>, off: int)
    requires
        0 <= off < input.len(),
        input[off] / 32 <= 5,
        input[off] % 32 != 31,
        spec_argument(input, off + 1, (input[off] % 32) as u8) is Ok,
    ensures
        ({
            let (a, e) = spec_argument(input, off + 1, (input[off] % 32) as u8)->Ok_0;
            &&& off < e <= input.len()
            &&& input.subrange(off, e) == spec_head((input[off] / 32) as u8, a)
        }),
{
    lemma_byte_powers();
    let initial = input[off];
    let additional = (initial % 32) as u8;
    let major = (initial / 32) as u8;
    let (a, e) = spec_argument(input, off + 1, additional)->Ok_0;
    if additional <= 23 {
        assert(input.subrange(off, e) =~= spec_head(major, a));
    } else if additional == 24 {
        assert(input.subrange(off, e) =~= spec_head(major, a));
    } else {
        let width: int = if additional == 25 { 2 } else if additional == 26 { 4 } else { 8 };
        let body = input.subrange(off + 1, off + 1 + width);
        lemma_be_roundtrip(body);
        lemma_be_value_bound(body);
        assert(input.subrange(off, e) =~= seq![initial] + body);
        assert(input.subrange(off, e) =~= spec_head(major, a));
    }
}

/// Reading back the shortest head gives its major type and argument.
proof fn lemma_head_is_argument(major: u8, a: u64, input: Seq<u8>, off: int)
    requires
        major <= 5,
        0 <= off,
        off + spec_head(major, a).len() <= input.len(),
        input.subrange(off, off + spec_head(major, a).len()) == spec_head(major, a),
    ensures
        spec_head(major, a).len() >= 1,
        input[off] / 32 == major,
        input[off] % 32 != 31,
        spec_argument(input, off + 1, (input[off] % 32) as u8) == Ok::<(u64, int), DecodeError>((a, off + spec_head(major, a).len())),
{
    lemma_byte_powers();
    let h = spec_head(major, a);
    assert(input[off] == input.subrange(off, off + h.len())[0]);
    if a <= 23 {
    } else if a <= 0xff {
        assert(input[off + 1] == input.subrange(off, off + h.len())[1]);
    } else {
        let width: nat = if a <= 0xffff { 2 } else if a <= 0xffff_ffff { 4 } else { 8 };
        lemma_be_bytes_value(a as nat, width);
        assert(input.subrange(off + 1, off + 1 + width) =~= input.subrange(off, off + h.len()).subrange(1, 1 + width as int));
        assert(h.subrange(1, 1 + width as int) =~= be_bytes(a as nat, width));
    }
}

/// Parsing consumes at least one byte of the input per value.
pub proof fn lemma_value_bounds(input: Seq<u8>, off: int, depth: int, lim: CborLimits)
    requires
        spec_value(input, off, depth, lim) is Ok,
    ensures
        0 <= off < spec_value(input, off, depth, lim)->Ok_0.1 <= input.len(),
    decreases lim.max_nesting + 1 - depth, 1int, 0int,
{
    let initial = input[off];
    let major = initial / 32;
    let additional = (initial % 32) as u8;
    if major == 4 {
        let (n, next) = spec_length(input, off + 1, additional, lim.max_array_entries, CollectionKind::Array)->Ok_0;
        lemma_argument_bounds(input, off + 1, additional);
        lemma_items_bounds(input, next, depth, lim, n);
    } else if major == 5 {
        let (n, next) = spec_length(input, off + 1, additional, lim.max_map_entries, CollectionKind::Entries)->Ok_0;
        lemma_argument_bounds(input, off + 1, additional);
        lemma_entries_bounds(input, next, depth, lim, n);
    } else if major <= 3 {
        lemma_argument_bounds(input, off + 1, additional);
    }
}

/// The argument reader stays within the input.
pub proof fn lemma_argument_bounds(input: Seq<u8>, off: int, additional: u8)
    requires
        0 <= off <= input.len(),
    ensures
        spec_argument(input, off, additional) matches Ok((_, e)) ==> off <= e <= input.len(),
{
}

/// Parsing `n` children consumes a contiguous stretch of the input.
pub proof fn lemma_items_bounds(input: Seq<u8>, off: int, depth: int, lim: CborLimits, n: nat)
    requires
        0 <= off <= input.len(),
        spec_items(input, off, depth, lim, n) is Ok,
    ensures
        off <= spec_items(input, off, depth, lim, n)->Ok_0.1 <= input.len(),
        spec_items(input, off, depth, lim, n)->Ok_0.0.len() == n,
    decreases lim.max_nesting + 1 - depth, 0int, n,
{
    if n > 0 {
        lemma_items_bounds(input, off, depth, lim, (n - 1) as nat);
        let (_, next) = spec_items(input, off, depth, lim, (n - 1) as nat)->Ok_0;
        lemma_value_bounds(input, next, depth + 1, lim);
    }
}

/// Parsing `n` entries consumes a contiguous stretch of the input.
pub proof fn lemma_entries_bounds(input: Seq<u8>, off: int, depth: int, lim: CborLimits, n: nat)
    requires
        0 <= off <= input.len(),
        spec_entries(input, off, depth, lim, n) is Ok,
    ensures
        off <= spec_entries(input, off, depth, lim, n)->Ok_0.1 <= input.len(),
        spec_entries(input, off, depth, lim, n)->Ok_0.0.len() == n,
    decreases lim.max_nesting + 1 - depth, 0int, n,
{
    if n > 0 {
        lemma_entries_bounds(input, off, depth, lim, (n - 1) as nat);
        let (_, next, _) = spec_entries(input, off, depth, lim, (n - 1) as nat)->Ok_0;
        lemma_value_bounds(input, next, depth + 1, lim);
        let (_, key_end) = spec_value(input, next, depth + 1, lim)->Ok_0;
        lemma_value_bounds(input, key_end, depth + 1, lim);
    }
}

/// Bounds under which a parse at one place and depth carries over to
/// another: at least as much nesting room and collection sizes at least as
/// large.
pub open spec fn transfer_ok(l1: CborLimits, d1: int, l2: CborLimits, d2: int) -> bool {
    &&& 0 <= d2
    &&& l2.max_nesting - d2 >= l1.max_nesting - d1
    &&& l1.max_map_entries <= l2.max_map_entries
    &&& l1.max_array_entries <= l2.max_array_entries
    &&& l1.max_byte_string_bytes <= l2.max_byte_string_bytes
    &&& l1.max_text_string_bytes <= l2.max_text_string_bytes
}

proof fn lemma_sub_eq(in1: Seq<u8>, a1: int, in2: Seq<u8>, a2: int, len: int, x: int, y: int)
    requires
        0 <= a1,
        a1 + len <= in1.len(),
        0 <= a2,
        a2 + len <= in2.len(),
        in2.subrange(a2, a2 + len) == in1.subrange(a1, a1 + len),
        0 <= x <= y <= len,
    ensures
        in2.subrange(a2 + x, a2 + y) == in1.subrange(a1 + x, a1 + y),
{
    assert(in2.subrange(a2 + x, a2 + y) =~= in2.subrange(a2, a2 + len).subrange(x, y));
    assert(in1.subrange(a1 + x, a1 + y) =~= in1.subrange(a1, a1 + len).subrange(x, y));
}

proof fn lemma_argument_transfer(in1: Seq<u8>, p1: int, in2: Seq<u8>, p2: int, additional: u8)
    requires
        0 <= p1 <= in1.len(),
        spec_argument(in1, p1, additional) is Ok,
        0 <= p2,
        p2 + (spec_argument(in1, p1, additional)->Ok_0.1 - p1) <= in2.len(),
        in2.subrange(p2, p2 + (spec_argument(in1, p1, additional)->Ok_0.1 - p1))
            == in1.subrange(p1, spec_argument(in1, p1, additional)->Ok_0.1),
    ensures
        spec_argument(in2, p2, additional) == Ok::<(u64, int), DecodeError>(
            (spec_argument(in1, p1, additional)->Ok_0.0, p2 + (spec_argument(in1, p1, additional)->Ok_0.1 - p1))),
{
    let (a, e) = spec_argument(in1, p1, additional)->Ok_0;
    let len = e - p1;
    if additional == 24 {
        assert(in2[p2] == in2.subrange(p2, p2 + len)[0]);
        assert(in1[p1] == in1.subrange(p1, p1 + len)[0]);
    } else if additional == 25 || additional == 26 || additional == 27 {
        assert(in2.subrange(p2, p2 + len) == in1.subrange(p1, p1 + len));
    }
}

/// A successful parse depends only on the bytes it consumed, and still
/// succeeds with at least as much nesting room and collection size.
pub proof fn lemma_value_transfer(in1: Seq<u8>, o1: int, d1: int, l1: CborLimits, in2: Seq<u8>, o2: int, d2: int, l2: CborLimits)
    requires
        spec_value(in1, o1, d1, l1) is Ok,
        transfer_ok(l1, d1, l2, d2),
        0 <= o2,
        o2 + (spec_value(in1, o1, d1, l1)->Ok_0.1 - o1) <= in2.len(),
        in2.subrange(o2, o2 + (spec_value(in1, o1, d1, l1)->Ok_0.1 - o1))
            == in1.subrange(o1, spec_value(in1, o1, d1, l1)->Ok_0.1),
    ensures
        spec_value(in2, o2, d2, l2) == Ok::<(Cbor, int), DecodeError>(
            (spec_value(in1, o1, d1, l1)->Ok_0.0, o2 + (spec_value(in1, o1, d1, l1)->Ok_0.1 - o1))),
    decreases l1.max_nesting + 1 - d1, 1int, 0int,
{
    lemma_value_bounds(in1, o1, d1, l1);
    let (w, e1) = spec_value(in1, o1, d1, l1)->Ok_0;
    let len = e1 - o1;
    assert(in2[o2] == in2.subrange(o2, o2 + len)[0]);
    assert(in1[o1] == in1.subrange(o1, o1 + len)[0]);
    let initial = in1[o1];
    let major = initial / 32;
    let additional = (initial % 32) as u8;
    if major <= 5 {
        lemma_argument_bounds(in1, o1 + 1, additional);
        let (a, next1) = spec_argument(in1, o1 + 1, additional)->Ok_0;
        if major == 4 {
            lemma_items_bounds(in1, next1, d1, l1, a as nat);
        } else if major == 5 {
            lemma_entries_bounds(in1, next1, d1, l1, a as nat);
        }
        assert(next1 <= e1);
        lemma_sub_eq(in1, o1, in2, o2, len, 1, next1 - o1);
        lemma_argument_transfer(in1, o1 + 1, in2, o2 + 1, additional);
        let next2 = o2 + (next1 - o1);
        if major == 2 || major == 3 {
            let n = a as int;
            lemma_sub_eq(in1, o1, in2, o2, len, next1 - o1, next1 - o1 + n);
        } else if major == 4 {
            lemma_sub_eq(in1, o1, in2, o2, len, next1 - o1, len);
            lemma_items_transfer(in1, next1, d1, l1, in2, next2, d2, l2, a as nat);
        } else if major == 5 {
            lemma_sub_eq(in1, o1, in2, o2, len, next1 - o1, len);
            lemma_entries_transfer(in1, next1, d1, l1, in2, next2, d2, l2, a as nat);
        }
    }
}

/// Transfer for the children of an array.
pub proof fn lemma_items_transfer(in1: Seq<u8>, p1: int, d1: int, l1: CborLimits, in2: Seq<u8>, p2: int, d2: int, l2: CborLimits, n: nat)
    requires
        0 <= p1 <= in1.len(),
        spec_items(in1, p1, d1, l1, n) is Ok,
        transfer_ok(l1, d1, l2, d2),
        0 <= p2,
        p2 + (spec_items(in1, p1, d1, l1, n)->Ok_0.1 - p1) <= in2.len(),
        in2.subrange(p2, p2 + (spec_items(in1, p1, d1, l1, n)->Ok_0.1 - p1))
            == in1.subrange(p1, spec_items(in1, p1, d1, l1, n)->Ok_0.1),
    ensures
        spec_items(in2, p2, d2, l2, n) == Ok::<(Seq<Cbor>, int), DecodeError>(
            (spec_items(in1, p1, d1, l1, n)->Ok_0.0, p2 + (spec_items(in1, p1, d1, l1, n)->Ok_0.1 - p1))),
    decreases l1.max_nesting + 1 - d1, 0int, n,
{
    if n > 0 {
        lemma_items_bounds(in1, p1, d1, l1, n);
        lemma_items_bounds(in1, p1, d1, l1, (n - 1) as nat);
        let (_, e1) = spec_items(in1, p1, d1, l1, n)->Ok_0;
        let (_, m1) = spec_items(in1, p1, d1, l1, (n - 1) as nat)->Ok_0;
        lemma_value_bounds(in1, m1, d1 + 1, l1);
        let len = e1 - p1;
        lemma_sub_eq(in1, p1, in2, p2, len, 0, m1 - p1);
        lemma_items_transfer(in1, p1, d1, l1, in2, p2, d2, l2, (n - 1) as nat);
        lemma_sub_eq(in1, p1, in2, p2, len, m1 - p1, len);
        lemma_value_transfer(in1, m1, d1 + 1, l1, in2, p2 + (m1 - p1), d2 + 1, l2);
    }
}

/// Transfer for the entries of a map, including the last key's bytes.
pub proof fn lemma_entries_transfer(in1: Seq<u8>, p1: int, d1: int, l1: CborLimits, in2: Seq<u8>, p2: int, d2: int, l2: CborLimits, n: nat)
    requires
        0 <= p1 <= in1.len(),
        spec_entries(in1, p1, d1, l1, n) is Ok,
        transfer_ok(l1, d1, l2, d2),
        0 <= p2,
        p2 + (spec_entries(in1, p1, d1, l1, n)->Ok_0.1 - p1) <= in2.len(),
        in2.subrange(p2, p2 + (spec_entries(in1, p1, d1, l1, n)->Ok_0.1 - p1))
            == in1.subrange(p1, spec_entries(in1, p1, d1, l1, n)->Ok_0.1),
    ensures
        spec_entries(in2, p2, d2, l2, n) == Ok::<(Seq<(Cbor, Cbor)>, int, Seq<u8>), DecodeError>(
            (spec_entries(in1, p1, d1, l1, n)->Ok_0.0, p2 + (spec_entries(in1, p1, d1, l1, n)->Ok_0.1 - p1),
             spec_entries(in1, p1, d1, l1, n)->Ok_0.2)),
    decreases l1.max_nesting + 1 - d1, 0int, n,
{
    if n > 0 {
        lemma_entries_bounds(in1, p1, d1, l1, n);
        lemma_entries_bounds(in1, p1, d1, l1, (n - 1) as nat);
        let (_, e1, _) = spec_entries(in1, p1, d1, l1, n)->Ok_0;
        let (_, m1, _) = spec_entries(in1, p1, d1, l1, (n - 1) as nat)->Ok_0;
        lemma_value_bounds(in1, m1, d1 + 1, l1);
        let (_, k1) = spec_value(in1, m1, d1 + 1, l1)->Ok_0;
        lemma_value_bounds(in1, k1, d1 + 1, l1);
        let len = e1 - p1;
        lemma_sub_eq(in1, p1, in2, p2, len, 0, m1 - p1);
        lemma_entries_transfer(in1, p1, d1, l1, in2, p2, d2, l2, (n - 1) as nat);
        lemma_sub_eq(in1, p1, in2, p2, len, m1 - p1, k1 - p1);
        lemma_value_transfer(in1, m1, d1 + 1, l1, in2, p2 + (m1 - p1), d2 + 1, l2);
        lemma_sub_eq(in1, p1, in2, p2, len, k1 - p1, len);
        lemma_value_transfer(in1, k1, d1 + 1, l1, in2, p2 + (k1 - p1), d2 + 1, l2);
    }
}

// ---------------------------------------------------------------------------
// Key order.
// ---------------------------------------------------------------------------

pub proof fn lemma_bytes_before_irreflexive(a: Seq<u8>)
    ensures
        !bytes_before(a, a),
    decreases a.len(),
{
    if a.len() > 0 {
        lemma_bytes_before_irreflexive(a.drop_first());
    }
}

pub proof fn lemma_bytes_before_asymmetric(a: Seq<u8>, b: Seq<u8>)
    ensures
        bytes_before(a, b) ==> !bytes_before(b, a),
    decreases a.len(),
{
    if a.len() > 0 && b.len() > 0 && a[0] == b[0] {
        lemma_bytes_before_asymmetric(a.drop_first(), b.drop_first());
    }
}

pub proof fn lemma_bytes_before_transitive(a: Seq<u8>, b: Seq<u8>, c: Seq<u8>)
    ensures
        bytes_before(a, b) && bytes_before(b, c) ==> bytes_before(a, c),
    decreases a.len(),
{
    if a.len() > 0 && b.len() > 0 && c.len() > 0 && a[0] == b[0] && b[0] == c[0] {
        lemma_bytes_before_transitive(a.drop_first(), b.drop_first(), c.drop_first());
    }
}

pub proof fn lemma_bytes_before_total(a: Seq<u8>, b: Seq<u8>)
    requires
        a.len() == b.len(),
        a != b,
    ensures
        bytes_before(a, b) || bytes_before(b, a),
    decreases a.len(),
{
    if a.len() == 0 {
        assert(a =~= b);
    } else if a[0] == b[0] {
        if a.drop_first() == b.drop_first() {
            assert forall|i: int| 0 <= i < a.len() implies a[i] == b[i] by {
                if i > 0 {
                    assert(a.drop_first()[i - 1] == b.drop_first()[i - 1]);
                }
            }
            assert(a =~= b);
        }
        lemma_bytes_before_total(a.drop_first(), b.drop_first());
    }
}

/// The key order is a strict total order.
pub proof fn lemma_key_precedes_order(a: Seq<u8>, b: Seq<u8>, c: Seq<u8>)
    ensures
        !key_precedes(a, a),
        key_precedes(a, b) ==> !key_precedes(b, a),
        key_precedes(a, b) && key_precedes(b, c) ==> key_precedes(a, c),
        a != b ==> key_precedes(a, b) || key_precedes(b, a),
{
    lemma_bytes_before_irreflexive(a);
    lemma_bytes_before_asymmetric(a, b);
    lemma_bytes_before_transitive(a, b, c);
    if a != b && a.len() == b.len() {
        lemma_bytes_before_total(a, b);
    }
}

/// The identity order on `n` positions.
pub open spec fn identity_order(n: nat) -> Seq<int> {
    Seq::new(n, |i: int| i)
}

/// Keys in strictly increasing order keep their positions.
pub proof fn lemma_key_order_identity(keys: Seq<Seq<u8>>, n: nat)
    requires
        n <= keys.len(),
        forall|i: int, j: int| 0 <= i < j < n ==> key_precedes(#[trigger] keys[i], #[trigger] keys[j]),
    ensures
        key_order(keys, n) == identity_order(n),
    decreases n,
{
    if n > 0 {
        lemma_key_order_identity(keys, (n - 1) as nat);
        let s = identity_order((n - 1) as nat);
        assert forall|q: int| 0 <= q < n - 1 implies !key_precedes(keys[n - 1], keys[#[trigger] s[q]]) by {
            lemma_key_precedes_order(keys[q], keys[n - 1], keys[n - 1]);
        }
        lemma_insert_by_key_at(s, keys, n - 1, n - 1);
        assert(s.subrange(0, n - 1) + seq![n - 1] + s.subrange(n - 1, n - 1) =~= identity_order(n));
    }
}

/// Keys each preceding the next are pairwise increasing and distinct.
pub proof fn lemma_chain_increasing(keys: Seq<Seq<u8>>)
    requires
        forall|i: int| 0 < i < keys.len() ==> key_precedes(keys[i - 1], #[trigger] keys[i]),
    ensures
        forall|i: int, j: int| 0 <= i < j < keys.len() ==> key_precedes(#[trigger] keys[i], #[trigger] keys[j]),
        !has_duplicate(keys),
    decreases keys.len(),
{
    if keys.len() > 0 {
        let d = keys.drop_last();
        assert forall|i: int| 0 < i < d.len() implies key_precedes(d[i - 1], #[trigger] d[i]) by {
            assert(d[i] == keys[i] && d[i - 1] == keys[i - 1]);
        }
        lemma_chain_increasing(d);
        assert forall|i: int, j: int| 0 <= i < j < keys.len() implies key_precedes(#[trigger] keys[i], #[trigger] keys[j]) by {
            if j < keys.len() - 1 {
                assert(d[i] == keys[i] && d[j] == keys[j]);
            } else if i < j - 1 {
                assert(d[i] == keys[i] && d[j - 1] == keys[j - 1]);
                assert(key_precedes(keys[i], keys[j - 1]));
                lemma_key_precedes_order(keys[i], keys[j - 1], keys[j]);
            }
        }
        if has_duplicate(keys) {
            let (i, j) = choose|i: int, j: int| 0 <= i < j < keys.len() && keys[i] == keys[j];
            lemma_key_precedes_order(keys[i], keys[j], keys[j]);
        }
    }
}

// ---------------------------------------------------------------------------
// Encodings of prefixes.
// ---------------------------------------------------------------------------

proof fn lemma_encode_items_push(items: Seq<Cbor>, x: Cbor, k: nat)
    requires
        k <= items.len(),
    ensures
        spec_encode_items(items.push(x), k) == spec_encode_items(items, k),
    decreases k,
{
    if k > 0 {
        lemma_encode_items_push(items, x, (k - 1) as nat);
        assert(items.push(x)[k - 1] == items[k - 1]);
    }
}

proof fn lemma_key_encodings_push(entries: Seq<(Cbor, Cbor)>, x: (Cbor, Cbor), k: nat)
    requires
        k <= entries.len(),
    ensures
        spec_key_encodings(entries.push(x), k) == spec_key_encodings(entries, k),
    decreases k,
{
    if k > 0 {
        lemma_key_encodings_push(entries, x, (k - 1) as nat);
        assert(entries.push(x)[k - 1] == entries[k - 1]);
    }
}

proof fn lemma_encode_pairs_push(entries: Seq<(Cbor, Cbor)>, x: (Cbor, Cbor), o1: Seq<int>, o2: Seq<int>, k: nat)
    requires
        k <= o1.len(),
        k <= o2.len(),
        forall|q: int| 0 <= q < k ==> #[trigger] o1[q] == o2[q] && 0 <= o1[q] < entries.len(),
    ensures
        spec_encode_pairs(entries.push(x), o1, k) == spec_encode_pairs(entries, o2, k),
    decreases k,
{
    if k > 0 {
        lemma_encode_pairs_push(entries, x, o1, o2, (k - 1) as nat);
        assert(o1[k - 1] == o2[k - 1]);
        assert(entries.push(x)[o1[k - 1]] == entries[o2[k - 1]]);
    }
}

// ---------------------------------------------------------------------------
// The decoder accepts only canonical encodings.
// ---------------------------------------------------------------------------

/// Bounds on a parse under which the value it produces re-encodes, map keys
/// included, to the bytes it consumed.
pub open spec fn canonical_setting(input: Seq<u8>, depth: int, lim: CborLimits) -> bool {
    &&& input.len() <= default_limits().max_message_bytes
    &&& transfer_ok(lim, depth, default_limits(), 0)
}

/// A map key parsed inside a message also decodes on its own.
proof fn lemma_key_standalone(input: Seq<u8>, off: int, depth: int, lim: CborLimits)
    requires
        spec_value(input, off, depth, lim) is Ok,
        canonical_setting(input, depth, lim),
    ensures
        spec_decode(input.subrange(off, spec_value(input, off, depth, lim)->Ok_0.1))
            == Ok::<Cbor, DecodeError>(spec_value(input, off, depth, lim)->Ok_0.0),
{
    lemma_value_bounds(input, off, depth, lim);
    let (w, e) = spec_value(input, off, depth, lim)->Ok_0;
    let kb = input.subrange(off, e);
    assert(kb.subrange(0, e - off) =~= kb);
    lemma_value_transfer(input, off, depth, lim, kb, 0, 0, default_limits());
}

/// The value parsed at `off` re-encodes to exactly the bytes it consumed.
pub proof fn lemma_value_canonical(input: Seq<u8>, off: int, depth: int, lim: CborLimits)
    requires
        spec_value(input, off, depth, lim) is Ok,
        canonical_setting(input, depth, lim),
    ensures
        spec_encode_raw(spec_value(input, off, depth, lim)->Ok_0.0)
            == Ok::<Seq<u8>, EncodeError>(input.subrange(off, spec_value(input, off, depth, lim)->Ok_0.1)),
    decreases lim.max_nesting + 1 - depth, 2int, 0int,
{
    lemma_value_bounds(input, off, depth, lim);
    let initial = input[off];
    let major = initial / 32;
    if major == 4 {
        lemma_array_canonical(input, off, depth, lim);
    } else if major == 5 {
        lemma_map_canonical(input, off, depth, lim);
    } else {
        lemma_scalar_canonical(input, off, depth, lim);
    }
}

proof fn lemma_scalar_canonical(input: Seq<u8>, off: int, depth: int, lim: CborLimits)
    requires
        spec_value(input, off, depth, lim) is Ok,
        input[off] / 32 != 4,
        input[off] / 32 != 5,
    ensures
        spec_encode_raw(spec_value(input, off, depth, lim)->Ok_0.0)
            == Ok::<Seq<u8>, EncodeError>(input.subrange(off, spec_value(input, off, depth, lim)->Ok_0.1)),
{
    lemma_value_bounds(input, off, depth, lim);
    let (w, e) = spec_value(input, off, depth, lim)->Ok_0;
    let initial = input[off];
    let major = initial / 32;
    let additional = (initial % 32) as u8;
    if major <= 3 {
        lemma_argument_is_head(input, off);
        lemma_argument_bounds(input, off + 1, additional);
        let (a, next) = spec_argument(input, off + 1, additional)->Ok_0;
        let head = spec_head(major as u8, a);
        assert(input.subrange(off, next) == head);
        if major == 0 {
            assert(input.subrange(off, e) == head);
        } else if major == 1 {
            assert(input.subrange(off, e) == head);
        } else if major == 2 {
            assert(input.subrange(off, e) =~= head + input.subrange(next, e));
        } else {
            let body = input.subrange(next, e);
            decode_utf8_encode_utf8(body);
            assert(input.subrange(off, e) =~= head + body);
        }
    } else {
        assert(input.subrange(off, e) =~= seq![initial]);
    }
}

proof fn lemma_array_canonical(input: Seq<u8>, off: int, depth: int, lim: CborLimits)
    requires
        spec_value(input, off, depth, lim) is Ok,
        canonical_setting(input, depth, lim),
        input[off] / 32 == 4,
    ensures
        spec_encode_raw(spec_value(input, off, depth, lim)->Ok_0.0)
            == Ok::<Seq<u8>, EncodeError>(input.subrange(off, spec_value(input, off, depth, lim)->Ok_0.1)),
    decreases lim.max_nesting + 1 - depth, 1int, 0int,
{
    lemma_value_bounds(input, off, depth, lim);
    let (w, e) = spec_value(input, off, depth, lim)->Ok_0;
    let additional = (input[off] % 32) as u8;
    lemma_argument_is_head(input, off);
    lemma_argument_bounds(input, off + 1, additional);
    let (a, next) = spec_argument(input, off + 1, additional)->Ok_0;
    let head = spec_head(4, a);
    let n = a as nat;
    lemma_items_bounds(input, next, depth, lim, n);
    lemma_items_canonical(input, next, depth, lim, n);
    assert(input.subrange(off, e) =~= head + input.subrange(next, e));
}

#[verifier::rlimit(40)]
proof fn lemma_map_canonical(input: Seq<u8>, off: int, depth: int, lim: CborLimits)
    requires
        spec_value(input, off, depth, lim) is Ok,
        canonical_setting(input, depth, lim),
        input[off] / 32 == 5,
    ensures
        spec_encode_raw(spec_value(input, off, depth, lim)->Ok_0.0)
            == Ok::<Seq<u8>, EncodeError>(input.subrange(off, spec_value(input, off, depth, lim)->Ok_0.1)),
    decreases lim.max_nesting + 1 - depth, 1int, 0int,
{
    lemma_value_bounds(input, off, depth, lim);
    let (w, e) = spec_value(input, off, depth, lim)->Ok_0;
    let additional = (input[off] % 32) as u8;
    lemma_argument_is_head(input, off);
    lemma_argument_bounds(input, off + 1, additional);
    let (a, next) = spec_argument(input, off + 1, additional)->Ok_0;
    let head = spec_head(5, a);
    let n = a as nat;
    lemma_entries_bounds(input, next, depth, lim, n);
    lemma_entries_canonical(input, next, depth, lim, n);
    let (es, _, _) = spec_entries(input, next, depth, lim, n)->Ok_0;
    let keys = spec_key_encodings(es, n)->Ok_0;
    lemma_chain_increasing(keys);
    lemma_key_order_identity(keys, n);
    assert(w == Cbor::Entries(es));
    assert(es.len() == n);
    assert(input.subrange(off, e) =~= head + input.subrange(next, e));
}

/// The children parsed from `off` re-encode to exactly the bytes consumed.
pub proof fn lemma_items_canonical(input: Seq<u8>, off: int, depth: int, lim: CborLimits, n: nat)
    requires
        0 <= off <= input.len(),
        spec_items(input, off, depth, lim, n) is Ok,
        canonical_setting(input, depth, lim),
    ensures
        spec_encode_items(spec_items(input, off, depth, lim, n)->Ok_0.0, n)
            == Ok::<Seq<u8>, EncodeError>(input.subrange(off, spec_items(input, off, depth, lim, n)->Ok_0.1)),
    decreases lim.max_nesting + 1 - depth, 0int, n,
{
    lemma_items_bounds(input, off, depth, lim, n);
    if n == 0 {
        assert(input.subrange(off, off) =~= Seq::<u8>::empty());
    } else {
        lemma_items_bounds(input, off, depth, lim, (n - 1) as nat);
        let (ws, m) = spec_items(input, off, depth, lim, (n - 1) as nat)->Ok_0;
        lemma_items_canonical(input, off, depth, lim, (n - 1) as nat);
        lemma_value_bounds(input, m, depth + 1, lim);
        lemma_value_canonical(input, m, depth + 1, lim);
        let (x, e) = spec_value(input, m, depth + 1, lim)->Ok_0;
        lemma_encode_items_push(ws, x, (n - 1) as nat);
        assert(ws.push(x)[n - 1] == x);
        assert(input.subrange(off, e) =~= input.subrange(off, m) + input.subrange(m, e));
    }
}

/// The entries parsed from `off` have profile-checked keys in strictly
/// increasing order, and re-encode in place to exactly the bytes consumed.
pub proof fn lemma_entries_canonical(input: Seq<u8>, off: int, depth: int, lim: CborLimits, n: nat)
    requires
        0 <= off <= input.len(),
        spec_entries(input, off, depth, lim, n) is Ok,
        canonical_setting(input, depth, lim),
    ensures
        ({
            let (es, e, last) = spec_entries(input, off, depth, lim, n)->Ok_0;
            &&& spec_key_encodings(es, n) is Ok
            &&& spec_key_encodings(es, n)->Ok_0.len() == n
            &&& forall|i: int| 0 < i < n ==> key_precedes(spec_key_encodings(es, n)->Ok_0[i - 1], #[trigger] spec_key_encodings(es, n)->Ok_0[i])
            &&& n > 0 ==> last == spec_key_encodings(es, n)->Ok_0[n - 1]
            &&& spec_encode_pairs(es, identity_order(n), n) == Ok::<Seq<u8>, EncodeError>(input.subrange(off, e))
        }),
    decreases lim.max_nesting + 1 - depth, 0int, n,
{
    lemma_entries_bounds(input, off, depth, lim, n);
    if n == 0 {
        assert(input.subrange(off, off) =~= Seq::<u8>::empty());
    } else {
        let n1 = (n - 1) as nat;
        lemma_entries_bounds(input, off, depth, lim, n1);
        let (es, m, prev) = spec_entries(input, off, depth, lim, n1)->Ok_0;
        lemma_entries_canonical(input, off, depth, lim, n1);
        let ks = spec_key_encodings(es, n1)->Ok_0;
        lemma_value_bounds(input, m, depth + 1, lim);
        lemma_value_canonical(input, m, depth + 1, lim);
        let (key, k) = spec_value(input, m, depth + 1, lim)->Ok_0;
        lemma_key_standalone(input, m, depth + 1, lim);
        lemma_value_bounds(input, k, depth + 1, lim);
        lemma_value_canonical(input, k, depth + 1, lim);
        let (value, e) = spec_value(input, k, depth + 1, lim)->Ok_0;
        let es2 = es.push((key, value));
        let kb = input.subrange(m, k);
        lemma_key_encodings_push(es, (key, value), n1);
        assert(es2[n - 1] == (key, value));
        let ks2 = ks.push(kb);
        assert(spec_encode(key) == Ok::<Seq<u8>, EncodeError>(kb));
        assert(spec_key_encodings(es2, n1) == Ok::<Seq<Seq<u8>>, EncodeError>(ks));
        assert(spec_key_encodings(es2, n) == Ok::<Seq<Seq<u8>>, EncodeError>(ks2));
        assert forall|i: int| 0 < i < n implies key_precedes(ks2[i - 1], #[trigger] ks2[i]) by {
            if i < n - 1 {
                assert(ks2[i - 1] == ks[i - 1] && ks2[i] == ks[i]);
            } else {
                assert(ks2[i - 1] == prev);
            }
        }
        lemma_encode_pairs_push(es, (key, value), identity_order(n), identity_order(n1), n1);
        assert(identity_order(n)[n - 1] == n - 1);
        assert(input.subrange(off, e) =~= input.subrange(off, m) + input.subrange(m, k) + input.subrange(k, e));
    }
}

/// Decoding accepts only canonical encodings: whatever the profile decoder
/// accepts under the default bounds, encoding its result gives back exactly
/// the same bytes.
pub proof fn lemma_decode_then_encode(input: Seq<u8>)
    requires
        spec_decode(input) is Ok,
    ensures
        spec_encode(spec_decode(input)->Ok_0) == Ok::<Seq<u8>, EncodeError>(input),
{
    let lim = default_limits();
    lemma_value_canonical(input, 0, 0, lim);
    lemma_value_bounds(input, 0, 0, lim);
    assert(input.subrange(0, input.len() as int) =~= input);
}

// ---------------------------------------------------------------------------
// Decoding an encoding gives back the value in canonical form.
// ---------------------------------------------------------------------------

proof fn lemma_sub_of_eq(input: Seq<u8>, off: int, b: Seq<u8>, x: int, y: int)
    requires
        0 <= off,
        off + b.len() <= input.len(),
        input.subrange(off, off + b.len()) == b,
        0 <= x <= y <= b.len(),
    ensures
        input.subrange(off + x, off + y) == b.subrange(x, y),
{
    assert(input.subrange(off + x, off + y) =~= input.subrange(off, off + b.len()).subrange(x, y));
}

proof fn lemma_insert_by_key_range(s: Seq<int>, keys: Seq<Seq<u8>>, x: int, bound: int)
    requires
        0 <= x < bound,
        forall|q: int| 0 <= q < s.len() ==> 0 <= #[trigger] s[q] < bound,
    ensures
        insert_by_key(s, keys, x).len() == s.len() + 1,
        forall|q: int| 0 <= q < s.len() + 1 ==> 0 <= #[trigger] insert_by_key(s, keys, x)[q] < bound,
    decreases s.len(),
{
    if s.len() > 0 && !key_precedes(keys[x], keys[s[0]]) {
        let t = s.drop_first();
        assert forall|q: int| 0 <= q < t.len() implies 0 <= #[trigger] t[q] < bound by {
            assert(t[q] == s[q + 1]);
        }
        lemma_insert_by_key_range(t, keys, x, bound);
        let r = insert_by_key(s, keys, x);
        assert forall|q: int| 0 <= q < s.len() + 1 implies 0 <= #[trigger] r[q] < bound by {
            if q > 0 {
                assert(r[q] == insert_by_key(t, keys, x)[q - 1]);
            }
        }
    }
}

/// The key order is an arrangement of the positions `0..n`.
pub proof fn lemma_key_order_range(keys: Seq<Seq<u8>>, n: nat)
    ensures
        key_order(keys, n).len() == n,
        forall|q: int| 0 <= q < n ==> 0 <= #[trigger] key_order(keys, n)[q] < n,
    decreases n,
{
    if n > 0 {
        lemma_key_order_range(keys, (n - 1) as nat);
        lemma_insert_by_key_range(key_order(keys, (n - 1) as nat), keys, n - 1, n as int);
    }
}

/// A value with every map's entries in deterministic key order.
pub open spec fn canonical_form(v: Cbor) -> Cbor
    decreases v, 0int,
{
    match v {
        Cbor::Array(items) => Cbor::Array(canonical_items(items, items.len())),
        Cbor::Entries(entries) => match spec_key_encodings(entries, entries.len()) {
            Ok(keys) => Cbor::Entries(canonical_pairs(entries, key_order(keys, entries.len()), entries.len())),
            Err(_) => Cbor::Entries(entries),
        },
        _ => v,
    }
}

/// Canonical forms of the first `n` items.
pub open spec fn canonical_items(items: Seq<Cbor>, n: nat) -> Seq<Cbor>
    decreases items, n,
{
    if n == 0 || n > items.len() {
        Seq::empty()
    } else {
        canonical_items(items, (n - 1) as nat).push(canonical_form(items[n - 1]))
    }
}

/// Canonical forms of the entries at positions `order[0..n]`.
pub open spec fn canonical_pairs(entries: Seq<(Cbor, Cbor)>, order: Seq<int>, n: nat) -> Seq<(Cbor, Cbor)>
    decreases entries, n,
{
    if n == 0 || n > order.len() || order[n - 1] < 0 || order[n - 1] >= entries.len() {
        Seq::empty()
    } else {
        canonical_pairs(entries, order, (n - 1) as nat).push(
            (canonical_form(entries[order[n - 1]].0), canonical_form(entries[order[n - 1]].1)))
    }
}

/// Parsing the encoding of `v`, wherever it stands and whenever the parse
/// succeeds, gives `v` in canonical form and consumes exactly its encoding.
pub proof fn lemma_encoding_parses(v: Cbor, input: Seq<u8>, off: int, depth: int, lim: CborLimits)
    requires
        spec_encode_raw(v) is Ok,
        0 <= off,
        off + spec_encode_raw(v)->Ok_0.len() <= input.len(),
        input.subrange(off, off + spec_encode_raw(v)->Ok_0.len()) == spec_encode_raw(v)->Ok_0,
        spec_value(input, off, depth, lim) is Ok,
    ensures
        spec_value(input, off, depth, lim) == Ok::<(Cbor, int), DecodeError>(
            (canonical_form(v), off + spec_encode_raw(v)->Ok_0.len())),
    decreases v, 0int,
{
    let b = spec_encode_raw(v)->Ok_0;
    match v {
        Cbor::Bool(_) => {
            assert(input[off] == b[0]);
        },
        Cbor::Null => {
            assert(input[off] == b[0]);
        },
        Cbor::Unsigned(n) => {
            lemma_head_is_argument(0, n, input, off);
        },
        Cbor::Negative(n) => {
            lemma_head_is_argument(1, (-1 - n) as u64, input, off);
        },
        Cbor::Bytes(bs) => {
            let h = spec_head(2, bs.len() as u64);
            lemma_sub_of_eq(input, off, b, 0, h.len() as int);
            assert(b.subrange(0, h.len() as int) =~= h);
            lemma_head_is_argument(2, bs.len() as u64, input, off);
            lemma_sub_of_eq(input, off, b, h.len() as int, b.len() as int);
            assert(b.subrange(h.len() as int, b.len() as int) =~= bs);
        },
        Cbor::Text(t) => {
            let bs = encode_utf8(t);
            encode_utf8_valid_utf8(t);
            encode_utf8_decode_utf8(t);
            let h = spec_head(3, bs.len() as u64);
            lemma_sub_of_eq(input, off, b, 0, h.len() as int);
            assert(b.subrange(0, h.len() as int) =~= h);
            lemma_head_is_argument(3, bs.len() as u64, input, off);
            lemma_sub_of_eq(input, off, b, h.len() as int, b.len() as int);
            assert(b.subrange(h.len() as int, b.len() as int) =~= bs);
        },
        Cbor::Array(items) => {
            let n = items.len();
            let h = spec_head(4, n as u64);
            let body = spec_encode_items(items, n)->Ok_0;
            lemma_sub_of_eq(input, off, b, 0, h.len() as int);
            assert(b.subrange(0, h.len() as int) =~= h);
            lemma_head_is_argument(4, n as u64, input, off);
            lemma_sub_of_eq(input, off, b, h.len() as int, b.len() as int);
            assert(b.subrange(h.len() as int, b.len() as int) =~= body);
            lemma_items_parse(items, n, input, off + h.len(), depth, lim);
        },
        Cbor::Entries(entries) => {
            let n = entries.len();
            let keys = spec_key_encodings(entries, n)->Ok_0;
            let order = key_order(keys, n);
            let h = spec_head(5, n as u64);
            let body = spec_encode_pairs(entries, order, n)->Ok_0;
            lemma_sub_of_eq(input, off, b, 0, h.len() as int);
            assert(b.subrange(0, h.len() as int) =~= h);
            lemma_head_is_argument(5, n as u64, input, off);
            lemma_sub_of_eq(input, off, b, h.len() as int, b.len() as int);
            assert(b.subrange(h.len() as int, b.len() as int) =~= body);
            lemma_key_order_range(keys, n);
            lemma_pairs_parse(entries, order, n, input, off + h.len(), depth, lim);
        },
    }
}

/// Parsing the concatenated encodings of the first `n` items.
pub proof fn lemma_items_parse(items: Seq<Cbor>, n: nat, input: Seq<u8>, off: int, depth: int, lim: CborLimits)
    requires
        n <= items.len(),
        spec_encode_items(items, n) is Ok,
        0 <= off,
        off + spec_encode_items(items, n)->Ok_0.len() <= input.len(),
        input.subrange(off, off + spec_encode_items(items, n)->Ok_0.len()) == spec_encode_items(items, n)->Ok_0,
        spec_items(input, off, depth, lim, n) is Ok,
    ensures
        spec_items(input, off, depth, lim, n) == Ok::<(Seq<Cbor>, int), DecodeError>(
            (canonical_items(items, n), off + spec_encode_items(items, n)->Ok_0.len())),
    decreases items, n,
{
    if n == 0 {
        assert(canonical_items(items, n) =~= Seq::<Cbor>::empty());
    } else {
        let n1 = (n - 1) as nat;
        let b1 = spec_encode_items(items, n1)->Ok_0;
        let c = spec_encode_raw(items[n - 1])->Ok_0;
        let all = b1 + c;
        lemma_sub_of_eq(input, off, all, 0, b1.len() as int);
        assert(all.subrange(0, b1.len() as int) =~= b1);
        lemma_items_parse(items, n1, input, off, depth, lim);
        lemma_sub_of_eq(input, off, all, b1.len() as int, all.len() as int);
        assert(all.subrange(b1.len() as int, all.len() as int) =~= c);
        lemma_encoding_parses(items[n - 1], input, off + b1.len(), depth + 1, lim);
    }
}

/// Parsing the key/value encodings of the entries at `order[0..n]`.
pub proof fn lemma_pairs_parse(entries: Seq<(Cbor, Cbor)>, order: Seq<int>, n: nat, input: Seq<u8>, off: int, depth: int, lim: CborLimits)
    requires
        n <= order.len(),
        forall|q: int| 0 <= q < order.len() ==> 0 <= #[trigger] order[q] < entries.len(),
        spec_encode_pairs(entries, order, n) is Ok,
        0 <= off,
        off + spec_encode_pairs(entries, order, n)->Ok_0.len() <= input.len(),
        input.subrange(off, off + spec_encode_pairs(entries, order, n)->Ok_0.len()) == spec_encode_pairs(entries, order, n)->Ok_0,
        spec_entries(input, off, depth, lim, n) is Ok,
    ensures
        spec_entries(input, off, depth, lim, n)->Ok_0.0 == canonical_pairs(entries, order, n),
        spec_entries(input, off, depth, lim, n)->Ok_0.1 == off + spec_encode_pairs(entries, order, n)->Ok_0.len(),
    decreases entries, n,
{
    if n == 0 {
        assert(canonical_pairs(entries, order, n) =~= Seq::<(Cbor, Cbor)>::empty());
    } else {
        let n1 = (n - 1) as nat;
        let i = order[n - 1];
        let b1 = spec_encode_pairs(entries, order, n1)->Ok_0;
        let k = spec_encode_raw(entries[i].0)->Ok_0;
        let v = spec_encode_raw(entries[i].1)->Ok_0;
        let all = b1 + k + v;
        lemma_sub_of_eq(input, off, all, 0, b1.len() as int);
        assert(all.subrange(0, b1.len() as int) =~= b1);
        lemma_pairs_parse(entries, order, n1, input, off, depth, lim);
        let p = off + b1.len();
        lemma_sub_of_eq(input, off, all, b1.len() as int, (b1.len() + k.len()) as int);
        assert(all.subrange(b1.len() as int, (b1.len() + k.len()) as int) =~= k);
        lemma_encoding_parses(entries[i].0, input, p, depth + 1, lim);
        let q = p + k.len();
        lemma_sub_of_eq(input, off, all, (b1.len() + k.len()) as int, all.len() as int);
        assert(all.subrange((b1.len() + k.len()) as int, all.len() as int) =~= v);
        lemma_encoding_parses(entries[i].1, input, q, depth + 1, lim);
    }
}

/// Decoding an encoding gives back the encoded value, with every map's
/// entries in deterministic key order.
pub proof fn lemma_encode_then_decode(v: Cbor)
    requires
        spec_encode(v) is Ok,
    ensures
        spec_decode(spec_encode(v)->Ok_0) == Ok::<Cbor, DecodeError>(canonical_form(v)),
{
    let b = spec_encode(v)->Ok_0;
    assert(b.subrange(0, b.len() as int) =~= b);
    lemma_encoding_parses(v, b, 0, 0, default_limits());
}

/// Every decoded value is already in canonical form.
pub proof fn lemma_decoded_is_canonical(input: Seq<u8>)
    requires
        spec_decode(input) is Ok,
    ensures
        canonical_form(spec_decode(input)->Ok_0) == spec_decode(input)->Ok_0,
{
    lemma_decode_then_encode(input);
    lemma_encode_then_decode(spec_decode(input)->Ok_0);
}

} // verus!
