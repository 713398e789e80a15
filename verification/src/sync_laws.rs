//! What holds of synchronisation across calls: merging is idempotent, keeps
//! identifiers distinct, and two peers that exchange their logs reach the same
//! state hash, whatever the order in which operations arrived.
use vstd::prelude::*;
use crate::sync::{
    OpModel, EngineModel, text_less, insert_by_id, sort_by_id, find_by_id, merge_spec,
    engine_apply, state_hash_of, ops_writes, op_writes, hex16, hex_digit, utf8, le_bytes,
};
use std::collections::hash_map::DefaultHasher;
use vstd::std_specs::hash::DefaultHasherAdditionalSpecFns;

verus! {

/// No two operations of the sequence share an identifier.
pub open spec fn ids_distinct(log: Seq<OpModel>) -> bool {
    forall|i: int, j: int| 0 <= i < j < log.len() ==> log[i].id != log[j].id
}

/// Identifiers strictly increase along the sequence.
pub open spec fn strictly_sorted(s: Seq<OpModel>) -> bool {
    forall|i: int, j: int| 0 <= i < j < s.len() ==> text_less(s[i].id, s[j].id)
}

/// Some operation of the log has the identifier.
pub open spec fn has_id(log: Seq<OpModel>, id: Seq<char>) -> bool {
    exists|i: int| 0 <= i < log.len() && log[i].id == id
}

/// Two sequences hold the same operations.
pub open spec fn same_ops(a: Seq<OpModel>, b: Seq<OpModel>) -> bool {
    forall|x: OpModel| a.contains(x) <==> b.contains(x)
}

/// Operations of the two sequences that share an identifier are the same operation.
pub open spec fn consistent(a: Seq<OpModel>, b: Seq<OpModel>) -> bool {
    forall|i: int, j: int|
        0 <= i < a.len() && 0 <= j < b.len() && a[i].id == b[j].id ==> a[i] == b[j]
}

pub proof fn lemma_text_less_irreflexive(a: Seq<char>)
    ensures
        !text_less(a, a),
    decreases a.len(),
{
    if a.len() > 0 {
        lemma_text_less_irreflexive(a.drop_first());
    }
}

pub proof fn lemma_text_less_total(a: Seq<char>, b: Seq<char>)
    requires
        a != b,
    ensures
        text_less(a, b) || text_less(b, a),
    decreases a.len(),
{
    if a.len() > 0 && b.len() > 0 && a[0] == b[0] {
        if a.drop_first() == b.drop_first() {
            assert(a =~= seq![a[0]] + a.drop_first());
            assert(b =~= seq![b[0]] + b.drop_first());
            assert(a == b);
        } else {
            lemma_text_less_total(a.drop_first(), b.drop_first());
        }
    } else if a.len() == 0 && b.len() == 0 {
        assert(a =~= b);
    } else if a.len() > 0 && b.len() > 0 {
        assert((a[0] as int) != (b[0] as int));
    }
}

pub proof fn lemma_text_less_transitive(a: Seq<char>, b: Seq<char>, c: Seq<char>)
    requires
        text_less(a, b),
        text_less(b, c),
    ensures
        text_less(a, c),
    decreases a.len(),
{
    if a.len() > 0 && b.len() > 0 && c.len() > 0 && a[0] == b[0] && b[0] == c[0] {
        lemma_text_less_transitive(a.drop_first(), b.drop_first(), c.drop_first());
    }
}

pub proof fn lemma_text_less_asymmetric(a: Seq<char>, b: Seq<char>)
    requires
        text_less(a, b),
    ensures
        !text_less(b, a),
{
    if text_less(b, a) {
        lemma_text_less_transitive(a, b, a);
        lemma_text_less_irreflexive(a);
    }
}

/// Inserting keeps every operation and adds the new one; into a strictly sorted
/// sequence without its identifier, it keeps the sequence strictly sorted.
proof fn lemma_insert_by_id(s: Seq<OpModel>, x: OpModel)
    ensures
        insert_by_id(s, x).len() == s.len() + 1,
        forall|y: OpModel| #[trigger] insert_by_id(s, x).contains(y) <==> (s.contains(y) || y == x),
        strictly_sorted(s) && (forall|i: int| 0 <= i < s.len() ==> s[i].id != x.id)
            ==> strictly_sorted(insert_by_id(s, x)),
    decreases s.len(),
{
    let r = insert_by_id(s, x);
    if s.len() == 0 {
        assert forall|y: OpModel| r.contains(y) <==> (s.contains(y) || y == x) by {
            if r.contains(y) {
                assert(r[0] == y);
            }
            if y == x {
                assert(r[0] == x);
            }
        }
    } else {
        let init = s.drop_last();
        let last = s.last();
        lemma_insert_by_id(init, x);
        assert(s =~= init.push(last));
        if text_less(x.id, last.id) {
            let inner = insert_by_id(init, x);
            assert(r == inner.push(last));
            assert forall|y: OpModel| r.contains(y) <==> (s.contains(y) || y == x) by {
                if r.contains(y) {
                    let k = choose|k: int| 0 <= k < r.len() && r[k] == y;
                    if k < inner.len() {
                        assert(inner[k] == y);
                        assert(inner.contains(y));
                        if init.contains(y) {
                            let m = choose|m: int| 0 <= m < init.len() && init[m] == y;
                            assert(s[m] == y);
                        }
                    } else {
                        assert(s[s.len() - 1] == y);
                    }
                }
                if s.contains(y) {
                    let k = choose|k: int| 0 <= k < s.len() && s[k] == y;
                    if k < init.len() {
                        assert(init[k] == y);
                        assert(inner.contains(y));
                        let m = choose|m: int| 0 <= m < inner.len() && inner[m] == y;
                        assert(r[m] == y);
                    } else {
                        assert(r[r.len() - 1] == y);
                    }
                }
                if y == x {
                    assert(inner.contains(x));
                    let m = choose|m: int| 0 <= m < inner.len() && inner[m] == x;
                    assert(r[m] == x);
                }
            }
            if strictly_sorted(s) && (forall|i: int| 0 <= i < s.len() ==> s[i].id != x.id) {
                assert(strictly_sorted(init));
                assert forall|i: int, j: int| 0 <= i < j < r.len() implies text_less(
                    r[i].id,
                    r[j].id,
                ) by {
                    if j == r.len() - 1 {
                        assert(inner.contains(r[i]));
                        if init.contains(r[i]) {
                            let m = choose|m: int| 0 <= m < init.len() && init[m] == r[i];
                            assert(s[m] == r[i]);
                        }
                    } else {
                        assert(r[i] == inner[i] && r[j] == inner[j]);
                    }
                }
            }
        } else {
            assert(r == s.push(x));
            assert forall|y: OpModel| r.contains(y) <==> (s.contains(y) || y == x) by {
                if r.contains(y) {
                    let k = choose|k: int| 0 <= k < r.len() && r[k] == y;
                    if k < s.len() {
                        assert(s[k] == y);
                    }
                }
                if s.contains(y) {
                    let k = choose|k: int| 0 <= k < s.len() && s[k] == y;
                    assert(r[k] == y);
                }
                if y == x {
                    assert(r[s.len() as int] == x);
                }
            }
            if strictly_sorted(s) && (forall|i: int| 0 <= i < s.len() ==> s[i].id != x.id) {
                assert(s[s.len() - 1].id != x.id);
                lemma_text_less_total(x.id, last.id);
                assert forall|i: int, j: int| 0 <= i < j < r.len() implies text_less(
                    r[i].id,
                    r[j].id,
                ) by {
                    if j == r.len() - 1 {
                        if i < s.len() - 1 {
                            lemma_text_less_transitive(s[i].id, last.id, x.id);
                        }
                    } else {
                        assert(r[i] == s[i] && r[j] == s[j]);
                    }
                }
            }
        }
    }
}

/// Sorting keeps exactly the operations; with distinct identifiers the result is
/// strictly sorted.
proof fn lemma_sort_by_id(s: Seq<OpModel>)
    ensures
        sort_by_id(s).len() == s.len(),
        forall|y: OpModel| #[trigger] sort_by_id(s).contains(y) <==> s.contains(y),
        ids_distinct(s) ==> strictly_sorted(sort_by_id(s)),
    decreases s.len(),
{
    if s.len() > 0 {
        let init = s.drop_last();
        let x = s.last();
        lemma_sort_by_id(init);
        let t = sort_by_id(init);
        lemma_insert_by_id(t, x);
        assert(s =~= init.push(x));
        assert forall|y: OpModel| sort_by_id(s).contains(y) <==> s.contains(y) by {
            if s.contains(y) {
                let k = choose|k: int| 0 <= k < s.len() && s[k] == y;
                if k < init.len() {
                    assert(init[k] == y);
                }
            }
            if init.contains(y) {
                let k = choose|k: int| 0 <= k < init.len() && init[k] == y;
                assert(s[k] == y);
            }
        }
        if ids_distinct(s) {
            assert(ids_distinct(init));
            assert forall|i: int| 0 <= i < t.len() implies t[i].id != x.id by {
                assert(t.contains(t[i]));
                let k = choose|k: int| 0 <= k < init.len() && init[k] == t[i];
                assert(s[k] == t[i]);
            }
        }
    }
}

/// Two strictly sorted sequences that hold the same operations are equal.
proof fn lemma_strictly_sorted_unique(a: Seq<OpModel>, b: Seq<OpModel>)
    requires
        strictly_sorted(a),
        strictly_sorted(b),
        same_ops(a, b),
    ensures
        a == b,
    decreases a.len(),
{
    if a.len() == 0 {
        if b.len() > 0 {
            assert(b.contains(b[0]));
        }
        assert(a =~= b);
    } else {
        assert(a.contains(a[0]));
        assert(b.contains(a[0]));
        let k = choose|k: int| 0 <= k < b.len() && b[k] == a[0];
        assert(b.contains(b[0]));
        let m = choose|m: int| 0 <= m < a.len() && a[m] == b[0];
        if k > 0 {
            // b[0] comes before a[0] in b, yet a[0] comes no later than b[0] in a
            if m > 0 {
                lemma_text_less_asymmetric(b[0].id, a[0].id);
            } else {
                lemma_text_less_irreflexive(a[0].id);
            }
        }
        assert(b[0] == a[0]);
        let at = a.drop_first();
        let bt = b.drop_first();
        assert forall|i: int, j: int| 0 <= i < j < at.len() implies text_less(at[i].id, at[j].id) by {
            assert(at[i] == a[i + 1] && at[j] == a[j + 1]);
        }
        assert forall|i: int, j: int| 0 <= i < j < bt.len() implies text_less(bt[i].id, bt[j].id) by {
            assert(bt[i] == b[i + 1] && bt[j] == b[j + 1]);
        }
        assert forall|x: OpModel| at.contains(x) <==> bt.contains(x) by {
            if at.contains(x) {
                let i = choose|i: int| 0 <= i < at.len() && at[i] == x;
                assert(a[i + 1] == x);
                assert(a.contains(x));
                assert(b.contains(x));
                let j = choose|j: int| 0 <= j < b.len() && b[j] == x;
                if j == 0 {
                    lemma_text_less_irreflexive(a[0].id);
                }
                assert(bt[j - 1] == x);
            }
            if bt.contains(x) {
                let i = choose|i: int| 0 <= i < bt.len() && bt[i] == x;
                assert(b[i + 1] == x);
                assert(b.contains(x));
                assert(a.contains(x));
                let j = choose|j: int| 0 <= j < a.len() && a[j] == x;
                if j == 0 {
                    lemma_text_less_irreflexive(b[0].id);
                }
                assert(at[j - 1] == x);
            }
        }
        lemma_strictly_sorted_unique(at, bt);
        assert(a =~= seq![a[0]] + at);
        assert(b =~= seq![b[0]] + bt);
    }
}

/// The state hash does not depend on the order of the log: two logs, each with
/// distinct identifiers, that hold the same operations have the same state hash.
pub proof fn lemma_state_hash_order_independent(l1: Seq<OpModel>, l2: Seq<OpModel>)
    requires
        ids_distinct(l1),
        ids_distinct(l2),
        same_ops(l1, l2),
    ensures
        state_hash_of(l1) == state_hash_of(l2),
{
    lemma_sort_by_id(l1);
    lemma_sort_by_id(l2);
    assert forall|x: OpModel| sort_by_id(l1).contains(x) <==> sort_by_id(l2).contains(x) by {
        assert(l1.contains(x) <==> l2.contains(x));
    }
    lemma_strictly_sorted_unique(sort_by_id(l1), sort_by_id(l2));
}

/// Reordering a log does not change its state hash: a permutation of a log whose
/// identifiers are distinct (the same operations, each as often) has the same
/// state hash.
pub proof fn lemma_state_hash_permutation(l1: Seq<OpModel>, l2: Seq<OpModel>)
    requires
        ids_distinct(l1),
        l1.to_multiset() == l2.to_multiset(),
    ensures
        ids_distinct(l2),
        state_hash_of(l1) == state_hash_of(l2),
{
    broadcast use vstd::seq_lib::group_to_multiset_ensures;
    assert(l1.no_duplicates()) by {
        assert forall|i: int, j: int| 0 <= i < l1.len() && 0 <= j < l1.len() && i != j implies l1[i]
            != l1[j] by {
            if i < j {
                assert(l1[i].id != l1[j].id);
            } else {
                assert(l1[j].id != l1[i].id);
            }
        }
    }
    l1.lemma_multiset_has_no_duplicates();
    l2.lemma_multiset_has_no_duplicates_conv();
    assert forall|x: OpModel| l1.contains(x) <==> l2.contains(x) by {
        assert(l1.contains(x) <==> l1.to_multiset().count(x) > 0);
        assert(l2.contains(x) <==> l2.to_multiset().count(x) > 0);
    }
    assert forall|i: int, j: int| 0 <= i < j < l2.len() implies l2[i].id != l2[j].id by {
        assert(l2.contains(l2[i]));
        assert(l2.contains(l2[j]));
        assert(l1.contains(l2[i]));
        assert(l1.contains(l2[j]));
        let p = choose|p: int| 0 <= p < l1.len() && l1[p] == l2[i];
        let q = choose|q: int| 0 <= q < l1.len() && l1[q] == l2[j];
        assert(l2[i] != l2[j]);
        assert(p != q);
        if p < q {
            assert(l1[p].id != l1[q].id);
        } else {
            assert(l1[q].id != l1[p].id);
        }
    }
    lemma_state_hash_order_independent(l1, l2);
}

/// Every operation writes nine pieces to the hasher, in order: its identifier,
/// document, kind and payload, each as UTF-8 followed by the byte `0xff`, then its
/// timestamp as eight little-endian bytes.
proof fn lemma_ops_writes_pieces(ops: Seq<OpModel>)
    ensures
        ops_writes(ops).len() == 9 * ops.len(),
        forall|k: int|
            0 <= k < ops.len() ==> #[trigger] ops_writes(ops).subrange(9 * k, 9 * k + 9) == seq![
                utf8(ops[k].id),
                seq![0xffu8],
                utf8(ops[k].doc_id),
                seq![0xffu8],
                utf8(ops[k].op_type),
                seq![0xffu8],
                utf8(ops[k].payload),
                seq![0xffu8],
                le_bytes(ops[k].ts),
            ],
    decreases ops.len(),
{
    if ops.len() > 0 {
        let init = ops.drop_last();
        lemma_ops_writes_pieces(init);
        let w = ops_writes(ops);
        let wi = ops_writes(init);
        assert forall|k: int| 0 <= k < ops.len() implies #[trigger] w.subrange(9 * k, 9 * k + 9)
            == seq![
            utf8(ops[k].id),
            seq![0xffu8],
            utf8(ops[k].doc_id),
            seq![0xffu8],
            utf8(ops[k].op_type),
            seq![0xffu8],
            utf8(ops[k].payload),
            seq![0xffu8],
            le_bytes(ops[k].ts),
        ] by {
            if k < init.len() {
                assert(init[k] == ops[k]);
                assert(w.subrange(9 * k, 9 * k + 9) =~= wi.subrange(9 * k, 9 * k + 9));
            } else {
                assert(w.subrange(9 * k, 9 * k + 9) =~= op_writes(ops.last()));
            }
        }
    }
}

/// A state hash is sixteen lower-case hexadecimal digits.
pub proof fn lemma_hex16_digits(x: u64)
    ensures
        hex16(x).len() == 16,
        forall|i: int|
            0 <= i < 16 ==> ('0' <= #[trigger] hex16(x)[i] <= '9' || 'a' <= hex16(x)[i] <= 'f'),
{
    assert forall|i: int| 0 <= i < 16 implies ('0' <= #[trigger] hex16(x)[i] <= '9' || 'a' <= hex16(
        x,
    )[i] <= 'f') by {
        let sh = (4 * (15 - i)) as u64;
        let d = (x >> sh) & 0xf;
        assert(d < 16) by (bit_vector)
            requires
                d == (x >> sh) & 0xf,
        ;
        let c = hex_digit(d);
        if d < 10 {
            assert(c as u32 == d + 48);
        } else {
            assert(c as u32 == d + 87);
        }
    }
}

/// The state hash covers the whole log: for a log with distinct identifiers it
/// is the hash of what every one of its operations writes, the operations taken
/// in increasing order of identifier (nine pieces per operation), so a log with
/// one more operation gives the hasher a longer input.
pub proof fn lemma_state_hash_covers_log(log: Seq<OpModel>, s: Seq<OpModel>)
    requires
        ids_distinct(log),
        strictly_sorted(s),
        same_ops(log, s),
    ensures
        s.len() == log.len(),
        ops_writes(s).len() == 9 * log.len(),
        forall|k: int|
            0 <= k < s.len() ==> #[trigger] ops_writes(s).subrange(9 * k, 9 * k + 9) == seq![
                utf8(s[k].id),
                seq![0xffu8],
                utf8(s[k].doc_id),
                seq![0xffu8],
                utf8(s[k].op_type),
                seq![0xffu8],
                utf8(s[k].payload),
                seq![0xffu8],
                le_bytes(s[k].ts),
            ],
        state_hash_of(log) == hex16(DefaultHasher::spec_finish(ops_writes(s))),
{
    lemma_sort_by_id(log);
    assert forall|x: OpModel| sort_by_id(log).contains(x) <==> s.contains(x) by {
        assert(log.contains(x) <==> s.contains(x));
    }
    lemma_strictly_sorted_unique(sort_by_id(log), s);
    lemma_ops_writes_pieces(s);
}

/// `find_by_id` finds an operation exactly when one has the identifier, and what
/// it finds has it and is in the log.
proof fn lemma_find_by_id(log: Seq<OpModel>, id: Seq<char>)
    ensures
        find_by_id(log, id) is Some <==> has_id(log, id),
        find_by_id(log, id) matches Some(o) ==> o.id == id && log.contains(o),
    decreases log.len(),
{
    if log.len() > 0 {
        let rest = log.drop_first();
        lemma_find_by_id(rest, id);
        if log[0].id != id {
            if exists|i: int| 0 <= i < log.len() && log[i].id == id {
                let i = choose|i: int| 0 <= i < log.len() && log[i].id == id;
                assert(rest[i - 1].id == id);
            }
            if exists|i: int| 0 <= i < rest.len() && rest[i].id == id {
                let i = choose|i: int| 0 <= i < rest.len() && rest[i].id == id;
                assert(log[i + 1].id == id);
            }
            if find_by_id(rest, id) is Some {
                let o = find_by_id(rest, id)->Some_0;
                let i = choose|i: int| 0 <= i < rest.len() && rest[i] == o;
                assert(log[i + 1] == o);
            }
        } else {
            assert(log.contains(log[0]));
        }
    }
}

/// Merging only appends to the log, and afterwards every merged identifier is in it.
proof fn lemma_merge_grows(e: EngineModel, ops: Seq<OpModel>)
    ensures
        merge_spec(e, ops).0.log.len() >= e.log.len(),
        merge_spec(e, ops).0.log.subrange(0, e.log.len() as int) == e.log,
        forall|k: int| 0 <= k < ops.len() ==> has_id(merge_spec(e, ops).0.log, #[trigger] ops[k].id),
    decreases ops.len(),
{
    if ops.len() > 0 {
        let init = ops.drop_last();
        let op = ops.last();
        lemma_merge_grows(e, init);
        let e1 = merge_spec(e, init).0;
        let e2 = merge_spec(e, ops).0;
        lemma_find_by_id(e1.log, op.id);
        if find_by_id(e1.log, op.id) is None {
            assert(e2.log == e1.log.push(op));
            assert(e2.log.subrange(0, e.log.len() as int) =~= e1.log.subrange(
                0,
                e.log.len() as int,
            ));
            assert(e2.log[e1.log.len() as int].id == op.id);
        } else {
            assert(e2 == e1);
        }
        assert forall|k: int| 0 <= k < ops.len() implies has_id(e2.log, #[trigger] ops[k].id) by {
            if k < init.len() {
                assert(init[k] == ops[k]);
                assert(has_id(e1.log, init[k].id));
                let i = choose|i: int| 0 <= i < e1.log.len() && e1.log[i].id == init[k].id;
                assert(e2.log[i] == e1.log[i]);
            } else {
                if find_by_id(e1.log, op.id) is None {
                    assert(e2.log[e1.log.len() as int].id == ops[k].id);
                } else {
                    let i = choose|i: int| 0 <= i < e1.log.len() && e1.log[i].id == op.id;
                    assert(e2.log[i].id == ops[k].id);
                }
            }
        }
    }
}

/// Merging operations whose identifiers are all in the log changes nothing and
/// applies none of them.
proof fn lemma_merge_known(e: EngineModel, ops: Seq<OpModel>)
    requires
        forall|k: int| 0 <= k < ops.len() ==> has_id(e.log, #[trigger] ops[k].id),
    ensures
        merge_spec(e, ops).0 == e,
        merge_spec(e, ops).1 == 0,
    decreases ops.len(),
{
    if ops.len() > 0 {
        let init = ops.drop_last();
        assert forall|k: int| 0 <= k < init.len() implies has_id(e.log, #[trigger] init[k].id) by {
            assert(init[k] == ops[k]);
        }
        lemma_merge_known(e, init);
        let op = ops.last();
        assert(ops[ops.len() - 1] == op);
        lemma_find_by_id(e.log, op.id);
        assert(has_id(e.log, op.id));
    }
}

/// Merging is idempotent: merging the same operations a second time applies
/// none of them and leaves the log and the hashes as they were.
pub proof fn lemma_merge_idempotent(e: EngineModel, ops: Seq<OpModel>)
    ensures
        merge_spec(merge_spec(e, ops).0, ops).0 == merge_spec(e, ops).0,
        merge_spec(merge_spec(e, ops).0, ops).1 == 0,
{
    lemma_merge_grows(e, ops);
    lemma_merge_known(merge_spec(e, ops).0, ops);
}

/// Merging keeps the identifiers of the log distinct.
pub proof fn lemma_merge_keeps_ids_distinct(e: EngineModel, ops: Seq<OpModel>)
    requires
        ids_distinct(e.log),
    ensures
        ids_distinct(merge_spec(e, ops).0.log),
    decreases ops.len(),
{
    if ops.len() > 0 {
        let init = ops.drop_last();
        let op = ops.last();
        lemma_merge_keeps_ids_distinct(e, init);
        let e1 = merge_spec(e, init).0;
        lemma_find_by_id(e1.log, op.id);
        if find_by_id(e1.log, op.id) is None {
            let l = e1.log.push(op);
            assert(merge_spec(e, ops).0.log == l);
            assert forall|i: int, j: int| 0 <= i < j < l.len() implies l[i].id != l[j].id by {
                if j == l.len() - 1 {
                    assert(l[i] == e1.log[i]);
                }
            }
        }
    }
}

/// With distinct identifiers among the merged operations, and no identifier
/// shared with the log for two different operations, the log after merging holds
/// exactly the operations of the log and of the batch.
proof fn lemma_merge_contents(e: EngineModel, ops: Seq<OpModel>)
    requires
        ids_distinct(ops),
        consistent(e.log, ops),
    ensures
        forall|x: OpModel|
            #[trigger] merge_spec(e, ops).0.log.contains(x) <==> (e.log.contains(x) || ops.contains(
                x,
            )),
    decreases ops.len(),
{
    if ops.len() > 0 {
        let init = ops.drop_last();
        let op = ops.last();
        assert(ids_distinct(init));
        assert forall|i: int, j: int|
            0 <= i < e.log.len() && 0 <= j < init.len() && e.log[i].id == init[j].id implies e.log[i]
            == init[j] by {
            assert(init[j] == ops[j]);
        }
        lemma_merge_contents(e, init);
        let e1 = merge_spec(e, init).0;
        let l2 = merge_spec(e, ops).0.log;
        lemma_find_by_id(e1.log, op.id);
        assert(ops[ops.len() - 1] == op);
        if find_by_id(e1.log, op.id) is Some {
            let y = find_by_id(e1.log, op.id)->Some_0;
            assert(e1.log.contains(y));
            if e.log.contains(y) {
                let i = choose|i: int| 0 <= i < e.log.len() && e.log[i] == y;
                assert(y == op);
            } else {
                let j = choose|j: int| 0 <= j < init.len() && init[j] == y;
                assert(ops[j] == y);
            }
            assert(l2 == e1.log);
            assert forall|x: OpModel| l2.contains(x) <==> (e.log.contains(x) || ops.contains(x)) by {
                if ops.contains(x) {
                    let j = choose|j: int| 0 <= j < ops.len() && ops[j] == x;
                    if j < init.len() {
                        assert(init[j] == x);
                    }
                }
                if init.contains(x) {
                    let j = choose|j: int| 0 <= j < init.len() && init[j] == x;
                    assert(ops[j] == x);
                }
            }
        } else {
            assert(l2 == e1.log.push(op));
            assert forall|x: OpModel| l2.contains(x) <==> (e.log.contains(x) || ops.contains(x)) by {
                if l2.contains(x) {
                    let j = choose|j: int| 0 <= j < l2.len() && l2[j] == x;
                    if j < e1.log.len() {
                        assert(e1.log[j] == x);
                        assert(e1.log.contains(x));
                        if init.contains(x) {
                            let m = choose|m: int| 0 <= m < init.len() && init[m] == x;
                            assert(ops[m] == x);
                        }
                    }
                }
                if ops.contains(x) {
                    let j = choose|j: int| 0 <= j < ops.len() && ops[j] == x;
                    if j < init.len() {
                        assert(init[j] == x);
                        assert(e1.log.contains(x));
                        let m = choose|m: int| 0 <= m < e1.log.len() && e1.log[m] == x;
                        assert(l2[m] == x);
                    } else {
                        assert(l2[e1.log.len() as int] == x);
                    }
                }
                if e.log.contains(x) {
                    assert(e1.log.contains(x));
                    let m = choose|m: int| 0 <= m < e1.log.len() && e1.log[m] == x;
                    assert(l2[m] == x);
                }
                if init.contains(x) {
                    let j = choose|j: int| 0 <= j < init.len() && init[j] == x;
                    assert(ops[j] == x);
                }
            }
        }
    }
}

/// Two peers converge: when each merges the other's log, and the two logs
/// have distinct identifiers and agree on every identifier they share, both
/// reach the same state hash.
pub proof fn lemma_exchange_converges(a: EngineModel, b: EngineModel)
    requires
        ids_distinct(a.log),
        ids_distinct(b.log),
        consistent(a.log, b.log),
    ensures
        state_hash_of(merge_spec(a, b.log).0.log) == state_hash_of(merge_spec(b, a.log).0.log),
{
    assert(consistent(b.log, a.log));
    lemma_merge_contents(a, b.log);
    lemma_merge_contents(b, a.log);
    lemma_merge_keeps_ids_distinct(a, b.log);
    lemma_merge_keeps_ids_distinct(b, a.log);
    let la = merge_spec(a, b.log).0.log;
    let lb = merge_spec(b, a.log).0.log;
    assert forall|x: OpModel| la.contains(x) <==> lb.contains(x) by {
        assert(la.contains(x) <==> (a.log.contains(x) || b.log.contains(x)));
        assert(lb.contains(x) <==> (b.log.contains(x) || a.log.contains(x)));
    }
    lemma_state_hash_order_independent(merge_spec(a, b.log).0.log, merge_spec(b, a.log).0.log);
}

/// Applying a local operation whose identifier is new keeps the identifiers of
/// the log distinct.
pub proof fn lemma_apply_keeps_ids_distinct(e: EngineModel, op: OpModel)
    requires
        ids_distinct(e.log),
        forall|i: int| 0 <= i < e.log.len() ==> e.log[i].id != op.id,
    ensures
        ids_distinct(engine_apply(e, op).log),
{
    let l = engine_apply(e, op).log;
    assert forall|i: int, j: int| 0 <= i < j < l.len() implies l[i].id != l[j].id by {
        if j == l.len() - 1 {
            assert(l[i] == e.log[i]);
        }
    }
}

} // verus!
