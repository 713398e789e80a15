//! CRDT synchronisation state: a log of operations on documents, merged
//! idempotently from remote peers, with per-operation and per-document hashes
//! and a state hash that does not depend on the order in which operations came.
use vstd::prelude::*;
use std::collections::hash_map::DefaultHasher;
use std::hash::Hasher;
use vstd::std_specs::hash::DefaultHasherAdditionalSpecFns;
use crate::text::push_char;
use crate::json::{is_canonical_json, canonical_json};

verus! {

/// One CRDT operation on a document. `payload` holds the JSON text of the
/// operation's payload, as `serde_json` writes it (`canonical_ops`): then two
/// payloads are the same text exactly when they are written from the same value.
#[derive(Clone, Debug, PartialEq)]
pub struct SyncOp {
    pub id: String,
    pub doc_id: String,
    pub op_type: String,
    pub payload: String,
    pub ts: u64,
}

/// The mathematical content of an operation.
pub struct OpModel {
    pub id: Seq<char>,
    pub doc_id: Seq<char>,
    pub op_type: Seq<char>,
    pub payload: Seq<char>,
    pub ts: u64,
}

impl View for SyncOp {
    type V = OpModel;

    open spec fn view(&self) -> OpModel {
        OpModel {
            id: self.id@,
            doc_id: self.doc_id@,
            op_type: self.op_type@,
            payload: self.payload@,
            ts: self.ts,
        }
    }
}

impl SyncOp {
    /// A copy of the operation.
    pub fn copy(&self) -> (r: SyncOp)
        ensures
            r == *self,
    {
        SyncOp {
            id: self.id.clone(),
            doc_id: self.doc_id.clone(),
            op_type: self.op_type.clone(),
            payload: self.payload.clone(),
            ts: self.ts,
        }
    }
}

/// The models of operations.
pub open spec fn op_models(v: Seq<SyncOp>) -> Seq<OpModel> {
    v.map_values(|o: SyncOp| o@)
}

/// The outcome of merging remote operations: how many were added to the log,
/// and how many repeated a known identifier with a different payload.
#[derive(Clone, Copy, Debug, PartialEq, Eq, Structural, Default)]
pub struct MergeResult {
    pub applied: usize,
    pub conflicts: usize,
}

/// Every payload is JSON as `serde_json` writes it.
pub open spec fn canonical_ops(ops: Seq<OpModel>) -> bool {
    forall|i: int| 0 <= i < ops.len() ==> is_canonical_json(#[trigger] ops[i].payload)
}

/// The little-endian bytes of a 64-bit value.
pub open spec fn le_bytes(x: u64) -> Seq<u8> {
    Seq::new(8, |i: int| ((x >> ((8 * i) as u64)) & 0xff) as u8)
}

/// The UTF-8 bytes of a text.
pub open spec fn utf8(s: Seq<char>) -> Seq<u8> {
    vstd::utf8::encode_utf8(s)
}

/// What is written to the hasher for one operation: each text field followed by
/// the end-of-text byte `0xff`, then the timestamp in little-endian byte order, so
/// that peers on machines of either byte order compute the same hashes.
pub open spec fn op_writes(op: OpModel) -> Seq<Seq<u8>> {
    seq![
        utf8(op.id),
        seq![0xffu8],
        utf8(op.doc_id),
        seq![0xffu8],
        utf8(op.op_type),
        seq![0xffu8],
        utf8(op.payload),
        seq![0xffu8],
        le_bytes(op.ts),
    ]
}

/// What is written to the hasher for a sequence of operations, in order.
pub open spec fn ops_writes(ops: Seq<OpModel>) -> Seq<Seq<u8>>
    decreases ops.len(),
{
    if ops.len() == 0 {
        Seq::empty()
    } else {
        ops_writes(ops.drop_last()) + op_writes(ops.last())
    }
}

/// The hash of one operation.
pub open spec fn op_hash(op: OpModel) -> u64 {
    DefaultHasher::spec_finish(op_writes(op))
}

/// A key-value list read by its last entry for each key.
pub open spec fn kv_get(m: Seq<(Seq<char>, u64)>, k: Seq<char>) -> Option<u64>
    decreases m.len(),
{
    if m.len() == 0 {
        None
    } else if m.last().0 == k {
        Some(m.last().1)
    } else {
        kv_get(m.drop_last(), k)
    }
}

/// The map that a key-value list stands for.
pub open spec fn kv_map(m: Seq<(Seq<char>, u64)>) -> Map<Seq<char>, u64> {
    Map::new(|k: Seq<char>| kv_get(m, k) is Some, |k: Seq<char>| kv_get(m, k)->Some_0)
}

/// The hash table after recording an operation: its hash under its identifier,
/// and its hash added (wrapping) to the hash of its document.
pub open spec fn merkle_after(m: Map<Seq<char>, u64>, op: OpModel) -> Map<Seq<char>, u64> {
    let h = op_hash(op);
    let m1 = m.insert(op.id, h);
    let cur: u64 = if m1.contains_key(op.doc_id) {
        m1[op.doc_id]
    } else {
        0
    };
    m1.insert(op.doc_id, ((cur as nat + h as nat) % 0x1_0000_0000_0000_0000) as u64)
}

/// The mathematical state of an engine: its log and its hash table.
pub struct EngineModel {
    pub log: Seq<OpModel>,
    pub merkle: Map<Seq<char>, u64>,
}

/// The engine after appending an operation to its log.
pub open spec fn engine_apply(e: EngineModel, op: OpModel) -> EngineModel {
    EngineModel { log: e.log.push(op), merkle: merkle_after(e.merkle, op) }
}

/// The first operation of the log with the identifier, if any.
pub open spec fn find_by_id(log: Seq<OpModel>, id: Seq<char>) -> Option<OpModel>
    decreases log.len(),
{
    if log.len() == 0 {
        None
    } else if log[0].id == id {
        Some(log[0])
    } else {
        find_by_id(log.drop_first(), id)
    }
}

/// Merging remote operations one after the other: an operation whose identifier
/// is in the log is skipped (a conflict when the payloads differ); any other is
/// appended. Gives the engine, the number appended and the number of conflicts.
pub open spec fn merge_spec(e: EngineModel, ops: Seq<OpModel>) -> (EngineModel, nat, nat)
    decreases ops.len(),
{
    if ops.len() == 0 {
        (e, 0, 0)
    } else {
        let (e1, a, c) = merge_spec(e, ops.drop_last());
        let op = ops.last();
        match find_by_id(e1.log, op.id) {
            Some(existing) => (e1, a, if existing.payload != op.payload {
                c + 1
            } else {
                c
            }),
            None => (engine_apply(e1, op), a + 1, c),
        }
    }
}

/// Lexicographic order of texts by character code (the order of `String`).
pub open spec fn text_less(a: Seq<char>, b: Seq<char>) -> bool
    decreases a.len(),
{
    if b.len() == 0 {
        false
    } else if a.len() == 0 {
        true
    } else if a[0] != b[0] {
        (a[0] as int) < (b[0] as int)
    } else {
        text_less(a.drop_first(), b.drop_first())
    }
}

/// Inserts an operation into a list sorted by identifier, after those whose
/// identifier is not greater.
pub open spec fn insert_by_id(sorted: Seq<OpModel>, x: OpModel) -> Seq<OpModel>
    decreases sorted.len(),
{
    if sorted.len() == 0 {
        seq![x]
    } else if text_less(x.id, sorted.last().id) {
        insert_by_id(sorted.drop_last(), x).push(sorted.last())
    } else {
        sorted.push(x)
    }
}

/// The operations sorted by identifier, keeping the order of equal identifiers
/// (what a stable sort gives).
pub open spec fn sort_by_id(ops: Seq<OpModel>) -> Seq<OpModel>
    decreases ops.len(),
{
    if ops.len() == 0 {
        Seq::empty()
    } else {
        insert_by_id(sort_by_id(ops.drop_last()), ops.last())
    }
}

/// A lower-case hexadecimal digit.
pub open spec fn hex_digit(d: u64) -> char {
    if d < 10 {
        ((d + 48) as u32) as char
    } else {
        ((d + 87) as u32) as char
    }
}

/// A 64-bit value as sixteen lower-case hexadecimal digits (`{:016x}`).
pub open spec fn hex16(x: u64) -> Seq<char> {
    Seq::new(16, |i: int| hex_digit((x >> ((4 * (15 - i)) as u64)) & 0xf))
}

/// The state hash of a log: the hash of all its operations sorted by identifier.
pub open spec fn state_hash_of(log: Seq<OpModel>) -> Seq<char> {
    hex16(DefaultHasher::spec_finish(ops_writes(sort_by_id(log))))
}

/// The operation log of a peer and the hashes of its operations and documents.
#[derive(Clone, Debug)]
pub struct SyncEngine {
    pub log: Vec<SyncOp>,
    pub merkle: Vec<(String, u64)>,
}

/// The models of the hash table's entries.
pub open spec fn kv_models(v: Seq<(String, u64)>) -> Seq<(Seq<char>, u64)> {
    v.map_values(|e: (String, u64)| (e.0@, e.1))
}

impl SyncEngine {
    /// The mathematical state of the engine.
    pub open spec fn model(&self) -> EngineModel {
        EngineModel { log: op_models(self.log@), merkle: kv_map(kv_models(self.merkle@)) }
    }

    /// An engine with an empty log.
    pub fn new() -> (r: SyncEngine)
        ensures
            r.model().log.len() == 0,
            r.model().merkle == Map::<Seq<char>, u64>::empty(),
    {
        let r = SyncEngine { log: Vec::new(), merkle: Vec::new() };
        proof {
            assert(r.model().merkle =~= Map::<Seq<char>, u64>::empty());
        }
        r
    }

    /// Applies a local operation when its payload is JSON as `serde_json` writes
    /// it (see `apply_local`); otherwise leaves the engine as it is.
    pub fn apply_local_checked(&mut self, op: SyncOp) -> (r: Option<SyncOp>)
        ensures
            is_canonical_json(op.payload@) ==> r == Some(op) && final(self).model() == engine_apply(
                old(self).model(),
                op@,
            ),
            !is_canonical_json(op.payload@) ==> r is None && *final(self) == *old(self),
    {
        if canonical_json(op.payload.as_str()) {
            Some(self.apply_local(op))
        } else {
            None
        }
    }

    /// Merges remote operations when all their payloads are JSON as `serde_json`
    /// writes it (see `merge_remote`); otherwise leaves the engine as it is.
    pub fn merge_remote_checked(&mut self, ops: Vec<SyncOp>) -> (r: Option<MergeResult>)
        ensures
            canonical_ops(op_models(ops@)) ==> (r matches Some(m) && (
                final(self).model(),
                m.applied as nat,
                m.conflicts as nat,
            ) == merge_spec(old(self).model(), op_models(ops@))),
            !canonical_ops(op_models(ops@)) ==> r is None && *final(self) == *old(self),
    {
        let mut i: usize = 0;
        while i < ops.len()
            invariant
                i <= ops@.len(),
                forall|j: int| 0 <= j < i ==> is_canonical_json(#[trigger] ops@[j].payload@),
            decreases ops@.len() - i,
        {
            if !canonical_json(ops[i].payload.as_str()) {
                proof {
                    assert(op_models(ops@)[i as int] == ops@[i as int]@);
                    assert(!is_canonical_json(op_models(ops@)[i as int].payload));
                    assert(!canonical_ops(op_models(ops@)));
                }
                return None;
            }
            i = i + 1;
        }
        proof {
            assert forall|j: int| 0 <= j < op_models(ops@).len() implies is_canonical_json(
                #[trigger] op_models(ops@)[j].payload,
            ) by {
                assert(op_models(ops@)[j] == ops@[j]@);
            }
        }
        Some(self.merge_remote(ops))
    }

    /// Appends a local operation to the log, records its hashes, and returns it.
    pub fn apply_local(&mut self, op: SyncOp) -> (r: SyncOp)
        requires
            is_canonical_json(op.payload@),
        ensures
            r == op,
            final(self).model() == engine_apply(old(self).model(), op@),
    {
        let h = compute_op_hash(&op);
        record_hash(&mut self.merkle, &op, h);
        let ghost before = self.log@;
        self.log.push(op.copy());
        proof {
            assert(op_models(self.log@) =~= op_models(before).push(op@));
        }
        op
    }

    /// Merges remote operations idempotently: one whose identifier is already in
    /// the log is skipped, and counted as a conflict when its payload differs;
    /// any other is appended with its hashes.
    pub fn merge_remote(&mut self, ops: Vec<SyncOp>) -> (r: MergeResult)
        requires
            canonical_ops(op_models(ops@)),
        ensures
            (final(self).model(), r.applied as nat, r.conflicts as nat) == merge_spec(
                old(self).model(),
                op_models(ops@),
            ),
    {
        let ghost start = self.model();
        let ghost om = op_models(ops@);
        let mut result = MergeResult { applied: 0, conflicts: 0 };
        let mut i: usize = 0;
        proof {
            assert(om.take(0) =~= Seq::<OpModel>::empty());
        }
        while i < ops.len()
            invariant
                i <= ops.len(),
                om == op_models(ops@),
                (self.model(), result.applied as nat, result.conflicts as nat) == merge_spec(
                    start,
                    om.take(i as int),
                ),
                result.applied <= i,
                result.conflicts <= i,
            decreases ops.len() - i,
        {
            let ghost pre = om.take(i + 1);
            proof {
                assert(pre.drop_last() =~= om.take(i as int));
                assert(pre.last() == ops@[i as int]@);
            }
            let remote_op = &ops[i];
            match self.find_op(&remote_op.id) {
                Some(k) => {
                    if self.log[k].payload != remote_op.payload {
                        result.conflicts = result.conflicts + 1;
                    }
                },
                None => {
                    let h = compute_op_hash(remote_op);
                    record_hash(&mut self.merkle, remote_op, h);
                    let ghost before = self.log@;
                    self.log.push(remote_op.copy());
                    proof {
                        assert(op_models(self.log@) =~= op_models(before).push(remote_op@));
                    }
                    result.applied = result.applied + 1;
                },
            }
            i = i + 1;
        }
        proof {
            assert(om.take(ops@.len() as int) =~= om);
        }
        result
    }

    /// Where the first operation with the identifier stands in the log.
    fn find_op(&self, id: &String) -> (r: Option<usize>)
        ensures
            match r {
                Some(k) => k < self.log@.len() && find_by_id(self.model().log, id@) == Some(
                    self.log@[k as int]@,
                ),
                None => find_by_id(self.model().log, id@) is None,
            },
    {
        let ghost all = self.model().log;
        let mut k: usize = 0;
        proof {
            assert(all.skip(0) =~= all);
        }
        while k < self.log.len()
            invariant
                k <= self.log@.len(),
                all == self.model().log,
                find_by_id(all, id@) == find_by_id(all.skip(k as int), id@),
            decreases self.log@.len() - k,
        {
            let ghost rest = all.skip(k as int);
            proof {
                assert(rest.drop_first() =~= all.skip(k + 1));
                assert(rest[0] == self.log@[k as int]@);
            }
            if self.log[k].id == *id {
                return Some(k);
            }
            k = k + 1;
        }
        proof {
            assert(all.skip(k as int) =~= Seq::<OpModel>::empty());
        }
        None
    }

    /// The state hash: the hash of all the operations of the log sorted by
    /// identifier, as sixteen lower-case hexadecimal digits. It does not depend
    /// on the order in which the operations entered the log.
    pub fn state_hash(&self) -> (r: String)
        ensures
            r@ == state_hash_of(self.model().log),
    {
        let sorted = sorted_by_id(&self.log);
        let mut hasher = DefaultHasher::new();
        let mut i: usize = 0;
        proof {
            assert(op_models(sorted@).take(0) =~= Seq::<OpModel>::empty());
        }
        while i < sorted.len()
            invariant
                i <= sorted.len(),
                hasher@ == ops_writes(op_models(sorted@).take(i as int)),
            decreases sorted.len() - i,
        {
            write_op(&mut hasher, &sorted[i]);
            proof {
                let t = op_models(sorted@).take(i + 1);
                assert(t.drop_last() =~= op_models(sorted@).take(i as int));
            }
            i = i + 1;
        }
        proof {
            assert(op_models(sorted@).take(sorted@.len() as int) =~= op_models(sorted@));
        }
        let digest = hasher.finish();
        hex_string(digest)
    }
}

impl Default for SyncEngine {
    /// An engine with an empty log.
    fn default() -> (r: SyncEngine)
        ensures
            r.model().log.len() == 0,
            r.model().merkle == Map::<Seq<char>, u64>::empty(),
    {
        SyncEngine::new()
    }
}

/// Writes the bytes of a text and the end-of-text byte to the hasher.
fn write_text(hasher: &mut DefaultHasher, s: &String)
    ensures
        final(hasher)@ == old(hasher)@ + seq![utf8(s@), seq![0xffu8]],
{
    hasher.write(s.as_str().as_bytes());
    let end: Vec<u8> = vec![0xffu8];
    hasher.write(end.as_slice());
    proof {
        assert(end@ =~= seq![0xffu8]);
    }
}

/// The little-endian bytes of a 64-bit value.
fn le_bytes_of(x: u64) -> (r: Vec<u8>)
    ensures
        r@ == le_bytes(x),
{
    let mut r: Vec<u8> = Vec::new();
    let mut i: u64 = 0;
    while i < 8
        invariant
            i <= 8,
            r@.len() == i,
            forall|j: int| 0 <= j < i ==> r@[j] == ((x >> ((8 * j) as u64)) & 0xff) as u8,
        decreases 8 - i,
    {
        r.push(((x >> (8 * i)) & 0xff) as u8);
        i = i + 1;
    }
    proof {
        assert(r@ =~= le_bytes(x));
    }
    r
}

/// Writes one operation to the hasher.
fn write_op(hasher: &mut DefaultHasher, op: &SyncOp)
    ensures
        final(hasher)@ == old(hasher)@ + op_writes(op@),
{
    let ghost h0 = hasher@;
    write_text(hasher, &op.id);
    write_text(hasher, &op.doc_id);
    write_text(hasher, &op.op_type);
    write_text(hasher, &op.payload);
    let ts = le_bytes_of(op.ts);
    hasher.write(ts.as_slice());
    proof {
        assert(hasher@ =~= h0 + op_writes(op@));
    }
}

/// The hash of one operation.
fn compute_op_hash(op: &SyncOp) -> (r: u64)
    ensures
        r == op_hash(op@),
{
    let mut hasher = DefaultHasher::new();
    write_op(&mut hasher, op);
    proof {
        assert(hasher@ =~= op_writes(op@));
    }
    hasher.finish()
}

/// Where the last entry with the key stands in a key-value list.
fn kv_position(m: &Vec<(String, u64)>, k: &String) -> (r: Option<usize>)
    ensures
        match r {
            Some(j) => j < m@.len() && m@[j as int].0@ == k@ && kv_get(kv_models(m@), k@)
                == Some(m@[j as int].1) && forall|t: int| j < t < m@.len() ==> m@[t].0@ != k@,
            None => kv_get(kv_models(m@), k@) is None,
        },
{
    let ghost all = kv_models(m@);
    let mut j = m.len();
    proof {
        assert(all.take(j as int) =~= all);
    }
    while j > 0
        invariant
            j <= m@.len(),
            all == kv_models(m@),
            kv_get(all, k@) == kv_get(all.take(j as int), k@),
            forall|t: int| j <= t < m@.len() ==> m@[t].0@ != k@,
        decreases j,
    {
        let ghost pre = all.take(j as int);
        proof {
            assert(pre.drop_last() =~= all.take(j - 1));
            assert(pre.last() == (m@[j - 1].0@, m@[j - 1].1));
        }
        if m[j - 1].0 == *k {
            return Some(j - 1);
        }
        j = j - 1;
    }
    proof {
        assert(all.take(0) =~= Seq::<(Seq<char>, u64)>::empty());
    }
    None
}

/// Reading a list after replacing the value of its last entry for a key.
proof fn lemma_kv_get_update(m: Seq<(Seq<char>, u64)>, j: int, k: Seq<char>, v: u64, q: Seq<char>)
    requires
        0 <= j < m.len(),
        m[j].0 == k,
        forall|t: int| j < t < m.len() ==> m[t].0 != k,
    ensures
        kv_get(m.update(j, (k, v)), q) == (if q == k {
            Some(v)
        } else {
            kv_get(m, q)
        }),
    decreases m.len(),
{
    let u = m.update(j, (k, v));
    if j == m.len() - 1 {
        assert(u.drop_last() =~= m.drop_last());
    } else {
        assert(u.drop_last() =~= m.drop_last().update(j, (k, v)));
        lemma_kv_get_update(m.drop_last(), j, k, v, q);
    }
}

/// Sets the value of a key in a key-value list.
fn kv_set(m: &mut Vec<(String, u64)>, k: &String, v: u64)
    ensures
        kv_map(kv_models(final(m)@)) == kv_map(kv_models(old(m)@)).insert(k@, v),
{
    let ghost m0 = kv_models(m@);
    match kv_position(m, k) {
        Some(j) => {
            m.set(j, (k.clone(), v));
            proof {
                assert(kv_models(m@) =~= m0.update(j as int, (k@, v)));
                assert forall|q: Seq<char>| true implies kv_get(kv_models(m@), q) == (if q == k@ {
                    Some(v)
                } else {
                    kv_get(m0, q)
                }) by {
                    lemma_kv_get_update(m0, j as int, k@, v, q);
                }
                assert(kv_map(kv_models(m@)) =~= kv_map(m0).insert(k@, v));
            }
        },
        None => {
            m.push((k.clone(), v));
            proof {
                assert(kv_models(m@) =~= m0.push((k@, v)));
                assert(kv_models(m@).drop_last() =~= m0);
                assert(kv_map(kv_models(m@)) =~= kv_map(m0).insert(k@, v));
            }
        },
    }
}

/// Reads the value of a key in a key-value list.
fn kv_lookup(m: &Vec<(String, u64)>, k: &String) -> (r: Option<u64>)
    ensures
        r == (if kv_map(kv_models(m@)).contains_key(k@) {
            Some(kv_map(kv_models(m@))[k@])
        } else {
            None
        }),
{
    match kv_position(m, k) {
        Some(j) => Some(m[j].1),
        None => None,
    }
}

/// Records the hashes of an operation: under its identifier, and added to its document's.
fn record_hash(merkle: &mut Vec<(String, u64)>, op: &SyncOp, h: u64)
    requires
        h == op_hash(op@),
    ensures
        kv_map(kv_models(final(merkle)@)) == merkle_after(kv_map(kv_models(old(merkle)@)), op@),
{
    kv_set(merkle, &op.id, h);
    let cur = match kv_lookup(merkle, &op.doc_id) {
        Some(c) => c,
        None => 0,
    };
    let sum = cur.wrapping_add(h);
    kv_set(merkle, &op.doc_id, sum);
}

/// Whether `a` comes before `b` in the order of `String`.
pub fn text_less_exec(a: &String, b: &String) -> (r: bool)
    ensures
        r == text_less(a@, b@),
{
    let va = crate::text::to_chars(a.as_str());
    let vb = crate::text::to_chars(b.as_str());
    let mut i: usize = 0;
    proof {
        assert(va@.skip(0) =~= va@);
        assert(vb@.skip(0) =~= vb@);
    }
    while i < va.len() && i < vb.len() && va[i] == vb[i]
        invariant
            i <= va.len(),
            i <= vb.len(),
            text_less(a@, b@) == text_less(va@.skip(i as int), vb@.skip(i as int)),
            va@ == a@,
            vb@ == b@,
        decreases va.len() - i,
    {
        proof {
            assert(va@.skip(i as int).drop_first() =~= va@.skip(i + 1));
            assert(vb@.skip(i as int).drop_first() =~= vb@.skip(i + 1));
        }
        i = i + 1;
    }
    if i == vb.len() {
        false
    } else if i == va.len() {
        true
    } else {
        va[i] < vb[i]
    }
}

/// The operations sorted by identifier, keeping the order of equal identifiers.
fn sorted_by_id(ops: &Vec<SyncOp>) -> (r: Vec<SyncOp>)
    ensures
        op_models(r@) == sort_by_id(op_models(ops@)),
{
    let ghost om = op_models(ops@);
    let mut sorted: Vec<SyncOp> = Vec::new();
    let mut i: usize = 0;
    proof {
        assert(om.take(0) =~= Seq::<OpModel>::empty());
        assert(op_models(sorted@) =~= Seq::<OpModel>::empty());
    }
    while i < ops.len()
        invariant
            i <= ops.len(),
            om == op_models(ops@),
            op_models(sorted@) == sort_by_id(om.take(i as int)),
        decreases ops.len() - i,
    {
        let ghost pre = om.take(i + 1);
        proof {
            assert(pre.drop_last() =~= om.take(i as int));
            assert(pre.last() == ops@[i as int]@);
        }
        insert_sorted(&mut sorted, ops[i].copy());
        i = i + 1;
    }
    proof {
        assert(om.take(ops@.len() as int) =~= om);
    }
    sorted
}

/// Inserts an operation into a list sorted by identifier, after those whose
/// identifier is not greater.
fn insert_sorted(sorted: &mut Vec<SyncOp>, x: SyncOp)
    ensures
        op_models(final(sorted)@) == insert_by_id(op_models(old(sorted)@), x@),
{
    let ghost s = op_models(sorted@);
    let mut k = sorted.len();
    proof {
        assert(s.take(k as int) =~= s);
        assert(s.skip(k as int) =~= Seq::<OpModel>::empty());
        assert(insert_by_id(s, x@) =~= insert_by_id(s.take(k as int), x@) + s.skip(k as int));
    }
    while k > 0 && text_less_exec(&x.id, &sorted[k - 1].id)
        invariant
            k <= sorted@.len(),
            s == op_models(sorted@),
            insert_by_id(s, x@) == insert_by_id(s.take(k as int), x@) + s.skip(k as int),
        decreases k,
    {
        proof {
            let t = s.take(k as int);
            assert(t.drop_last() =~= s.take(k - 1));
            assert(t.last() == s[k - 1]);
            assert(s.skip(k - 1) =~= seq![s[k - 1]] + s.skip(k as int));
            assert(insert_by_id(s.take(k - 1), x@).push(s[k - 1]) + s.skip(k as int)
                =~= insert_by_id(s.take(k - 1), x@) + s.skip(k - 1));
        }
        k = k - 1;
    }
    proof {
        if k > 0 {
            let t = s.take(k as int);
            assert(t.last() == s[k - 1]);
        }
        assert(insert_by_id(s.take(k as int), x@) =~= s.take(k as int).push(x@));
        assert(s.take(k as int).push(x@) + s.skip(k as int) =~= s.insert(k as int, x@));
    }
    let ghost xm = x@;
    sorted.insert(k, x);
    proof {
        assert(op_models(sorted@) =~= s.insert(k as int, xm));
    }
}

/// Sixteen lower-case hexadecimal digits of a 64-bit value.
fn hex_string(x: u64) -> (r: String)
    ensures
        r@ == hex16(x),
{
    let mut r = String::new();
    let mut i: u64 = 0;
    while i < 16
        invariant
            i <= 16,
            r@.len() == i,
            forall|j: int| 0 <= j < i ==> r@[j] == hex_digit((x >> ((4 * (15 - j)) as u64)) & 0xf),
        decreases 16 - i,
    {
        let sh: u64 = 4 * (15 - i);
        let d = (x >> sh) & 0xf;
        assert(d < 16) by (bit_vector)
            requires
                d == (x >> sh) & 0xf,
        ;
        let c = if d < 10 {
            ((d + 48) as u8) as char
        } else {
            ((d + 87) as u8) as char
        };
        push_char(&mut r, c);
        i = i + 1;
    }
    proof {
        assert(r@ =~= hex16(x));
    }
    r
}

} // verus!
