use vstd::prelude::*;
use crate::key::{key_lt, lemma_key_total, TieBreakKey};
use crate::operation::{op_allowed, op_writes, OpDataView, OpView};
use crate::register::{apply_write, apply_writes, is_tombstoned, write_accepted, write_key, RecordView, Write};
use crate::schema::SchemaView;
use crate::store::{lookup, RecordKey};
use crate::engine::{engine_run, engine_step, store_apply};

verus! {

broadcast use vstd::seq_lib::group_to_multiset_ensures;

/// Every write in `ws` carries the key `k`.
pub open spec fn all_keyed(ws: Seq<Write>, k: TieBreakKey) -> bool {
    forall|i: int| 0 <= i < ws.len() ==> write_key(#[trigger] ws[i]) == k
}

/// Operations that share a tie-break key are the same operation: a key names
/// one issue of one node.
pub open spec fn keys_identify_ops(ops: Seq<OpView>) -> bool {
    forall|i: int, j: int|
        0 <= i < ops.len() && 0 <= j < ops.len() && (#[trigger] ops[i]).key == (#[trigger] ops[j]).key
            ==> ops[i] == ops[j]
}

/// The writes of an operation all carry the operation's key.
pub proof fn lemma_op_writes_keyed(op: OpView)
    ensures
        all_keyed(op_writes(op), op.key),
{
}

/// Two writes under different keys commute.
pub proof fn lemma_write_commute(r: RecordView, w1: Write, w2: Write)
    requires
        write_key(w1) != write_key(w2),
    ensures
        apply_write(apply_write(r, w1), w2) == apply_write(apply_write(r, w2), w1),
{
    lemma_key_total(write_key(w1), write_key(w2));
    let a = apply_write(apply_write(r, w1), w2);
    let b = apply_write(apply_write(r, w2), w1);
    assert(a.fields =~= b.fields);
    assert(a =~= b);
}

/// A write commutes with a sequence of writes under other keys.
pub proof fn lemma_write_past_writes(r: RecordView, w: Write, ws: Seq<Write>)
    requires
        forall|i: int| 0 <= i < ws.len() ==> write_key(#[trigger] ws[i]) != write_key(w),
    ensures
        apply_write(apply_writes(r, ws), w) == apply_writes(apply_write(r, w), ws),
    decreases ws.len(),
{
    if ws.len() > 0 {
        let p = ws.drop_last();
        assert(write_key(ws[ws.len() - 1]) != write_key(w));
        lemma_write_past_writes(r, w, p);
        lemma_write_commute(apply_writes(r, p), ws.last(), w);
    }
}

/// Two sequences of writes under two different keys commute.
pub proof fn lemma_writes_commute(r: RecordView, wa: Seq<Write>, ka: TieBreakKey, wb: Seq<Write>, kb: TieBreakKey)
    requires
        all_keyed(wa, ka),
        all_keyed(wb, kb),
        ka != kb,
    ensures
        apply_writes(apply_writes(r, wa), wb) == apply_writes(apply_writes(r, wb), wa),
    decreases wb.len(),
{
    if wb.len() > 0 {
        let p = wb.drop_last();
        assert(write_key(wb[wb.len() - 1]) == kb);
        lemma_writes_commute(r, wa, ka, p, kb);
        lemma_write_past_writes(apply_writes(r, p), wb.last(), wa);
    }
}

/// Two operations can be swapped when they are the same or have different keys.
pub open spec fn ops_commute(a: OpView, b: OpView) -> bool {
    a == b || a.key != b.key
}

/// Two operations with different keys commute on the store, whether or not
/// they target the same record.
pub proof fn lemma_store_commute(s: Map<RecordKey, RecordView>, a: OpView, b: OpView)
    requires
        ops_commute(a, b),
    ensures
        store_apply(store_apply(s, a), b) == store_apply(store_apply(s, b), a),
{
    if a != b {
        let ka = (a.model, a.record_id);
        let kb = (b.model, b.record_id);
        if ka == kb {
            lemma_op_writes_keyed(a);
            lemma_op_writes_keyed(b);
            lemma_writes_commute(lookup(s, ka), op_writes(a), a.key, op_writes(b), b.key);
            assert(store_apply(store_apply(s, a), b) =~= store_apply(store_apply(s, b), a));
        } else {
            assert(lookup(store_apply(s, a), kb) == lookup(s, kb));
            assert(lookup(store_apply(s, b), ka) == lookup(s, ka));
            assert(store_apply(store_apply(s, a), b) =~= store_apply(store_apply(s, b), a));
        }
    }
}

/// Replay steps of two such operations commute.
pub proof fn lemma_step_commute(reg: Map<Seq<char>, SchemaView>, s: Map<RecordKey, RecordView>, a: OpView, b: OpView)
    requires
        ops_commute(a, b),
    ensures
        engine_step(reg, engine_step(reg, s, a), b) == engine_step(reg, engine_step(reg, s, b), a),
{
    lemma_store_commute(s, a, b);
}

/// Replaying `a` then `b` is replaying `a + b`.
pub proof fn lemma_run_concat(reg: Map<Seq<char>, SchemaView>, s: Map<RecordKey, RecordView>, a: Seq<OpView>, b: Seq<OpView>)
    ensures
        engine_run(reg, s, a + b) == engine_run(reg, engine_run(reg, s, a), b),
    decreases b.len(),
{
    if b.len() > 0 {
        assert((a + b).drop_last() =~= a + b.drop_last());
        lemma_run_concat(reg, s, a, b.drop_last());
    }
}

/// An operation that commutes with each of `post` can be replayed after them.
pub proof fn lemma_step_past_run(reg: Map<Seq<char>, SchemaView>, t: Map<RecordKey, RecordView>, x: OpView, post: Seq<OpView>)
    requires
        forall|i: int| 0 <= i < post.len() ==> ops_commute(x, #[trigger] post[i]),
    ensures
        engine_run(reg, engine_step(reg, t, x), post) == engine_step(reg, engine_run(reg, t, post), x),
    decreases post.len(),
{
    if post.len() > 0 {
        let p = post.drop_last();
        assert(ops_commute(x, post[post.len() - 1]));
        lemma_step_past_run(reg, t, x, p);
        lemma_step_commute(reg, engine_run(reg, t, p), x, post.last());
    }
}

/// Replay converges: any two orders of the same operations, each delivered
/// the same number of times, give the same state, provided operations that
/// share a tie-break key are the same operation.
pub proof fn lemma_convergence(reg: Map<Seq<char>, SchemaView>, s: Map<RecordKey, RecordView>, ops1: Seq<OpView>, ops2: Seq<OpView>)
    requires
        ops1.to_multiset() == ops2.to_multiset(),
        keys_identify_ops(ops1),
    ensures
        engine_run(reg, s, ops1) == engine_run(reg, s, ops2),
    decreases ops1.len(),
{
    if ops1.len() == 0 {
        assert(ops1.to_multiset().len() == 0);
        assert(ops2.to_multiset().len() == ops2.len());
        assert(ops2.len() == 0);
        return;
    }
    let n = ops1.len() - 1;
    let x = ops1[n];
    let rest1 = ops1.drop_last();
    assert(ops1 == rest1.push(x));
    assert(ops1.to_multiset().count(x) > 0);
    assert(ops2.contains(x));
    let j = choose|j: int| 0 <= j < ops2.len() && ops2[j] == x;
    let rest2 = ops2.remove(j);
    assert(rest1.to_multiset() =~= rest2.to_multiset()) by {
        assert(ops2.remove(j).to_multiset() == ops2.to_multiset().remove(ops2[j]));
        assert(rest1.push(x).to_multiset() == rest1.to_multiset().insert(x));
    }
    assert(keys_identify_ops(rest1)) by {
        assert forall|a: int, b: int|
            0 <= a < rest1.len() && 0 <= b < rest1.len() && (#[trigger] rest1[a]).key == (
            #[trigger] rest1[b]).key implies rest1[a] == rest1[b] by {
            assert(rest1[a] == ops1[a] && rest1[b] == ops1[b]);
        }
    }
    lemma_convergence(reg, s, rest1, rest2);
    let pre = ops2.subrange(0, j);
    let post = ops2.subrange(j + 1, ops2.len() as int);
    assert(rest2 =~= pre + post);
    assert(ops2 =~= pre + seq![x] + post);
    assert forall|i: int| 0 <= i < post.len() implies ops_commute(x, #[trigger] post[i]) by {
        let y = post[i];
        assert(ops2[j + 1 + i] == y);
        assert(ops2.contains(y));
        assert(ops1.to_multiset().count(y) > 0);
        assert(ops1.contains(y));
        let k = choose|k: int| 0 <= k < ops1.len() && ops1[k] == y;
        if x.key == y.key {
            assert(ops1[n].key == ops1[k].key);
        }
    }
    lemma_run_concat(reg, s, pre + seq![x], post);
    lemma_run_concat(reg, s, pre, post);
    assert((pre + seq![x]).drop_last() =~= pre);
    lemma_step_past_run(reg, engine_run(reg, s, pre), x, post);
}

/// Once writes under one key are applied, none of them wins again.
pub proof fn lemma_writes_settle(r: RecordView, ws: Seq<Write>, k: TieBreakKey)
    requires
        all_keyed(ws, k),
    ensures
        forall|i: int| 0 <= i < ws.len() ==> !write_accepted(apply_writes(r, ws), #[trigger] ws[i]),
    decreases ws.len(),
{
    if ws.len() > 0 {
        let p = ws.drop_last();
        let r1 = apply_writes(r, p);
        let wl = ws.last();
        assert(write_key(ws[ws.len() - 1]) == k);
        assert(all_keyed(p, k)) by {
            assert forall|i: int| 0 <= i < p.len() implies write_key(#[trigger] p[i]) == k by {
                assert(p[i] == ws[i]);
            }
        }
        lemma_writes_settle(r, p, k);
        assert forall|i: int| 0 <= i < ws.len() implies !write_accepted(
            apply_writes(r, ws),
            #[trigger] ws[i],
        ) by {
            if i < ws.len() - 1 {
                assert(ws[i] == p[i]);
                assert(!write_accepted(r1, p[i]));
                assert(write_key(ws[i]) == k);
            }
        }
    }
}

/// Writes that none of them wins leave the record as it is.
pub proof fn lemma_writes_noop(r: RecordView, ws: Seq<Write>)
    requires
        forall|i: int| 0 <= i < ws.len() ==> !write_accepted(r, #[trigger] ws[i]),
    ensures
        apply_writes(r, ws) == r,
    decreases ws.len(),
{
    if ws.len() > 0 {
        let p = ws.drop_last();
        assert forall|i: int| 0 <= i < p.len() implies !write_accepted(r, #[trigger] p[i]) by {
            assert(p[i] == ws[i]);
        }
        lemma_writes_noop(r, p);
        assert(!write_accepted(r, ws[ws.len() - 1]));
    }
}

/// Replay is idempotent: applying an operation a second time changes nothing.
pub proof fn lemma_idempotence(reg: Map<Seq<char>, SchemaView>, s: Map<RecordKey, RecordView>, op: OpView)
    ensures
        engine_step(reg, engine_step(reg, s, op), op) == engine_step(reg, s, op),
{
    if op_allowed(reg, op) {
        let k = (op.model, op.record_id);
        let ws = op_writes(op);
        let r1 = apply_writes(lookup(s, k), ws);
        lemma_op_writes_keyed(op);
        lemma_writes_settle(lookup(s, k), ws, op.key);
        lemma_writes_noop(r1, ws);
        assert(store_apply(store_apply(s, op), op) =~= store_apply(s, op));
    }
}

/// An update changes only its own field's register: every other field, the
/// tombstone, and every other record stay as they were, whatever the keys.
pub proof fn lemma_update_independent(reg: Map<Seq<char>, SchemaView>, s: Map<RecordKey, RecordView>, op: OpView, other: RecordKey)
    requires
        op.data is Update,
    ensures
        ({
            let k = (op.model, op.record_id);
            let f = op.data->Update_0;
            let before = lookup(s, k);
            let after = lookup(engine_step(reg, s, op), k);
            &&& after.fields.remove(f) == before.fields.remove(f)
            &&& after.tombstone == before.tombstone
            &&& other != k ==> lookup(engine_step(reg, s, op), other) == lookup(s, other)
        }),
{
    let k = (op.model, op.record_id);
    let ws = op_writes(op);
    assert(ws.drop_last() =~= Seq::<Write>::empty());
    assert(apply_writes(lookup(s, k), ws.drop_last()) == lookup(s, k));
    let after = lookup(engine_step(reg, s, op), k);
    assert(after.fields.remove(op.data->Update_0) =~= lookup(s, k).fields.remove(
        op.data->Update_0,
    ));
}

/// Field writes leave the tombstone as it is.
proof fn lemma_field_writes_keep_tombstone(r: RecordView, ws: Seq<Write>)
    requires
        forall|i: int| 0 <= i < ws.len() ==> (#[trigger] ws[i]) is Field,
    ensures
        apply_writes(r, ws).tombstone == r.tombstone,
    decreases ws.len(),
{
    if ws.len() > 0 {
        let p = ws.drop_last();
        assert forall|i: int| 0 <= i < p.len() implies (#[trigger] p[i]) is Field by {
            assert(p[i] == ws[i]);
        }
        lemma_field_writes_keep_tombstone(r, p);
        assert(ws[ws.len() - 1] is Field);
    }
}

/// Field writes under keys not above `bound` keep every field register not
/// above it.
proof fn lemma_field_writes_not_above(r: RecordView, ws: Seq<Write>, bound: TieBreakKey)
    requires
        forall|f: Seq<char>| #[trigger] r.fields.contains_key(f) ==> !key_lt(bound, r.fields[f].1),
        forall|i: int| 0 <= i < ws.len() ==> !key_lt(bound, write_key(#[trigger] ws[i])),
    ensures
        forall|f: Seq<char>| #[trigger] apply_writes(r, ws).fields.contains_key(f) ==> !key_lt(
            bound,
            apply_writes(r, ws).fields[f].1,
        ),
    decreases ws.len(),
{
    if ws.len() > 0 {
        let p = ws.drop_last();
        assert forall|i: int| 0 <= i < p.len() implies !key_lt(bound, write_key(#[trigger] p[i])) by {
            assert(p[i] == ws[i]);
        }
        lemma_field_writes_not_above(r, p, bound);
        assert(!key_lt(bound, write_key(ws[ws.len() - 1])));
    }
}

/// The field a field write sets.
pub open spec fn field_of(w: Write) -> Seq<char> {
    match w {
        Write::Field(f, _, _) => f,
        Write::Tomb(_) => Seq::empty(),
    }
}

/// The value a field write sets.
pub open spec fn value_of(w: Write) -> Seq<char> {
    match w {
        Write::Field(_, v, _) => v,
        Write::Tomb(_) => Seq::empty(),
    }
}

/// Field writes to other fields leave a field's register as it is.
proof fn lemma_field_untouched(r: RecordView, ws: Seq<Write>, g: Seq<char>)
    requires
        forall|i: int| 0 <= i < ws.len() ==> (#[trigger] ws[i]) is Field && field_of(ws[i]) != g,
    ensures
        apply_writes(r, ws).fields.contains_key(g) == r.fields.contains_key(g),
        r.fields.contains_key(g) ==> apply_writes(r, ws).fields[g] == r.fields[g],
    decreases ws.len(),
{
    if ws.len() > 0 {
        let p = ws.drop_last();
        assert forall|i: int| 0 <= i < p.len() implies (#[trigger] p[i]) is Field && field_of(p[i])
            != g by {
            assert(p[i] == ws[i]);
        }
        lemma_field_untouched(r, p, g);
        assert(ws[ws.len() - 1] is Field && field_of(ws[ws.len() - 1]) != g);
    }
}

/// Writes under key `k` to distinct fields, each of which is empty or holds a
/// key below `k`, all win: each field ends holding its write's value.
proof fn lemma_field_writes_land(r: RecordView, ws: Seq<Write>, k: TieBreakKey)
    requires
        all_keyed(ws, k),
        forall|i: int| 0 <= i < ws.len() ==> (#[trigger] ws[i]) is Field,
        forall|i: int, j: int|
            0 <= i < j < ws.len() ==> field_of(#[trigger] ws[i]) != field_of(#[trigger] ws[j]),
        forall|i: int|
            0 <= i < ws.len() ==> !r.fields.contains_key(field_of(#[trigger] ws[i])) || key_lt(
                r.fields[field_of(ws[i])].1,
                k,
            ),
    ensures
        forall|i: int|
            0 <= i < ws.len() ==> apply_writes(r, ws).fields.contains_key(field_of(#[trigger] ws[i]))
                && apply_writes(r, ws).fields[field_of(ws[i])] == (value_of(ws[i]), k),
    decreases ws.len(),
{
    if ws.len() > 0 {
        let n = ws.len() - 1;
        let p = ws.drop_last();
        let wl = ws[n];
        assert forall|i: int| 0 <= i < p.len() implies (#[trigger] p[i]) is Field && field_of(p[i])
            != field_of(wl) by {
            assert(p[i] == ws[i]);
        }
        lemma_field_untouched(r, p, field_of(wl));
        assert(all_keyed(p, k)) by {
            assert forall|i: int| 0 <= i < p.len() implies write_key(#[trigger] p[i]) == k by {
                assert(p[i] == ws[i]);
            }
        }
        assert forall|i: int, j: int| 0 <= i < j < p.len() implies field_of(#[trigger] p[i])
            != field_of(#[trigger] p[j]) by {
            assert(p[i] == ws[i] && p[j] == ws[j]);
        }
        assert forall|i: int|
            0 <= i < p.len() implies !r.fields.contains_key(field_of(#[trigger] p[i])) || key_lt(
            r.fields[field_of(p[i])].1,
            k,
        ) by {
            assert(p[i] == ws[i]);
        }
        lemma_field_writes_land(r, p, k);
        assert(ws[n] is Field && write_key(ws[n]) == k);
        assert(!r.fields.contains_key(field_of(ws[n])) || key_lt(r.fields[field_of(ws[n])].1, k));
        assert forall|i: int| 0 <= i < ws.len() implies apply_writes(r, ws).fields.contains_key(
            field_of(#[trigger] ws[i]),
        ) && apply_writes(r, ws).fields[field_of(ws[i])] == (value_of(ws[i]), k) by {
            if i < n {
                assert(p[i] == ws[i]);
                assert(field_of(ws[i]) != field_of(ws[n]));
            }
        }
    }
}

/// A delete under key `t` followed by a create or update of the same record
/// under key `t2`:
/// - with `t2` strictly above `t` the record is visible again, provided no
///   later delete was seen before;
/// - with `t2` not above `t` it stays deleted, provided no field the record
///   held ranked above the delete;
/// - where every field the record held ranks below `t2` (a record seen only
///   by the delete), each field of the create or update holds its value.
pub proof fn lemma_resurrection(reg: Map<Seq<char>, SchemaView>, s: Map<RecordKey, RecordView>, del: OpView, op: OpView)
    requires
        del.data is Delete,
        op.data is Create || op.data is Update,
        op_writes(op).len() > 0,
        (op.model, op.record_id) == (del.model, del.record_id),
        op_allowed(reg, del),
        op_allowed(reg, op),
    ensures
        ({
            let k = (op.model, op.record_id);
            let ws = op_writes(op);
            let before = lookup(s, k);
            let after = lookup(engine_step(reg, engine_step(reg, s, del), op), k);
            &&& key_lt(del.key, op.key) && (before.tombstone is None || !key_lt(
                del.key,
                before.tombstone.unwrap(),
            )) ==> !is_tombstoned(after)
            &&& !key_lt(del.key, op.key) && (forall|f: Seq<char>| #[trigger]
                before.fields.contains_key(f) ==> !key_lt(del.key, before.fields[f].1))
                ==> is_tombstoned(after)
            &&& (forall|f: Seq<char>| #[trigger]
                before.fields.contains_key(f) ==> key_lt(before.fields[f].1, op.key)) ==> forall|
                i: int,
            |
                0 <= i < ws.len() ==> after.fields.contains_key(field_of(#[trigger] ws[i]))
                    && after.fields[field_of(ws[i])] == (value_of(ws[i]), op.key)
        }),
{
    let k = (op.model, op.record_id);
    let before = lookup(s, k);
    let dws = op_writes(del);
    assert(dws.drop_last() =~= Seq::<Write>::empty());
    assert(apply_writes(before, dws.drop_last()) == before);
    let mid = apply_write(before, Write::Tomb(del.key));
    let s1 = engine_step(reg, s, del);
    assert(lookup(s1, k) == mid);
    assert(mid.fields == before.fields);
    let ws = op_writes(op);
    let after = apply_writes(mid, ws);
    assert(lookup(engine_step(reg, s1, op), k) == after);
    assert forall|i: int| 0 <= i < ws.len() implies (#[trigger] ws[i]) is Field by {
    }
    lemma_field_writes_keep_tombstone(mid, ws);
    lemma_op_writes_keyed(op);
    lemma_key_total(del.key, op.key);
    if key_lt(del.key, op.key) && (before.tombstone is None || !key_lt(
        del.key,
        before.tombstone.unwrap(),
    )) {
        lemma_writes_settle(mid, ws, op.key);
        assert(!write_accepted(after, ws[0]));
        let f = ws[0]->Field_0;
        assert(after.fields.contains_key(f));
    }
    if !key_lt(del.key, op.key) && (forall|f: Seq<char>| #[trigger]
        before.fields.contains_key(f) ==> !key_lt(del.key, before.fields[f].1)) {
        assert forall|i: int| 0 <= i < ws.len() implies !key_lt(del.key, write_key(#[trigger] ws[i])) by {
        }
        lemma_field_writes_not_above(mid, ws, del.key);
        assert forall|f: Seq<char>| #[trigger] after.fields.contains_key(f) implies !key_lt(
            after.tombstone.unwrap(),
            after.fields[f].1,
        ) by {
            assert(!key_lt(del.key, after.fields[f].1));
        }
    }
    if forall|f: Seq<char>| #[trigger]
        before.fields.contains_key(f) ==> key_lt(before.fields[f].1, op.key) {
        assert forall|i: int, j: int| 0 <= i < j < ws.len() implies field_of(#[trigger] ws[i])
            != field_of(#[trigger] ws[j]) by {
            match op.data {
                OpDataView::Create(d) => {
                    assert(crate::operation::pair_names(d)[i] == field_of(ws[i]));
                    assert(crate::operation::pair_names(d)[j] == field_of(ws[j]));
                },
                _ => {},
            }
        }
        assert forall|i: int|
            0 <= i < ws.len() implies !mid.fields.contains_key(field_of(#[trigger] ws[i]))
            || key_lt(mid.fields[field_of(ws[i])].1, op.key) by {
        }
        lemma_field_writes_land(mid, ws, op.key);
    }
}

} // verus!
