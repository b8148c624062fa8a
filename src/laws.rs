//! Properties that relate the codec, the replication model and the tick
//! steps to one another.
use vstd::prelude::*;
use crate::codec::{
    components_bytes, create_frame, decode_entity_spec, decode_event_spec, delete_frame,
    event_frame, info_byte, info_of_byte, le_bytes, le_value, lemma_components_round_trip,
    payloads_fit, update_frame, DecodeError, EntityMsg, EventType, ReplicationInfo,
    MAX_COMPONENTS_PER_ENTITY,
};
use crate::replication::{
    apply_all, apply_bytes, apply_one, apply_updates, collect_spec, find_component, find_slave,
    lemma_find_slave_range, live_masters, live_slaves, mark_deleted, Comps, MasterView,
    SlaveView, WorldView,
};
use crate::state::{apply_step, broadcast_spec, fanout, route_result, route_spec, Inbound, SendMode};

verus! {

proof fn lemma_le_round_trip(v: u16)
    ensures
        le_value(le_bytes(v)[0], le_bytes(v)[1]) == v,
{
}

/// An encoded generic event decodes to the same tag and payload.
pub proof fn law_event_round_trip(t: EventType, payload: Seq<u8>)
    requires
        payload.len() <= u16::MAX,
    ensures
        decode_event_spec(event_frame(t, payload)) == Ok::<(EventType, Seq<u8>), DecodeError>(
            (t, payload),
        ),
{
    let b = event_frame(t, payload);
    assert(b[0] == t.code());
    assert(b[1] == (payload.len() as u16 % 256) as u8);
    assert(b[2] == (payload.len() as u16 / 256) as u8);
    assert(le_value(b[1], b[2]) == payload.len());
    assert(b.subrange(3, 3 + payload.len() as int) =~= payload);
}

/// An encoded update with at most `MAX_COMPONENTS_PER_ENTITY` components,
/// each of at most 255 bytes, decodes to the same static id and components.
pub proof fn law_update_round_trip(static_id: u16, cs: Comps)
    requires
        cs.len() <= MAX_COMPONENTS_PER_ENTITY,
        payloads_fit(cs),
    ensures
        decode_entity_spec(update_frame(static_id, cs)) == Ok::<EntityMsg, DecodeError>(
            EntityMsg::Update(static_id, cs),
        ),
{
    let b = update_frame(static_id, cs);
    lemma_components_round_trip(cs, MAX_COMPONENTS_PER_ENTITY as nat);
    lemma_le_round_trip(static_id);
    assert(b.subrange(3, b.len() as int) =~= components_bytes(cs));
}

/// The same for a create message.
pub proof fn law_create_round_trip(static_id: u16, info: ReplicationInfo, cs: Comps)
    requires
        cs.len() <= MAX_COMPONENTS_PER_ENTITY,
        payloads_fit(cs),
    ensures
        decode_entity_spec(create_frame(static_id, info, cs)) == Ok::<EntityMsg, DecodeError>(
            EntityMsg::Create(static_id, info, cs),
        ),
{
    let b = create_frame(static_id, info, cs);
    lemma_components_round_trip(cs, MAX_COMPONENTS_PER_ENTITY as nat);
    lemma_le_round_trip(static_id);
    assert(b.subrange(5, b.len() as int) =~= components_bytes(cs));
    assert(b[3] == info_byte(info));
    assert(info_of_byte(info_byte(info)) == info);
}

/// A delete message decodes to its static id.
pub proof fn law_delete_round_trip(static_id: u16)
    ensures
        decode_entity_spec(delete_frame(static_id)) == Ok::<EntityMsg, DecodeError>(
            EntityMsg::Delete(static_id),
        ),
{
    lemma_le_round_trip(static_id);
}

/// A leading byte that names no event type is reported as such by every
/// decoder, whatever follows it.
pub proof fn law_unknown_tag_rejected(tag: u8, rest: Seq<u8>)
    requires
        tag >= 6,
    ensures
        decode_event_spec(seq![tag] + rest) == Err::<(EventType, Seq<u8>), DecodeError>(
            DecodeError::UnknownEventType(tag),
        ),
        decode_entity_spec(seq![tag] + rest) == Err::<EntityMsg, DecodeError>(
            DecodeError::UnknownEventType(tag),
        ),
        route_result(seq![tag] + rest) == Err::<EventType, DecodeError>(
            DecodeError::UnknownEventType(tag),
        ),
{
    assert((seq![tag] + rest)[0] == tag);
}

/// Component lists with the same ids and lengths in the same order.
pub open spec fn same_schema(a: Comps, b: Comps) -> bool {
    &&& a.len() == b.len()
    &&& forall|i: int| 0 <= i < a.len() ==> (#[trigger] a[i]).0 == b[i].0 && a[i].1.len() == b[i].1.len()
}

/// No two components share a stable id.
pub open spec fn distinct_ids(cs: Comps) -> bool {
    forall|i: int, j: int| 0 <= i < j < cs.len() ==> (#[trigger] cs[i]).0 != (#[trigger] cs[j]).0
}

proof fn lemma_find_component_at(c: Comps, id: u16, k: int, j: int)
    requires
        0 <= j <= k < c.len(),
        c[k].0 == id,
        forall|m: int| 0 <= m < k ==> (#[trigger] c[m]).0 != id,
    ensures
        find_component(c, id, j) == k,
    decreases k - j,
{
    if j < k {
        lemma_find_component_at(c, id, k, j + 1);
    }
}

proof fn lemma_converge_from(old_cs: Comps, cs: Comps, i: int)
    requires
        0 <= i <= cs.len(),
        same_schema(old_cs, cs),
        distinct_ids(cs),
    ensures
        apply_updates(cs.subrange(0, i) + old_cs.subrange(i, old_cs.len() as int), cs.subrange(i, cs.len() as int))
            == Some(cs),
    decreases cs.len() - i,
{
    let cur = cs.subrange(0, i) + old_cs.subrange(i, old_cs.len() as int);
    let ups = cs.subrange(i, cs.len() as int);
    if i == cs.len() {
        assert(cur =~= cs);
    } else {
        assert(ups[0] == cs[i]);
        assert(cur[i] == old_cs[i]);
        assert forall|m: int| 0 <= m < i implies (#[trigger] cur[m]).0 != cs[i].0 by {
            assert(cur[m] == cs[m]);
        }
        lemma_find_component_at(cur, cs[i].0, i, 0);
        assert(apply_one(cur, cs[i]) == Some(cur.update(i, cs[i])));
        let next = cs.subrange(0, i + 1) + old_cs.subrange(i + 1, old_cs.len() as int);
        assert(cur.update(i, cs[i]) =~= next);
        assert(ups.drop_first() =~= cs.subrange(i + 1, cs.len() as int));
        lemma_converge_from(old_cs, cs, i + 1);
    }
}

/// Applying a master's full update to a slave whose components have the same
/// ids and lengths leaves the slave with exactly the master's components.
pub proof fn law_update_converges(w: WorldView, sender: u64, static_id: u16, cs: Comps)
    requires
        find_slave(w.slaves, static_id, 0) >= 0,
        same_schema(w.slaves[find_slave(w.slaves, static_id, 0)].1, cs),
        distinct_ids(cs),
        cs.len() <= MAX_COMPONENTS_PER_ENTITY,
        payloads_fit(cs),
    ensures
        apply_bytes(w, sender, update_frame(static_id, cs)).slaves == w.slaves.update(
            find_slave(w.slaves, static_id, 0),
            (w.slaves[find_slave(w.slaves, static_id, 0)].0, cs),
        ),
        apply_bytes(w, sender, update_frame(static_id, cs)).masters == w.masters,
{
    law_update_round_trip(static_id, cs);
    let k = find_slave(w.slaves, static_id, 0);
    let old_cs = w.slaves[k].1;
    lemma_converge_from(old_cs, cs, 0);
    assert(cs.subrange(0, 0) + old_cs.subrange(0, old_cs.len() as int) =~= old_cs);
    assert(cs.subrange(0, cs.len() as int) =~= cs);
}

proof fn lemma_fanout_has(peers: Seq<u64>, me: u64, mode: SendMode, bytes: Seq<u8>, p: u64)
    requires
        peers.contains(p),
        p != me,
    ensures
        fanout(peers, me, mode, bytes).contains((p, mode, bytes)),
    decreases peers.len(),
{
    let r = fanout(peers.drop_last(), me, mode, bytes);
    if peers.last() == p {
        assert(fanout(peers, me, mode, bytes) == r.push((p, mode, bytes)));
        assert(r.push((p, mode, bytes))[r.len() as int] == (p, mode, bytes));
    } else {
        let j = choose|j: int| 0 <= j < peers.len() && peers[j] == p;
        assert(peers.drop_last()[j] == p);
        lemma_fanout_has(peers.drop_last(), me, mode, bytes, p);
        let i = choose|i: int| 0 <= i < r.len() && r[i] == (p, mode, bytes);
        if peers.last() == me {
        } else {
            assert(r.push((peers.last(), mode, bytes))[i] == (p, mode, bytes));
        }
    }
}

/// Every other peer in the roster is sent the full update of every master
/// flagged for periodic sync.
pub proof fn law_broadcast_reaches_peers(ms: Seq<MasterView>, peers: Seq<u64>, me: u64, k: int, p: u64)
    requires
        0 <= k < ms.len(),
        ms[k].0.info.periodic_sync,
        peers.contains(p),
        p != me,
    ensures
        broadcast_spec(ms, peers, me).contains(
            (p, SendMode::Unreliable, update_frame(ms[k].0.static_id, ms[k].1)),
        ),
    decreases ms.len(),
{
    let x = (p, SendMode::Unreliable, update_frame(ms[k].0.static_id, ms[k].1));
    let prev = broadcast_spec(ms.drop_last(), peers, me);
    if k == ms.len() - 1 {
        lemma_fanout_has(peers, me, SendMode::Unreliable, update_frame(ms[k].0.static_id, ms[k].1), p);
        let f = fanout(peers, me, SendMode::Unreliable, update_frame(ms[k].0.static_id, ms[k].1));
        let i = choose|i: int| 0 <= i < f.len() && f[i] == x;
        assert((prev + f)[prev.len() + i] == x);
    } else {
        assert(ms.drop_last()[k] == ms[k]);
        law_broadcast_reaches_peers(ms.drop_last(), peers, me, k, p);
        let i = choose|i: int| 0 <= i < prev.len() && prev[i] == x;
        if ms.last().0.info.periodic_sync {
            let f = fanout(peers, me, SendMode::Unreliable, update_frame(ms.last().0.static_id, ms.last().1));
            assert((prev + f)[i] == x);
        }
    }
}

proof fn lemma_find_slave_none(s: Seq<SlaveView>, sid: u16, i: int)
    requires
        0 <= i,
    ensures
        find_slave(s, sid, i) == -1 <==> forall|j: int| i <= j < s.len() ==> (#[trigger] s[j]).0.static_id != sid,
    decreases s.len() - i,
{
    lemma_find_slave_range(s, sid, i);
    if i < s.len() {
        lemma_find_slave_none(s, sid, i + 1);
    }
}

proof fn lemma_find_slave_update(s: Seq<SlaveView>, sid: u16, k: int, x: SlaveView, i: int)
    requires
        0 <= k < s.len(),
        x.0.static_id == s[k].0.static_id,
    ensures
        find_slave(s.update(k, x), sid, i) == find_slave(s, sid, i),
    decreases s.len() - i,
{
    if 0 <= i < s.len() {
        lemma_find_slave_update(s, sid, k, x, i + 1);
    }
}

proof fn lemma_live_slaves_from(s: Seq<SlaveView>)
    ensures
        forall|j: int| 0 <= j < live_slaves(s).len() ==> exists|m: int| 0 <= m < s.len() && s[m] == #[trigger] live_slaves(s)[j] && !s[m].0.info.pending_delete,
    decreases s.len(),
{
    if s.len() > 0 {
        let prev = s.drop_last();
        lemma_live_slaves_from(prev);
        assert forall|j: int| 0 <= j < live_slaves(s).len() implies exists|m: int| 0 <= m < s.len() && s[m] == #[trigger] live_slaves(s)[j] && !s[m].0.info.pending_delete by {
            if j < live_slaves(prev).len() {
                assert(live_slaves(s)[j] == live_slaves(prev)[j]);
                let m = choose|m: int| 0 <= m < prev.len() && prev[m] == #[trigger] live_slaves(prev)[j] && !prev[m].0.info.pending_delete;
                assert(s[m] == prev[m]);
            } else {
                assert(s[s.len() - 1] == live_slaves(s)[j]);
            }
        }
    }
}

proof fn lemma_live_masters_from(s: Seq<MasterView>)
    ensures
        forall|j: int| 0 <= j < live_masters(s).len() ==> exists|m: int| 0 <= m < s.len() && s[m] == #[trigger] live_masters(s)[j] && !s[m].0.info.pending_delete,
    decreases s.len(),
{
    if s.len() > 0 {
        let prev = s.drop_last();
        lemma_live_masters_from(prev);
        assert forall|j: int| 0 <= j < live_masters(s).len() implies exists|m: int| 0 <= m < s.len() && s[m] == #[trigger] live_masters(s)[j] && !s[m].0.info.pending_delete by {
            if j < live_masters(prev).len() {
                assert(live_masters(s)[j] == live_masters(prev)[j]);
                let m = choose|m: int| 0 <= m < prev.len() && prev[m] == #[trigger] live_masters(prev)[j] && !prev[m].0.info.pending_delete;
                assert(s[m] == prev[m]);
            } else {
                assert(s[s.len() - 1] == live_masters(s)[j]);
            }
        }
    }
}

/// At most one slave carries `sid`.
pub open spec fn unique_slave_id(s: Seq<SlaveView>, sid: u16) -> bool {
    forall|i: int, j: int| 0 <= i < s.len() && 0 <= j < s.len() && (#[trigger] s[i]).0.static_id == sid
        && (#[trigger] s[j]).0.static_id == sid ==> i == j
}

/// At most one master carries `sid`.
pub open spec fn unique_master_id(s: Seq<MasterView>, sid: u16) -> bool {
    forall|i: int, j: int| 0 <= i < s.len() && 0 <= j < s.len() && (#[trigger] s[i]).0.static_id == sid
        && (#[trigger] s[j]).0.static_id == sid ==> i == j
}

/// A delete for a static id that no live slave carries changes nothing.
pub proof fn law_delete_of_absent_is_noop(w: WorldView, sender: u64, static_id: u16)
    requires
        forall|j: int| 0 <= j < w.slaves.len() ==> (#[trigger] w.slaves[j]).0.static_id != static_id,
    ensures
        apply_bytes(w, sender, delete_frame(static_id)) == w,
{
    law_delete_round_trip(static_id);
    lemma_find_slave_none(w.slaves, static_id, 0);
}

/// Applying the same delete twice is the same as applying it once.
pub proof fn law_delete_idempotent(w: WorldView, sender: u64, static_id: u16)
    ensures
        apply_bytes(apply_bytes(w, sender, delete_frame(static_id)), sender, delete_frame(static_id))
            == apply_bytes(w, sender, delete_frame(static_id)),
{
    law_delete_round_trip(static_id);
    let k = find_slave(w.slaves, static_id, 0);
    lemma_find_slave_range(w.slaves, static_id, 0);
    if k >= 0 {
        let x = (mark_deleted(w.slaves[k].0), w.slaves[k].1);
        lemma_find_slave_update(w.slaves, static_id, k, x, 0);
        let w1 = apply_bytes(w, sender, delete_frame(static_id));
        assert(w1.slaves == w.slaves.update(k, x));
        assert(w1.slaves[k] == x);
        assert(mark_deleted(x.0) == x.0);
        assert(w1.slaves.update(k, (mark_deleted(w1.slaves[k].0), w1.slaves[k].1)) =~= w1.slaves);
    }
}

/// Once a slave receives the delete of its static id, the collect step
/// despawns it: no live slave carries that id any more.
pub proof fn law_deleted_slave_is_collected(w: WorldView, sender: u64, static_id: u16)
    requires
        unique_slave_id(w.slaves, static_id),
    ensures
        forall|j: int| 0 <= j < collect_spec(apply_bytes(w, sender, delete_frame(static_id))).slaves.len()
            ==> (#[trigger] collect_spec(apply_bytes(w, sender, delete_frame(static_id))).slaves[j]).0.static_id
            != static_id,
{
    law_delete_round_trip(static_id);
    let k = find_slave(w.slaves, static_id, 0);
    lemma_find_slave_range(w.slaves, static_id, 0);
    lemma_find_slave_none(w.slaves, static_id, 0);
    let w1 = apply_bytes(w, sender, delete_frame(static_id));
    lemma_live_slaves_from(w1.slaves);
    let live = collect_spec(w1).slaves;
    assert forall|j: int| 0 <= j < live.len() implies (#[trigger] live[j]).0.static_id != static_id by {
        let m = choose|m: int| 0 <= m < w1.slaves.len() && w1.slaves[m] == #[trigger] live_slaves(w1.slaves)[j] && !w1.slaves[m].0.info.pending_delete;
        if k >= 0 {
            if m != k {
                assert(w1.slaves[m] == w.slaves[m]);
                assert(w.slaves[k].0.static_id == static_id);
            }
        } else {
            assert(w1.slaves[m] == w.slaves[m]);
        }
    }
}

/// A master flagged for deletion is despawned by the collect step: no live
/// master carries its static id any more.
pub proof fn law_destroyed_master_is_collected(w: WorldView, k: int)
    requires
        0 <= k < w.masters.len(),
        unique_master_id(w.masters, w.masters[k].0.static_id),
    ensures
        ({
            let m = w.masters[k];
            let marked = WorldView {
                masters: w.masters.update(
                    k,
                    (crate::replication::SynchronizedMaster {
                        info: ReplicationInfo { pending_delete: true, ..m.0.info },
                        ..m.0
                    }, m.1),
                ),
                ..w
            };
            forall|j: int| 0 <= j < collect_spec(marked).masters.len()
                ==> (#[trigger] collect_spec(marked).masters[j]).0.static_id != m.0.static_id
        }),
{
    let m = w.masters[k];
    let sid = m.0.static_id;
    let ms = w.masters.update(
        k,
        (crate::replication::SynchronizedMaster {
            info: ReplicationInfo { pending_delete: true, ..m.0.info },
            ..m.0
        }, m.1),
    );
    lemma_live_masters_from(ms);
    assert forall|j: int| 0 <= j < live_masters(ms).len() implies (#[trigger] live_masters(ms)[j]).0.static_id != sid by {
        let i = choose|i: int| 0 <= i < ms.len() && ms[i] == #[trigger] live_masters(ms)[j] && !ms[i].0.info.pending_delete;
        if i != k {
            assert(ms[i] == w.masters[i]);
        }
    }
}

/// Every other peer in the roster is sent a message that it receives.
pub proof fn law_fanout_reaches_peer(peers: Seq<u64>, me: u64, mode: SendMode, bytes: Seq<u8>, p: u64)
    requires
        peers.contains(p),
        p != me,
    ensures
        fanout(peers, me, mode, bytes).contains((p, mode, bytes)),
{
    lemma_fanout_has(peers, me, mode, bytes, p);
}

/// Update and delete messages reach the entity-message buffer unchanged,
/// tagged with their sender; nothing else changes.
pub proof fn law_entity_frames_are_buffered(v: Inbound, sender: u64, b: Seq<u8>)
    requires
        b.len() > 0,
        b[0] == EventType::EntityUpdate.code() || b[0] == EventType::EntityDelete.code(),
    ensures
        route_spec(v, sender, b) == (Inbound { sync: v.sync.push((sender, b)), ..v }),
        route_result(b) == Ok::<EventType, DecodeError>(EventType::from_code(b[0])->Some_0),
{
}

/// Create messages reach their own buffer unchanged, tagged with their
/// sender; nothing else changes.
pub proof fn law_create_frames_are_buffered(v: Inbound, sender: u64, b: Seq<u8>)
    requires
        b.len() > 0,
        b[0] == EventType::EntityCreate.code(),
    ensures
        route_spec(v, sender, b) == (Inbound { creates: v.creates.push((sender, b)), ..v }),
{
}

/// A packet with an unknown tag is recorded with its sender and changes
/// nothing else.
pub proof fn law_unknown_tag_recorded(v: Inbound, sender: u64, tag: u8, rest: Seq<u8>)
    requires
        tag >= 6,
    ensures
        route_spec(v, sender, seq![tag] + rest) == (Inbound {
            errors: v.errors.push((sender, DecodeError::UnknownEventType(tag))),
            ..v
        }),
{
    assert((seq![tag] + rest)[0] == tag);
}

proof fn lemma_live_slaves_keeps(s: Seq<SlaveView>, j: int)
    requires
        0 <= j < s.len(),
        !s[j].0.info.pending_delete,
    ensures
        live_slaves(s).contains(s[j]),
    decreases s.len(),
{
    let p = s.drop_last();
    if j == s.len() - 1 {
        assert(live_slaves(s) == live_slaves(p).push(s[j]));
        assert(live_slaves(s)[live_slaves(p).len() as int] == s[j]);
    } else {
        assert(p[j] == s[j]);
        lemma_live_slaves_keeps(p, j);
        let i = choose|i: int| 0 <= i < live_slaves(p).len() && live_slaves(p)[i] == s[j];
        if s.last().0.info.pending_delete {
        } else {
            assert(live_slaves(s)[i] == s[j]);
        }
    }
}

proof fn lemma_live_slaves_all(s: Seq<SlaveView>)
    requires
        forall|j: int| 0 <= j < s.len() ==> !(#[trigger] s[j]).0.info.pending_delete,
    ensures
        live_slaves(s) == s,
    decreases s.len(),
{
    if s.len() > 0 {
        lemma_live_slaves_all(s.drop_last());
        assert(s.drop_last().push(s.last()) =~= s);
    }
}

proof fn lemma_live_masters_all(s: Seq<MasterView>)
    requires
        forall|j: int| 0 <= j < s.len() ==> !(#[trigger] s[j]).0.info.pending_delete,
    ensures
        live_masters(s) == s,
    decreases s.len(),
{
    if s.len() > 0 {
        lemma_live_masters_all(s.drop_last());
        assert(s.drop_last().push(s.last()) =~= s);
    }
}

proof fn lemma_apply_one_message(w: WorldView, sender: u64, b: Seq<u8>)
    ensures
        apply_step(w, Seq::<(u64, Seq<u8>)>::empty(), seq![(sender, b)], Seq::<u64>::empty())
            == apply_bytes(w, sender, b),
{
    let one = seq![(sender, b)];
    assert(one.drop_first() =~= Seq::<(u64, Seq<u8>)>::empty());
    assert(apply_all(w, Seq::<(u64, Seq<u8>)>::empty()) == w);
    assert(apply_all(w, one) == apply_all(apply_bytes(w, sender, b), one.drop_first()));
}

/// A delete received by a peer whose buffers held nothing else this tick:
/// after its ingest, apply and collect steps no slave carries the deleted
/// static id, and every slave that carried another id and was not flagged
/// is still there.
pub proof fn law_delete_reaches_slave(w: WorldView, v: Inbound, sender: u64, static_id: u16)
    requires
        v.sync.len() == 0,
        v.creates.len() == 0,
        v.departed.len() == 0,
        unique_slave_id(w.slaves, static_id),
    ensures
        ({
            let v2 = route_spec(v, sender, delete_frame(static_id));
            let after = collect_spec(apply_step(w, v2.creates, v2.sync, v2.departed));
            &&& forall|j: int| 0 <= j < after.slaves.len() ==> (#[trigger] after.slaves[j]).0.static_id
                != static_id
            &&& forall|j: int| 0 <= j < w.slaves.len() && w.slaves[j].0.static_id != static_id
                && !w.slaves[j].0.info.pending_delete ==> after.slaves.contains(#[trigger] w.slaves[j])
        }),
{
    let df = delete_frame(static_id);
    law_delete_round_trip(static_id);
    let v2 = route_spec(v, sender, df);
    assert(v2.sync =~= seq![(sender, df)]);
    assert(v2.creates =~= Seq::<(u64, Seq<u8>)>::empty());
    assert(v2.departed =~= Seq::<u64>::empty());
    lemma_apply_one_message(w, sender, df);
    law_deleted_slave_is_collected(w, sender, static_id);
    let w1 = apply_bytes(w, sender, df);
    let k = find_slave(w.slaves, static_id, 0);
    lemma_find_slave_range(w.slaves, static_id, 0);
    assert forall|j: int| 0 <= j < w.slaves.len() && w.slaves[j].0.static_id != static_id
        && !w.slaves[j].0.info.pending_delete implies collect_spec(w1).slaves.contains(#[trigger] w.slaves[j]) by {
        assert(j != k);
        assert(w1.slaves[j] == w.slaves[j]);
        lemma_live_slaves_keeps(w1.slaves, j);
    }
}

/// Where no live entity is flagged and no slave carries the static id, a
/// repeated delete followed by a collect leaves every entity as it was.
pub proof fn law_repeated_delete_changes_nothing(w: WorldView, sender: u64, static_id: u16)
    requires
        forall|j: int| 0 <= j < w.slaves.len() ==> (#[trigger] w.slaves[j]).0.static_id != static_id,
        forall|j: int| 0 <= j < w.slaves.len() ==> !(#[trigger] w.slaves[j]).0.info.pending_delete,
        forall|j: int| 0 <= j < w.masters.len() ==> !(#[trigger] w.masters[j]).0.info.pending_delete,
    ensures
        collect_spec(apply_bytes(w, sender, delete_frame(static_id))) == w,
{
    law_delete_of_absent_is_noop(w, sender, static_id);
    lemma_live_slaves_all(w.slaves);
    lemma_live_masters_all(w.masters);
}

/// A full update received by a peer whose buffers held nothing else this
/// tick leaves the matching slave with exactly the sent components, where
/// its components have the same ids and lengths.
pub proof fn law_update_reaches_slave(w: WorldView, v: Inbound, sender: u64, static_id: u16, cs: Comps)
    requires
        v.sync.len() == 0,
        v.creates.len() == 0,
        v.departed.len() == 0,
        find_slave(w.slaves, static_id, 0) >= 0,
        same_schema(w.slaves[find_slave(w.slaves, static_id, 0)].1, cs),
        distinct_ids(cs),
        cs.len() <= MAX_COMPONENTS_PER_ENTITY,
        payloads_fit(cs),
    ensures
        ({
            let v2 = route_spec(v, sender, update_frame(static_id, cs));
            apply_step(w, v2.creates, v2.sync, v2.departed).slaves[find_slave(w.slaves, static_id, 0)].1
                == cs
        }),
{
    let uf = update_frame(static_id, cs);
    law_update_round_trip(static_id, cs);
    let v2 = route_spec(v, sender, uf);
    assert(uf[0] == EventType::EntityUpdate.code());
    assert(v2.sync =~= seq![(sender, uf)]);
    assert(v2.creates =~= Seq::<(u64, Seq<u8>)>::empty());
    assert(v2.departed =~= Seq::<u64>::empty());
    lemma_apply_one_message(w, sender, uf);
    law_update_converges(w, sender, static_id, cs);
    lemma_find_slave_range(w.slaves, static_id, 0);
}

} // verus!
