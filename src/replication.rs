//! Master and slave records, the set of live replicas, and the apply and
//! collect steps of a tick.
use vstd::prelude::*;
use crate::codec::{
    comps_view, decode_entity_message, decode_entity_spec, ComponentData, EntityMessage,
    EntityMsg, EventType, ReplicationInfo, payloads_fit, parse_components,
};

verus! {

/// Authoritative side of a networked entity.
#[derive(Clone, Copy, Debug, PartialEq, Eq, Structural)]
pub struct SynchronizedMaster {
    pub info: ReplicationInfo,
    pub static_id: u16,
}

/// Local projection of a remote master.
#[derive(Clone, Copy, Debug, PartialEq, Eq, Structural)]
pub struct SynchronizedSlave {
    pub info: ReplicationInfo,
    pub static_id: u16,
    /// Despawn the slave when `owner` leaves the session.
    pub destroy_on_owner_disconnect: bool,
    pub owner: u64,
}

/// A master together with the encoded state of its replicated components.
#[derive(Debug)]
pub struct MasterEntity {
    pub master: SynchronizedMaster,
    pub components: Vec<ComponentData>,
}

/// A slave together with the encoded state of its replicated components.
#[derive(Debug)]
pub struct SlaveEntity {
    pub slave: SynchronizedSlave,
    pub components: Vec<ComponentData>,
}

/// Abstract component list: stable id and bytes of each component, in order.
pub type Comps = Seq<(u16, Seq<u8>)>;

pub type MasterView = (SynchronizedMaster, Comps);

pub type SlaveView = (SynchronizedSlave, Comps);

/// Abstract content of a `ReplicaSet`.
pub struct WorldView {
    pub masters: Seq<MasterView>,
    pub slaves: Seq<SlaveView>,
}

/// Every live networked entity of this peer.
#[derive(Debug)]
pub struct ReplicaSet {
    pub masters: Vec<MasterEntity>,
    pub slaves: Vec<SlaveEntity>,
}

impl MasterEntity {
    pub open spec fn view(&self) -> MasterView {
        (self.master, comps_view(self.components@))
    }
}

impl SlaveEntity {
    pub open spec fn view(&self) -> SlaveView {
        (self.slave, comps_view(self.components@))
    }
}

pub open spec fn masters_view(v: Seq<MasterEntity>) -> Seq<MasterView> {
    v.map_values(|m: MasterEntity| m.view())
}

pub open spec fn slaves_view(v: Seq<SlaveEntity>) -> Seq<SlaveView> {
    v.map_values(|s: SlaveEntity| s.view())
}

/// Index of the first component at or after `i` with stable id `id`, or -1.
pub open spec fn find_component(cs: Comps, id: u16, i: int) -> int
    decreases cs.len() - i,
{
    if i < 0 || i >= cs.len() {
        -1
    } else if cs[i].0 == id {
        i
    } else {
        find_component(cs, id, i + 1)
    }
}

/// Index of the first slave at or after `i` with static id `sid`, or -1.
pub open spec fn find_slave(s: Seq<SlaveView>, sid: u16, i: int) -> int
    decreases s.len() - i,
{
    if i < 0 || i >= s.len() {
        -1
    } else if s[i].0.static_id == sid {
        i
    } else {
        find_slave(s, sid, i + 1)
    }
}

/// Index of the first master at or after `i` with static id `sid`, or -1.
pub open spec fn find_master(s: Seq<MasterView>, sid: u16, i: int) -> int
    decreases s.len() - i,
{
    if i < 0 || i >= s.len() {
        -1
    } else if s[i].0.static_id == sid {
        i
    } else {
        find_master(s, sid, i + 1)
    }
}

/// One received component overwrites the first live component with its id;
/// an unknown id is skipped; a length that differs fails.
pub open spec fn apply_one(cs: Comps, u: (u16, Seq<u8>)) -> Option<Comps> {
    let k = find_component(cs, u.0, 0);
    if k < 0 {
        Some(cs)
    } else if cs[k].1.len() == u.1.len() {
        Some(cs.update(k, u))
    } else {
        None
    }
}

/// All received components in order; `None` where one fails, and then the
/// whole update is dropped.
pub open spec fn apply_updates(cs: Comps, ups: Comps) -> Option<Comps>
    decreases ups.len(),
{
    if ups.len() == 0 {
        Some(cs)
    } else {
        match apply_one(cs, ups[0]) {
            None => None,
            Some(c2) => apply_updates(c2, ups.drop_first()),
        }
    }
}

/// A slave record flagged for deletion.
pub open spec fn mark_deleted(s: SynchronizedSlave) -> SynchronizedSlave {
    SynchronizedSlave { info: ReplicationInfo { pending_delete: true, ..s.info }, ..s }
}

/// Effect of one decoded entity message sent by `sender`.
pub open spec fn apply_msg(w: WorldView, sender: u64, m: EntityMsg) -> WorldView {
    match m {
        EntityMsg::Update(sid, ups) => {
            let k = find_slave(w.slaves, sid, 0);
            if k < 0 {
                w
            } else {
                match apply_updates(w.slaves[k].1, ups) {
                    None => w,
                    Some(c) => WorldView { slaves: w.slaves.update(k, (w.slaves[k].0, c)), ..w },
                }
            }
        },
        EntityMsg::Delete(sid) => {
            let k = find_slave(w.slaves, sid, 0);
            if k < 0 {
                w
            } else {
                WorldView { slaves: w.slaves.update(k, (mark_deleted(w.slaves[k].0), w.slaves[k].1)), ..w }
            }
        },
        EntityMsg::Create(sid, info, cs) => {
            if find_slave(w.slaves, sid, 0) >= 0 || find_master(w.masters, sid, 0) >= 0 {
                w
            } else {
                let s = SynchronizedSlave {
                    info,
                    static_id: sid,
                    destroy_on_owner_disconnect: true,
                    owner: sender,
                };
                WorldView { slaves: w.slaves.push((s, cs)), ..w }
            }
        },
    }
}

/// A slave record as it stands once `owner` has left the session.
pub open spec fn after_owner_left(s: SlaveView, owner: u64) -> SlaveView {
    if s.0.owner == owner && s.0.destroy_on_owner_disconnect {
        (mark_deleted(s.0), s.1)
    } else {
        s
    }
}

/// Every slave of `owner` that is to go with it is flagged for deletion.
pub open spec fn owner_left(w: WorldView, owner: u64) -> WorldView {
    WorldView { slaves: w.slaves.map_values(|s: SlaveView| after_owner_left(s, owner)), ..w }
}

/// Effect of one buffered entity message from `sender`, as `apply_msg`
/// says; a message that does not decode changes nothing.
pub open spec fn apply_bytes(w: WorldView, sender: u64, b: Seq<u8>) -> WorldView {
    match decode_entity_spec(b) {
        Ok(m) => apply_msg(w, sender, m),
        Err(_) => w,
    }
}

/// Every peer of `owners` has left, in order.
pub open spec fn owners_left(w: WorldView, owners: Seq<u64>) -> WorldView
    decreases owners.len(),
{
    if owners.len() == 0 {
        w
    } else {
        owners_left(owner_left(w, owners[0]), owners.drop_first())
    }
}

/// Effect of the buffered messages, in order.
pub open spec fn apply_all(w: WorldView, ms: Seq<(u64, Seq<u8>)>) -> WorldView
    decreases ms.len(),
{
    if ms.len() == 0 {
        w
    } else {
        apply_all(apply_bytes(w, ms[0].0, ms[0].1), ms.drop_first())
    }
}

/// How many received components name an id that no component of `cs` has;
/// those are skipped.
pub open spec fn unmatched_in(cs: Comps, ups: Comps) -> nat
    decreases ups.len(),
{
    if ups.len() == 0 {
        0
    } else {
        unmatched_in(cs, ups.drop_last()) + if find_component(cs, ups.last().0, 0) < 0 {
            1nat
        } else {
            0nat
        }
    }
}

/// Components of one buffered message that the target slave does not have.
/// Only an update that reaches a live slave counts any.
pub open spec fn unmatched_bytes(w: WorldView, b: Seq<u8>) -> nat {
    match decode_entity_spec(b) {
        Ok(EntityMsg::Update(sid, ups)) => {
            let k = find_slave(w.slaves, sid, 0);
            if k < 0 {
                0
            } else {
                unmatched_in(w.slaves[k].1, ups)
            }
        },
        _ => 0,
    }
}

/// Unmatched components over the buffered messages, applied in order.
pub open spec fn unmatched_all(w: WorldView, ms: Seq<(u64, Seq<u8>)>) -> nat
    decreases ms.len(),
{
    if ms.len() == 0 {
        0
    } else {
        unmatched_bytes(w, ms[0].1) + unmatched_all(apply_bytes(w, ms[0].0, ms[0].1), ms.drop_first())
    }
}

/// `n`, or `u64::MAX` where it does not fit.
pub open spec fn saturated(n: nat) -> u64 {
    if n > u64::MAX {
        u64::MAX
    } else {
        n as u64
    }
}

/// Every component payload fits its one-byte length field.
pub open spec fn world_fits(w: WorldView) -> bool {
    &&& forall|i: int| 0 <= i < w.masters.len() ==> payloads_fit(#[trigger] w.masters[i].1)
    &&& forall|i: int| 0 <= i < w.slaves.len() ==> payloads_fit(#[trigger] w.slaves[i].1)
}

/// A deep copy of a component list.
pub fn clone_components(cs: &Vec<ComponentData>) -> (r: Vec<ComponentData>)
    ensures
        comps_view(r@) == comps_view(cs@),
{
    let mut r: Vec<ComponentData> = Vec::new();
    let mut i: usize = 0;
    while i < cs.len()
        invariant
            i <= cs@.len(),
            comps_view(r@) == comps_view(cs@.subrange(0, i as int)),
        decreases cs@.len() - i,
    {
        let c = &cs[i];
        let payload = crate::codec::copy_range(c.payload.as_slice(), 0, c.payload.len());
        assert(c.payload@.subrange(0, c.payload@.len() as int) =~= c.payload@);
        let ghost before = r@;
        r.push(ComponentData { id: c.id, payload });
        assert(comps_view(r@) =~= comps_view(before).push((c.id, c.payload@)));
        assert(comps_view(cs@.subrange(0, i + 1)) =~= comps_view(cs@.subrange(0, i as int)).push(
            cs@[i as int].view(),
        ));
        i = i + 1;
    }
    assert(cs@.subrange(0, cs@.len() as int) =~= cs@);
    r
}

/// Index of the first component of `cs` with stable id `id`, if any.
pub fn component_index(cs: &Vec<ComponentData>, id: u16) -> (r: Option<usize>)
    ensures
        match r {
            Some(k) => find_component(comps_view(cs@), id, 0) == k as int && k < cs@.len(),
            None => find_component(comps_view(cs@), id, 0) == -1,
        },
{
    let ghost v = comps_view(cs@);
    let mut i: usize = 0;
    while i < cs.len()
        invariant
            i <= cs@.len(),
            v == comps_view(cs@),
            find_component(v, id, 0) == find_component(v, id, i as int),
        decreases cs@.len() - i,
    {
        assert(v[i as int] == cs@[i as int].view());
        if cs[i].id == id {
            return Some(i);
        }
        i = i + 1;
    }
    None
}

/// Applies received components to a copy of `cs`, as `apply_updates` says.
pub fn apply_component_updates(cs: &Vec<ComponentData>, ups: &Vec<ComponentData>) -> (r: Option<
    Vec<ComponentData>,
>)
    ensures
        match r {
            Some(v) => apply_updates(comps_view(cs@), comps_view(ups@)) == Some(comps_view(v@)),
            None => apply_updates(comps_view(cs@), comps_view(ups@)) is None,
        },
{
    let ghost all = comps_view(ups@);
    let mut cur = clone_components(cs);
    let mut i: usize = 0;
    assert(all.skip(0) =~= all);
    while i < ups.len()
        invariant
            i <= ups@.len(),
            all == comps_view(ups@),
            apply_updates(comps_view(cs@), all) == apply_updates(comps_view(cur@), all.skip(i as int)),
        decreases ups@.len() - i,
    {
        let u = &ups[i];
        let ghost rest = all.skip(i as int);
        assert(rest[0] == u.view());
        assert(rest.drop_first() =~= all.skip(i + 1));
        match component_index(&cur, u.id) {
            None => {},
            Some(k) => {
                assert(comps_view(cur@)[k as int] == cur@[k as int].view());
                if cur[k].payload.len() != u.payload.len() {
                    return None;
                }
                let payload = crate::codec::copy_range(u.payload.as_slice(), 0, u.payload.len());
                assert(u.payload@.subrange(0, u.payload@.len() as int) =~= u.payload@);
                let ghost before = comps_view(cur@);
                cur.set(k, ComponentData { id: u.id, payload });
                assert(comps_view(cur@) =~= before.update(k as int, u.view()));
            },
        }
        i = i + 1;
    }
    assert(all.skip(i as int) =~= Seq::<(u16, Seq<u8>)>::empty());
    Some(cur)
}

/// Counts the received components whose id no component of `cs` has.
pub fn count_unmatched(cs: &Vec<ComponentData>, ups: &Vec<ComponentData>) -> (r: usize)
    ensures
        r == unmatched_in(comps_view(cs@), comps_view(ups@)),
        r <= ups@.len(),
{
    let ghost all = comps_view(ups@);
    let mut n: usize = 0;
    let mut i: usize = 0;
    while i < ups.len()
        invariant
            i <= ups@.len(),
            n <= i,
            all == comps_view(ups@),
            n == unmatched_in(comps_view(cs@), all.subrange(0, i as int)),
        decreases ups@.len() - i,
    {
        let ghost pre = all.subrange(0, i as int);
        let ghost post = all.subrange(0, i + 1);
        assert(post.drop_last() =~= pre);
        assert(post.last() == ups@[i as int].view());
        if component_index(cs, ups[i].id).is_none() {
            n = n + 1;
        }
        i = i + 1;
    }
    assert(all.subrange(0, ups@.len() as int) =~= all);
    n
}

/// Tuples read from a stream always fit the length byte, and there are no
/// more of them than the budget.
pub proof fn lemma_parse_fits(b: Seq<u8>, budget: nat)
    ensures
        parse_components(b, budget) matches Ok(cs) ==> payloads_fit(cs) && cs.len() <= budget,
    decreases b.len(),
{
    if b.len() >= 3 && b.len() >= 3 + b[2] as int && budget > 0 {
        let n = b[2] as int;
        lemma_parse_fits(b.subrange(3 + n, b.len() as int), (budget - 1) as nat);
        match parse_components(b, budget) {
            Ok(cs) => {
                let rest = parse_components(b.subrange(3 + n, b.len() as int), (budget - 1) as nat)->Ok_0;
                assert forall|k: int| 0 <= k < cs.len() implies (#[trigger] cs[k]).1.len() <= 255 by {
                    if k > 0 {
                        assert(cs[k] == rest[k - 1]);
                    }
                }
            },
            Err(_) => {},
        }
    }
}

/// Decoded entity messages carry components that fit.
pub proof fn lemma_decoded_fits(b: Seq<u8>)
    ensures
        decode_entity_spec(b) matches Ok(m) ==> match m {
            EntityMsg::Create(_, _, cs) => payloads_fit(cs),
            EntityMsg::Update(_, cs) => payloads_fit(cs) && cs.len() <= crate::codec::MAX_COMPONENTS_PER_ENTITY,
            EntityMsg::Delete(_) => true,
        },
{
    if b.len() >= 3 {
        lemma_parse_fits(b.subrange(3, b.len() as int), crate::codec::MAX_COMPONENTS_PER_ENTITY as nat);
    }
    if b.len() >= 5 {
        lemma_parse_fits(b.subrange(5, b.len() as int), crate::codec::MAX_COMPONENTS_PER_ENTITY as nat);
    }
}

/// Applying updates keeps every length as it was.
pub proof fn lemma_apply_updates_fits(cs: Comps, ups: Comps)
    requires
        payloads_fit(cs),
    ensures
        apply_updates(cs, ups) matches Some(c) ==> payloads_fit(c) && c.len() == cs.len(),
    decreases ups.len(),
{
    if ups.len() > 0 {
        match apply_one(cs, ups[0]) {
            None => {},
            Some(c2) => {
                let k = find_component(cs, ups[0].0, 0);
                lemma_find_component_range(cs, ups[0].0, 0);
                assert(payloads_fit(c2)) by {
                    assert forall|j: int| 0 <= j < c2.len() implies (#[trigger] c2[j]).1.len() <= 255 by {
                        assert(cs[j].1.len() <= 255);
                    }
                }
                lemma_apply_updates_fits(c2, ups.drop_first());
            },
        }
    }
}

pub proof fn lemma_find_component_range(cs: Comps, id: u16, i: int)
    ensures
        -1 <= find_component(cs, id, i) < cs.len(),
        find_component(cs, id, i) >= 0 ==> cs[find_component(cs, id, i)].0 == id
            && find_component(cs, id, i) >= i,
    decreases cs.len() - i,
{
    if 0 <= i < cs.len() && cs[i].0 != id {
        lemma_find_component_range(cs, id, i + 1);
    }
}

pub proof fn lemma_find_slave_range(s: Seq<SlaveView>, sid: u16, i: int)
    ensures
        -1 <= find_slave(s, sid, i) < s.len(),
        find_slave(s, sid, i) >= 0 ==> s[find_slave(s, sid, i)].0.static_id == sid
            && find_slave(s, sid, i) >= i,
    decreases s.len() - i,
{
    if 0 <= i < s.len() && s[i].0.static_id != sid {
        lemma_find_slave_range(s, sid, i + 1);
    }
}

/// Applying one message keeps every payload within its length byte.
pub proof fn lemma_apply_bytes_fits(w: WorldView, sender: u64, b: Seq<u8>)
    requires
        world_fits(w),
    ensures
        world_fits(apply_bytes(w, sender, b)),
{
    lemma_decoded_fits(b);
    match decode_entity_spec(b) {
        Ok(m) => {
            match m {
                EntityMsg::Update(sid, ups) => {
                    let k = find_slave(w.slaves, sid, 0);
                    lemma_find_slave_range(w.slaves, sid, 0);
                    if k >= 0 {
                        assert(payloads_fit(w.slaves[k].1));
                        lemma_apply_updates_fits(w.slaves[k].1, ups);
                    }
                    let w2 = apply_msg(w, sender, m);
                    assert forall|i: int| 0 <= i < w2.slaves.len() implies payloads_fit(
                        #[trigger] w2.slaves[i].1,
                    ) by {
                        if i != k {
                            assert(payloads_fit(w.slaves[i].1));
                        }
                    }
                },
                EntityMsg::Delete(sid) => {
                    let k = find_slave(w.slaves, sid, 0);
                    lemma_find_slave_range(w.slaves, sid, 0);
                    let w2 = apply_msg(w, sender, m);
                    assert forall|i: int| 0 <= i < w2.slaves.len() implies payloads_fit(
                        #[trigger] w2.slaves[i].1,
                    ) by {
                        assert(payloads_fit(w.slaves[i].1));
                    }
                },
                EntityMsg::Create(sid, info, cs) => {
                    let w2 = apply_msg(w, sender, m);
                    assert forall|i: int| 0 <= i < w2.slaves.len() implies payloads_fit(
                        #[trigger] w2.slaves[i].1,
                    ) by {
                        if i < w.slaves.len() {
                            assert(payloads_fit(w.slaves[i].1));
                        }
                    }
                },
            }
        },
        Err(_) => {},
    }
}

/// A buffered entity message and the peer it came from.
#[derive(Clone, Debug)]
pub struct SyncMessage {
    pub sender: u64,
    pub data: Vec<u8>,
}

impl SyncMessage {
    pub open spec fn view(&self) -> (u64, Seq<u8>) {
        (self.sender, self.data@)
    }
}

pub open spec fn messages_view(v: Seq<SyncMessage>) -> Seq<(u64, Seq<u8>)> {
    v.map_values(|m: SyncMessage| m.view())
}

impl ReplicaSet {
    pub open spec fn view(&self) -> WorldView {
        WorldView { masters: masters_view(self.masters@), slaves: slaves_view(self.slaves@) }
    }

    /// Every payload fits its one-byte length field.
    pub open spec fn wf(&self) -> bool {
        world_fits(self.view())
    }

    pub fn new() -> (r: ReplicaSet)
        ensures
            r.view().masters.len() == 0,
            r.view().slaves.len() == 0,
            r.wf(),
    {
        ReplicaSet { masters: Vec::new(), slaves: Vec::new() }
    }

    /// Index of the first slave with static id `sid`, if any.
    pub fn slave_index(&self, sid: u16) -> (r: Option<usize>)
        ensures
            match r {
                Some(k) => find_slave(self.view().slaves, sid, 0) == k as int && k < self.slaves@.len(),
                None => find_slave(self.view().slaves, sid, 0) == -1,
            },
    {
        let ghost v = self.view().slaves;
        let mut i: usize = 0;
        while i < self.slaves.len()
            invariant
                i <= self.slaves@.len(),
                v == self.view().slaves,
                find_slave(v, sid, 0) == find_slave(v, sid, i as int),
            decreases self.slaves@.len() - i,
        {
            assert(v[i as int] == self.slaves@[i as int].view());
            if self.slaves[i].slave.static_id == sid {
                return Some(i);
            }
            i = i + 1;
        }
        None
    }

    /// Index of the first master with static id `sid`, if any.
    pub fn master_index(&self, sid: u16) -> (r: Option<usize>)
        ensures
            match r {
                Some(k) => find_master(self.view().masters, sid, 0) == k as int && k < self.masters@.len(),
                None => find_master(self.view().masters, sid, 0) == -1,
            },
    {
        let ghost v = self.view().masters;
        let mut i: usize = 0;
        while i < self.masters.len()
            invariant
                i <= self.masters@.len(),
                v == self.view().masters,
                find_master(v, sid, 0) == find_master(v, sid, i as int),
            decreases self.masters@.len() - i,
        {
            assert(v[i as int] == self.masters@[i as int].view());
            if self.masters[i].master.static_id == sid {
                return Some(i);
            }
            i = i + 1;
        }
        None
    }

    /// Applies one buffered entity message from `sender`: an update overwrites
    /// the matching slave's components, a delete flags it, a create spawns a
    /// slave. Messages that do not decode, and ones for no live slave, change
    /// nothing.
    /// Returns how many of the message's components the slave does not have.
    pub fn apply_message(&mut self, sender: u64, data: &[u8]) -> (unmatched: usize)
        requires
            old(self).wf(),
        ensures
            final(self).view() == apply_bytes(old(self).view(), sender, data@),
            final(self).wf(),
            unmatched == unmatched_bytes(old(self).view(), data@),
            unmatched <= crate::codec::MAX_COMPONENTS_PER_ENTITY,
    {
        proof {
            lemma_apply_bytes_fits(self.view(), sender, data@);
            lemma_decoded_fits(data@);
        }
        let msg = match decode_entity_message(data) {
            Ok(m) => m,
            Err(_) => return 0,
        };
        match msg {
            EntityMessage::Update { static_id, components } => {
                match self.slave_index(static_id) {
                    None => 0,
                    Some(k) => {
                        assert(self.view().slaves[k as int] == self.slaves@[k as int].view());
                        let unmatched = count_unmatched(&self.slaves[k].components, &components);
                        match apply_component_updates(&self.slaves[k].components, &components) {
                            None => {},
                            Some(cs) => {
                                let ghost before = self.view();
                                let slave = self.slaves[k].slave;
                                self.slaves.set(k, SlaveEntity { slave, components: cs });
                                assert(self.view().slaves =~= before.slaves.update(
                                    k as int,
                                    (before.slaves[k as int].0, comps_view(cs@)),
                                ));
                                assert(self.view().masters =~= before.masters);
                            },
                        }
                        unmatched
                    },
                }
            },
            EntityMessage::Delete { static_id } => {
                match self.slave_index(static_id) {
                    None => 0,
                    Some(k) => {
                        let ghost before = self.view();
                        assert(before.slaves[k as int] == self.slaves@[k as int].view());
                        self.slaves[k].slave.info.pending_delete = true;
                        assert(self.view().slaves =~= before.slaves.update(
                            k as int,
                            (mark_deleted(before.slaves[k as int].0), before.slaves[k as int].1),
                        ));
                        assert(self.view().masters =~= before.masters);
                        0
                    },
                }
            },
            EntityMessage::Create { static_id, info, components } => {
                if self.slave_index(static_id).is_some() || self.master_index(static_id).is_some() {
                    return 0;
                }
                let ghost before = self.view();
                let slave = SynchronizedSlave {
                    info,
                    static_id,
                    destroy_on_owner_disconnect: true,
                    owner: sender,
                };
                self.slaves.push(SlaveEntity { slave, components });
                assert(self.view().slaves =~= before.slaves.push((slave, comps_view(components@))));
                assert(self.view().masters =~= before.masters);
                0
            },
        }
    }

    /// Applies the buffered messages in the order they arrived, and returns
    /// how many received components matched no component of their slave
    /// (saturating at `u64::MAX`).
    pub fn apply_sync_messages(&mut self, messages: &Vec<SyncMessage>) -> (unmatched: u64)
        requires
            old(self).wf(),
        ensures
            final(self).view() == apply_all(old(self).view(), messages_view(messages@)),
            final(self).wf(),
            unmatched == saturated(unmatched_all(old(self).view(), messages_view(messages@))),
    {
        let ghost all = messages_view(messages@);
        let ghost mut done: nat = 0;
        let mut total: u64 = 0;
        let mut i: usize = 0;
        assert(all.skip(0) =~= all);
        while i < messages.len()
            invariant
                i <= messages@.len(),
                all == messages_view(messages@),
                self.wf(),
                apply_all(old(self).view(), all) == apply_all(self.view(), all.skip(i as int)),
                unmatched_all(old(self).view(), all) == done + unmatched_all(self.view(), all.skip(i as int)),
                total == saturated(done),
            decreases messages@.len() - i,
        {
            let m = &messages[i];
            let ghost rest = all.skip(i as int);
            assert(rest[0] == m.view());
            assert(rest.drop_first() =~= all.skip(i + 1));
            let n = self.apply_message(m.sender, m.data.as_slice());
            proof {
                done = done + n as nat;
            }
            total = if total > u64::MAX - n as u64 {
                u64::MAX
            } else {
                total + n as u64
            };
            i = i + 1;
        }
        assert(all.skip(i as int) =~= Seq::<(u64, Seq<u8>)>::empty());
        total
    }
}

/// The masters not flagged for deletion, in order.
pub open spec fn live_masters(s: Seq<MasterView>) -> Seq<MasterView>
    decreases s.len(),
{
    if s.len() == 0 {
        s
    } else if s.last().0.info.pending_delete {
        live_masters(s.drop_last())
    } else {
        live_masters(s.drop_last()).push(s.last())
    }
}

/// The static ids of the masters flagged for deletion, in order.
pub open spec fn deleted_master_ids(s: Seq<MasterView>) -> Seq<u16>
    decreases s.len(),
{
    if s.len() == 0 {
        Seq::<u16>::empty()
    } else if s.last().0.info.pending_delete {
        deleted_master_ids(s.drop_last()).push(s.last().0.static_id)
    } else {
        deleted_master_ids(s.drop_last())
    }
}

/// The slaves not flagged for deletion, in order.
pub open spec fn live_slaves(s: Seq<SlaveView>) -> Seq<SlaveView>
    decreases s.len(),
{
    if s.len() == 0 {
        s
    } else if s.last().0.info.pending_delete {
        live_slaves(s.drop_last())
    } else {
        live_slaves(s.drop_last()).push(s.last())
    }
}

/// The static ids of the slaves flagged for deletion, in order.
pub open spec fn deleted_slave_ids(s: Seq<SlaveView>) -> Seq<u16>
    decreases s.len(),
{
    if s.len() == 0 {
        Seq::<u16>::empty()
    } else if s.last().0.info.pending_delete {
        deleted_slave_ids(s.drop_last()).push(s.last().0.static_id)
    } else {
        deleted_slave_ids(s.drop_last())
    }
}

/// What the collect step leaves.
pub open spec fn collect_spec(w: WorldView) -> WorldView {
    WorldView { masters: live_masters(w.masters), slaves: live_slaves(w.slaves) }
}

impl ReplicaSet {
    /// Despawns every master and slave flagged for deletion and returns
    /// their static ids, masters first.
    pub fn collect(&mut self) -> (despawned: Vec<u16>)
        requires
            old(self).wf(),
        ensures
            final(self).view() == collect_spec(old(self).view()),
            despawned@ == deleted_master_ids(old(self).view().masters) + deleted_slave_ids(
                old(self).view().slaves,
            ),
            final(self).wf(),
    {
        let ghost w = self.view();
        let mut despawned: Vec<u16> = Vec::new();
        let mut masters: Vec<MasterEntity> = Vec::new();
        let mut i: usize = 0;
        while i < self.masters.len()
            invariant
                i <= self.masters@.len(),
                w == self.view(),
                world_fits(w),
                masters_view(masters@) == live_masters(w.masters.subrange(0, i as int)),
                despawned@ == deleted_master_ids(w.masters.subrange(0, i as int)),
                forall|j: int| 0 <= j < masters@.len() ==> payloads_fit(#[trigger] masters@[j].view().1),
            decreases self.masters@.len() - i,
        {
            let m = &self.masters[i];
            let ghost pre = w.masters.subrange(0, i as int);
            let ghost post = w.masters.subrange(0, i + 1);
            assert(post.drop_last() =~= pre);
            assert(post.last() == m.view());
            assert(payloads_fit(w.masters[i as int].1));
            if m.master.info.pending_delete {
                despawned.push(m.master.static_id);
            } else {
                let ghost before = masters_view(masters@);
                let components = clone_components(&m.components);
                masters.push(MasterEntity { master: m.master, components });
                assert(masters_view(masters@) =~= before.push(m.view()));
            }
            i = i + 1;
        }
        assert(w.masters.subrange(0, self.masters@.len() as int) =~= w.masters);
        let ghost master_ids = despawned@;
        let mut slaves: Vec<SlaveEntity> = Vec::new();
        let mut i: usize = 0;
        while i < self.slaves.len()
            invariant
                i <= self.slaves@.len(),
                w == self.view(),
                world_fits(w),
                slaves_view(slaves@) == live_slaves(w.slaves.subrange(0, i as int)),
                despawned@ == master_ids + deleted_slave_ids(w.slaves.subrange(0, i as int)),
                forall|j: int| 0 <= j < slaves@.len() ==> payloads_fit(#[trigger] slaves@[j].view().1),
            decreases self.slaves@.len() - i,
        {
            let m = &self.slaves[i];
            let ghost pre = w.slaves.subrange(0, i as int);
            let ghost post = w.slaves.subrange(0, i + 1);
            assert(post.drop_last() =~= pre);
            assert(post.last() == m.view());
            assert(payloads_fit(w.slaves[i as int].1));
            if m.slave.info.pending_delete {
                despawned.push(m.slave.static_id);
                assert(despawned@ =~= master_ids + deleted_slave_ids(post));
            } else {
                let ghost before = slaves_view(slaves@);
                let components = clone_components(&m.components);
                slaves.push(SlaveEntity { slave: m.slave, components });
                assert(slaves_view(slaves@) =~= before.push(m.view()));
            }
            i = i + 1;
        }
        assert(w.slaves.subrange(0, self.slaves@.len() as int) =~= w.slaves);
        self.masters = masters;
        self.slaves = slaves;
        assert forall|j: int| 0 <= j < self.view().masters.len() implies payloads_fit(
            #[trigger] self.view().masters[j].1,
        ) by {
            assert(self.view().masters[j] == self.masters@[j].view());
        }
        assert forall|j: int| 0 <= j < self.view().slaves.len() implies payloads_fit(
            #[trigger] self.view().slaves[j].1,
        ) by {
            assert(self.view().slaves[j] == self.slaves@[j].view());
        }
        despawned
    }
}

impl ReplicaSet {
    /// Flags for deletion every slave owned by `owner` that is marked to go
    /// with its owner.
    pub fn mark_owner_left(&mut self, owner: u64)
        requires
            old(self).wf(),
        ensures
            final(self).view() == owner_left(old(self).view(), owner),
            final(self).wf(),
    {
        let ghost w = self.view();
        let mut i: usize = 0;
        while i < self.slaves.len()
            invariant
                i <= self.slaves@.len(),
                self.slaves@.len() == w.slaves.len(),
                self.view().masters == w.masters,
                forall|j: int| 0 <= j < i ==> (#[trigger] self.view().slaves[j]) == after_owner_left(w.slaves[j], owner),
                forall|j: int| i <= j < w.slaves.len() ==> (#[trigger] self.view().slaves[j]) == w.slaves[j],
            decreases w.slaves.len() - i,
        {
            let ghost before = self.view();
            let ghost prev = self.slaves@;
            assert(before.slaves[i as int] == self.slaves@[i as int].view());
            if self.slaves[i].slave.owner == owner && self.slaves[i].slave.destroy_on_owner_disconnect {
                self.slaves[i].slave.info.pending_delete = true;
            }
            assert(self.view().masters =~= before.masters);
            assert forall|j: int| 0 <= j < self.slaves@.len() && j != i implies (#[trigger] self.view().slaves[j]) == before.slaves[j] by {
                assert(self.slaves@[j] == prev[j]);
                assert(before.slaves[j] == prev[j].view());
            }
            assert(self.view().slaves[i as int] == after_owner_left(w.slaves[i as int], owner));
            i = i + 1;
        }
        assert(self.view().slaves =~= owner_left(w, owner).slaves);
        assert forall|j: int| 0 <= j < self.view().slaves.len() implies payloads_fit(
            #[trigger] self.view().slaves[j].1,
        ) by {
            assert(payloads_fit(w.slaves[j].1));
        }
    }

    /// Flags the slaves of every peer of `owners` that are to go with their
    /// owner.
    pub fn mark_owners_left(&mut self, owners: &Vec<u64>)
        requires
            old(self).wf(),
        ensures
            final(self).view() == owners_left(old(self).view(), owners@),
            final(self).wf(),
    {
        let mut i: usize = 0;
        assert(owners@.skip(0) =~= owners@);
        while i < owners.len()
            invariant
                i <= owners@.len(),
                self.wf(),
                owners_left(old(self).view(), owners@) == owners_left(self.view(), owners@.skip(i as int)),
            decreases owners@.len() - i,
        {
            assert(owners@.skip(i as int)[0] == owners@[i as int]);
            assert(owners@.skip(i as int).drop_first() =~= owners@.skip(i + 1));
            self.mark_owner_left(owners[i]);
            i = i + 1;
        }
        assert(owners@.skip(i as int) =~= Seq::<u64>::empty());
    }
}

} // verus!
