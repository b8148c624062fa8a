//! The session-wide replication state: peer roster, event queues, buffered
//! entity messages, and the flush, ingest and broadcast steps of a tick.
use vstd::prelude::*;
use crate::codec::{
    create_frame, decode_event_spec, encode_create, encode_delete, encode_update, event_frame,
    comps_view, delete_frame, payloads_fit, update_frame, ComponentData, DecodeError, EventType,
    NetworkingEvent, ReplicationInfo,
};
use crate::replication::{
    apply_all, collect_spec, owners_left, saturated, unmatched_all, WorldView, deleted_master_ids, deleted_slave_ids, messages_view, MasterEntity,
    MasterView, ReplicaSet, SyncMessage, SynchronizedMaster,
};

verus! {

/// Delivery channel of an outgoing packet.
#[derive(Clone, Copy, Debug, PartialEq, Eq, Structural)]
pub enum SendMode {
    /// Ordered and retransmitted.
    Reliable,
    /// Best effort; may be dropped or reordered.
    Unreliable,
}

/// A packet for the transport to send to one peer.
#[derive(Clone, Debug)]
pub struct OutgoingPacket {
    pub peer: u64,
    pub mode: SendMode,
    pub data: Vec<u8>,
}

/// A packet the transport received from one peer.
#[derive(Clone, Debug)]
pub struct IncomingPacket {
    pub sender: u64,
    pub data: Vec<u8>,
}

impl OutgoingPacket {
    pub open spec fn view(&self) -> (u64, SendMode, Seq<u8>) {
        (self.peer, self.mode, self.data@)
    }
}

impl IncomingPacket {
    pub open spec fn view(&self) -> (u64, Seq<u8>) {
        (self.sender, self.data@)
    }
}

pub open spec fn outgoing_view(v: Seq<OutgoingPacket>) -> Seq<(u64, SendMode, Seq<u8>)> {
    v.map_values(|p: OutgoingPacket| p.view())
}

pub open spec fn incoming_view(v: Seq<IncomingPacket>) -> Seq<(u64, Seq<u8>)> {
    v.map_values(|p: IncomingPacket| p.view())
}

pub open spec fn events_view(v: Seq<NetworkingEvent>) -> Seq<(EventType, Seq<u8>)> {
    v.map_values(|e: NetworkingEvent| (e.event_type, e.data@))
}

/// One packet of `bytes` for every peer of `peers` but `me`, in roster order.
pub open spec fn fanout(peers: Seq<u64>, me: u64, mode: SendMode, bytes: Seq<u8>) -> Seq<
    (u64, SendMode, Seq<u8>),
>
    decreases peers.len(),
{
    if peers.len() == 0 {
        Seq::<(u64, SendMode, Seq<u8>)>::empty()
    } else if peers.last() == me {
        fanout(peers.drop_last(), me, mode, bytes)
    } else {
        fanout(peers.drop_last(), me, mode, bytes).push((peers.last(), mode, bytes))
    }
}

/// Packet that carries a generic event: the `Event` tag, then its frame.
pub open spec fn event_packet(t: EventType, payload: Seq<u8>) -> Seq<u8> {
    seq![EventType::Event.code()] + event_frame(t, payload)
}

/// What the flush step sends for the queued events, in queue order.
pub open spec fn flush_spec(es: Seq<(EventType, Seq<u8>)>, peers: Seq<u64>, me: u64) -> Seq<
    (u64, SendMode, Seq<u8>),
>
    decreases es.len(),
{
    if es.len() == 0 {
        Seq::<(u64, SendMode, Seq<u8>)>::empty()
    } else {
        flush_spec(es.drop_last(), peers, me) + fanout(
            peers,
            me,
            SendMode::Reliable,
            event_packet(es.last().0, es.last().1),
        )
    }
}

/// What the broadcast step sends: a full update of every master flagged for
/// periodic sync, in order.
pub open spec fn broadcast_spec(ms: Seq<MasterView>, peers: Seq<u64>, me: u64) -> Seq<
    (u64, SendMode, Seq<u8>),
>
    decreases ms.len(),
{
    if ms.len() == 0 {
        Seq::<(u64, SendMode, Seq<u8>)>::empty()
    } else if ms.last().0.info.periodic_sync {
        broadcast_spec(ms.drop_last(), peers, me) + fanout(
            peers,
            me,
            SendMode::Unreliable,
            update_frame(ms.last().0.static_id, ms.last().1),
        )
    } else {
        broadcast_spec(ms.drop_last(), peers, me)
    }
}

/// Recognised configuration of a replication session.
#[derive(Clone, Copy, Debug, PartialEq, Eq, Structural)]
pub struct NetworkingPlugin {
    pub max_players: u16,
    pub max_synced_objects: u32,
    pub app_id: u32,
    pub packet_per_frame_limit: u32,
}

impl Default for NetworkingPlugin {
    fn default() -> (r: NetworkingPlugin)
        ensures
            r.max_players == 32,
            r.max_synced_objects == 1024,
            r.app_id == 480,
            r.packet_per_frame_limit == 64,
    {
        NetworkingPlugin {
            max_players: 32,
            max_synced_objects: 1024,
            app_id: 480,
            packet_per_frame_limit: 64,
        }
    }
}

/// Session-wide replication state.
#[derive(Debug)]
pub struct NetworkingState {
    pub max_players: u16,
    pub max_synced_objects: u32,
    pub packet_per_frame_limit: u32,
    pub connected: bool,
    pub player_id: u64,
    pub active_players: Vec<u64>,
    /// Update and delete messages received this tick, applied by the next
    /// apply step.
    pub sync_messages: Vec<SyncMessage>,
    /// Create messages received this tick; the next apply step spawns their
    /// slaves.
    pub pending_creates: Vec<SyncMessage>,
    /// Peers that left this tick; the next apply step flags the slaves that
    /// are to go with them.
    pub departed: Vec<u64>,
    /// Packets that could not be routed, with their sender, oldest first.
    pub protocol_errors: Vec<ProtocolError>,
    pub event_queue_out: Vec<NetworkingEvent>,
    /// One inbound queue per event type, indexed by its code.
    pub event_queue_in: Vec<Vec<NetworkingEvent>>,
    /// Received components that matched no component of their slave, over
    /// the session (saturating). A growing count means the peers disagree on
    /// an entity's component set.
    pub unmatched_components: u64,
}

impl NetworkingState {
    pub open spec fn wf(&self) -> bool {
        &&& self.event_queue_in@.len() == 6
        &&& forall|i: int| 0 <= i < self.event_queue_out@.len() ==> (#[trigger] self.event_queue_out@[i]).wf()
    }

    pub open spec fn queue_in_view(&self) -> Seq<Seq<(EventType, Seq<u8>)>> {
        self.event_queue_in@.map_values(|q: Vec<NetworkingEvent>| events_view(q@))
    }

    pub fn new(max_players: u16, max_synced_objects: u32, packet_per_frame_limit: u32, player_id: u64) -> (r: NetworkingState)
        ensures
            r.wf(),
            r.max_players == max_players,
            r.max_synced_objects == max_synced_objects,
            r.packet_per_frame_limit == packet_per_frame_limit,
            r.player_id == player_id,
            !r.connected,
            r.active_players@.len() == 0,
            r.sync_messages@.len() == 0,
            r.pending_creates@.len() == 0,
            r.departed@.len() == 0,
            r.protocol_errors@.len() == 0,
            r.event_queue_out@.len() == 0,
            r.unmatched_components == 0,
            forall|i: int| 0 <= i < 6 ==> (#[trigger] r.queue_in_view()[i]).len() == 0,
    {
        let mut event_queue_in: Vec<Vec<NetworkingEvent>> = Vec::new();
        let n = EventType::num_variants();
        let mut i: u8 = 0;
        while i < n
            invariant
                n == 6,
                i <= n,
                event_queue_in@.len() == i,
                forall|j: int| 0 <= j < i ==> (#[trigger] event_queue_in@[j])@.len() == 0,
            decreases n - i,
        {
            event_queue_in.push(Vec::new());
            i = i + 1;
        }
        let r = NetworkingState {
            max_players,
            max_synced_objects,
            packet_per_frame_limit,
            connected: false,
            player_id,
            active_players: Vec::new(),
            sync_messages: Vec::new(),
            pending_creates: Vec::new(),
            departed: Vec::new(),
            protocol_errors: Vec::new(),
            event_queue_out: Vec::new(),
            event_queue_in,
            unmatched_components: 0,
        };
        assert forall|i: int| 0 <= i < 6 implies (#[trigger] r.queue_in_view()[i]).len() == 0 by {
            assert(r.queue_in_view()[i] == events_view(r.event_queue_in@[i]@));
        }
        r
    }

    /// Queues an event for the next flush.
    pub fn queue_event_out(&mut self, event: NetworkingEvent)
        requires
            old(self).wf(),
            event.wf(),
        ensures
            final(self).wf(),
            final(self).event_queue_out@ == old(self).event_queue_out@.push(event),
            final(self).event_queue_in@ == old(self).event_queue_in@,
            final(self).sync_messages@ == old(self).sync_messages@,
            final(self).pending_creates@ == old(self).pending_creates@,
            final(self).departed@ == old(self).departed@,
            final(self).protocol_errors@ == old(self).protocol_errors@,
            final(self).active_players@ == old(self).active_players@,
            final(self).connected == old(self).connected,
            final(self).player_id == old(self).player_id,
            final(self).packet_per_frame_limit == old(self).packet_per_frame_limit,
            final(self).max_players == old(self).max_players,
            final(self).max_synced_objects == old(self).max_synced_objects,
            final(self).unmatched_components == old(self).unmatched_components,
    {
        self.event_queue_out.push(event);
        assert(forall|i: int| 0 <= i < self.event_queue_out@.len() ==> (#[trigger] self.event_queue_out@[i]).wf() ) by {
            assert forall|i: int| 0 <= i < self.event_queue_out@.len() implies (#[trigger] self.event_queue_out@[i]).wf() by {
                if i < old(self).event_queue_out@.len() {
                    assert(old(self).event_queue_out@[i].wf());
                }
            }
        }
    }

    /// Empties the inbound queue of one event type and returns what it held.
    pub fn get_event_in(&mut self, event_type: u8) -> (r: Vec<NetworkingEvent>)
        requires
            old(self).wf(),
            event_type < 6,
        ensures
            final(self).wf(),
            r@ == old(self).event_queue_in@[event_type as int]@,
            final(self).event_queue_in@ == old(self).event_queue_in@.update(
                event_type as int,
                final(self).event_queue_in@[event_type as int],
            ),
            final(self).event_queue_in@[event_type as int]@.len() == 0,
            final(self).event_queue_out@ == old(self).event_queue_out@,
            final(self).sync_messages@ == old(self).sync_messages@,
            final(self).pending_creates@ == old(self).pending_creates@,
            final(self).departed@ == old(self).departed@,
            final(self).protocol_errors@ == old(self).protocol_errors@,
            final(self).active_players@ == old(self).active_players@,
            final(self).connected == old(self).connected,
            final(self).player_id == old(self).player_id,
            final(self).packet_per_frame_limit == old(self).packet_per_frame_limit,
            final(self).max_players == old(self).max_players,
            final(self).max_synced_objects == old(self).max_synced_objects,
            final(self).unmatched_components == old(self).unmatched_components,
    {
        let mut taken: Vec<NetworkingEvent> = Vec::new();
        self.event_queue_in.set_and_swap(event_type as usize, &mut taken);
        taken
    }
}

impl NetworkingState {
    /// Appends one packet of `bytes` for every known peer but this one.
    pub fn push_fanout(&self, mode: SendMode, bytes: &[u8], out: &mut Vec<OutgoingPacket>)
        ensures
            outgoing_view(final(out)@) == outgoing_view(old(out)@) + fanout(
                self.active_players@,
                self.player_id,
                mode,
                bytes@,
            ),
    {
        let ghost peers = self.active_players@;
        let ghost start = outgoing_view(out@);
        let mut i: usize = 0;
        while i < self.active_players.len()
            invariant
                i <= peers.len(),
                peers == self.active_players@,
                outgoing_view(out@) == start + fanout(peers.subrange(0, i as int), self.player_id, mode, bytes@),
            decreases peers.len() - i,
        {
            let peer = self.active_players[i];
            let ghost pre = peers.subrange(0, i as int);
            let ghost post = peers.subrange(0, i + 1);
            assert(post.drop_last() =~= pre);
            assert(post.last() == peer);
            if peer != self.player_id {
                let ghost before = outgoing_view(out@);
                let data = crate::codec::copy_range(bytes, 0, bytes.len());
                assert(bytes@.subrange(0, bytes@.len() as int) =~= bytes@);
                out.push(OutgoingPacket { peer, mode, data });
                assert(outgoing_view(out@) =~= before.push((peer, mode, bytes@)));
                assert(start + fanout(pre, self.player_id, mode, bytes@).push((peer, mode, bytes@))
                    =~= (start + fanout(pre, self.player_id, mode, bytes@)).push((peer, mode, bytes@)));
            }
            i = i + 1;
        }
        assert(peers.subrange(0, peers.len() as int) =~= peers);
    }

    /// Packets that send `bytes` to every other peer over the reliable channel.
    pub fn send_all_reliable(&self, bytes: Vec<u8>) -> (r: Vec<OutgoingPacket>)
        ensures
            outgoing_view(r@) == fanout(self.active_players@, self.player_id, SendMode::Reliable, bytes@),
    {
        let mut out: Vec<OutgoingPacket> = Vec::new();
        self.push_fanout(SendMode::Reliable, bytes.as_slice(), &mut out);
        assert(outgoing_view(Seq::<OutgoingPacket>::empty()) =~= Seq::<(u64, SendMode, Seq<u8>)>::empty());
        assert(Seq::<(u64, SendMode, Seq<u8>)>::empty() + fanout(self.active_players@, self.player_id, SendMode::Reliable, bytes@)
            =~= fanout(self.active_players@, self.player_id, SendMode::Reliable, bytes@));
        out
    }

    /// Packets that send `bytes` to every other peer over the best-effort channel.
    pub fn send_all_unreliable(&self, bytes: Vec<u8>) -> (r: Vec<OutgoingPacket>)
        ensures
            outgoing_view(r@) == fanout(self.active_players@, self.player_id, SendMode::Unreliable, bytes@),
    {
        let mut out: Vec<OutgoingPacket> = Vec::new();
        self.push_fanout(SendMode::Unreliable, bytes.as_slice(), &mut out);
        assert(outgoing_view(Seq::<OutgoingPacket>::empty()) =~= Seq::<(u64, SendMode, Seq<u8>)>::empty());
        assert(Seq::<(u64, SendMode, Seq<u8>)>::empty() + fanout(self.active_players@, self.player_id, SendMode::Unreliable, bytes@)
            =~= fanout(self.active_players@, self.player_id, SendMode::Unreliable, bytes@));
        out
    }

    /// Flush step: empties the outbound queue and sends each event reliably,
    /// in queue order. Nothing happens while disconnected.
    pub fn flush(&mut self) -> (r: Vec<OutgoingPacket>)
        requires
            old(self).wf(),
        ensures
            final(self).wf(),
            old(self).connected ==> outgoing_view(r@) == flush_spec(
                events_view(old(self).event_queue_out@),
                old(self).active_players@,
                old(self).player_id,
            ) && final(self).event_queue_out@.len() == 0,
            !old(self).connected ==> r@.len() == 0 && final(self).event_queue_out@
                == old(self).event_queue_out@,
            final(self).event_queue_in@ == old(self).event_queue_in@,
            final(self).sync_messages@ == old(self).sync_messages@,
            final(self).pending_creates@ == old(self).pending_creates@,
            final(self).departed@ == old(self).departed@,
            final(self).protocol_errors@ == old(self).protocol_errors@,
            final(self).active_players@ == old(self).active_players@,
            final(self).connected == old(self).connected,
            final(self).player_id == old(self).player_id,
            final(self).packet_per_frame_limit == old(self).packet_per_frame_limit,
            final(self).max_players == old(self).max_players,
            final(self).max_synced_objects == old(self).max_synced_objects,
            final(self).unmatched_components == old(self).unmatched_components,
    {
        let mut out: Vec<OutgoingPacket> = Vec::new();
        if !self.connected {
            return out;
        }
        let ghost es = events_view(self.event_queue_out@);
        let mut i: usize = 0;
        while i < self.event_queue_out.len()
            invariant
                i <= self.event_queue_out@.len(),
                self.wf(),
                es == events_view(self.event_queue_out@),
                outgoing_view(out@) == flush_spec(es.subrange(0, i as int), self.active_players@, self.player_id),
            decreases self.event_queue_out@.len() - i,
        {
            let e = &self.event_queue_out[i];
            assert(e.wf());
            let ghost pre = es.subrange(0, i as int);
            let ghost post = es.subrange(0, i + 1);
            assert(post.drop_last() =~= pre);
            assert(post.last() == (e.event_type, e.data@));
            let mut bytes: Vec<u8> = Vec::new();
            bytes.push(EventType::Event.to_u8());
            let frame = e.to_bytes();
            crate::codec::append_bytes(&mut bytes, frame.as_slice());
            assert(bytes@ =~= event_packet(e.event_type, e.data@));
            self.push_fanout(SendMode::Reliable, bytes.as_slice(), &mut out);
            i = i + 1;
        }
        assert(es.subrange(0, es.len() as int) =~= es);
        self.event_queue_out = Vec::new();
        out
    }

    /// Broadcast step: a full update of every master flagged for periodic
    /// sync, sent best-effort to every other peer. Nothing while disconnected.
    pub fn sync_master_entities(&self, world: &ReplicaSet) -> (r: Vec<OutgoingPacket>)
        requires
            world.wf(),
        ensures
            self.connected ==> outgoing_view(r@) == broadcast_spec(
                world.view().masters,
                self.active_players@,
                self.player_id,
            ),
            !self.connected ==> r@.len() == 0,
    {
        let mut out: Vec<OutgoingPacket> = Vec::new();
        if !self.connected {
            return out;
        }
        let ghost ms = world.view().masters;
        let mut i: usize = 0;
        while i < world.masters.len()
            invariant
                i <= world.masters@.len(),
                world.wf(),
                ms == world.view().masters,
                outgoing_view(out@) == broadcast_spec(ms.subrange(0, i as int), self.active_players@, self.player_id),
            decreases world.masters@.len() - i,
        {
            let m = &world.masters[i];
            let ghost pre = ms.subrange(0, i as int);
            let ghost post = ms.subrange(0, i + 1);
            assert(post.drop_last() =~= pre);
            assert(post.last() == m.view());
            assert(ms[i as int] == m.view());
            if m.master.info.periodic_sync {
                assert(payloads_fit(ms[i as int].1));
                let bytes = encode_update(m.master.static_id, &m.components);
                self.push_fanout(SendMode::Unreliable, bytes.as_slice(), &mut out);
            }
            i = i + 1;
        }
        assert(ms.subrange(0, ms.len() as int) =~= ms);
        out
    }

    /// Makes a new master of the given components, and announces it to every
    /// other peer with a reliable create message. The caller mints
    /// `static_id`.
    pub fn create_networked_entity(
        &self,
        world: &mut ReplicaSet,
        components: Vec<ComponentData>,
        sync_periodically: bool,
        static_id: u16,
    ) -> (r: Vec<OutgoingPacket>)
        requires
            old(world).wf(),
            components@.len() <= 255,
            payloads_fit(comps_view(components@)),
        ensures
            final(world).wf(),
            final(world).view().slaves == old(world).view().slaves,
            final(world).view().masters == old(world).view().masters.push(
                (
                    SynchronizedMaster {
                        info: ReplicationInfo { pending_delete: false, periodic_sync: sync_periodically },
                        static_id,
                    },
                    comps_view(components@),
                ),
            ),
            outgoing_view(r@) == fanout(
                self.active_players@,
                self.player_id,
                SendMode::Reliable,
                create_frame(
                    static_id,
                    ReplicationInfo { pending_delete: false, periodic_sync: sync_periodically },
                    comps_view(components@),
                ),
            ),
    {
        let info = ReplicationInfo { pending_delete: false, periodic_sync: sync_periodically };
        let bytes = encode_create(static_id, info, &components);
        let ghost before = world.view();
        let master = SynchronizedMaster { info, static_id };
        let ghost cv = comps_view(components@);
        world.masters.push(MasterEntity { master, components });
        assert(world.view().masters =~= before.masters.push((master, cv)));
        assert(world.view().slaves =~= before.slaves);
        assert forall|i: int| 0 <= i < world.view().masters.len() implies payloads_fit(
            #[trigger] world.view().masters[i].1,
        ) by {
            if i < before.masters.len() {
                assert(payloads_fit(before.masters[i].1));
            }
        }
        self.send_all_reliable(bytes)
    }
}

impl SynchronizedMaster {
    /// Flags the master for deletion and returns the reliable delete message
    /// for every other peer.
    pub fn destroy(&mut self, networking: &NetworkingState) -> (r: Vec<OutgoingPacket>)
        ensures
            *final(self) == (SynchronizedMaster {
                info: ReplicationInfo { pending_delete: true, ..old(self).info },
                ..*old(self)
            }),
            outgoing_view(r@) == fanout(
                networking.active_players@,
                networking.player_id,
                SendMode::Reliable,
                delete_frame(old(self).static_id),
            ),
    {
        self.info.pending_delete = true;
        let bytes = encode_delete(self.static_id);
        networking.send_all_reliable(bytes)
    }
}

/// A packet that could not be routed, and the peer that sent it.
#[derive(Clone, Copy, Debug, PartialEq, Eq, Structural)]
pub struct ProtocolError {
    pub peer: u64,
    pub error: DecodeError,
}

pub open spec fn errors_view(v: Seq<ProtocolError>) -> Seq<(u64, DecodeError)> {
    v.map_values(|e: ProtocolError| (e.peer, e.error))
}

/// The parts of the state that ingesting packets changes.
pub struct Inbound {
    pub peers: Seq<u64>,
    pub sync: Seq<(u64, Seq<u8>)>,
    pub creates: Seq<(u64, Seq<u8>)>,
    pub departed: Seq<u64>,
    pub queues: Seq<Seq<(EventType, Seq<u8>)>>,
    pub errors: Seq<(u64, DecodeError)>,
}

/// The roster with `p` added, unless it is there already.
pub open spec fn add_peer(peers: Seq<u64>, p: u64) -> Seq<u64> {
    if peers.contains(p) {
        peers
    } else {
        peers.push(p)
    }
}

/// The roster without `p`.
pub open spec fn remove_peer(peers: Seq<u64>, p: u64) -> Seq<u64>
    decreases peers.len(),
{
    if peers.len() == 0 {
        peers
    } else if peers.last() == p {
        remove_peer(peers.drop_last(), p)
    } else {
        remove_peer(peers.drop_last(), p).push(peers.last())
    }
}

/// What routing the packet `b` from `sender` reports: its tag, or why it
/// was dropped.
pub open spec fn route_result(b: Seq<u8>) -> Result<EventType, DecodeError> {
    if b.len() == 0 {
        Err(DecodeError::Truncated)
    } else {
        match EventType::from_code(b[0]) {
            None => Err(DecodeError::UnknownEventType(b[0])),
            Some(t) => if t == EventType::Event {
                match decode_event_spec(b.subrange(1, b.len() as int)) {
                    Ok(_) => Ok(t),
                    Err(e) => Err(e),
                }
            } else {
                Ok(t)
            },
        }
    }
}

/// Effect of routing one well-formed packet: updates and deletes go to the
/// entity-message buffer, creates to their own buffer, joins and leaves
/// update the roster (a leaver is also recorded for the apply step), generic
/// events go to the queue of their type.
pub open spec fn route_core(v: Inbound, sender: u64, b: Seq<u8>) -> Inbound {
    if b.len() == 0 {
        v
    } else {
        match EventType::from_code(b[0]) {
            None => v,
            Some(t) => match t {
                EventType::EntityUpdate | EventType::EntityDelete => Inbound {
                    sync: v.sync.push((sender, b)),
                    ..v
                },
                EventType::EntityCreate => Inbound { creates: v.creates.push((sender, b)), ..v },
                EventType::PlayerJoin => Inbound { peers: add_peer(v.peers, sender), ..v },
                EventType::PlayerLeave => Inbound {
                    peers: remove_peer(v.peers, sender),
                    departed: v.departed.push(sender),
                    ..v
                },
                EventType::Event => match decode_event_spec(b.subrange(1, b.len() as int)) {
                    Ok(e) => Inbound {
                        queues: v.queues.update(
                            e.0.code() as int,
                            v.queues[e.0.code() as int].push(e),
                        ),
                        ..v
                    },
                    Err(_) => v,
                },
            },
        }
    }
}

/// Effect of routing one packet: as `route_core` says, and a packet that
/// cannot be routed is recorded with its sender and the reason.
pub open spec fn route_spec(v: Inbound, sender: u64, b: Seq<u8>) -> Inbound {
    match route_result(b) {
        Ok(_) => route_core(v, sender, b),
        Err(e) => Inbound { errors: v.errors.push((sender, e)), ..v },
    }
}

/// What the apply step does to the replica set: spawn the created slaves,
/// apply the updates and deletes, then flag the slaves of departed peers.
pub open spec fn apply_step(
    w: WorldView,
    creates: Seq<(u64, Seq<u8>)>,
    sync: Seq<(u64, Seq<u8>)>,
    departed: Seq<u64>,
) -> WorldView {
    owners_left(apply_all(apply_all(w, creates), sync), departed)
}

/// Effect of routing the packets in order.
pub open spec fn route_all(v: Inbound, ps: Seq<(u64, Seq<u8>)>) -> Inbound
    decreases ps.len(),
{
    if ps.len() == 0 {
        v
    } else {
        route_all(route_spec(v, ps[0].0, ps[0].1), ps.drop_first())
    }
}

/// Number of packets one ingest step takes from a transport holding `m`.
pub open spec fn ingest_count(limit: u32, m: nat) -> nat {
    if m < limit {
        m
    } else {
        limit as nat
    }
}

impl NetworkingState {
    pub open spec fn inbound(&self) -> Inbound {
        Inbound {
            peers: self.active_players@,
            sync: messages_view(self.sync_messages@),
            creates: messages_view(self.pending_creates@),
            departed: self.departed@,
            queues: self.queue_in_view(),
            errors: errors_view(self.protocol_errors@),
        }
    }

    /// The fields that ingesting leaves alone.
    pub open spec fn same_config(&self, o: &NetworkingState) -> bool {
        &&& self.max_players == o.max_players
        &&& self.max_synced_objects == o.max_synced_objects
        &&& self.packet_per_frame_limit == o.packet_per_frame_limit
        &&& self.connected == o.connected
        &&& self.player_id == o.player_id
        &&& self.event_queue_out@ == o.event_queue_out@
        &&& self.unmatched_components == o.unmatched_components
    }

    /// Routes one received packet; see `route_spec`. A malformed packet is
    /// reported, recorded with its sender and dropped.
    pub fn route_packet(&mut self, sender: u64, b: &[u8]) -> (r: Result<EventType, DecodeError>)
        requires
            old(self).wf(),
        ensures
            final(self).wf(),
            final(self).same_config(old(self)),
            final(self).inbound() == route_spec(old(self).inbound(), sender, b@),
            r == route_result(b@),
    {
        let r = self.route_core(sender, b);
        match r {
            Ok(_) => {},
            Err(error) => {
                self.protocol_errors.push(ProtocolError { peer: sender, error });
                assert(self.inbound().errors =~= errors_view(old(self).protocol_errors@).push(
                    (sender, error),
                ));
            },
        }
        r
    }

    fn route_core(&mut self, sender: u64, b: &[u8]) -> (r: Result<EventType, DecodeError>)
        requires
            old(self).wf(),
        ensures
            final(self).wf(),
            final(self).same_config(old(self)),
            final(self).protocol_errors@ == old(self).protocol_errors@,
            r is Ok ==> final(self).inbound() == route_core(old(self).inbound(), sender, b@),
            r is Err ==> final(self).inbound() == old(self).inbound(),
            r == route_result(b@),
    {
        let ghost v = self.inbound();
        if b.len() == 0 {
            return Err(DecodeError::Truncated);
        }
        let t = match EventType::from_u8(b[0]) {
            Ok(t) => t,
            Err(e) => return Err(e),
        };
        match t {
            EventType::EntityCreate => {
                let data = crate::codec::copy_range(b, 0, b.len());
                assert(b@.subrange(0, b@.len() as int) =~= b@);
                self.pending_creates.push(SyncMessage { sender, data });
                assert(self.inbound().creates =~= v.creates.push((sender, b@)));
                assert(self.inbound().sync =~= v.sync);
                assert(self.inbound().queues =~= v.queues);
            },
            EventType::EntityUpdate | EventType::EntityDelete => {
                let data = crate::codec::copy_range(b, 0, b.len());
                assert(b@.subrange(0, b@.len() as int) =~= b@);
                self.sync_messages.push(SyncMessage { sender, data });
                assert(self.inbound().sync =~= v.sync.push((sender, b@)));
                assert(self.inbound().peers =~= v.peers);
                assert(self.inbound().queues =~= v.queues);
            },
            EventType::PlayerJoin => {
                let mut found = false;
                let mut i: usize = 0;
                while i < self.active_players.len()
                    invariant
                        i <= self.active_players@.len(),
                        found <==> exists|j: int| 0 <= j < i && self.active_players@[j] == sender,
                    decreases self.active_players@.len() - i,
                {
                    if self.active_players[i] == sender {
                        found = true;
                    }
                    i = i + 1;
                }
                if !found {
                    self.active_players.push(sender);
                } else {
                    assert(v.peers.contains(sender));
                }
                assert(self.inbound().peers =~= add_peer(v.peers, sender));
                assert(self.inbound().sync =~= v.sync);
                assert(self.inbound().queues =~= v.queues);
            },
            EventType::PlayerLeave => {
                let mut kept: Vec<u64> = Vec::new();
                let mut i: usize = 0;
                while i < self.active_players.len()
                    invariant
                        i <= self.active_players@.len(),
                        v.peers == self.active_players@,
                        kept@ == remove_peer(v.peers.subrange(0, i as int), sender),
                    decreases self.active_players@.len() - i,
                {
                    let p = self.active_players[i];
                    let ghost pre = v.peers.subrange(0, i as int);
                    let ghost post = v.peers.subrange(0, i + 1);
                    assert(post.drop_last() =~= pre);
                    if p != sender {
                        kept.push(p);
                    }
                    i = i + 1;
                }
                assert(v.peers.subrange(0, v.peers.len() as int) =~= v.peers);
                self.active_players = kept;
                self.departed.push(sender);
                assert(self.inbound().sync =~= v.sync);
                assert(self.inbound().queues =~= v.queues);
            },
            EventType::Event => {
                let body = vstd::slice::slice_subrange(b, 1, b.len());
                match NetworkingEvent::from_bytes(body) {
                    Err(e) => return Err(e),
                    Ok(event) => {
                        let k = event.event_type.to_u8() as usize;
                        let ghost ev = (event.event_type, event.data@);
                        let mut q: Vec<NetworkingEvent> = Vec::new();
                        self.event_queue_in.set_and_swap(k, &mut q);
                        let ghost qv = events_view(q@);
                        assert(qv == v.queues[k as int]);
                        q.push(event);
                        assert(events_view(q@) =~= qv.push(ev));
                        self.event_queue_in.set_and_swap(k, &mut q);
                        assert(self.inbound().queues =~= v.queues.update(k as int, qv.push(ev)));
                        assert(self.inbound().sync =~= v.sync);
                        assert(self.inbound().peers =~= v.peers);
                    },
                }
            },
        }
        Ok(t)
    }

    /// Ingest step: routes at most `packet_per_frame_limit` packets from the
    /// front of `inbox`; the rest stay there for later ticks. Nothing happens
    /// while disconnected.
    pub fn pump_packets(&mut self, inbox: &mut Vec<IncomingPacket>) -> (consumed: usize)
        requires
            old(self).wf(),
        ensures
            final(self).wf(),
            final(self).same_config(old(self)),
            old(self).connected ==> consumed == ingest_count(
                old(self).packet_per_frame_limit,
                old(inbox)@.len(),
            ),
            !old(self).connected ==> consumed == 0,
            final(inbox)@ == old(inbox)@.skip(consumed as int),
            final(self).inbound() == route_all(
                old(self).inbound(),
                incoming_view(old(inbox)@.take(consumed as int)),
            ),
    {
        let ghost all = incoming_view(inbox@);
        let ghost start = inbox@;
        if !self.connected {
            assert(incoming_view(start.take(0)) =~= Seq::<(u64, Seq<u8>)>::empty());
            assert(start.skip(0) =~= start);
            return 0;
        }
        let mut n: usize = 0;
        while n < self.packet_per_frame_limit as usize && inbox.len() > 0
            invariant
                self.wf(),
                self.same_config(old(self)),
                n <= start.len(),
                n <= self.packet_per_frame_limit,
                all == incoming_view(start),
                inbox@ == start.skip(n as int),
                route_all(old(self).inbound(), incoming_view(start.take(n as int))) == self.inbound(),
            decreases inbox@.len(),
        {
            let p = inbox.remove(0);
            assert(p == start[n as int]);
            let _ = self.route_packet(p.sender, p.data.as_slice());
            proof {
                lemma_route_all_push(old(self).inbound(), incoming_view(start.take(n as int)), p.sender, p.data@);
                assert(incoming_view(start.take(n + 1)) =~= incoming_view(start.take(n as int)).push((p.sender, p.data@)));
            }
            n = n + 1;
            assert(inbox@ =~= start.skip(n as int));
        }
        n
    }
}

impl NetworkingState {
    /// Whether the ingest step of this tick takes another packet from the
    /// transport, once `taken` have been taken: only while connected and
    /// under `packet_per_frame_limit`.
    pub fn wants_packet(&self, taken: usize) -> (r: bool)
        ensures
            r == (self.connected && taken < self.packet_per_frame_limit),
    {
        self.connected && taken < self.packet_per_frame_limit as usize
    }
}

/// Routing one more packet after a batch.
pub proof fn lemma_route_all_push(v: Inbound, ps: Seq<(u64, Seq<u8>)>, sender: u64, b: Seq<u8>)
    ensures
        route_all(v, ps.push((sender, b))) == route_spec(route_all(v, ps), sender, b),
    decreases ps.len(),
{
    let q = ps.push((sender, b));
    if ps.len() == 0 {
        assert(q.drop_first() =~= Seq::<(u64, Seq<u8>)>::empty());
        assert(q[0] == (sender, b));
        assert(route_all(route_spec(v, sender, b), q.drop_first()) == route_spec(v, sender, b));
        assert(route_all(v, ps) == v);
    } else {
        let v2 = route_spec(v, ps[0].0, ps[0].1);
        lemma_route_all_push(v2, ps.drop_first(), sender, b);
        assert(q.drop_first() =~= ps.drop_first().push((sender, b)));
        assert(q[0] == ps[0]);
    }
}

impl NetworkingState {
    /// Flush and ingest steps of a tick, in that order.
    pub fn handle_networking(&mut self, inbox: &mut Vec<IncomingPacket>) -> (r: (Vec<OutgoingPacket>, usize))
        requires
            old(self).wf(),
        ensures
            final(self).wf(),
            old(self).connected ==> outgoing_view(r.0@) == flush_spec(
                events_view(old(self).event_queue_out@),
                old(self).active_players@,
                old(self).player_id,
            ) && final(self).event_queue_out@.len() == 0 && r.1 == ingest_count(
                old(self).packet_per_frame_limit,
                old(inbox)@.len(),
            ),
            !old(self).connected ==> r.0@.len() == 0 && r.1 == 0 && final(self).event_queue_out@
                == old(self).event_queue_out@,
            final(inbox)@ == old(inbox)@.skip(r.1 as int),
            final(self).inbound() == route_all(
                old(self).inbound(),
                incoming_view(old(inbox)@.take(r.1 as int)),
            ),
            final(self).connected == old(self).connected,
            final(self).player_id == old(self).player_id,
            final(self).packet_per_frame_limit == old(self).packet_per_frame_limit,
            final(self).max_players == old(self).max_players,
            final(self).max_synced_objects == old(self).max_synced_objects,
            final(self).unmatched_components == old(self).unmatched_components,
    {
        let out = self.flush();
        assert(self.inbound() == old(self).inbound()) by {
            assert(self.inbound().sync =~= old(self).inbound().sync);
            assert(self.inbound().creates =~= old(self).inbound().creates);
            assert(self.inbound().errors =~= old(self).inbound().errors);
            assert(self.inbound().queues =~= old(self).inbound().queues);
        }
        let n = self.pump_packets(inbox);
        (out, n)
    }

    /// Apply step: spawns the slaves of the create messages received this
    /// tick, applies the buffered updates and deletes in arrival order
    /// (counting received components that matched none), flags the slaves
    /// that go with the peers that left, then empties the three buffers.
    /// Nothing while disconnected.
    pub fn sync_slave_entities(&mut self, world: &mut ReplicaSet)
        requires
            old(self).wf(),
            old(world).wf(),
        ensures
            final(self).wf(),
            final(world).wf(),
            old(self).connected ==> final(world).view() == apply_step(
                old(world).view(),
                messages_view(old(self).pending_creates@),
                messages_view(old(self).sync_messages@),
                old(self).departed@,
            ) && final(self).sync_messages@.len() == 0 && final(self).pending_creates@.len() == 0
                && final(self).departed@.len() == 0,
            !old(self).connected ==> final(world).view() == old(world).view()
                && final(self).sync_messages@ == old(self).sync_messages@
                && final(self).pending_creates@ == old(self).pending_creates@
                && final(self).departed@ == old(self).departed@,
            old(self).connected ==> final(self).unmatched_components == saturated(
                (old(self).unmatched_components + unmatched_all(
                    apply_all(old(world).view(), messages_view(old(self).pending_creates@)),
                    messages_view(old(self).sync_messages@),
                )) as nat,
            ),
            !old(self).connected ==> final(self).unmatched_components == old(self).unmatched_components,
            final(self).max_players == old(self).max_players,
            final(self).max_synced_objects == old(self).max_synced_objects,
            final(self).packet_per_frame_limit == old(self).packet_per_frame_limit,
            final(self).connected == old(self).connected,
            final(self).player_id == old(self).player_id,
            final(self).event_queue_out@ == old(self).event_queue_out@,
            final(self).active_players@ == old(self).active_players@,
            final(self).event_queue_in@ == old(self).event_queue_in@,
            final(self).protocol_errors@ == old(self).protocol_errors@,
    {
        if !self.connected {
            return ;
        }
        let _ = world.apply_sync_messages(&self.pending_creates);
        let n = world.apply_sync_messages(&self.sync_messages);
        self.unmatched_components = if self.unmatched_components > u64::MAX - n {
            u64::MAX
        } else {
            self.unmatched_components + n
        };
        world.mark_owners_left(&self.departed);
        self.sync_messages = Vec::new();
        self.pending_creates = Vec::new();
        self.departed = Vec::new();
    }

    /// Empties the record of packets that could not be routed and returns
    /// it, oldest first.
    pub fn take_protocol_errors(&mut self) -> (r: Vec<ProtocolError>)
        requires
            old(self).wf(),
        ensures
            final(self).wf(),
            r@ == old(self).protocol_errors@,
            final(self).protocol_errors@.len() == 0,
            final(self).same_config(old(self)),
            final(self).sync_messages@ == old(self).sync_messages@,
            final(self).pending_creates@ == old(self).pending_creates@,
            final(self).departed@ == old(self).departed@,
            final(self).active_players@ == old(self).active_players@,
            final(self).event_queue_in@ == old(self).event_queue_in@,
    {
        let mut r: Vec<ProtocolError> = Vec::new();
        std::mem::swap(&mut r, &mut self.protocol_errors);
        r
    }

    /// Collect step: despawns every master and slave flagged for deletion and
    /// returns their static ids. Nothing while disconnected.
    pub fn delete_marked_entities(&self, world: &mut ReplicaSet) -> (despawned: Vec<u16>)
        requires
            old(world).wf(),
        ensures
            final(world).wf(),
            self.connected ==> final(world).view() == collect_spec(old(world).view())
                && despawned@ == deleted_master_ids(old(world).view().masters) + deleted_slave_ids(
                old(world).view().slaves,
            ),
            !self.connected ==> final(world).view() == old(world).view() && despawned@.len() == 0,
    {
        if !self.connected {
            return Vec::new();
        }
        world.collect()
    }
}

impl NetworkingState {
    /// Treats `peer` as gone, as when sending to it fails: it leaves the
    /// roster, and the next apply step flags the slaves it owned that are to
    /// go with it.
    pub fn peer_lost(&mut self, peer: u64)
        requires
            old(self).wf(),
        ensures
            final(self).wf(),
            final(self).same_config(old(self)),
            final(self).inbound() == route_spec(
                old(self).inbound(),
                peer,
                seq![EventType::PlayerLeave.code()],
            ),
    {
        let mut notice: Vec<u8> = Vec::new();
        notice.push(EventType::PlayerLeave.to_u8());
        assert(notice@ =~= seq![EventType::PlayerLeave.code()]);
        let _ = self.route_packet(peer, notice.as_slice());
    }
}

} // verus!
