use replicate::codec::{encode_delete, encode_update, ComponentData, DecodeError, EventType, NetworkingEvent, ReplicationInfo};
use replicate::replication::{ReplicaSet, SlaveEntity, SyncMessage, SynchronizedSlave};
use replicate::state::{IncomingPacket, NetworkingPlugin, NetworkingState, OutgoingPacket, ProtocolError, SendMode};

const ME: u64 = 100;
const PEER: u64 = 200;

fn comp(id: u16, payload: &[u8]) -> ComponentData {
    ComponentData { id, payload: payload.to_vec() }
}

fn connected(me: u64, peers: &[u64], limit: u32) -> NetworkingState {
    let mut s = NetworkingState::new(32, 1024, limit, me);
    s.connected = true;
    s.active_players = peers.to_vec();
    s
}

fn slave(static_id: u16, owner: u64, cs: Vec<ComponentData>) -> SlaveEntity {
    SlaveEntity {
        slave: SynchronizedSlave {
            info: ReplicationInfo { pending_delete: false, periodic_sync: false },
            static_id,
            destroy_on_owner_disconnect: true,
            owner,
        },
        components: cs,
    }
}

fn deliver(to: &mut NetworkingState, from: u64, packets: &[OutgoingPacket]) -> usize {
    let mut inbox: Vec<IncomingPacket> = packets
        .iter()
        .filter(|p| p.peer == to.player_id)
        .map(|p| IncomingPacket { sender: from, data: p.data.clone() })
        .collect();
    let n = inbox.len();
    to.pump_packets(&mut inbox);
    n
}

#[test]
fn plugin_defaults() {
    let p = NetworkingPlugin::default();
    assert_eq!(p.max_players, 32);
    assert_eq!(p.max_synced_objects, 1024);
    assert_eq!(p.app_id, 480);
    assert_eq!(p.packet_per_frame_limit, 64);
}

#[test]
fn new_state_is_empty_and_disconnected() {
    let s = NetworkingState::new(4, 8, 16, ME);
    assert!(!s.connected);
    assert_eq!(s.event_queue_in.len(), 6);
    assert!(s.active_players.is_empty());
}

#[test]
fn send_all_skips_self() {
    let s = connected(ME, &[PEER, ME, 300], 4);
    let out = s.send_all_reliable(vec![1, 2]);
    assert_eq!(out.len(), 2);
    assert_eq!(out[0].peer, PEER);
    assert_eq!(out[1].peer, 300);
    assert!(out.iter().all(|p| p.mode == SendMode::Reliable && p.data == vec![1, 2]));
    let out = s.send_all_unreliable(vec![3]);
    assert!(out.iter().all(|p| p.mode == SendMode::Unreliable));
}

#[test]
fn flush_sends_queued_events_in_order() {
    let mut s = connected(ME, &[PEER], 4);
    s.queue_event_out(NetworkingEvent::new(EventType::Event, vec![1]));
    s.queue_event_out(NetworkingEvent::new(EventType::PlayerJoin, vec![2, 3]));
    let out = s.flush();
    assert_eq!(out.len(), 2);
    assert_eq!(out[0].data, vec![5, 5, 1, 0, 1]);
    assert_eq!(out[1].data, vec![5, 3, 2, 0, 2, 3]);
    assert!(s.event_queue_out.is_empty());
    assert!(s.flush().is_empty());
}

#[test]
fn flush_while_disconnected_keeps_queue() {
    let mut s = NetworkingState::new(4, 8, 16, ME);
    s.queue_event_out(NetworkingEvent::new(EventType::Event, vec![1]));
    assert!(s.flush().is_empty());
    assert_eq!(s.event_queue_out.len(), 1);
}

#[test]
fn events_reach_the_inbound_queue_of_their_type() {
    let mut a = connected(ME, &[PEER], 4);
    let mut b = connected(PEER, &[ME], 4);
    a.queue_event_out(NetworkingEvent::new(EventType::PlayerLeave, vec![42]));
    let out = a.flush();
    deliver(&mut b, ME, &out);
    let got = b.get_event_in(EventType::PlayerLeave.to_u8());
    assert_eq!(got.len(), 1);
    assert_eq!(got[0].data, vec![42]);
    assert!(b.get_event_in(EventType::PlayerLeave.to_u8()).is_empty());
    assert!(b.get_event_in(EventType::Event.to_u8()).is_empty());
}

#[test]
fn route_reports_malformed_packets() {
    let mut s = connected(ME, &[], 4);
    assert_eq!(s.route_packet(PEER, &[]), Err(DecodeError::Truncated));
    assert_eq!(s.route_packet(PEER, &[200]), Err(DecodeError::UnknownEventType(200)));
    assert_eq!(s.route_packet(PEER, &[5, 9, 0, 0]), Err(DecodeError::UnknownEventType(9)));
    assert_eq!(s.route_packet(PEER, &[5, 1, 5, 0]), Err(DecodeError::Truncated));
    assert!(s.sync_messages.is_empty());
    let errors = s.take_protocol_errors();
    assert_eq!(errors.len(), 4);
    assert_eq!(errors[1], ProtocolError { peer: PEER, error: DecodeError::UnknownEventType(200) });
    assert!(s.take_protocol_errors().is_empty());
}

#[test]
fn join_and_leave_update_the_roster() {
    let mut s = connected(ME, &[], 4);
    assert_eq!(s.route_packet(PEER, &[3]), Ok(EventType::PlayerJoin));
    assert_eq!(s.route_packet(PEER, &[3]), Ok(EventType::PlayerJoin));
    assert_eq!(s.route_packet(300, &[3]), Ok(EventType::PlayerJoin));
    assert_eq!(s.active_players, vec![PEER, 300]);
    assert_eq!(s.route_packet(PEER, &[4]), Ok(EventType::PlayerLeave));
    assert_eq!(s.active_players, vec![300]);
    assert_eq!(s.departed, vec![PEER]);
    assert!(s.sync_messages.is_empty());
}

#[test]
fn ingest_respects_the_packet_budget() {
    let mut s = connected(ME, &[PEER], 3);
    let mut inbox: Vec<IncomingPacket> = (0..5u16)
        .map(|i| IncomingPacket { sender: PEER, data: encode_delete(i) })
        .collect();
    assert_eq!(s.pump_packets(&mut inbox), 3);
    assert_eq!(inbox.len(), 2);
    assert_eq!(inbox[0].data, encode_delete(3));
    assert_eq!(s.sync_messages.len(), 3);
    assert_eq!(s.pump_packets(&mut inbox), 2);
    assert!(inbox.is_empty());
    assert_eq!(s.sync_messages.len(), 5);
}

#[test]
fn ingest_while_disconnected_consumes_nothing() {
    let mut s = NetworkingState::new(4, 8, 16, ME);
    let mut inbox = vec![IncomingPacket { sender: PEER, data: encode_delete(1) }];
    assert_eq!(s.pump_packets(&mut inbox), 0);
    assert_eq!(inbox.len(), 1);
}

#[test]
fn handle_networking_flushes_then_ingests() {
    let mut s = connected(ME, &[PEER], 1);
    s.queue_event_out(NetworkingEvent::new(EventType::Event, vec![]));
    let mut inbox = vec![
        IncomingPacket { sender: PEER, data: encode_delete(1) },
        IncomingPacket { sender: PEER, data: encode_delete(2) },
    ];
    let (out, n) = s.handle_networking(&mut inbox);
    assert_eq!(out.len(), 1);
    assert_eq!(n, 1);
    assert_eq!(inbox.len(), 1);
}

#[test]
fn master_state_converges_on_slave() {
    let mut a = connected(ME, &[PEER], 8);
    let mut b = connected(PEER, &[ME], 8);
    let mut wa = ReplicaSet::new();
    let mut wb = ReplicaSet::new();
    let a_val: Vec<u8> = vec![1, 0, 0, 0];
    let b_val: Vec<u8> = vec![1, 0, 0, 0, 0, 0, 0, 0, b'x'];
    let create = a.create_networked_entity(&mut wa, vec![comp(1, &a_val), comp(2, &b_val)], true, 7);
    assert_eq!(create.len(), 1);
    assert_eq!(create[0].mode, SendMode::Reliable);
    wb.slaves.push(slave(7, ME, vec![comp(1, &[0; 4]), comp(2, &[0; 9])]));
    let out = a.sync_master_entities(&wa);
    assert_eq!(out.len(), 1);
    assert_eq!(out[0].mode, SendMode::Unreliable);
    deliver(&mut b, ME, &out);
    b.sync_slave_entities(&mut wb);
    assert!(b.sync_messages.is_empty());
    let got = &wb.slaves[0].components;
    assert_eq!(got.len(), 2);
    assert_eq!(got[0].payload, a_val);
    assert_eq!(got[1].payload, b_val);
}

#[test]
fn create_message_spawns_slave() {
    let mut a = connected(ME, &[PEER], 8);
    let mut b = connected(PEER, &[ME], 8);
    let mut wa = ReplicaSet::new();
    let mut wb = ReplicaSet::new();
    let out = a.create_networked_entity(&mut wa, vec![comp(9, &[5, 6])], false, 11);
    deliver(&mut b, ME, &out);
    b.sync_slave_entities(&mut wb);
    assert_eq!(wb.slaves.len(), 1);
    assert_eq!(wb.slaves[0].slave.static_id, 11);
    assert_eq!(wb.slaves[0].slave.owner, ME);
    assert_eq!(wb.slaves[0].components[0].payload, vec![5, 6]);
    deliver(&mut b, ME, &out);
    b.sync_slave_entities(&mut wb);
    assert_eq!(wb.slaves.len(), 1);
    assert!(a.sync_master_entities(&wa).is_empty());
}

#[test]
fn update_with_wrong_length_is_dropped_whole() {
    let mut w = ReplicaSet::new();
    w.slaves.push(slave(3, PEER, vec![comp(1, &[0, 0]), comp(2, &[0])]));
    let bytes = encode_update(3, &vec![comp(1, &[9, 9]), comp(2, &[1, 2])]);
    w.apply_message(PEER, &bytes);
    assert_eq!(w.slaves[0].components[0].payload, vec![0, 0]);
    assert_eq!(w.slaves[0].components[1].payload, vec![0]);
}

#[test]
fn update_skips_unknown_components() {
    let mut w = ReplicaSet::new();
    w.slaves.push(slave(3, PEER, vec![comp(1, &[0, 0])]));
    let bytes = encode_update(3, &vec![comp(8, &[7]), comp(1, &[4, 5])]);
    assert_eq!(w.apply_message(PEER, &bytes), 1);
    assert_eq!(w.slaves[0].components.len(), 1);
    assert_eq!(w.slaves[0].components[0].payload, vec![4, 5]);
}

#[test]
fn deletion_propagates_to_slave() {
    let mut a = connected(ME, &[PEER], 8);
    let mut b = connected(PEER, &[ME], 8);
    let mut wa = ReplicaSet::new();
    let mut wb = ReplicaSet::new();
    a.create_networked_entity(&mut wa, vec![comp(1, &[1])], false, 21);
    wb.slaves.push(slave(21, ME, vec![comp(1, &[1])]));
    let out = wa.masters[0].master.destroy(&a);
    assert_eq!(out.len(), 1);
    assert_eq!(out[0].data, vec![1, 21, 0]);
    assert_eq!(a.delete_marked_entities(&mut wa), vec![21]);
    assert!(wa.masters.is_empty());
    deliver(&mut b, ME, &out);
    b.sync_slave_entities(&mut wb);
    assert!(wb.slaves[0].slave.info.pending_delete);
    assert_eq!(b.delete_marked_entities(&mut wb), vec![21]);
    assert!(wb.slaves.is_empty());
}

#[test]
fn repeated_delete_is_a_no_op() {
    let mut w = ReplicaSet::new();
    w.slaves.push(slave(5, PEER, vec![]));
    w.slaves.push(slave(6, PEER, vec![]));
    let msgs = vec![
        SyncMessage { sender: PEER, data: encode_delete(5) },
        SyncMessage { sender: PEER, data: encode_delete(5) },
    ];
    w.apply_sync_messages(&msgs);
    assert_eq!(w.collect(), vec![5]);
    assert_eq!(w.slaves.len(), 1);
    w.apply_sync_messages(&msgs);
    assert_eq!(w.collect(), Vec::<u16>::new());
    assert_eq!(w.slaves.len(), 1);
    assert_eq!(w.slaves[0].slave.static_id, 6);
}

#[test]
fn collect_while_disconnected_keeps_everything() {
    let s = NetworkingState::new(4, 8, 16, ME);
    let mut w = ReplicaSet::new();
    let mut sl = slave(5, PEER, vec![]);
    sl.slave.info.pending_delete = true;
    w.slaves.push(sl);
    assert!(s.delete_marked_entities(&mut w).is_empty());
    assert_eq!(w.slaves.len(), 1);
}

#[test]
fn lookups_find_first_match() {
    let mut w = ReplicaSet::new();
    w.slaves.push(slave(5, PEER, vec![]));
    w.slaves.push(slave(6, PEER, vec![]));
    assert_eq!(w.slave_index(6), Some(1));
    assert_eq!(w.slave_index(7), None);
    assert_eq!(w.master_index(5), None);
}

#[test]
fn leaving_owner_takes_its_slaves() {
    let mut s = connected(ME, &[PEER, 300], 8);
    let mut w = ReplicaSet::new();
    w.slaves.push(slave(1, PEER, vec![]));
    let mut kept = slave(2, PEER, vec![]);
    kept.slave.destroy_on_owner_disconnect = false;
    w.slaves.push(kept);
    w.slaves.push(slave(3, 300, vec![]));
    assert_eq!(s.route_packet(PEER, &[4]), Ok(EventType::PlayerLeave));
    assert_eq!(s.active_players, vec![300]);
    s.sync_slave_entities(&mut w);
    assert_eq!(s.delete_marked_entities(&mut w), vec![1]);
    assert_eq!(w.slaves.len(), 2);
}

#[test]
fn lost_peer_leaves_roster_and_drops_its_slaves() {
    let mut s = connected(ME, &[PEER], 8);
    let mut w = ReplicaSet::new();
    w.slaves.push(slave(8, PEER, vec![]));
    s.peer_lost(PEER);
    assert!(s.active_players.is_empty());
    s.sync_slave_entities(&mut w);
    assert_eq!(s.delete_marked_entities(&mut w), vec![8]);
}

#[test]
fn unmatched_components_are_counted() {
    let mut s = connected(ME, &[PEER], 8);
    let mut w = ReplicaSet::new();
    w.slaves.push(slave(3, PEER, vec![comp(1, &[0])]));
    let mut inbox = vec![
        IncomingPacket { sender: PEER, data: encode_update(3, &vec![comp(2, &[1]), comp(5, &[1]), comp(1, &[9])]) },
        IncomingPacket { sender: PEER, data: encode_update(4, &vec![comp(2, &[1])]) },
        IncomingPacket { sender: PEER, data: encode_update(3, &vec![comp(7, &[1])]) },
    ];
    s.pump_packets(&mut inbox);
    s.sync_slave_entities(&mut w);
    assert_eq!(s.unmatched_components, 3);
    assert_eq!(w.slaves[0].components[0].payload, vec![9]);
}

#[test]
fn only_updates_and_deletes_enter_the_sync_buffer() {
    let mut s = connected(ME, &[PEER], 8);
    let mut inbox = vec![
        IncomingPacket { sender: PEER, data: vec![0, 7, 0, 0, 0] },
        IncomingPacket { sender: PEER, data: encode_delete(7) },
        IncomingPacket { sender: PEER, data: vec![250, 1, 2] },
        IncomingPacket { sender: PEER, data: encode_update(7, &Vec::new()) },
    ];
    let (_, n) = s.handle_networking(&mut inbox);
    assert_eq!(n, 4);
    assert_eq!(s.pending_creates.len(), 1);
    assert_eq!(s.sync_messages.len(), 2);
    assert_eq!(s.sync_messages[0].data, encode_delete(7));
    assert_eq!(s.protocol_errors, vec![ProtocolError { peer: PEER, error: DecodeError::UnknownEventType(250) }]);
}

#[test]
fn departure_only_touches_the_leavers_slaves() {
    let mut s = connected(ME, &[PEER, 300], 8);
    let mut w = ReplicaSet::new();
    w.slaves.push(slave(1, PEER, vec![]));
    w.slaves.push(slave(2, 300, vec![]));
    s.route_packet(PEER, &[4]).unwrap();
    s.sync_slave_entities(&mut w);
    assert!(s.departed.is_empty());
    assert!(w.slaves[0].slave.info.pending_delete);
    assert!(!w.slaves[1].slave.info.pending_delete);
}

#[test]
fn ingest_budget_decision() {
    let s = connected(ME, &[], 2);
    assert!(s.wants_packet(0));
    assert!(s.wants_packet(1));
    assert!(!s.wants_packet(2));
    let d = NetworkingState::new(4, 8, 2, ME);
    assert!(!d.wants_packet(0));
}
