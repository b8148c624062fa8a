use replicate::codec::{
    decode_entity_message, encode_create, encode_delete, encode_update, ComponentData,
    DecodeError, EntityMessage, EventType, NetworkingEvent, ReplicationInfo,
    MAX_COMPONENTS_PER_ENTITY,
};

fn comp(id: u16, payload: &[u8]) -> ComponentData {
    ComponentData { id, payload: payload.to_vec() }
}

#[test]
fn event_round_trip() {
    let e = NetworkingEvent::new(EventType::Event, vec![9, 8, 7]);
    let bytes = e.to_bytes();
    assert_eq!(bytes, vec![5, 3, 0, 9, 8, 7]);
    let d = NetworkingEvent::from_bytes(&bytes).unwrap();
    assert_eq!(d.event_type, EventType::Event);
    assert_eq!(d.data, vec![9, 8, 7]);
}

#[test]
fn event_round_trip_empty_and_largest_payload() {
    for t in [EventType::EntityCreate, EventType::PlayerLeave] {
        let e = NetworkingEvent::new(t, Vec::new());
        let d = NetworkingEvent::from_bytes(&e.to_bytes()).unwrap();
        assert_eq!(d.event_type, t);
        assert!(d.data.is_empty());
    }
    let big: Vec<u8> = (0..65535u32).map(|i| (i % 251) as u8).collect();
    let e = NetworkingEvent::new(EventType::PlayerJoin, big.clone());
    let bytes = e.to_bytes();
    assert_eq!(bytes.len(), 65538);
    assert_eq!(bytes[1], 0xff);
    assert_eq!(bytes[2], 0xff);
    let d = NetworkingEvent::from_bytes(&bytes).unwrap();
    assert_eq!(d.data, big);
}

#[test]
fn event_length_is_payload_length() {
    let e = NetworkingEvent::new(EventType::Event, vec![0; 300]);
    assert_eq!(e.length(), 300);
    let bytes = e.to_bytes();
    assert_eq!(bytes[1], 44);
    assert_eq!(bytes[2], 1);
}

#[test]
fn event_trailing_bytes_are_ignored() {
    let d = NetworkingEvent::from_bytes(&[3, 1, 0, 42, 99, 98]).unwrap();
    assert_eq!(d.event_type, EventType::PlayerJoin);
    assert_eq!(d.data, vec![42]);
}

#[test]
fn event_decode_errors() {
    assert_eq!(NetworkingEvent::from_bytes(&[]).unwrap_err(), DecodeError::Truncated);
    assert_eq!(NetworkingEvent::from_bytes(&[5, 1]).unwrap_err(), DecodeError::Truncated);
    assert_eq!(NetworkingEvent::from_bytes(&[5, 2, 0, 1]).unwrap_err(), DecodeError::Truncated);
}

#[test]
fn every_unknown_tag_is_an_error_value() {
    for b in 0..=255u8 {
        let r = EventType::from_u8(b);
        let framed = NetworkingEvent::from_bytes(&[b, 0, 0]);
        let entity = decode_entity_message(&[b, 0, 0]);
        if b < 6 {
            assert_eq!(r.unwrap().to_u8(), b);
            assert!(framed.is_ok());
        } else {
            assert_eq!(r.unwrap_err(), DecodeError::UnknownEventType(b));
            assert_eq!(framed.unwrap_err(), DecodeError::UnknownEventType(b));
            assert_eq!(entity.unwrap_err(), DecodeError::UnknownEventType(b));
        }
    }
    assert_eq!(EventType::num_variants(), 6);
}

#[test]
fn update_round_trip() {
    let cs = vec![comp(1, &[1, 0, 0, 0]), comp(513, &[]), comp(2, &[7; 255])];
    let bytes = encode_update(0x1234, &cs);
    assert_eq!(&bytes[..8], &[2, 0x34, 0x12, 1, 0, 4, 1, 0]);
    assert_eq!(bytes.len(), 3 + 7 + 3 + 258);
    match decode_entity_message(&bytes).unwrap() {
        EntityMessage::Update { static_id, components } => {
            assert_eq!(static_id, 0x1234);
            assert_eq!(components.len(), 3);
            for (a, b) in components.iter().zip(cs.iter()) {
                assert_eq!(a.id, b.id);
                assert_eq!(a.payload, b.payload);
            }
        }
        _ => panic!("expected an update"),
    }
}

#[test]
fn update_with_no_components() {
    let bytes = encode_update(7, &Vec::new());
    assert_eq!(bytes, vec![2, 7, 0]);
    match decode_entity_message(&bytes).unwrap() {
        EntityMessage::Update { static_id, components } => {
            assert_eq!(static_id, 7);
            assert!(components.is_empty());
        }
        _ => panic!("expected an update"),
    }
}

#[test]
fn update_component_limit() {
    let full: Vec<ComponentData> = (0..MAX_COMPONENTS_PER_ENTITY as u16).map(|i| comp(i, &[i as u8])).collect();
    match decode_entity_message(&encode_update(1, &full)).unwrap() {
        EntityMessage::Update { components, .. } => assert_eq!(components.len(), 16),
        _ => panic!("expected an update"),
    }
    let over: Vec<ComponentData> = (0..17u16).map(|i| comp(i, &[i as u8])).collect();
    assert_eq!(decode_entity_message(&encode_update(1, &over)).unwrap_err(), DecodeError::TooManyComponents);
}

#[test]
fn update_truncated_tuple() {
    let mut bytes = encode_update(1, &vec![comp(3, &[1, 2, 3])]);
    bytes.pop();
    assert_eq!(decode_entity_message(&bytes).unwrap_err(), DecodeError::Truncated);
    assert_eq!(decode_entity_message(&[2, 1, 0, 3]).unwrap_err(), DecodeError::Truncated);
    assert_eq!(decode_entity_message(&[2, 1]).unwrap_err(), DecodeError::Truncated);
    assert_eq!(decode_entity_message(&[]).unwrap_err(), DecodeError::Truncated);
}

#[test]
fn create_round_trip() {
    let info = ReplicationInfo { pending_delete: false, periodic_sync: true };
    let cs = vec![comp(4, &[1, 2]), comp(5, &[3])];
    let bytes = encode_create(300, info, &cs);
    assert_eq!(&bytes[..5], &[0, 44, 1, 64, 2]);
    match decode_entity_message(&bytes).unwrap() {
        EntityMessage::Create { static_id, info: i, components } => {
            assert_eq!(static_id, 300);
            assert_eq!(i, info);
            assert_eq!(components.len(), 2);
            assert_eq!(components[1].payload, vec![3]);
        }
        _ => panic!("expected a create"),
    }
}

#[test]
fn create_count_mismatch() {
    let mut bytes = encode_create(1, ReplicationInfo { pending_delete: false, periodic_sync: false }, &vec![comp(4, &[1])]);
    bytes[4] = 2;
    assert_eq!(decode_entity_message(&bytes).unwrap_err(), DecodeError::CountMismatch);
    assert_eq!(decode_entity_message(&[0, 1, 0, 0]).unwrap_err(), DecodeError::Truncated);
}

#[test]
fn delete_round_trip() {
    let bytes = encode_delete(0xbeef);
    assert_eq!(bytes, vec![1, 0xef, 0xbe]);
    match decode_entity_message(&bytes).unwrap() {
        EntityMessage::Delete { static_id } => assert_eq!(static_id, 0xbeef),
        _ => panic!("expected a delete"),
    }
}

#[test]
fn non_entity_tags_are_unexpected() {
    for b in [3u8, 4, 5] {
        assert_eq!(decode_entity_message(&[b, 0, 0]).unwrap_err(), DecodeError::UnexpectedKind(b));
    }
}

#[test]
fn info_byte_bits() {
    let all = ReplicationInfo { pending_delete: true, periodic_sync: true };
    assert_eq!(all.to_byte(), 0b1100_0000);
    assert_eq!(ReplicationInfo::from_byte(0b1000_0000), ReplicationInfo { pending_delete: true, periodic_sync: false });
    assert_eq!(ReplicationInfo::from_byte(0b0100_0001), ReplicationInfo { pending_delete: false, periodic_sync: true });
}

#[test]
fn component_cap_stops_reading() {
    let over: Vec<ComponentData> = (0..17u16).map(|i| comp(i, &[i as u8])).collect();
    let mut bytes = encode_update(1, &over);
    bytes.pop();
    assert_eq!(decode_entity_message(&bytes).unwrap_err(), DecodeError::TooManyComponents);
}
