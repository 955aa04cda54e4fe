use snake_core::codec::Codec;
use snake_core::error::{ProtocolError, ProtocolViolation};
use snake_core::packets::{
    decode_packet, Packet, Bound, ConfigureServerbound, ConnectionStage, LoginClientbound, LoginServerbound, PlayClientbound,
    PlayServerbound, RemoveEntitiesData, SpawnEntityData, SynchonizePositionAndDirectionData,
};
use snake_core::primitives::{Byte, PrefixedArray};
use snake_core::varint::{UVarInt, VarInt, VarLong};

fn kind_bytes(k: u32) -> Vec<u8> {
    let mut out = Vec::new();
    UVarInt(k).encode(&mut out);
    out
}

#[test]
fn stages_advance_in_order() {
    let s = ConnectionStage::Handshake.after(Bound::Serverbound, 0);
    assert_eq!(s, ConnectionStage::Login);
    let s = s.after(Bound::Serverbound, 0);
    assert_eq!(s, ConnectionStage::Login);
    let s = s.after(Bound::Clientbound, LoginClientbound::LoginSuccess.id());
    assert_eq!(s, ConnectionStage::Configuration);
    let s = s.after(Bound::Serverbound, 0);
    assert_eq!(s, ConnectionStage::Configuration);
    let s = s.after(Bound::Clientbound, 0);
    assert_eq!(s, ConnectionStage::Play);
    assert_eq!(s.after(Bound::Clientbound, 0), ConnectionStage::Play);
}

#[test]
fn read_kind_checks_the_stage() {
    let play = kind_bytes(5);
    assert_eq!(ConnectionStage::Play.read_kind(Bound::Clientbound, &play, 0), Ok((5, 1)));
    assert_eq!(
        ConnectionStage::Play.read_kind(Bound::Serverbound, &play, 0),
        Err(ProtocolError::ProtocolViolation(ProtocolViolation::UnknownPacketKind))
    );
    assert_eq!(
        ConnectionStage::Login.read_kind(Bound::Clientbound, &kind_bytes(1), 0),
        Err(ProtocolError::ProtocolViolation(ProtocolViolation::UnknownPacketKind))
    );
    assert_eq!(
        ConnectionStage::Handshake.read_kind(Bound::Clientbound, &kind_bytes(0), 0),
        Err(ProtocolError::ProtocolViolation(ProtocolViolation::UnknownPacketKind))
    );
    assert_eq!(ConnectionStage::Handshake.read_kind(Bound::Serverbound, &kind_bytes(0), 0), Ok((0, 1)));
    assert_eq!(ConnectionStage::Play.read_kind(Bound::Clientbound, &[], 0), Err(ProtocolError::Io));
}

#[test]
fn packet_ids_follow_declaration_order() {
    assert_eq!(PlayClientbound::SynchonizeSnakePositionAndDirection.id(), 0);
    assert_eq!(PlayClientbound::RemoveEntities.id(), 2);
    assert_eq!(PlayClientbound::SetDrawDistance.id(), 5);
    assert_eq!(PlayClientbound::from_id(1), Some(PlayClientbound::SpawnEntity));
    assert_eq!(PlayClientbound::from_id(6), None);
    assert_eq!(LoginServerbound::from_id(0), Some(LoginServerbound::Login));
    assert_eq!(ConfigureServerbound::from_id(1), None);
    assert_eq!(PlayServerbound::from_id(0), Some(PlayServerbound::TurnSnake));
}

#[test]
fn spawn_entity_payload_round_trip() {
    let data = SpawnEntityData { id: VarLong(-3), x: UVarInt(300), y: UVarInt(7), direction: Byte(2) };
    let mut buf = Vec::new();
    data.encode(&mut buf);
    assert_eq!(buf, vec![0xfd, 0xff, 0xff, 0xff, 0xff, 0xff, 0xff, 0xff, 0xff, 0x01, 0xac, 0x02, 0x07, 0x02]);
    let (back, n) = SpawnEntityData::decode(&buf, 0).unwrap();
    assert_eq!(n, buf.len());
    assert_eq!((back.id.0, back.x.0, back.y.0, back.direction.0), (-3, 300, 7, 2));
    assert!(matches!(SpawnEntityData::decode(&buf[..12], 0), Err(ProtocolError::Io)));
}

#[test]
fn synchronize_payload_round_trip() {
    let data = SynchonizePositionAndDirectionData { x: UVarInt(1), y: UVarInt(128), direction: Byte(0) };
    let mut buf = Vec::new();
    data.encode(&mut buf);
    assert_eq!(buf, vec![0x01, 0x80, 0x01, 0x00]);
    let (back, n) = SynchonizePositionAndDirectionData::decode(&buf, 0).unwrap();
    assert_eq!(n, 4);
    assert_eq!((back.x.0, back.y.0, back.direction.0), (1, 128, 0));
}

#[test]
fn remove_entities_payload_round_trip() {
    let data = RemoveEntitiesData {
        entities: PrefixedArray { length: VarInt(2), data: vec![VarLong(10), VarLong(1 << 40)] },
    };
    let mut buf = Vec::new();
    data.encode(&mut buf);
    let (back, n) = RemoveEntitiesData::decode(&buf, 0).unwrap();
    assert_eq!(n, buf.len());
    assert_eq!(back.entities.length.0, 2);
    assert_eq!(back.entities.data[1].0, 1 << 40);
}

#[test]
fn decode_packet_reads_kind_then_payload() {
    let mut buf = kind_bytes(PlayClientbound::SpawnEntity.id());
    SpawnEntityData { id: VarLong(12), x: UVarInt(3), y: UVarInt(4), direction: Byte(1) }.encode(&mut buf);
    let (packet, n) = decode_packet(ConnectionStage::Play, Bound::Clientbound, &buf, 0).unwrap();
    assert_eq!(n, buf.len());
    match packet {
        Packet::SpawnEntity(d) => assert_eq!((d.id.0, d.x.0, d.y.0, d.direction.0), (12, 3, 4, 1)),
        _ => panic!("expected SpawnEntity"),
    }
}

#[test]
fn decode_packet_bare_kinds_and_errors() {
    let zero = kind_bytes(0);
    assert!(matches!(
        decode_packet(ConnectionStage::Handshake, Bound::Serverbound, &zero, 0),
        Ok((Packet::Handshake, 1))
    ));
    assert!(matches!(
        decode_packet(ConnectionStage::Play, Bound::Serverbound, &zero, 0),
        Ok((Packet::TurnSnake, 1))
    ));
    assert!(matches!(
        decode_packet(ConnectionStage::Configuration, Bound::Clientbound, &zero, 0),
        Ok((Packet::ConfigureAcknowledged, 1))
    ));
    assert!(matches!(
        decode_packet(ConnectionStage::Login, Bound::Serverbound, &kind_bytes(1), 0),
        Err(ProtocolError::ProtocolViolation(ProtocolViolation::UnknownPacketKind))
    ));
    // A SpawnEntity discriminant with a truncated payload.
    assert!(matches!(
        decode_packet(ConnectionStage::Play, Bound::Clientbound, &[0x01, 0x05], 0),
        Err(ProtocolError::Io)
    ));
}
