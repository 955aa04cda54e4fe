//! The packet catalogue of each connection stage and direction, and the stage machine that
//! decides which packets are legal.
use crate::codec::{decoded_as, Codec};
use crate::error::{ProtocolError, ProtocolViolation};
use crate::primitives::{Byte, PrefixedArray};
use crate::varint::{parse_uvarint, UVarInt, VarLong};
use vstd::prelude::*;

verus! {

/// An entity identity on the wire.
pub type Id = VarLong;

/// Packets the client sends while logging in.
#[derive(Debug, Clone, Copy, PartialEq, Eq, Structural)]
pub enum LoginServerbound {
    /// Opens the dialogue with the server.
    Login,
}

/// Packets the client sends while being configured.
#[derive(Debug, Clone, Copy, PartialEq, Eq, Structural)]
pub enum ConfigureServerbound {
    /// Tells the server how far the client draws, so it knows which chunks to send.
    SetDrawDistance,
}

/// Packets the client sends while playing.
#[derive(Debug, Clone, Copy, PartialEq, Eq, Structural)]
pub enum PlayServerbound {
    /// Turns the player's snake.
    TurnSnake,
}

/// Packets the server sends while the client logs in.
#[derive(Debug, Clone, Copy, PartialEq, Eq, Structural)]
pub enum LoginClientbound {
    /// Moves the connection on to configuration.
    LoginSuccess,
}

/// Packets the server sends while the client is configured.
#[derive(Debug, Clone, Copy, PartialEq, Eq, Structural)]
pub enum ConfigureClientbound {
    /// Moves the connection on to play.
    ConfigureAcknowledged,
}

/// Packets the server sends while the client plays.
#[derive(Debug, Clone, Copy, PartialEq, Eq, Structural)]
pub enum PlayClientbound {
    /// The player's own snake: position and direction.
    SynchonizeSnakePositionAndDirection,
    /// Another entity came into view.
    SpawnEntity,
    /// Entities left view or died.
    RemoveEntities,
    /// Another entity moved or turned.
    UpdateEntityPositionAndDirection,
    /// Apples dropped by a dead snake, in compact form.
    AppleSpawnButch,
    /// The draw distance changed.
    SetDrawDistance,
}

pub struct Login;

pub struct SetDrawDistanceConfigure;

pub struct TurnSnake;

pub struct LoginSuccess;

pub struct ConfigureAcknowledged;

pub struct SynchonizePositionAndDirection;

pub struct SpawnEntity;

pub struct RemoveEntities;

pub struct UpdateEntityPositionAndDirection;

pub struct AppleSpawnButch;

pub struct SetDrawDistancePlay;

pub struct LoginData {}

pub struct SetDrawDistanceConfigureData {}

pub struct TurnSnakeData {}

pub struct LoginSuccessData;

pub struct ConfigureAcknowledgedData;

/// Payload of `SynchonizeSnakePositionAndDirection`.
pub struct SynchonizePositionAndDirectionData {
    pub x: UVarInt,
    pub y: UVarInt,
    pub direction: Byte,
}

/// Payload of `SpawnEntity`.
pub struct SpawnEntityData {
    pub id: Id,
    pub x: UVarInt,
    pub y: UVarInt,
    pub direction: Byte,
}

/// Payload of `RemoveEntities`: the identities of entities that left view or died.
pub struct RemoveEntitiesData {
    pub entities: PrefixedArray<Id>,
}

pub struct UpdateEntityPositionAndDirectionData {}

pub struct AppleSpawnButchData {}

pub struct SetDrawDistancePlayData {}


/// Wire layout of `SynchonizePositionAndDirectionData`: x, y, direction.
pub type SynchonizeWire = (UVarInt, (UVarInt, Byte));

/// Wire layout of `SpawnEntityData`: identity, x, y, direction.
pub type SpawnEntityWire = (Id, (UVarInt, (UVarInt, Byte)));

impl View for SynchonizePositionAndDirectionData {
    type V = (u32, (u32, u8));

    open spec fn view(&self) -> (u32, (u32, u8)) {
        (self.x.0, (self.y.0, self.direction.0))
    }
}

impl Codec for SynchonizePositionAndDirectionData {
    open spec fn encodable(v: (u32, (u32, u8))) -> bool {
        <SynchonizeWire as Codec>::encodable(v)
    }

    open spec fn encoding(v: (u32, (u32, u8))) -> Seq<u8> {
        <SynchonizeWire as Codec>::encoding(v)
    }

    open spec fn parse(s: Seq<u8>) -> Result<((u32, (u32, u8)), nat), ProtocolError> {
        <SynchonizeWire as Codec>::parse(s)
    }

    proof fn lemma_parse_extent(s: Seq<u8>) {
        <SynchonizeWire as Codec>::lemma_parse_extent(s);
    }

    proof fn lemma_round_trip(v: (u32, (u32, u8)), rest: Seq<u8>) {
        <SynchonizeWire as Codec>::lemma_round_trip(v, rest);
    }

    fn encode(&self, out: &mut Vec<u8>) {
        let wire: SynchonizeWire = (self.x, (self.y, self.direction));
        wire.encode(out);
    }

    fn decode(buf: &[u8], pos: usize) -> (r: Result<(SynchonizePositionAndDirectionData, usize), ProtocolError>) {
        match <SynchonizeWire as Codec>::decode(buf, pos) {
            Ok(((x, (y, direction)), n)) => Ok((SynchonizePositionAndDirectionData { x, y, direction }, n)),
            Err(e) => Err(e),
        }
    }
}

impl View for SpawnEntityData {
    type V = (i64, (u32, (u32, u8)));

    open spec fn view(&self) -> (i64, (u32, (u32, u8))) {
        (self.id.0, (self.x.0, (self.y.0, self.direction.0)))
    }
}

impl Codec for SpawnEntityData {
    open spec fn encodable(v: (i64, (u32, (u32, u8)))) -> bool {
        <SpawnEntityWire as Codec>::encodable(v)
    }

    open spec fn encoding(v: (i64, (u32, (u32, u8)))) -> Seq<u8> {
        <SpawnEntityWire as Codec>::encoding(v)
    }

    open spec fn parse(s: Seq<u8>) -> Result<((i64, (u32, (u32, u8))), nat), ProtocolError> {
        <SpawnEntityWire as Codec>::parse(s)
    }

    proof fn lemma_parse_extent(s: Seq<u8>) {
        <SpawnEntityWire as Codec>::lemma_parse_extent(s);
    }

    proof fn lemma_round_trip(v: (i64, (u32, (u32, u8))), rest: Seq<u8>) {
        <SpawnEntityWire as Codec>::lemma_round_trip(v, rest);
    }

    fn encode(&self, out: &mut Vec<u8>) {
        let wire: SpawnEntityWire = (self.id, (self.x, (self.y, self.direction)));
        wire.encode(out);
    }

    fn decode(buf: &[u8], pos: usize) -> (r: Result<(SpawnEntityData, usize), ProtocolError>) {
        match <SpawnEntityWire as Codec>::decode(buf, pos) {
            Ok(((id, (x, (y, direction))), n)) => Ok((SpawnEntityData { id, x, y, direction }, n)),
            Err(e) => Err(e),
        }
    }
}

impl View for RemoveEntitiesData {
    type V = (i32, Seq<i64>);

    open spec fn view(&self) -> (i32, Seq<i64>) {
        self.entities@
    }
}

impl Codec for RemoveEntitiesData {
    open spec fn encodable(v: (i32, Seq<i64>)) -> bool {
        PrefixedArray::<Id>::encodable(v)
    }

    open spec fn encoding(v: (i32, Seq<i64>)) -> Seq<u8> {
        PrefixedArray::<Id>::encoding(v)
    }

    open spec fn parse(s: Seq<u8>) -> Result<((i32, Seq<i64>), nat), ProtocolError> {
        PrefixedArray::<Id>::parse(s)
    }

    proof fn lemma_parse_extent(s: Seq<u8>) {
        PrefixedArray::<Id>::lemma_parse_extent(s);
    }

    proof fn lemma_round_trip(v: (i32, Seq<i64>), rest: Seq<u8>) {
        PrefixedArray::<Id>::lemma_round_trip(v, rest);
    }

    fn encode(&self, out: &mut Vec<u8>) {
        self.entities.encode(out);
    }

    fn decode(buf: &[u8], pos: usize) -> (r: Result<(RemoveEntitiesData, usize), ProtocolError>) {
        match PrefixedArray::<Id>::decode(buf, pos) {
            Ok((entities, n)) => Ok((RemoveEntitiesData { entities }, n)),
            Err(e) => Err(e),
        }
    }
}

/// The stage of a connection; stages only move forward.
#[derive(Debug, Clone, Copy, PartialEq, Eq, Structural)]
pub enum ConnectionStage {
    Handshake,
    Login,
    Configuration,
    Play,
}

/// Which side sends a packet.
#[derive(Debug, Clone, Copy, PartialEq, Eq, Structural)]
pub enum Bound {
    /// Client to server.
    Serverbound,
    /// Server to client.
    Clientbound,
}

/// How many packet kinds `stage` defines for `bound`; their discriminants are `0 ..` that.
pub open spec fn kind_count(stage: ConnectionStage, bound: Bound) -> u32 {
    match (stage, bound) {
        (ConnectionStage::Handshake, Bound::Serverbound) => 1,
        (ConnectionStage::Handshake, Bound::Clientbound) => 0,
        (ConnectionStage::Play, Bound::Clientbound) => 6,
        _ => 1,
    }
}

/// Position in the stage order.
pub open spec fn stage_rank(stage: ConnectionStage) -> int {
    match stage {
        ConnectionStage::Handshake => 0,
        ConnectionStage::Login => 1,
        ConnectionStage::Configuration => 2,
        ConnectionStage::Play => 3,
    }
}

/// The stage after packet `kind` went by `bound` in `stage`: the handshake packet opens
/// login, `LoginSuccess` opens configuration, `ConfigureAcknowledged` opens play; every other
/// packet leaves the stage as it is.
pub open spec fn stage_after(stage: ConnectionStage, bound: Bound, kind: u32) -> ConnectionStage {
    match (stage, bound, kind) {
        (ConnectionStage::Handshake, Bound::Serverbound, 0) => ConnectionStage::Login,
        (ConnectionStage::Login, Bound::Clientbound, 0) => ConnectionStage::Configuration,
        (ConnectionStage::Configuration, Bound::Clientbound, 0) => ConnectionStage::Play,
        _ => stage,
    }
}

/// The discriminant at the start of `s`, checked against what `stage` defines for `bound`.
pub open spec fn parse_kind(stage: ConnectionStage, bound: Bound, s: Seq<u8>) -> Result<
    (u32, nat),
    ProtocolError,
> {
    match parse_uvarint(s) {
        Ok((k, n)) => if k < kind_count(stage, bound) {
            Ok((k, n))
        } else {
            Err(ProtocolError::ProtocolViolation(ProtocolViolation::UnknownPacketKind))
        },
        Err(e) => Err(e),
    }
}

/// Stages never go back: whatever packet goes by, the next stage is the same or later.
pub proof fn lemma_stages_monotonic(stage: ConnectionStage, bound: Bound, kind: u32)
    ensures
        stage_rank(stage) <= stage_rank(stage_after(stage, bound, kind)) <= stage_rank(stage) + 1,
{
}

impl ConnectionStage {
    /// How many packet kinds this stage defines for `bound`.
    pub fn kind_count(self, bound: Bound) -> (r: u32)
        ensures
            r == kind_count(self, bound),
    {
        match (self, bound) {
            (ConnectionStage::Handshake, Bound::Serverbound) => 1,
            (ConnectionStage::Handshake, Bound::Clientbound) => 0,
            (ConnectionStage::Play, Bound::Clientbound) => 6,
            _ => 1,
        }
    }

    /// The stage after packet `kind` went by `bound` in this stage.
    pub fn after(self, bound: Bound, kind: u32) -> (r: ConnectionStage)
        ensures
            r == stage_after(self, bound, kind),
    {
        match (self, bound, kind) {
            (ConnectionStage::Handshake, Bound::Serverbound, 0) => ConnectionStage::Login,
            (ConnectionStage::Login, Bound::Clientbound, 0) => ConnectionStage::Configuration,
            (ConnectionStage::Configuration, Bound::Clientbound, 0) => ConnectionStage::Play,
            _ => self,
        }
    }

    /// Reads a packet discriminant from `buf` at `pos` and checks that this stage defines it
    /// for `bound`; returns it and the number of bytes it took.
    pub fn read_kind(self, bound: Bound, buf: &[u8], pos: usize) -> (r: Result<(u32, usize), ProtocolError>)
        requires
            pos <= buf@.len(),
        ensures
            match parse_kind(self, bound, buf@.skip(pos as int)) {
                Ok((k, n)) => r == Ok::<(u32, usize), ProtocolError>((k, n as usize)),
                Err(e) => r == Err::<(u32, usize), ProtocolError>(e),
            },
    {
        match UVarInt::decode(buf, pos) {
            Ok((k, n)) => {
                if k.0 < self.kind_count(bound) {
                    Ok((k.0, n))
                } else {
                    Err(ProtocolError::ProtocolViolation(ProtocolViolation::UnknownPacketKind))
                }
            },
            Err(e) => Err(e),
        }
    }
}

impl LoginServerbound {
    /// The packet of discriminant `id`, if there is one.
    pub fn from_id(id: u32) -> (r: Option<LoginServerbound>)
        ensures
            r is Some <==> id == 0,
    {
        if id == 0 {
            Some(LoginServerbound::Login)
        } else {
            None
        }
    }
}

impl ConfigureServerbound {
    /// The packet of discriminant `id`, if there is one.
    pub fn from_id(id: u32) -> (r: Option<ConfigureServerbound>)
        ensures
            r is Some <==> id == 0,
    {
        if id == 0 {
            Some(ConfigureServerbound::SetDrawDistance)
        } else {
            None
        }
    }
}

impl PlayServerbound {
    /// The packet of discriminant `id`, if there is one.
    pub fn from_id(id: u32) -> (r: Option<PlayServerbound>)
        ensures
            r is Some <==> id == 0,
    {
        if id == 0 {
            Some(PlayServerbound::TurnSnake)
        } else {
            None
        }
    }
}

impl LoginClientbound {
    /// The discriminant of this packet.
    pub fn id(self) -> (r: u32)
        ensures
            r == 0,
    {
        0
    }
}

impl ConfigureClientbound {
    /// The discriminant of this packet.
    pub fn id(self) -> (r: u32)
        ensures
            r == 0,
    {
        0
    }
}

/// The discriminant of each server-to-client play packet: its place in declaration order.
pub open spec fn play_clientbound_id(p: PlayClientbound) -> u32 {
    match p {
        PlayClientbound::SynchonizeSnakePositionAndDirection => 0,
        PlayClientbound::SpawnEntity => 1,
        PlayClientbound::RemoveEntities => 2,
        PlayClientbound::UpdateEntityPositionAndDirection => 3,
        PlayClientbound::AppleSpawnButch => 4,
        PlayClientbound::SetDrawDistance => 5,
    }
}

impl PlayClientbound {
    /// The discriminant of this packet.
    pub fn id(self) -> (r: u32)
        ensures
            r == play_clientbound_id(self),
    {
        match self {
            PlayClientbound::SynchonizeSnakePositionAndDirection => 0,
            PlayClientbound::SpawnEntity => 1,
            PlayClientbound::RemoveEntities => 2,
            PlayClientbound::UpdateEntityPositionAndDirection => 3,
            PlayClientbound::AppleSpawnButch => 4,
            PlayClientbound::SetDrawDistance => 5,
        }
    }

    /// The packet of discriminant `id`, if there is one.
    pub fn from_id(id: u32) -> (r: Option<PlayClientbound>)
        ensures
            match r {
                Some(p) => play_clientbound_id(p) == id,
                None => id >= 6,
            },
    {
        match id {
            0 => Some(PlayClientbound::SynchonizeSnakePositionAndDirection),
            1 => Some(PlayClientbound::SpawnEntity),
            2 => Some(PlayClientbound::RemoveEntities),
            3 => Some(PlayClientbound::UpdateEntityPositionAndDirection),
            4 => Some(PlayClientbound::AppleSpawnButch),
            5 => Some(PlayClientbound::SetDrawDistance),
            _ => None,
        }
    }
}


/// A decoded packet of any stage and direction.
pub enum Packet {
    /// Handshake, client to server: opens the connection.
    Handshake,
    /// Login, client to server.
    Login,
    /// Login, server to client.
    LoginSuccess,
    /// Configuration, client to server.
    SetDrawDistanceConfigure,
    /// Configuration, server to client.
    ConfigureAcknowledged,
    /// Play, client to server.
    TurnSnake,
    /// Play, server to client.
    SynchonizeSnakePositionAndDirection(SynchonizePositionAndDirectionData),
    /// Play, server to client.
    SpawnEntity(SpawnEntityData),
    /// Play, server to client.
    RemoveEntities(RemoveEntitiesData),
    /// Play, server to client.
    UpdateEntityPositionAndDirection,
    /// Play, server to client.
    AppleSpawnButch,
    /// Play, server to client.
    SetDrawDistancePlay,
}

/// The packet kind `kind` of `stage` and `bound` that carries no payload, if it is one.
pub open spec fn bare_packet(stage: ConnectionStage, bound: Bound, kind: u32) -> Option<Packet> {
    match (stage, bound, kind) {
        (ConnectionStage::Handshake, Bound::Serverbound, 0) => Some(Packet::Handshake),
        (ConnectionStage::Login, Bound::Serverbound, 0) => Some(Packet::Login),
        (ConnectionStage::Login, Bound::Clientbound, 0) => Some(Packet::LoginSuccess),
        (ConnectionStage::Configuration, Bound::Serverbound, 0) => Some(Packet::SetDrawDistanceConfigure),
        (ConnectionStage::Configuration, Bound::Clientbound, 0) => Some(Packet::ConfigureAcknowledged),
        (ConnectionStage::Play, Bound::Serverbound, 0) => Some(Packet::TurnSnake),
        (ConnectionStage::Play, Bound::Clientbound, 3) => Some(Packet::UpdateEntityPositionAndDirection),
        (ConnectionStage::Play, Bound::Clientbound, 4) => Some(Packet::AppleSpawnButch),
        (ConnectionStage::Play, Bound::Clientbound, 5) => Some(Packet::SetDrawDistancePlay),
        _ => None,
    }
}

/// `r` is what decoding payload `p`, which starts after a discriminant of `n` bytes, gives.
pub open spec fn payload_decoded<T: Codec>(
    r: Result<(Packet, usize), ProtocolError>,
    p: Result<(T::V, nat), ProtocolError>,
    n: nat,
    view_of: spec_fn(Packet) -> Option<T::V>,
) -> bool {
    match p {
        Ok((v, m)) => r matches Ok((packet, t)) && view_of(packet) == Some(v) && t == n + m,
        Err(e) => r == Err::<(Packet, usize), ProtocolError>(e),
    }
}

/// The payload of a `SynchonizeSnakePositionAndDirection` packet, viewed.
pub open spec fn synchronize_view(p: Packet) -> Option<(u32, (u32, u8))> {
    match p {
        Packet::SynchonizeSnakePositionAndDirection(d) => Some(d@),
        _ => None,
    }
}

/// The payload of a `SpawnEntity` packet, viewed.
pub open spec fn spawn_view(p: Packet) -> Option<(i64, (u32, (u32, u8)))> {
    match p {
        Packet::SpawnEntity(d) => Some(d@),
        _ => None,
    }
}

/// The payload of a `RemoveEntities` packet, viewed.
pub open spec fn remove_view(p: Packet) -> Option<(i32, Seq<i64>)> {
    match p {
        Packet::RemoveEntities(d) => Some(d@),
        _ => None,
    }
}

/// Reads one packet sent by `bound` in `stage` from `buf` at `pos`: its discriminant, checked
/// against the stage, then the payload that kind carries. Returns the packet and the number
/// of bytes it took.
pub fn decode_packet(stage: ConnectionStage, bound: Bound, buf: &[u8], pos: usize) -> (r: Result<
    (Packet, usize),
    ProtocolError,
>)
    requires
        pos <= buf@.len(),
    ensures
        match parse_kind(stage, bound, buf@.skip(pos as int)) {
            Err(e) => r == Err::<(Packet, usize), ProtocolError>(e),
            Ok((k, n)) => {
                let rest = buf@.skip(pos as int).skip(n as int);
                match (stage, bound, k) {
                    (ConnectionStage::Play, Bound::Clientbound, 0) => payload_decoded::<
                        SynchonizePositionAndDirectionData,
                    >(r, SynchonizePositionAndDirectionData::parse(rest), n, |p| synchronize_view(p)),
                    (ConnectionStage::Play, Bound::Clientbound, 1) => payload_decoded::<
                        SpawnEntityData,
                    >(r, SpawnEntityData::parse(rest), n, |p| spawn_view(p)),
                    (ConnectionStage::Play, Bound::Clientbound, 2) => payload_decoded::<
                        RemoveEntitiesData,
                    >(r, RemoveEntitiesData::parse(rest), n, |p| remove_view(p)),
                    _ => r matches Ok((packet, t)) && bare_packet(stage, bound, k) == Some(packet)
                        && t == n,
                }
            },
        },
{
    let (kind, n) = match stage.read_kind(bound, buf, pos) {
        Ok(x) => x,
        Err(e) => {
            return Err(e);
        },
    };
    let total = buf.len();
    let ghost s = buf@.skip(pos as int);
    proof {
        UVarInt::lemma_parse_extent(s);
        assert(buf@.skip((pos + n) as int) =~= s.skip(n as int));
        SynchonizePositionAndDirectionData::lemma_parse_extent(s.skip(n as int));
        SpawnEntityData::lemma_parse_extent(s.skip(n as int));
        RemoveEntitiesData::lemma_parse_extent(s.skip(n as int));
    }
    match (stage, bound, kind) {
        (ConnectionStage::Play, Bound::Clientbound, 0) => {
            match SynchonizePositionAndDirectionData::decode(buf, pos + n) {
                Ok((d, m)) => Ok((Packet::SynchonizeSnakePositionAndDirection(d), n + m)),
                Err(e) => Err(e),
            }
        },
        (ConnectionStage::Play, Bound::Clientbound, 1) => {
            match SpawnEntityData::decode(buf, pos + n) {
                Ok((d, m)) => Ok((Packet::SpawnEntity(d), n + m)),
                Err(e) => Err(e),
            }
        },
        (ConnectionStage::Play, Bound::Clientbound, 2) => {
            match RemoveEntitiesData::decode(buf, pos + n) {
                Ok((d, m)) => Ok((Packet::RemoveEntities(d), n + m)),
                Err(e) => Err(e),
            }
        },
        (ConnectionStage::Play, Bound::Clientbound, 3) => Ok((Packet::UpdateEntityPositionAndDirection, n)),
        (ConnectionStage::Play, Bound::Clientbound, 4) => Ok((Packet::AppleSpawnButch, n)),
        (ConnectionStage::Play, Bound::Clientbound, _) => Ok((Packet::SetDrawDistancePlay, n)),
        (ConnectionStage::Play, Bound::Serverbound, _) => Ok((Packet::TurnSnake, n)),
        (ConnectionStage::Configuration, Bound::Clientbound, _) => Ok((Packet::ConfigureAcknowledged, n)),
        (ConnectionStage::Configuration, Bound::Serverbound, _) => Ok((Packet::SetDrawDistanceConfigure, n)),
        (ConnectionStage::Login, Bound::Clientbound, _) => Ok((Packet::LoginSuccess, n)),
        (ConnectionStage::Login, Bound::Serverbound, _) => Ok((Packet::Login, n)),
        (ConnectionStage::Handshake, _, _) => Ok((Packet::Handshake, n)),
    }
}

} // verus!
