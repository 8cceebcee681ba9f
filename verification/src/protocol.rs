//! Types and constants shared by every process of the system, and the
//! payloads that more than one of them reads or writes.
use vstd::prelude::*;
use crate::wire::{
    le_u16, le_u32, read_u16_le, read_u32_le, u16_le, push_u16_le, push_bytes, slice_to_vec,
};
use crate::text::{name_field, field_name, push_name_field, read_name_field};

verus! {

/// Whether a game server still takes players.
#[derive(Clone, Copy, Debug, PartialEq, Eq, Structural)]
pub enum ServerStatus {
    Available,
    Full,
}

/// Life cycle of a game server.
#[derive(Clone, Copy, Debug, PartialEq, Eq, Structural)]
pub enum ServerState {
    WarmUp,
    Idle,
    Running,
    Stopping,
}

/// What a game server reports of itself to the orchestrator.
/// `id` is the server's UUID as its 128-bit value.
pub struct Heartbeat {
    pub id: u128,
    pub ip: String,
    pub port: u16,
    pub zone: String,
    pub player_count: usize,
    pub max_players: usize,
    pub status: ServerStatus,
    pub state: ServerState,
}

pub const INPUT_LEFT: u8 = 0b00000001;
pub const INPUT_RIGHT: u8 = 0b00000010;
pub const INPUT_UP: u8 = 0b00000100;
pub const INPUT_DOWN: u8 = 0b00001000;

/// The last sixteen inputs of a client, newest first.
pub struct ClientInput {
    pub client_id: u32,
    pub sequence_id: u32,
    pub input: [u8; 16],
}

/// A client's request to enter the world at a position (`f32` bit patterns).
#[derive(Clone, Copy, Debug, PartialEq, Eq, Structural)]
pub struct ClientInit {
    pub client_id: u32,
    pub pos_x: u32,
    pub pos_y: u32,
}

/// A message that the broker fans out to the subscribers of a topic.
pub struct Broadcast {
    pub playload_len: u16,
    pub playload: Vec<u8>,
}

pub const BROK_IP: &'static str = "127.0.0.1";
pub const BROK_PORT: u16 = 8080;

pub const ORCH_IP: &'static str = "127.0.0.1";
pub const ORCH_PORT: u16 = 22555;

pub const PAYLOAD_CROSSING_ALERT: u8 = 0x99;
pub const PAYLOAD_BOOT_SHARD: u8 = 0x90;
pub const PAYLOAD_WAKEUP_COMMAND: u8 = 0x91;

/// A service announces its name to the broker.
pub const TAG_ADMIN_CONNECT: u8 = 0x0A;
/// A service asks the broker to deliver a payload to another service.
pub const TAG_ADMIN_ROUTE_SEND: u8 = 0x0B;
/// The broker delivers a payload routed by another service.
pub const TAG_ADMIN_ROUTE_RECEIVE: u8 = 0x0C;

/// A player close to the border of its shard, and the shards around it.
pub struct CrossingAlertData {
    pub client_id: u32,
    pub involved_shards: Vec<u32>,
}

/// What a crossing-alert payload denotes: `None` when it is not one or is
/// cut short, else the client id and the shard ids it lists.
/// Layout: tag `0x99`, client id (u32 LE), count `n` (u8), `n` shard ids (u32 LE).
pub open spec fn parse_crossing_alert(data: Seq<u8>) -> Option<(u32, Seq<u32>)> {
    if data.len() < 6 || data[0] != PAYLOAD_CROSSING_ALERT {
        None
    } else if data.len() < 6 + 4 * (data[5] as int) {
        None
    } else {
        Some(
            (
                le_u32(data, 1) as u32,
                Seq::new(data[5] as nat, |i: int| le_u32(data, 6 + 4 * i) as u32),
            ),
        )
    }
}

impl CrossingAlertData {
    /// Reads a crossing alert from the raw bytes relayed by the broker;
    /// `None` when the bytes are not one or are cut short.
    pub fn from_bytes(data: &[u8]) -> (r: Option<CrossingAlertData>)
        ensures
            match parse_crossing_alert(data@) {
                None => r.is_none(),
                Some((id, shards)) => r matches Some(a) && a.client_id == id
                    && a.involved_shards@ == shards,
            },
    {
        if data.len() == 0 || data[0] != PAYLOAD_CROSSING_ALERT || data.len() < 6 {
            return None;
        }
        let client_id = read_u32_le(data, 1);
        let num_shards = data[5] as usize;
        if data.len() < 6 + num_shards * 4 {
            return None;
        }
        let mut involved_shards: Vec<u32> = Vec::new();
        let mut offset: usize = 6;
        let mut k: usize = 0;
        while k < num_shards
            invariant
                num_shards == data@[5],
                6 + num_shards * 4 <= data@.len(),
                k <= num_shards,
                offset == 6 + 4 * k,
                involved_shards@.len() == k,
                forall|i: int|
                    0 <= i < k ==> #[trigger] involved_shards@[i] == le_u32(data@, 6 + 4 * i),
            decreases num_shards - k,
        {
            let shard_id = read_u32_le(data, offset);
            involved_shards.push(shard_id);
            offset = offset + 4;
            k = k + 1;
        }
        let r = CrossingAlertData { client_id, involved_shards };
        proof {
            let shards = Seq::new(data@[5] as nat, |i: int| le_u32(data@, 6 + 4 * i) as u32);
            assert(r.involved_shards@ =~= shards);
        }
        Some(r)
    }
}

/// The name by which the game server whose UUID text is `uuid` is known
/// to the broker.
pub open spec fn dgs_name(uuid: Seq<char>) -> Seq<char> {
    seq!['d', 'g', 's', '_'] + uuid
}

/// The frame by which a service announces its name to the broker.
pub open spec fn admin_connect_frame(name: Seq<char>) -> Seq<u8> {
    seq![TAG_ADMIN_CONNECT] + name_field(name)
}

/// The frame by which a service asks the broker to deliver `payload` to the
/// service named `target`: tag, target name field, payload length (u16 LE,
/// the length cut to 16 bits), payload.
pub open spec fn route_frame(target: Seq<char>, payload: Seq<u8>) -> Seq<u8> {
    seq![TAG_ADMIN_ROUTE_SEND] + name_field(target) + u16_le(payload.len() as u16) + payload
}

/// What the broker reads in the body (after the tag) of a routing request:
/// the target's name and the payload, or `None` when cut short.
pub open spec fn parse_route(rest: Seq<u8>) -> Option<(Seq<char>, Seq<u8>)> {
    if rest.len() < 34 {
        None
    } else if rest.len() < 34 + le_u16(rest, 32) {
        None
    } else {
        Some((field_name(rest.subrange(0, 32)), rest.subrange(34, 34 + le_u16(rest, 32))))
    }
}

/// The frame in which the broker hands a routed payload to its target.
pub open spec fn routed_frame(payload: Seq<u8>) -> Seq<u8> {
    seq![TAG_ADMIN_ROUTE_RECEIVE] + payload
}

/// Builds the frame that announces `name` to the broker.
pub fn build_admin_connect(name: &str) -> (r: Vec<u8>)
    ensures
        r@ == admin_connect_frame(name@),
{
    let mut out: Vec<u8> = Vec::new();
    out.push(TAG_ADMIN_CONNECT);
    push_name_field(&mut out, name);
    assert(out@ =~= admin_connect_frame(name@));
    out
}

/// Builds the frame that asks the broker to deliver `payload` to `target`.
pub fn build_route(target: &str, payload: &[u8]) -> (r: Vec<u8>)
    ensures
        r@ == route_frame(target@, payload@),
{
    let mut out: Vec<u8> = Vec::new();
    out.push(TAG_ADMIN_ROUTE_SEND);
    push_name_field(&mut out, target);
    push_u16_le(&mut out, payload.len() as u16);
    push_bytes(&mut out, payload);
    assert(out@ =~= route_frame(target@, payload@));
    out
}

/// Reads the body of a routing request.
pub fn read_route(rest: &[u8]) -> (r: Option<(String, Vec<u8>)>)
    ensures
        match parse_route(rest@) {
            None => r.is_none(),
            Some((name, payload)) => r matches Some((n, p)) && n@ == name && p@ == payload,
        },
{
    if rest.len() < 34 {
        return None;
    }
    let target = read_name_field(rest, 0);
    let payload_len = read_u16_le(rest, 32) as usize;
    if rest.len() < 34 + payload_len {
        return None;
    }
    let payload = slice_to_vec(rest, 34, 34 + payload_len);
    Some((target, payload))
}

/// Builds the frame that hands a routed payload to its target.
pub fn build_routed(payload: &[u8]) -> (r: Vec<u8>)
    ensures
        r@ == routed_frame(payload@),
{
    let mut out: Vec<u8> = Vec::new();
    out.push(TAG_ADMIN_ROUTE_RECEIVE);
    push_bytes(&mut out, payload);
    assert(out@ =~= routed_frame(payload@));
    out
}

/// The broadcast frame of a payload: tag `0x04`, length (u16 LE, cut to 16
/// bits), payload.
pub open spec fn broadcast_frame(payload: Seq<u8>) -> Seq<u8> {
    seq![0x04u8] + u16_le(payload.len() as u16) + payload
}

/// What a client reads in the body (after the tag) of a broadcast frame:
/// the payload, or `None` when cut short.
pub open spec fn parse_broadcast(body: Seq<u8>) -> Option<Seq<u8>> {
    if body.len() < 2 {
        None
    } else if body.len() < 2 + le_u16(body, 0) {
        None
    } else {
        Some(body.subrange(2, 2 + le_u16(body, 0)))
    }
}

impl Broadcast {
    /// The broadcast of a payload, its length cut to 16 bits as the frame
    /// carries it.
    pub fn new(payload: &[u8]) -> (r: Broadcast)
        ensures
            r.playload@ == payload@,
            r.playload_len == payload@.len() as u16,
    {
        Broadcast { playload_len: payload.len() as u16, playload: slice_to_vec(payload, 0, payload.len()) }
    }

    /// The frame that carries this broadcast.
    pub fn to_frame(&self) -> (r: Vec<u8>)
        ensures
            r@ == seq![0x04u8] + u16_le(self.playload_len) + self.playload@,
    {
        let mut out: Vec<u8> = Vec::new();
        out.push(0x04u8);
        push_u16_le(&mut out, self.playload_len);
        push_bytes(&mut out, self.playload.as_slice());
        assert(out@ =~= seq![0x04u8] + u16_le(self.playload_len) + self.playload@);
        out
    }

    /// Reads a broadcast from the body of its frame (after the tag).
    pub fn from_frame(body: &[u8]) -> (r: Option<Broadcast>)
        ensures
            match parse_broadcast(body@) {
                None => r.is_none(),
                Some(p) => r matches Some(b) && b.playload@ == p && b.playload_len == p.len(),
            },
    {
        if body.len() < 2 {
            return None;
        }
        let len = read_u16_le(body, 0);
        if body.len() < 2 + len as usize {
            return None;
        }
        Some(Broadcast { playload_len: len, playload: slice_to_vec(body, 2, 2 + len as usize) })
    }
}

/// A payload of at most 65535 bytes comes out of its broadcast frame as it
/// went in.
pub proof fn lemma_broadcast_roundtrip(payload: Seq<u8>)
    requires
        payload.len() <= u16::MAX,
    ensures
        parse_broadcast(broadcast_frame(payload).drop_first()) == Some(payload),
{
    let f = broadcast_frame(payload);
    let body = f.drop_first();
    crate::wire::lemma_u16_le_roundtrip(payload.len() as u16);
    assert(body =~= u16_le(payload.len() as u16) + payload);
    assert(le_u16(body, 0) == le_u16(u16_le(payload.len() as u16), 0));
    assert(body.subrange(2, 2 + payload.len() as int) =~= payload);
}

/// A routed payload of at most 65535 bytes reaches the broker whole, with
/// the name field of its target.
pub proof fn lemma_route_roundtrip(target: Seq<char>, payload: Seq<u8>)
    requires
        payload.len() <= u16::MAX,
    ensures
        parse_route(route_frame(target, payload).drop_first()) == Some(
            (field_name(name_field(target)), payload),
        ),
{
    let body = route_frame(target, payload).drop_first();
    let nf = name_field(target);
    let lb = u16_le(payload.len() as u16);
    crate::wire::lemma_u16_le_roundtrip(payload.len() as u16);
    assert(body =~= nf + lb + payload);
    assert(body.subrange(0, 32) =~= nf);
    assert(body[32] == lb[0] && body[33] == lb[1]);
    assert(le_u16(body, 32) == le_u16(lb, 0));
    assert(body.subrange(34, 34 + payload.len() as int) =~= payload);
}

} // verus!
