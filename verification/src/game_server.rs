//! A game server (one shard): what it does with each network event, and
//! what it sends on each tick. The functions here decide; the caller
//! performs the returned actions on the sockets.
use vstd::prelude::*;
use crate::wire::{le_u32, read_u32_le, u32_le, push_u32_le, slice_to_vec};
use crate::geometry::{Vec2, f32_lt, f32_le, f32_bits_lt};
use crate::entities::{EntityAuthority, PlayerEntity, PlayerRegistry};
use crate::server_config::ServerConfig;
use crate::protocol::{
    ServerState, Heartbeat, ClientInit, ClientInput, CrossingAlertData, parse_crossing_alert,
    TAG_ADMIN_ROUTE_RECEIVE, PAYLOAD_WAKEUP_COMMAND, PAYLOAD_CROSSING_ALERT, admin_connect_frame,
    build_admin_connect, route_frame, build_route, dgs_name,
};
use crate::shard_messages::{
    ShardMessage, is_shard_tag, body_long_enough, read_as, resolved, frames_view, HandoffRequest,
    GhostUpdate, InterShardMessage, message_frame,
};
use crate::text::{decimal, u32_to_decimal, shard_topic, shard_topic_string};
use crate::uuids::{uuid_text, uuid_to_string};
use crate::idset::{lemma_prefix_grows, lemma_next_is_new, lemma_push_new};

verus! {

/// The connections and streams of a game server to the orchestrator and
/// to the broker, once established.
#[derive(Clone, Copy, Debug, PartialEq, Eq, Structural)]
pub struct GameSocket {
    pub connection_orch: Option<u64>,
    pub stream_orch: Option<u64>,
    pub connection_broker: Option<u64>,
    pub stream_broker: Option<u64>,
}

/// Something for the caller to do on the game server's behalf.
#[derive(Debug, PartialEq, Eq)]
pub enum ServerAction {
    /// Send a frame on a connection and stream.
    Send { connection: u64, stream: u64, data: Vec<u8> },
    /// Pause this many milliseconds.
    Sleep { millis: u64 },
    /// Open a stream on a connection, reliable or not.
    CreateStream { connection: u64, reliable: bool },
    /// Decode a serialised `ClientInit` and pass it to `spawn_client`.
    DecodeClientInit { bytes: Vec<u8> },
    /// Decode a serialised `ClientInput` and pass it to `apply_client_input`.
    DecodeClientInput { bytes: Vec<u8> },
}

/// An action as values.
pub enum ActionView {
    Send(u64, u64, Seq<u8>),
    Sleep(u64),
    CreateStream(u64, bool),
    DecodeClientInit(Seq<u8>),
    DecodeClientInput(Seq<u8>),
}

pub open spec fn action_view(a: ServerAction) -> ActionView {
    match a {
        ServerAction::Send { connection, stream, data } => ActionView::Send(connection, stream, data@),
        ServerAction::Sleep { millis } => ActionView::Sleep(millis),
        ServerAction::CreateStream { connection, reliable } => ActionView::CreateStream(connection, reliable),
        ServerAction::DecodeClientInit { bytes } => ActionView::DecodeClientInit(bytes@),
        ServerAction::DecodeClientInput { bytes } => ActionView::DecodeClientInput(bytes@),
    }
}

pub open spec fn actions_view(v: Seq<ServerAction>) -> Seq<ActionView> {
    v.map_values(|a: ServerAction| action_view(a))
}

/// Everything a game server holds.
pub struct GameServer {
    pub socket: GameSocket,
    pub registry: PlayerRegistry,
    pub config: ServerConfig,
}

/// A game server as values.
pub struct ServerView {
    pub socket: GameSocket,
    pub players: Map<u32, PlayerEntity>,
    pub config: ServerConfig,
}

impl GameServer {
    pub open spec fn view(&self) -> ServerView {
        ServerView { socket: self.socket, players: self.registry@, config: self.config }
    }
}

/// The frames sent to the orchestrator, once its connection and stream are
/// known; dropped before.
pub open spec fn to_orch(s: GameSocket, frames: Seq<Seq<u8>>) -> Seq<ActionView> {
    send_all(s.connection_orch, s.stream_orch, frames)
}

/// The frames sent on a connection and stream, in order, once both are
/// known; dropped before.
pub open spec fn send_all(connection: Option<u64>, stream: Option<u64>, frames: Seq<Seq<u8>>) -> Seq<ActionView> {
    match (connection, stream) {
        (Some(c), Some(st)) => Seq::new(frames.len(), |k: int| ActionView::Send(c, st, frames[k])),
        _ => Seq::empty(),
    }
}

/// A frame sent to the broker, once its connection and stream are known;
/// dropped before.
pub open spec fn to_broker(s: GameSocket, frame: Seq<u8>) -> Seq<ActionView> {
    match (s.connection_broker, s.stream_broker) {
        (Some(c), Some(st)) => seq![ActionView::Send(c, st, frame)],
        _ => Seq::empty(),
    }
}

/// The frame that tells the broker the zone of a shard: tag `0x00`, shard
/// id, min x, min y, max x, max y.
pub open spec fn zone_frame(shard_id: u32, min_x: u32, min_y: u32, max_x: u32, max_y: u32) -> Seq<u8> {
    seq![0x00u8] + u32_le(shard_id) + u32_le(min_x) + u32_le(min_y) + u32_le(max_x) + u32_le(max_y)
}

/// The configuration of a server put in charge of a shard: its zone is the
/// shard id in decimal, its bounds the given ones, its state `Running`.
pub open spec fn in_charge(c: ServerConfig, d: ServerConfig, body: Seq<u8>) -> bool {
    &&& d == ServerConfig {
        zone: d.zone,
        min_x: le_u32(body, 4) as u32,
        min_y: le_u32(body, 8) as u32,
        max_x: le_u32(body, 12) as u32,
        max_y: le_u32(body, 16) as u32,
        state: ServerState::Running,
        ..c
    }
    &&& d.zone@ == decimal(le_u32(body, 0) as nat)
}

/// The zone frame carried by a 20-byte body (shard id, then bounds).
pub open spec fn zone_frame_of(body: Seq<u8>) -> Seq<u8> {
    zone_frame(
        le_u32(body, 0) as u32,
        le_u32(body, 4) as u32,
        le_u32(body, 8) as u32,
        le_u32(body, 12) as u32,
        le_u32(body, 16) as u32,
    )
}

/// What a message from the orchestrator does: an inter-shard message is
/// resolved and its answers go back to the orchestrator; tag `0x55` with a
/// 20-byte body puts the server in charge of a shard and tells the broker
/// its zone; then, and for any other tag, reading stops for this tick.
pub open spec fn orch_phase(
    s0: ServerView,
    s1: ServerView,
    tag: u8,
    body: Seq<u8>,
    acts: Seq<ActionView>,
    stop: bool,
) -> bool {
    if is_shard_tag(tag) {
        &&& s1.socket == s0.socket
        &&& !stop
        &&& exists|m: ShardMessage, frames: Seq<Seq<u8>>|
            read_as(tag, body, m) && resolved(m, s0.players, s0.config, s1.players, s1.config, frames)
                && acts == to_orch(s0.socket, frames)
    } else if tag == 0x55 {
        &&& stop
        &&& s1.socket == s0.socket
        &&& s1.players == s0.players
        &&& if body.len() != 20 {
            s1.config == s0.config && acts == Seq::<ActionView>::empty()
        } else {
            in_charge(s0.config, s1.config, body) && acts == to_broker(s0.socket, zone_frame_of(body))
        }
    } else {
        s1 == s0 && acts == Seq::<ActionView>::empty() && stop
    }
}

/// A player that another shard hands over: pending, at the given
/// position, not moving, not turned, in no other shard.
pub open spec fn pending_player(p: PlayerEntity, id: u32, x: u32, y: u32) -> bool {
    &&& p.id == id
    &&& p.authority == EntityAuthority::PendingHandoff
    &&& p.position == (Vec2 { x, y })
    &&& p.rotation == 0
    &&& p.velocity == (Vec2 { x: 0, y: 0 })
    &&& p.involved_shards@.len() == 0
}

/// A ghost prepared for a player coming from another zone: at the origin,
/// not moving, not turned, in no other shard.
pub open spec fn ghost_at_origin(p: PlayerEntity, id: u32) -> bool {
    &&& p.id == id
    &&& p.authority == EntityAuthority::Ghosted
    &&& p.position == (Vec2 { x: 0, y: 0 })
    &&& p.rotation == 0
    &&& p.velocity == (Vec2 { x: 0, y: 0 })
    &&& p.involved_shards@.len() == 0
}

/// What a crossing alert does to the players: a player this server owns
/// becomes pending with the listed shards; a player it does not know gets a
/// ghost; anything else is left as it is.
pub open spec fn alert_applied(
    p0: Map<u32, PlayerEntity>,
    p1: Map<u32, PlayerEntity>,
    client_id: u32,
    shards: Seq<u32>,
) -> bool {
    if p0.contains_key(client_id) {
        if p0[client_id].authority == EntityAuthority::Owned {
            &&& p1.contains_key(client_id)
            &&& p1 == p0.insert(client_id, p1[client_id])
            &&& p1[client_id].involved_shards@ == shards
            &&& p1[client_id] == (PlayerEntity {
                authority: EntityAuthority::PendingHandoff,
                involved_shards: p1[client_id].involved_shards,
                ..p0[client_id]
            })
        } else {
            p1 == p0
        }
    } else {
        &&& p1.contains_key(client_id)
        &&& p1 == p0.insert(client_id, p1[client_id])
        &&& ghost_at_origin(p1[client_id], client_id)
    }
}

/// The name by which a server in charge of a shard announces itself.
pub open spec fn shard_name(body: Seq<u8>) -> Seq<char> {
    shard_topic(le_u32(body, 0) as u32)
}

/// What a message from the broker does. `0x07` and `0x05` carry a
/// serialised client entry or input, handed to the caller to decode. `0x0C`
/// carries a payload routed by another service: a new player handed over
/// (`0x07`, 12 bytes), a wake-up order (shard id and zone, at least 20
/// bytes) or a crossing alert. A routed payload cut short stops reading
/// for this tick.
pub open spec fn broker_phase(
    s0: ServerView,
    s1: ServerView,
    tag: u8,
    body: Seq<u8>,
    acts: Seq<ActionView>,
    stop: bool,
) -> bool {
    let same = s1 == s0 && acts == Seq::<ActionView>::empty();
    if tag == 0x07 {
        s1 == s0 && acts == seq![ActionView::DecodeClientInit(body)] && !stop
    } else if tag == 0x05 {
        s1 == s0 && acts == seq![ActionView::DecodeClientInput(body)] && !stop
    } else if tag == TAG_ADMIN_ROUTE_RECEIVE {
        if body.len() == 0 {
            same && stop
        } else {
            let internal = body[0];
            let payload = body.drop_first();
            if internal == 0x07 {
                if payload.len() != 12 {
                    same && stop
                } else {
                    let id = le_u32(payload, 0) as u32;
                    &&& !stop
                    &&& acts == Seq::<ActionView>::empty()
                    &&& s1.socket == s0.socket
                    &&& s1.config == s0.config
                    &&& s1.players.contains_key(id)
                    &&& s1.players == s0.players.insert(id, s1.players[id])
                    &&& pending_player(s1.players[id], id, le_u32(payload, 4) as u32, le_u32(payload, 8) as u32)
                }
            } else if internal == PAYLOAD_WAKEUP_COMMAND {
                if payload.len() < 20 {
                    same && stop
                } else {
                    &&& !stop
                    &&& s1.socket == s0.socket
                    &&& s1.players == s0.players
                    &&& in_charge(s0.config, s1.config, payload)
                    &&& acts == to_broker(s0.socket, admin_connect_frame(shard_name(payload))) + seq![
                        ActionView::Sleep(50),
                    ] + to_broker(s0.socket, zone_frame_of(payload))
                }
            } else if internal == PAYLOAD_CROSSING_ALERT {
                &&& !stop
                &&& acts == Seq::<ActionView>::empty()
                &&& s1.socket == s0.socket
                &&& s1.config == s0.config
                &&& match parse_crossing_alert(body) {
                    None => s1.players == s0.players,
                    Some((client_id, shards)) => alert_applied(s0.players, s1.players, client_id, shards),
                }
            } else {
                same && !stop
            }
        }
    } else {
        same && !stop
    }
}

/// A message from the orchestrator whose tag is that of an inter-shard
/// message carries a body long enough to be read.
pub open spec fn readable_from_orch(s: GameSocket, connection: u64, data: Seq<u8>) -> bool {
    s.connection_orch == Some(connection) && data.len() > 0 ==> body_long_enough(
        data[0],
        data.len() - 1,
    )
}

/// The two parts of handling a frame, with `mid`, `a1` and `st1` the
/// server, actions and stop flag after the orchestrator's part.
pub open spec fn phases(
    s0: ServerView,
    s1: ServerView,
    connection: u64,
    tag: u8,
    body: Seq<u8>,
    acts: Seq<ActionView>,
    stop: bool,
    mid: ServerView,
    a1: Seq<ActionView>,
    st1: bool,
) -> bool {
    &&& if s0.socket.connection_orch == Some(connection) {
        orch_phase(s0, mid, tag, body, a1, st1)
    } else {
        mid == s0 && a1 == Seq::<ActionView>::empty() && !st1
    }
    &&& if st1 {
        s1 == mid && acts == a1 && stop
    } else if mid.socket.connection_broker == Some(connection) {
        exists|a2: Seq<ActionView>| #[trigger] broker_phase(mid, s1, tag, body, a2, stop) && acts == a1 + a2
    } else {
        s1 == mid && acts == a1 && !stop
    }
}

/// What a received frame does: the orchestrator's part, if it came on the
/// orchestrator's connection, then, unless that stopped reading, the
/// broker's part, if it came on the broker's connection.
pub open spec fn spec_on_message(
    s0: ServerView,
    s1: ServerView,
    connection: u64,
    data: Seq<u8>,
    acts: Seq<ActionView>,
    stop: bool,
) -> bool {
    if data.len() == 0 {
        s1 == s0 && acts == Seq::<ActionView>::empty() && !stop
    } else {
        let tag = data[0];
        let body = data.drop_first();
        exists|mid: ServerView, a1: Seq<ActionView>, st1: bool|
            #[trigger] phases(s0, s1, connection, tag, body, acts, stop, mid, a1, st1)
    }
}

fn no_actions() -> (r: Vec<ServerAction>)
    ensures
        actions_view(r@) == Seq::<ActionView>::empty(),
{
    let r: Vec<ServerAction> = Vec::new();
    assert(actions_view(r@) =~= Seq::<ActionView>::empty());
    r
}

fn one_action(a: ServerAction) -> (r: Vec<ServerAction>)
    ensures
        actions_view(r@) == seq![action_view(a)],
{
    let mut r: Vec<ServerAction> = Vec::new();
    r.push(a);
    assert(actions_view(r@) =~= seq![action_view(a)]);
    r
}

/// Appends `b` to `a`.
fn append_actions(a: &mut Vec<ServerAction>, b: Vec<ServerAction>)
    ensures
        actions_view(final(a)@) == actions_view(old(a)@) + actions_view(b@),
{
    let mut b = b;
    let ghost bv = b@;
    a.append(&mut b);
    assert(actions_view(a@) =~= actions_view(old(a)@) + actions_view(bv));
}

/// The frames, sent to the orchestrator.
fn orch_sends(s: &GameSocket, frames: Vec<Vec<u8>>) -> (r: Vec<ServerAction>)
    ensures
        actions_view(r@) == to_orch(*s, frames_view(frames@)),
{
    sends_on(s.connection_orch, s.stream_orch, frames)
}

/// The frames, sent on a connection and stream.
fn sends_on(connection: Option<u64>, stream: Option<u64>, frames: Vec<Vec<u8>>) -> (r: Vec<ServerAction>)
    ensures
        actions_view(r@) == send_all(connection, stream, frames_view(frames@)),
{
    match (connection, stream) {
        (Some(c), Some(st)) => {
            let mut out: Vec<ServerAction> = Vec::new();
            let mut frames = frames;
            let ghost fv = frames_view(frames@);
            let n = frames.len();
            let mut i: usize = 0;
            while frames.len() > 0
                invariant
                    fv.len() == n,
                    i + frames@.len() == n,
                    frames_view(frames@) == fv.subrange(i as int, n as int),
                    out@.len() == i,
                    forall|k: int| 0 <= k < i ==> action_view(#[trigger] out@[k]) == ActionView::Send(c, st, fv[k]),
                decreases frames@.len(),
            {
                let ghost before = frames@;
                let f = frames.remove(0);
                proof {
                    assert(f@ == frames_view(before)[0]);
                    assert(frames@ =~= before.subrange(1, before.len() as int));
                    assert forall|k: int| 0 <= k < frames@.len() implies #[trigger] frames_view(frames@)[k]
                        == fv.subrange(i + 1, n as int)[k] by {
                        assert(frames_view(before)[k + 1] == fv.subrange(i as int, n as int)[k + 1]);
                    }
                    assert(frames_view(frames@) =~= fv.subrange(i + 1, n as int));
                }
                out.push(ServerAction::Send { connection: c, stream: st, data: f });
                i = i + 1;
            }
            assert(actions_view(out@) =~= send_all(connection, stream, fv));
            out
        },
        _ => no_actions(),
    }
}

/// The frame, sent to the broker.
fn broker_send(s: &GameSocket, frame: Vec<u8>) -> (r: Vec<ServerAction>)
    ensures
        actions_view(r@) == to_broker(*s, frame@),
{
    match (s.connection_broker, s.stream_broker) {
        (Some(c), Some(st)) => one_action(ServerAction::Send { connection: c, stream: st, data: frame }),
        _ => no_actions(),
    }
}

fn is_connection(slot: Option<u64>, connection: u64) -> (r: bool)
    ensures
        r == (slot == Some(connection)),
{
    match slot {
        Some(c) => c == connection,
        None => false,
    }
}

impl GameServer {
    /// Puts the server in charge of the shard described by `body` (shard
    /// id, then zone) and returns the frame that tells the broker the zone.
    fn take_charge(&mut self, body: &[u8]) -> (r: Vec<u8>)
        requires
            body@.len() >= 20,
        ensures
            in_charge(old(self).config, final(self).config, body@),
            final(self).socket == old(self).socket,
            final(self).registry@ == old(self).registry@,
            r@ == zone_frame_of(body@),
    {
        let shard_id = read_u32_le(body, 0);
        let min_x = read_u32_le(body, 4);
        let min_y = read_u32_le(body, 8);
        let max_x = read_u32_le(body, 12);
        let max_y = read_u32_le(body, 16);
        self.config.zone = u32_to_decimal(shard_id);
        self.config.min_x = min_x;
        self.config.min_y = min_y;
        self.config.max_x = max_x;
        self.config.max_y = max_y;
        self.config.state = ServerState::Running;
        let mut info: Vec<u8> = Vec::new();
        info.push(0x00u8);
        push_u32_le(&mut info, shard_id);
        push_u32_le(&mut info, min_x);
        push_u32_le(&mut info, min_y);
        push_u32_le(&mut info, max_x);
        push_u32_le(&mut info, max_y);
        assert(info@ =~= zone_frame_of(body@));
        info
    }

    fn orch_message(&mut self, tag: u8, body: &[u8]) -> (r: (Vec<ServerAction>, bool))
        requires
            body_long_enough(tag, body@.len() as int),
        ensures
            orch_phase(old(self)@, final(self)@, tag, body@, actions_view(r.0@), r.1),
    {
        if tag == 0x55 {
            if body.len() != 20 {
                return (no_actions(), true);
            }
            let info = self.take_charge(body);
            let acts = broker_send(&self.socket, info);
            return (acts, true);
        }
        match ShardMessage::parse(tag, body) {
            Some(m) => {
                let mut m = m;
                let ghost m0 = m;
                let frames = m.resolve(&mut self.registry, &mut self.config);
                let ghost fv = frames_view(frames@);
                let acts = orch_sends(&self.socket, frames);
                assert(read_as(tag, body@, m0) && resolved(m0, old(self)@.players, old(self)@.config, self@.players, self@.config, fv));
                (acts, false)
            },
            None => (no_actions(), true),
        }
    }

    fn broker_message(&mut self, tag: u8, body: &[u8]) -> (r: (Vec<ServerAction>, bool))
        ensures
            broker_phase(old(self)@, final(self)@, tag, body@, actions_view(r.0@), r.1),
    {
        if tag == 0x07 {
            let bytes = slice_to_vec(body, 0, body.len());
            assert(bytes@ =~= body@);
            return (one_action(ServerAction::DecodeClientInit { bytes }), false);
        }
        if tag == 0x05 {
            let bytes = slice_to_vec(body, 0, body.len());
            assert(bytes@ =~= body@);
            return (one_action(ServerAction::DecodeClientInput { bytes }), false);
        }
        if tag != TAG_ADMIN_ROUTE_RECEIVE {
            return (no_actions(), false);
        }
        if body.len() == 0 {
            return (no_actions(), true);
        }
        let internal = body[0];
        let payload = slice_to_vec(body, 1, body.len());
        assert(payload@ =~= body@.drop_first());
        if internal == 0x07 {
            if payload.len() != 12 {
                return (no_actions(), true);
            }
            let client_id = read_u32_le(payload.as_slice(), 0);
            let init_x = read_u32_le(payload.as_slice(), 4);
            let init_y = read_u32_le(payload.as_slice(), 8);
            let player = PlayerEntity {
                id: client_id,
                authority: EntityAuthority::PendingHandoff,
                position: Vec2 { x: init_x, y: init_y },
                rotation: 0,
                velocity: Vec2 { x: 0, y: 0 },
                involved_shards: Vec::new(),
            };
            self.registry.register_player(player);
            return (no_actions(), false);
        } else if internal == PAYLOAD_WAKEUP_COMMAND {
            if payload.len() < 20 {
                return (no_actions(), true);
            }
            let shard_id = read_u32_le(payload.as_slice(), 0);
            let info = self.take_charge(payload.as_slice());
            let name = shard_topic_string(shard_id);
            let auth = build_admin_connect(name.as_str());
            let mut acts = broker_send(&self.socket, auth);
            append_actions(&mut acts, one_action(ServerAction::Sleep { millis: 50 }));
            append_actions(&mut acts, broker_send(&self.socket, info));
            return (acts, false);
        } else if internal == PAYLOAD_CROSSING_ALERT {
            match CrossingAlertData::from_bytes(body) {
                Some(alert) => {
                    let client_id = alert.client_id;
                    if self.registry.contains(client_id) {
                        self.registry.start_handoff(client_id, alert.involved_shards);
                    } else {
                        let ghost_player = PlayerEntity {
                            id: client_id,
                            authority: EntityAuthority::Ghosted,
                            position: Vec2 { x: 0, y: 0 },
                            rotation: 0,
                            velocity: Vec2 { x: 0, y: 0 },
                            involved_shards: Vec::new(),
                        };
                        self.registry.register_player(ghost_player);
                    }
                },
                None => {},
            }
            return (no_actions(), false);
        } else {
            return (no_actions(), false);
        }
    }

    /// Decides what a frame received on `connection` does, as
    /// `spec_on_message` states. Returns the actions to perform and whether
    /// to stop reading events until the next tick.
    pub fn on_message(&mut self, connection: u64, data: &[u8]) -> (r: (Vec<ServerAction>, bool))
        requires
            readable_from_orch(old(self).socket, connection, data@),
        ensures
            spec_on_message(old(self)@, final(self)@, connection, data@, actions_view(r.0@), r.1),
    {
        if data.len() == 0 {
            return (no_actions(), false);
        }
        let tag = data[0];
        let body = slice_to_vec(data, 1, data.len());
        assert(body@ =~= data@.drop_first());
        let ghost s0 = self@;
        let mut acts = no_actions();
        let mut stop = false;
        if is_connection(self.socket.connection_orch, connection) {
            let (a1, st1) = self.orch_message(tag, body.as_slice());
            acts = a1;
            stop = st1;
        }
        let ghost mid = self@;
        let ghost a1v = actions_view(acts@);
        let ghost st1v = stop;
        if stop {
            assert(phases(s0, self@, connection, tag, body@, actions_view(acts@), true, mid, a1v, st1v));
            return (acts, true);
        }
        if is_connection(self.socket.connection_broker, connection) {
            let (a2, st2) = self.broker_message(tag, body.as_slice());
            let ghost a2v = actions_view(a2@);
            append_actions(&mut acts, a2);
            assert(broker_phase(mid, self@, tag, body@, a2v, st2));
            assert(phases(s0, self@, connection, tag, body@, actions_view(acts@), st2, mid, a1v, st1v));
            return (acts, st2);
        }
        assert(phases(s0, self@, connection, tag, body@, actions_view(acts@), false, mid, a1v, st1v));
        (acts, false)
    }

    /// A connection is established: the first is the orchestrator's, which
    /// gets a reliable stream; the second the broker's, which gets an
    /// unreliable one.
    pub fn on_connected(&mut self, connection: u64) -> (r: Vec<ServerAction>)
        ensures
            final(self).registry@ == old(self).registry@,
            final(self).config == old(self).config,
            old(self).socket.connection_orch is None ==> final(self).socket == (GameSocket {
                connection_orch: Some(connection),
                ..old(self).socket
            }) && actions_view(r@) == seq![ActionView::CreateStream(connection, true)],
            old(self).socket.connection_orch is Some && old(self).socket.connection_broker is None
                ==> final(self).socket == (GameSocket {
                connection_broker: Some(connection),
                ..old(self).socket
            }) && actions_view(r@) == seq![ActionView::CreateStream(connection, false)],
            old(self).socket.connection_orch is Some && old(self).socket.connection_broker is Some
                ==> final(self).socket == old(self).socket && actions_view(r@) == Seq::<ActionView>::empty(),
    {
        if self.socket.connection_orch.is_none() {
            self.socket.connection_orch = Some(connection);
            one_action(ServerAction::CreateStream { connection, reliable: true })
        } else if self.socket.connection_broker.is_none() {
            self.socket.connection_broker = Some(connection);
            one_action(ServerAction::CreateStream { connection, reliable: false })
        } else {
            no_actions()
        }
    }

    /// A stream is open: on the orchestrator's connection it becomes the
    /// orchestrator's stream; on the broker's it becomes the broker's, the
    /// server announces itself as `dgs_` followed by its id, and turns `Idle`.
    pub fn on_stream_created(&mut self, connection: u64, stream: u64) -> (r: Vec<ServerAction>)
        ensures
            final(self).registry@ == old(self).registry@,
            final(self).socket.connection_orch == old(self).socket.connection_orch,
            final(self).socket.connection_broker == old(self).socket.connection_broker,
            final(self).socket.stream_orch == if old(self).socket.connection_orch == Some(connection) {
                Some(stream)
            } else {
                old(self).socket.stream_orch
            },
            old(self).socket.connection_broker == Some(connection) ==> {
                &&& final(self).socket.stream_broker == Some(stream)
                &&& final(self).config == (ServerConfig { state: ServerState::Idle, ..old(self).config })
                &&& actions_view(r@) == seq![
                    ActionView::Send(
                        connection,
                        stream,
                        admin_connect_frame(dgs_name(uuid_text(old(self).config.id))),
                    ),
                ]
            },
            old(self).socket.connection_broker != Some(connection) ==> {
                &&& final(self).socket.stream_broker == old(self).socket.stream_broker
                &&& final(self).config == old(self).config
                &&& actions_view(r@) == Seq::<ActionView>::empty()
            },
    {
        if is_connection(self.socket.connection_orch, connection) {
            self.socket.stream_orch = Some(stream);
        }
        if is_connection(self.socket.connection_broker, connection) {
            self.socket.stream_broker = Some(stream);
            let prefix = "dgs_";
            proof {
                reveal_strlit("dgs_");
            }
            let name = prefix.to_owned().concat(uuid_to_string(self.config.id).as_str());
            assert(name@ =~= dgs_name(uuid_text(self.config.id)));
            let auth = build_admin_connect(name.as_str());
            self.config.state = ServerState::Idle;
            return one_action(ServerAction::Send { connection, stream, data: auth });
        }
        no_actions()
    }

    /// A client entered the world through the broker: this server owns its
    /// player, at the requested position, not moving.
    pub fn spawn_client(&mut self, client_init: ClientInit)
        ensures
            final(self).socket == old(self).socket,
            final(self).config == old(self).config,
            final(self).registry@.contains_key(client_init.client_id),
            final(self).registry@ == old(self).registry@.insert(client_init.client_id, final(self).registry@[client_init.client_id]),
            ({
                let p = final(self).registry@[client_init.client_id];
                &&& p.id == client_init.client_id
                &&& p.authority == EntityAuthority::Owned
                &&& p.position == (Vec2 { x: client_init.pos_x, y: client_init.pos_y })
                &&& p.rotation == 0
                &&& p.velocity == (Vec2 { x: 0, y: 0 })
                &&& p.involved_shards@.len() == 0
            }),
    {
        let new_player = PlayerEntity {
            id: client_init.client_id,
            authority: EntityAuthority::Owned,
            position: Vec2 { x: client_init.pos_x, y: client_init.pos_y },
            rotation: 0,
            velocity: Vec2 { x: 0, y: 0 },
            involved_shards: Vec::new(),
        };
        self.registry.register_player(new_player);
    }

    /// A client's input relayed by the broker moves its player, if this
    /// server has it (see `PlayerRegistry::update_player_input`).
    pub fn apply_client_input<F: Fn(u32, bool) -> u32>(&mut self, input: &ClientInput, shift: &F)
        requires
            forall|c: u32, up: bool| shift.requires((c, up)),
        ensures
            final(self).socket == old(self).socket,
            final(self).config == old(self).config,
            old(self).registry@.contains_key(input.client_id) ==> final(self).registry@.contains_key(input.client_id)
                && final(self).registry@ == old(self).registry@.insert(
                input.client_id,
                final(self).registry@[input.client_id],
            ) && crate::entities::moved_by(
                old(self).registry@[input.client_id],
                final(self).registry@[input.client_id],
                input.input,
                *shift,
            ),
            !old(self).registry@.contains_key(input.client_id) ==> final(self).registry@ == old(self).registry@,
    {
        self.registry.update_player_input(input.client_id, input.input, shift);
    }
}


/// `ks` lists, each once, the ids of the players that `pick` selects.
pub open spec fn lists_each_once(
    ks: Seq<u32>,
    players: Map<u32, PlayerEntity>,
    pick: spec_fn(PlayerEntity) -> bool,
) -> bool {
    &&& ks.no_duplicates()
    &&& forall|k: u32| ks.contains(k) <==> players.contains_key(k) && pick(players[k])
}

/// Which players a tick's task looks at.
pub enum Selection {
    /// Those being handed off.
    Pending,
    /// Those this server simulates: owned or being handed off.
    Simulated,
    /// Those being handed off that have left the server's zone.
    Leaving,
}

/// The position is outside the zone of the configuration, by IEEE-754
/// comparison of the coordinates with the bounds.
pub open spec fn outside_zone(pos: Vec2, c: ServerConfig) -> bool {
    f32_lt(pos.x, c.min_x) || f32_lt(c.max_x, pos.x) || f32_lt(pos.y, c.min_y) || f32_lt(c.max_y, pos.y)
}

/// Whether a selection takes a player.
pub open spec fn selects(which: Selection, c: ServerConfig) -> spec_fn(PlayerEntity) -> bool {
    |p: PlayerEntity|
        match which {
            Selection::Pending => p.authority == EntityAuthority::PendingHandoff,
            Selection::Simulated => p.authority == EntityAuthority::Owned || p.authority
                == EntityAuthority::PendingHandoff,
            Selection::Leaving => p.authority == EntityAuthority::PendingHandoff && outside_zone(p.position, c),
        }
}

/// A player being handed off leaves the zone through any of its four
/// sides: it is taken as leaving when its x is below the zone's least x or
/// above its greatest x, or its y is below the least y or above the
/// greatest y (IEEE-754 comparisons). A player inside the zone on both
/// axes, or one not being handed off, is never taken.
pub proof fn lemma_leaving_through_any_side(p: PlayerEntity, c: ServerConfig)
    ensures
        p.authority == EntityAuthority::PendingHandoff && f32_lt(p.position.x, c.min_x) ==> selects(
            Selection::Leaving,
            c,
        )(p),
        p.authority == EntityAuthority::PendingHandoff && f32_lt(c.max_x, p.position.x) ==> selects(
            Selection::Leaving,
            c,
        )(p),
        p.authority == EntityAuthority::PendingHandoff && f32_lt(p.position.y, c.min_y) ==> selects(
            Selection::Leaving,
            c,
        )(p),
        p.authority == EntityAuthority::PendingHandoff && f32_lt(c.max_y, p.position.y) ==> selects(
            Selection::Leaving,
            c,
        )(p),
        f32_le(c.min_x, p.position.x) && f32_le(p.position.x, c.max_x) && f32_le(c.min_y, p.position.y)
            && f32_le(p.position.y, c.max_y) ==> !selects(Selection::Leaving, c)(p),
        p.authority != EntityAuthority::PendingHandoff ==> !selects(Selection::Leaving, c)(p),
{
}

/// The players that `process_handoffs` hands off (any list that takes the
/// leaving players each once) hold every player being handed off that is
/// past any side of the zone, and no player inside it.
pub proof fn lemma_handoffs_take_every_leaver(
    ks: Seq<u32>,
    players: Map<u32, PlayerEntity>,
    c: ServerConfig,
    k: u32,
)
    requires
        lists_each_once(ks, players, selects(Selection::Leaving, c)),
        players.contains_key(k),
    ensures
        ({
            let p = players[k];
            &&& p.authority == EntityAuthority::PendingHandoff && (f32_lt(p.position.x, c.min_x) || f32_lt(
                c.max_x,
                p.position.x,
            ) || f32_lt(p.position.y, c.min_y) || f32_lt(c.max_y, p.position.y)) ==> ks.contains(k)
            &&& f32_le(c.min_x, p.position.x) && f32_le(p.position.x, c.max_x) && f32_le(c.min_y, p.position.y)
                && f32_le(p.position.y, c.max_y) ==> !ks.contains(k)
        }),
{
    lemma_leaving_through_any_side(players[k], c);
}

fn takes(which: &Selection, p: &PlayerEntity, c: &ServerConfig) -> (r: bool)
    ensures
        r == selects(*which, *c)(*p),
{
    match which {
        Selection::Pending => p.authority == EntityAuthority::PendingHandoff,
        Selection::Simulated => p.authority == EntityAuthority::Owned || p.authority == EntityAuthority::PendingHandoff,
        Selection::Leaving => p.authority == EntityAuthority::PendingHandoff && (f32_bits_lt(p.position.x, c.min_x)
            || f32_bits_lt(c.max_x, p.position.x) || f32_bits_lt(p.position.y, c.min_y) || f32_bits_lt(
            c.max_y,
            p.position.y,
        )),
    }
}

/// The ghost update of a player: tag `0x23`, id, position, velocity.
pub open spec fn ghost_update_frame(p: PlayerEntity) -> Seq<u8> {
    message_frame(GhostUpdate::TAG, u32_le(p.id) + crate::shard_messages::motion_bytes(p.position, p.velocity))
}

/// The name under which the spatial service is known to the broker.
pub open spec fn spatial_name() -> Seq<char> {
    seq!['s', 'p', 'a', 't', 'i', 'a', 'l']
}

/// The position report of a player for the spatial service: tag `0x10`,
/// id, x, y.
pub open spec fn position_payload(id: u32, pos: Vec2) -> Seq<u8> {
    seq![0x10u8] + u32_le(id) + u32_le(pos.x) + u32_le(pos.y)
}

/// A position report reads back, at the spatial service, as the player's
/// id and position: the report that `publish` routes to the spatial
/// service reaches, through the broker, the service that announced itself
/// as the spatial service, and its payload gives back the id, then x, then
/// y.
pub proof fn lemma_position_report_reads_back(
    v: crate::broker::BrokerView,
    connection: u64,
    stream: u64,
    sender_connection: u64,
    sender_stream: u64,
    id: u32,
    pos: Vec2,
)
    ensures
        ({
            let payload = position_payload(id, pos);
            let v1 = crate::broker::spec_handle(
                v,
                connection,
                stream,
                admin_connect_frame(crate::spatial::spatial_service_name()),
            ).0;
            &&& crate::broker::spec_handle(
                v1,
                sender_connection,
                sender_stream,
                route_frame(spatial_name(), payload),
            ).1 == crate::broker::HandledView::Sent(seq![(connection, stream, crate::protocol::routed_frame(payload))])
            &&& crate::spatial::position_update(payload) == Some((id, pos))
        }),
{
    let payload = position_payload(id, pos);
    assert(spatial_name() =~= crate::spatial::spatial_service_name());
    crate::broker::lemma_announce_then_route(
        v,
        connection,
        stream,
        spatial_name(),
        sender_connection,
        sender_stream,
        payload,
    );
    crate::wire::lemma_u32_le_roundtrip(id);
    crate::wire::lemma_u32_le_roundtrip(pos.x);
    crate::wire::lemma_u32_le_roundtrip(pos.y);
    assert(payload.len() == 13);
    crate::wire::lemma_le_u32_shift(payload, u32_le(id), 1, 0);
    crate::wire::lemma_le_u32_shift(payload, u32_le(pos.x), 5, 0);
    crate::wire::lemma_le_u32_shift(payload, u32_le(pos.y), 9, 0);
}

/// The request to hand a leaving player to the next shard: tag `0x20`, id,
/// position, velocity, 64 zero bytes of state.
pub open spec fn handoff_request_frame(p: PlayerEntity) -> Seq<u8> {
    message_frame(
        HandoffRequest::TAG,
        u32_le(p.id) + crate::shard_messages::motion_bytes(p.position, p.velocity) + Seq::new(64, |i: int| 0u8),
    )
}

/// The players after the one of this id, if any, became a ghost.
pub open spec fn ghosted(m: Map<u32, PlayerEntity>, id: u32) -> Map<u32, PlayerEntity> {
    if m.contains_key(id) {
        m.insert(id, PlayerEntity { authority: EntityAuthority::Ghosted, ..m[id] })
    } else {
        m
    }
}

/// The players after each player listed in `ks` (by its key in `p0`)
/// became a ghost, in that order; the player is found by its own id.
pub open spec fn all_ghosted(p0: Map<u32, PlayerEntity>, ks: Seq<u32>) -> Map<u32, PlayerEntity> {
    ks.fold_left(p0, |m: Map<u32, PlayerEntity>, k: u32| ghosted(m, p0[k].id))
}

impl GameServer {
    /// The ids of the players that the selection takes, each once, in the
    /// registry's order, which is not promised.
    pub fn selected_ids(&self, which: Selection) -> (r: Vec<u32>)
        ensures
            lists_each_once(r@, self.registry@, selects(which, self.config)),
    {
        let ghost players = self.registry@;
        let ghost pick = selects(which, self.config);
        let ids = self.registry.ids();
        let mut out: Vec<u32> = Vec::new();
        let mut i: usize = 0;
        while i < ids.len()
            invariant
                i <= ids@.len(),
                players == self.registry@,
                pick == selects(which, self.config),
                ids@.no_duplicates(),
                forall|id: u32| ids@.contains(id) <==> players.contains_key(id),
                out@.no_duplicates(),
                forall|k: u32| out@.contains(k) <==> ids@.subrange(0, i as int).contains(k) && players.contains_key(k) && pick(players[k]),
            decreases ids@.len() - i,
        {
            let k = ids[i];
            proof {
                assert(ids@.contains(k));
                lemma_prefix_grows(ids@, i as int);
                lemma_next_is_new(ids@, i as int);
            }
            let ghost ks0 = out@;
            let ghost mut picked = false;
            match self.registry.get(k) {
                Some(p) => {
                    if takes(&which, p, &self.config) {
                        proof {
                            lemma_push_new(out@, k, ids@, i as int);
                        }
                        out.push(k);
                        proof {
                            picked = true;
                        }
                    }
                },
                None => {},
            }
            proof {
                let s1 = ids@.subrange(0, i + 1);
                assert(picked ==> out@ == ks0.push(k) && pick(players[k]) && players.contains_key(k));
                assert(!picked ==> out@ == ks0 && !(players.contains_key(k) && pick(players[k])));
                assert(!ks0.contains(k));
                assert forall|x: u32| out@.contains(x) <==> s1.contains(x) && players.contains_key(x) && pick(players[x]) by {
                    if x != k {
                        assert(out@.contains(x) <==> ks0.contains(x));
                    }
                }
            }
            i = i + 1;
        }
        proof {
            assert(ids@.subrange(0, ids@.len() as int) =~= ids@);
        }
        out
    }

    /// Each tick, every player being handed off has its position and
    /// velocity sent, as a ghost update, to the orchestrator, which relays
    /// it to the neighbouring shards. The players come in the registry's
    /// order, which is not promised.
    pub fn send_ghost_update(&self) -> (r: Vec<ServerAction>)
        ensures
            exists|ks: Seq<u32>| #[trigger]
                lists_each_once(ks, self.registry@, selects(Selection::Pending, self.config))
                && actions_view(r@) == to_orch(
                    self.socket,
                    ks.map_values(|k: u32| ghost_update_frame(self.registry@[k])),
                ),
    {
        let ks = self.selected_ids(Selection::Pending);
        let ghost players = self.registry@;
        let mut frames: Vec<Vec<u8>> = Vec::new();
        let mut j: usize = 0;
        while j < ks.len()
            invariant
                j <= ks@.len(),
                players == self.registry@,
                forall|k: u32| ks@.contains(k) ==> players.contains_key(k),
                frames_view(frames@) == ks@.subrange(0, j as int).map_values(|k: u32| ghost_update_frame(players[k])),
            decreases ks@.len() - j,
        {
            let k = ks[j];
            assert(ks@.contains(k));
            match self.registry.get(k) {
                Some(p) => {
                    let update = GhostUpdate { entity_id: p.id, pos: p.position, vel: p.velocity };
                    let frame = crate::shard_messages::frame_of(GhostUpdate::TAG, update.to_binary());
                    let ghost old_frames = frames@;
                    frames.push(frame);
                    proof {
                        assert(frame@ == ghost_update_frame(players[k]));
                        assert(frames_view(frames@) =~= frames_view(old_frames).push(frame@));
                        assert(ks@.subrange(0, j + 1) =~= ks@.subrange(0, j as int).push(k));
                        assert(frames_view(frames@) =~= ks@.subrange(0, j + 1).map_values(
                            |k: u32| ghost_update_frame(players[k]),
                        ));
                    }
                },
                None => {},
            }
            j = j + 1;
        }
        assert(ks@.subrange(0, ks@.len() as int) =~= ks@);
        orch_sends(&self.socket, frames)
    }
}


impl GameServer {
    /// Each tick, the position of every player this server simulates is
    /// sent to the spatial service, through the broker. The players come in
    /// the registry's order, which is not promised.
    pub fn publish(&self) -> (r: Vec<ServerAction>)
        ensures
            exists|ks: Seq<u32>| #[trigger]
                lists_each_once(ks, self.registry@, selects(Selection::Simulated, self.config))
                && actions_view(r@) == send_all(
                    self.socket.connection_broker,
                    self.socket.stream_broker,
                    ks.map_values(|k: u32| route_frame(spatial_name(), position_payload(k, self.registry@[k].position))),
                ),
    {
        let ks = self.selected_ids(Selection::Simulated);
        let ghost players = self.registry@;
        let target = "spatial";
        proof {
            reveal_strlit("spatial");
        }
        assert(target@ =~= spatial_name());
        let mut frames: Vec<Vec<u8>> = Vec::new();
        let mut j: usize = 0;
        while j < ks.len()
            invariant
                j <= ks@.len(),
                players == self.registry@,
                target@ == spatial_name(),
                forall|k: u32| ks@.contains(k) ==> players.contains_key(k),
                frames_view(frames@) == ks@.subrange(0, j as int).map_values(
                    |k: u32| route_frame(spatial_name(), position_payload(k, players[k].position)),
                ),
            decreases ks@.len() - j,
        {
            let k = ks[j];
            assert(ks@.contains(k));
            match self.registry.get(k) {
                Some(p) => {
                    let mut payload: Vec<u8> = Vec::new();
                    payload.push(0x10u8);
                    push_u32_le(&mut payload, k);
                    push_u32_le(&mut payload, p.position.x);
                    push_u32_le(&mut payload, p.position.y);
                    assert(payload@ =~= position_payload(k, players[k].position));
                    let frame = build_route(target, payload.as_slice());
                    let ghost old_frames = frames@;
                    frames.push(frame);
                    proof {
                        assert(frames_view(frames@) =~= frames_view(old_frames).push(frame@));
                        assert(ks@.subrange(0, j + 1) =~= ks@.subrange(0, j as int).push(k));
                        assert(frames_view(frames@) =~= ks@.subrange(0, j + 1).map_values(
                            |k: u32| route_frame(spatial_name(), position_payload(k, players[k].position)),
                        ));
                    }
                },
                None => {},
            }
            j = j + 1;
        }
        assert(ks@.subrange(0, ks@.len() as int) =~= ks@);
        sends_on(self.socket.connection_broker, self.socket.stream_broker, frames)
    }

    /// Each tick, every player being handed off that has left the zone is
    /// asked of the next shard, through the orchestrator, with a handoff
    /// request, and becomes a ghost here. The players are chosen first, in
    /// the registry's order, which is not promised; each is then sent and
    /// turned into a ghost in that order.
    pub fn process_handoffs(&mut self) -> (r: Vec<ServerAction>)
        ensures
            final(self).socket == old(self).socket,
            final(self).config == old(self).config,
            exists|ks: Seq<u32>| #[trigger]
                lists_each_once(ks, old(self).registry@, selects(Selection::Leaving, old(self).config))
                && actions_view(r@) == to_orch(
                    old(self).socket,
                    ks.map_values(|k: u32| handoff_request_frame(old(self).registry@[k])),
                ) && final(self).registry@ == all_ghosted(old(self).registry@, ks),
    {
        let ks = self.selected_ids(Selection::Leaving);
        let ghost p0 = self.registry@;
        let mut leaving: Vec<(u32, Vec2, Vec2)> = Vec::new();
        let mut j: usize = 0;
        while j < ks.len()
            invariant
                j <= ks@.len(),
                p0 == self.registry@,
                forall|k: u32| ks@.contains(k) ==> p0.contains_key(k),
                leaving@.len() == j,
                forall|i: int| 0 <= i < j ==> #[trigger] leaving@[i] == (
                    p0[ks@[i]].id,
                    p0[ks@[i]].position,
                    p0[ks@[i]].velocity,
                ),
            decreases ks@.len() - j,
        {
            let k = ks[j];
            assert(ks@.contains(k));
            match self.registry.get(k) {
                Some(p) => {
                    leaving.push((p.id, p.position, p.velocity));
                },
                None => {},
            }
            j = j + 1;
        }
        let ghost s0 = self.socket;
        let ghost c0 = self.config;
        let mut frames: Vec<Vec<u8>> = Vec::new();
        let mut j: usize = 0;
        while j < leaving.len()
            invariant
                j <= leaving@.len(),
                leaving@.len() == ks@.len(),
                self.socket == s0,
                self.config == c0,
                forall|i: int| 0 <= i < ks@.len() ==> #[trigger] leaving@[i] == (
                    p0[ks@[i]].id,
                    p0[ks@[i]].position,
                    p0[ks@[i]].velocity,
                ),
                frames_view(frames@) == ks@.subrange(0, j as int).map_values(
                    |k: u32| handoff_request_frame(p0[k]),
                ),
                self.registry@ == all_ghosted(p0, ks@.subrange(0, j as int)),
            decreases leaving@.len() - j,
        {
            let (id, pos, vel) = leaving[j];
            let ghost k = ks@[j as int];
            assert(leaving@[j as int] == (p0[k].id, p0[k].position, p0[k].velocity));
            let request = HandoffRequest { entity_id: id, pos, vel, state: [0u8; 64] };
            assert(request.state@ =~= Seq::new(64, |i: int| 0u8));
            let frame = crate::shard_messages::frame_of(HandoffRequest::TAG, request.to_binary());
            assert(frame@ =~= handoff_request_frame(p0[k]));
            let ghost old_frames = frames@;
            frames.push(frame);
            let ghost before = self.registry@;
            self.registry.set_authority(id, EntityAuthority::Ghosted);
            proof {
                assert(self.registry@ == ghosted(before, p0[k].id));
                assert(frames_view(frames@) =~= frames_view(old_frames).push(frame@));
                let pre = ks@.subrange(0, j as int);
                let next = ks@.subrange(0, j + 1);
                assert(next =~= pre.push(k));
                assert(next.drop_last() =~= pre);
                assert(frames_view(frames@) =~= next.map_values(|k: u32| handoff_request_frame(p0[k])));
                assert(all_ghosted(p0, next) == ghosted(all_ghosted(p0, pre), p0[k].id));
            }
            j = j + 1;
        }
        assert(ks@.subrange(0, ks@.len() as int) =~= ks@);
        orch_sends(&self.socket, frames)
    }

    /// The heartbeat that reports this server to the orchestrator.
    pub fn heartbeat(&self) -> (h: Heartbeat)
        ensures
            h.id == self.config.id,
            h.ip@ == self.config.ip@,
            h.port == self.config.port,
            h.zone@ == self.config.zone@,
            h.player_count == self.registry@.len(),
            h.max_players == self.config.max_players,
            h.status == self.config.status,
            h.state == self.config.state,
    {
        Heartbeat {
            id: self.config.id,
            ip: self.config.ip.clone(),
            port: self.config.port,
            zone: self.config.zone.clone(),
            player_count: self.registry.len(),
            max_players: self.config.max_players,
            status: self.config.status,
            state: self.config.state,
        }
    }

    /// Sends a frame, such as a serialised heartbeat, to the orchestrator.
    pub fn send_to_orchestrator(&self, data: Vec<u8>) -> (r: Vec<ServerAction>)
        ensures
            actions_view(r@) == to_orch(self.socket, seq![data@]),
    {
        let ghost d = data@;
        let mut frames: Vec<Vec<u8>> = Vec::new();
        frames.push(data);
        assert(frames_view(frames@) =~= seq![d]);
        orch_sends(&self.socket, frames)
    }
}


/// The zone frame a game server sends when put in charge of a shard
/// registers that shard with the broker, at that zone, reachable on the
/// connection and stream it came from.
pub proof fn lemma_zone_registers_shard(
    v: crate::broker::BrokerView,
    connection: u64,
    stream: u64,
    shard_id: u32,
    min_x: u32,
    min_y: u32,
    max_x: u32,
    max_y: u32,
)
    ensures
        crate::broker::spec_handle(v, connection, stream, zone_frame(shard_id, min_x, min_y, max_x, max_y)).0
            == (crate::broker::BrokerView {
            shards: v.shards.insert(
                shard_id,
                crate::broker::DGSNetworkInfo {
                    min_x,
                    max_x,
                    min_y,
                    max_y,
                    connection_dgs: Some(connection),
                    stream_dgs: Some(stream),
                },
            ),
            ..v
        }),
{
    let rest = zone_frame(shard_id, min_x, min_y, max_x, max_y).drop_first();
    assert(rest =~= u32_le(shard_id) + u32_le(min_x) + u32_le(min_y) + u32_le(max_x) + u32_le(max_y));
    crate::wire::lemma_u32_le_roundtrip(shard_id);
    crate::wire::lemma_u32_le_roundtrip(min_x);
    crate::wire::lemma_u32_le_roundtrip(min_y);
    crate::wire::lemma_u32_le_roundtrip(max_x);
    crate::wire::lemma_u32_le_roundtrip(max_y);
    crate::wire::lemma_le_u32_shift(rest, u32_le(shard_id), 0, 0);
    crate::wire::lemma_le_u32_shift(rest, u32_le(min_x), 4, 0);
    crate::wire::lemma_le_u32_shift(rest, u32_le(min_y), 8, 0);
    crate::wire::lemma_le_u32_shift(rest, u32_le(max_x), 12, 0);
    crate::wire::lemma_le_u32_shift(rest, u32_le(max_y), 16, 0);
}

} // verus!
