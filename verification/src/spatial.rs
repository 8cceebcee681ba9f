//! The spatial service: it follows the players' positions, tells the
//! broker which shard topic each player listens to, warns the shard of a
//! player that comes near other shards, and asks the orchestrator to boot a
//! server for each shard. The functions here decide; the caller performs
//! the returned actions on the socket.
use vstd::prelude::*;
use std::collections::HashMap;
use crate::wire::{le_u32, read_u32_le, push_u32_le, u32_le};
use crate::geometry::{Vec2, Rect};
use crate::quadtree::{QuadTree, spec_shard_for, spec_near_ids, decides, spec_leaves, wf, pow4};
use crate::idset::{strictly_increasing, lemma_prefix_grows, lemma_next_is_new, lemma_push_new};
use crate::text::{shard_topic, shard_topic_string, push_name_field};
use crate::protocol::{
    PAYLOAD_BOOT_SHARD, PAYLOAD_CROSSING_ALERT, admin_connect_frame, build_admin_connect, route_frame,
    build_route, parse_crossing_alert,
};
use crate::broker::{
    subscribe_frame, unsubscribe_frame, BrokerView, HandledView, spec_handle, fits_name_field,
    lemma_announce_then_route, lemma_subscribe,
};
use crate::protocol::routed_frame;
use crate::text::{decimal, digit_char};
use vstd::utf8::{is_ascii_chars, is_ascii_chars_encode_utf8};

verus! {

broadcast use vstd::std_specs::hash::group_hash_axioms;

/// `-500.0` as an `f32` bit pattern: the lower corner of the world.
pub const WORLD_MIN: u32 = 0xc3fa_0000;

/// `500.0` as an `f32` bit pattern: the upper corner of the world.
pub const WORLD_MAX: u32 = 0x43fa_0000;

/// The depth of the quadtree over the world.
pub const WORLD_DEPTH: u8 = 5;

/// The number of players from which a shard is split.
pub const MAX_PLAYERS_PER_SHARD: usize = 1000;

/// The stream on which the spatial service sends to the broker.
pub const BROKER_STREAM: u64 = 0;

/// The client a tracked player belongs to.
#[derive(Clone, Copy, Debug, PartialEq, Eq, Structural)]
pub struct ClientId(pub u32);

/// Where a tracked player is.
#[derive(Clone, Copy, Debug, PartialEq, Eq, Structural)]
pub struct Position(pub Vec2);

/// The shard a tracked player was last seen in, if any.
#[derive(Clone, Copy, Debug, PartialEq, Eq, Structural)]
pub struct CurrentShard(pub Option<u32>);

/// The shards near a tracked player when it was last warned about.
pub struct NearbyShards(pub Vec<u32>);

/// A tracked player: its components, and whether its position changed
/// since the shards were last checked.
pub struct SpatialEntity {
    pub client_id: ClientId,
    pub position: Position,
    pub current_shard: CurrentShard,
    pub nearby_shards: NearbyShards,
    pub changed: bool,
}

/// The entity last spawned for each client, by index.
pub struct PlayerEntities {
    pub map: HashMap<u32, usize>,
}

/// The connection to the broker, once established.
pub struct SpatialSocket {
    pub broker_conn: Option<u64>,
    pub has_booted: bool,
}

/// Subscribe a client to the topic of a shard.
#[derive(Clone, Copy, Debug, PartialEq, Eq, Structural)]
pub struct SubscribeMessage {
    pub client_id: u32,
    pub topic: u32,
}

/// Unsubscribe a client from the topic of a shard.
#[derive(Clone, Copy, Debug, PartialEq, Eq, Structural)]
pub struct UnsubscribeMessage {
    pub client_id: u32,
    pub topic: u32,
}

/// Warn the shard of a client that the client is near the listed shards.
pub struct CrossingAlertMessage {
    pub client_id: u32,
    pub source_shard: u32,
    pub involved_shards: Vec<u32>,
}

/// Ask the orchestrator to boot a server for a shard.
#[derive(Clone, Copy, Debug, PartialEq, Eq, Structural)]
pub struct BootShardEvent {
    pub shard_id: u32,
    pub bounds: Rect,
}

/// Everything the spatial service holds: its socket, the partition of the
/// world, the tracked players, and the messages waiting to be sent.
pub struct SpatialService {
    pub socket: SpatialSocket,
    pub quad_tree: QuadTree,
    pub player_entities: PlayerEntities,
    pub entities: Vec<SpatialEntity>,
    pub subscribes: Vec<SubscribeMessage>,
    pub unsubscribes: Vec<UnsubscribeMessage>,
    pub alerts: Vec<CrossingAlertMessage>,
    pub boots: Vec<BootShardEvent>,
}

/// A tracked player as values.
pub struct EntityView {
    pub client_id: u32,
    pub position: Vec2,
    pub current_shard: Option<u32>,
    pub nearby: Seq<u32>,
    pub changed: bool,
}

pub open spec fn entity_view(e: SpatialEntity) -> EntityView {
    EntityView {
        client_id: e.client_id.0,
        position: e.position.0,
        current_shard: e.current_shard.0,
        nearby: e.nearby_shards.0@,
        changed: e.changed,
    }
}

pub open spec fn entities_view(v: Seq<SpatialEntity>) -> Seq<EntityView> {
    v.map_values(|e: SpatialEntity| entity_view(e))
}

/// A crossing alert as values: client, source shard, shards near.
pub open spec fn alerts_view(v: Seq<CrossingAlertMessage>) -> Seq<(u32, u32, Seq<u32>)> {
    v.map_values(|a: CrossingAlertMessage| (a.client_id, a.source_shard, a.involved_shards@))
}

/// The spatial service as values.
pub struct SpatialView {
    pub broker_conn: Option<u64>,
    pub has_booted: bool,
    pub tree: QuadTree,
    pub players: Map<u32, usize>,
    pub entities: Seq<EntityView>,
    pub subscribes: Seq<SubscribeMessage>,
    pub unsubscribes: Seq<UnsubscribeMessage>,
    pub alerts: Seq<(u32, u32, Seq<u32>)>,
    pub boots: Seq<BootShardEvent>,
}

impl SpatialService {
    pub open spec fn view(&self) -> SpatialView {
        SpatialView {
            broker_conn: self.socket.broker_conn,
            has_booted: self.socket.has_booted,
            tree: self.quad_tree,
            players: self.player_entities.map@,
            entities: entities_view(self.entities@),
            subscribes: self.subscribes@,
            unsubscribes: self.unsubscribes@,
            alerts: alerts_view(self.alerts@),
            boots: self.boots@,
        }
    }

    /// Each client's entity is one of the tracked ones, and the tree is
    /// well formed.
    pub open spec fn wf(&self) -> bool {
        &&& forall|id: u32| #[trigger]
            self.player_entities.map@.contains_key(id) ==> self.player_entities.map@[id] < self.entities@.len()
        &&& wf(self.quad_tree)
    }
}

/// Something for the caller to do on the spatial service's behalf.
#[derive(Debug, PartialEq, Eq)]
pub enum SpatialAction {
    /// Send a frame on a connection and stream.
    Send { connection: u64, stream: u64, data: Vec<u8> },
    /// Open a stream on a connection, reliable or not.
    CreateStream { connection: u64, reliable: bool },
}

pub enum SpatialActionView {
    Send(u64, u64, Seq<u8>),
    CreateStream(u64, bool),
}

pub open spec fn spatial_action_view(a: SpatialAction) -> SpatialActionView {
    match a {
        SpatialAction::Send { connection, stream, data } => SpatialActionView::Send(connection, stream, data@),
        SpatialAction::CreateStream { connection, reliable } => SpatialActionView::CreateStream(connection, reliable),
    }
}

pub open spec fn spatial_actions_view(v: Seq<SpatialAction>) -> Seq<SpatialActionView> {
    v.map_values(|a: SpatialAction| spatial_action_view(a))
}

/// The name under which the spatial service announces itself.
pub open spec fn spatial_service_name() -> Seq<char> {
    seq!['s', 'p', 'a', 't', 'i', 'a', 'l']
}

/// The world's zone.
pub open spec fn world_bounds() -> Rect {
    Rect { min: Vec2 { x: WORLD_MIN, y: WORLD_MIN }, max: Vec2 { x: WORLD_MAX, y: WORLD_MAX } }
}

/// The client and position of a position report: tag `0x10`, client id,
/// x, y; `None` for any other frame or one cut short.
pub open spec fn position_update(data: Seq<u8>) -> Option<(u32, Vec2)> {
    if data.len() >= 13 && data[0] == 0x10 {
        Some((le_u32(data, 1) as u32, Vec2 { x: le_u32(data, 5) as u32, y: le_u32(data, 9) as u32 }))
    } else {
        None
    }
}

/// The boot orders for the shards of the tree, in the order of its leaves.
pub open spec fn boots_of(leaves: Seq<(u32, Rect)>) -> Seq<BootShardEvent> {
    leaves.map_values(|l: (u32, Rect)| BootShardEvent { shard_id: l.0, bounds: l.1 })
}

/// The four-byte encodings of the ids, one after the other.
pub open spec fn ids_le(ids: Seq<u32>) -> Seq<u8> {
    Seq::new(4 * ids.len(), |i: int| u32_le(ids[i / 4])[i % 4])
}

/// The payload of a crossing alert: tag `0x99`, client id, the number of
/// shards cut to a byte, the shard ids.
pub open spec fn crossing_alert_payload(client_id: u32, shards: Seq<u32>) -> Seq<u8> {
    seq![PAYLOAD_CROSSING_ALERT] + u32_le(client_id) + seq![(shards.len() % 256) as u8] + ids_le(shards)
}

/// The payload of a boot order: tag `0x90`, shard id, the four bounds.
pub open spec fn boot_payload(b: BootShardEvent) -> Seq<u8> {
    seq![PAYLOAD_BOOT_SHARD] + u32_le(b.shard_id) + u32_le(b.bounds.min.x) + u32_le(b.bounds.min.y) + u32_le(
        b.bounds.max.x,
    ) + u32_le(b.bounds.max.y)
}

/// The name of the orchestrator at the broker.
pub open spec fn orchestrator_target() -> Seq<char> {
    seq!['o', 'r', 'c', 'h', 'e', 's', 't', 'r', 'a', 't', 'o', 'r']
}

/// The frames of the waiting messages, in the order they are sent:
/// subscriptions, unsubscriptions, crossing alerts (routed to the player's
/// shard), boot orders (routed to the orchestrator).
pub open spec fn outbox_frames(s: SpatialView) -> Seq<Seq<u8>> {
    s.subscribes.map_values(|m: SubscribeMessage| subscribe_frame(m.client_id, shard_topic(m.topic)))
        + s.unsubscribes.map_values(|m: UnsubscribeMessage| unsubscribe_frame(m.client_id, shard_topic(m.topic)))
        + s.alerts.map_values(
        |a: (u32, u32, Seq<u32>)| route_frame(shard_topic(a.1), crossing_alert_payload(a.0, a.2)),
    ) + s.boots.map_values(|b: BootShardEvent| route_frame(orchestrator_target(), boot_payload(b)))
}

fn frames_to(connection: u64, frames: Vec<Vec<u8>>) -> (r: Vec<SpatialAction>)
    ensures
        spatial_actions_view(r@) == Seq::new(
            frames@.len(),
            |k: int| SpatialActionView::Send(connection, BROKER_STREAM, frames@[k]@),
        ),
{
    let mut out: Vec<SpatialAction> = Vec::new();
    let mut frames = frames;
    let ghost fv = frames@;
    let n = frames.len();
    let mut i: usize = 0;
    while frames.len() > 0
        invariant
            fv.len() == n,
            i + frames@.len() == n,
            frames@ == fv.subrange(i as int, n as int),
            out@.len() == i,
            forall|k: int|
                0 <= k < i ==> spatial_action_view(#[trigger] out@[k]) == SpatialActionView::Send(
                    connection,
                    BROKER_STREAM,
                    fv[k]@,
                ),
        decreases frames@.len(),
    {
        let f = frames.remove(0);
        assert(frames@ =~= fv.subrange(i + 1, n as int));
        out.push(SpatialAction::Send { connection, stream: BROKER_STREAM, data: f });
        i = i + 1;
    }
    assert(spatial_actions_view(out@) =~= Seq::new(
        fv.len(),
        |k: int| SpatialActionView::Send(connection, BROKER_STREAM, fv[k]@),
    ));
    out
}

/// Writes the ids, four bytes each.
fn push_ids(out: &mut Vec<u8>, ids: &Vec<u32>)
    ensures
        final(out)@ == old(out)@ + ids_le(ids@),
{
    let mut i: usize = 0;
    while i < ids.len()
        invariant
            i <= ids@.len(),
            out@ == old(out)@ + ids_le(ids@.subrange(0, i as int)),
        decreases ids@.len() - i,
    {
        let ghost before = out@;
        push_u32_le(out, ids[i]);
        proof {
            let a = ids_le(ids@.subrange(0, i as int));
            let b = ids_le(ids@.subrange(0, i + 1));
            assert forall|k: int| 0 <= k < b.len() implies #[trigger] b[k] == (a + u32_le(ids@[i as int]))[k] by {
                if k < a.len() {
                    assert(k / 4 < i);
                } else {
                    assert(k / 4 == i);
                }
            }
            assert(b =~= a + u32_le(ids@[i as int]));
        }
        i = i + 1;
    }
    assert(ids@.subrange(0, ids@.len() as int) =~= ids@);
}

impl SpatialService {
    /// The service at start: the world split into the complete quadtree of
    /// depth 5 over -500..500 on both axes, no player tracked, no broker
    /// yet. `center` gives the centre of a zone.
    pub fn init_spatial_service<F: Fn(Rect) -> Vec2>(center: &F) -> (r: SpatialService)
        requires
            forall|b: Rect| center.requires((b,)),
        ensures
            r.wf(),
            r@.tree.bounds == world_bounds(),
            r@.tree.max_depth == WORLD_DEPTH,
            crate::quadtree::complete(r@.tree),
            crate::quadtree::split_by(r@.tree, *center),
            crate::quadtree::leaf_ids(r@.tree) == crate::quadtree::id_range(1, pow4(WORLD_DEPTH as nat)),
            r@.broker_conn is None,
            !r@.has_booted,
            r@.players == Map::<u32, usize>::empty(),
            r@.entities.len() == 0,
            r@.subscribes.len() == 0,
            r@.unsubscribes.len() == 0,
            r@.alerts.len() == 0,
            r@.boots.len() == 0,
    {
        let bounds = Rect { min: Vec2 { x: WORLD_MIN, y: WORLD_MIN }, max: Vec2 { x: WORLD_MAX, y: WORLD_MAX } };
        assert(pow4(WORLD_DEPTH as nat) == 1024) by {
            reveal_with_fuel(pow4, 6);
        }
        let quad_tree = QuadTree::generate(bounds, WORLD_DEPTH, center);
        let r = SpatialService {
            socket: SpatialSocket { broker_conn: None, has_booted: false },
            quad_tree,
            player_entities: PlayerEntities { map: HashMap::new() },
            entities: Vec::new(),
            subscribes: Vec::new(),
            unsubscribes: Vec::new(),
            alerts: Vec::new(),
            boots: Vec::new(),
        };
        assert(entities_view(r.entities@) =~= Seq::<EntityView>::empty());
        assert(alerts_view(r.alerts@) =~= Seq::<(u32, u32, Seq<u32>)>::empty());
        r
    }

    /// The connection to the broker is established: it is kept, and a
    /// reliable stream is opened on it.
    pub fn on_connected(&mut self, connection: u64) -> (r: Vec<SpatialAction>)
        ensures
            final(self)@ == (SpatialView { broker_conn: Some(connection), ..old(self)@ }),
            spatial_actions_view(r@) == seq![SpatialActionView::CreateStream(connection, true)],
    {
        self.socket.broker_conn = Some(connection);
        let mut r: Vec<SpatialAction> = Vec::new();
        r.push(SpatialAction::CreateStream { connection, reliable: true });
        assert(spatial_actions_view(r@) =~= seq![SpatialActionView::CreateStream(connection, true)]);
        r
    }

    /// The stream to the broker is open: the service announces itself as
    /// `spatial`, and a boot order is queued for every shard of the tree.
    pub fn on_stream_created(&mut self, connection: u64) -> (r: Vec<SpatialAction>)
        ensures
            final(self)@ == (SpatialView {
                boots: old(self)@.boots + boots_of(spec_leaves(old(self)@.tree)),
                ..old(self)@
            }),
            spatial_actions_view(r@) == seq![
                SpatialActionView::Send(connection, BROKER_STREAM, admin_connect_frame(spatial_service_name())),
            ],
    {
        let name = "spatial";
        proof {
            reveal_strlit("spatial");
        }
        assert(name@ =~= spatial_service_name());
        let auth = build_admin_connect(name);
        let leaves = self.quad_tree.get_leaves();
        let mut i: usize = 0;
        let ghost s0 = self@;
        while i < leaves.len()
            invariant
                i <= leaves@.len(),
                leaves@ == spec_leaves(s0.tree),
                self@ == (SpatialView { boots: s0.boots + boots_of(leaves@.subrange(0, i as int)), ..s0 }),
            decreases leaves@.len() - i,
        {
            let (shard_id, bounds) = leaves[i];
            self.boots.push(BootShardEvent { shard_id, bounds });
            assert(boots_of(leaves@.subrange(0, i + 1)) =~= boots_of(leaves@.subrange(0, i as int)).push(
                BootShardEvent { shard_id, bounds },
            ));
            i = i + 1;
        }
        assert(leaves@.subrange(0, leaves@.len() as int) =~= leaves@);
        let mut r: Vec<SpatialAction> = Vec::new();
        r.push(SpatialAction::Send { connection, stream: BROKER_STREAM, data: auth });
        assert(spatial_actions_view(r@) =~= seq![
            SpatialActionView::Send(connection, BROKER_STREAM, admin_connect_frame(spatial_service_name())),
        ]);
        r
    }

    /// A frame from the broker. A position report moves the entity last
    /// spawned for its client, if any, and spawns a new entity for the
    /// client at that position, with no shard yet; the client is then known
    /// by the new entity. Anything else is ignored.
    pub fn receive_position_update(&mut self, data: &[u8])
        requires
            old(self).wf(),
            old(self).entities@.len() < usize::MAX,
        ensures
            final(self).wf(),
            match position_update(data@) {
                None => final(self)@ == old(self)@,
                Some((id, pos)) => {
                    let moved = if old(self)@.players.contains_key(id) {
                        let k = old(self)@.players[id] as int;
                        old(self)@.entities.update(
                            k,
                            EntityView { position: pos, changed: true, ..old(self)@.entities[k] },
                        )
                    } else {
                        old(self)@.entities
                    };
                    final(self)@ == (SpatialView {
                        entities: moved.push(
                            EntityView {
                                client_id: id,
                                position: pos,
                                current_shard: None,
                                nearby: Seq::empty(),
                                changed: true,
                            },
                        ),
                        players: old(self)@.players.insert(id, old(self)@.entities.len() as usize),
                        ..old(self)@
                    })
                },
            },
    {
        if data.len() < 13 || data[0] != 0x10 {
            return;
        }
        let client_id = read_u32_le(data, 1);
        let x = read_u32_le(data, 5);
        let y = read_u32_le(data, 9);
        let pos = Vec2 { x, y };
        let ghost e0 = self.entities@;
        match self.player_entities.map.get(&client_id) {
            Some(k) => {
                let k = *k;
                self.entities[k].position = Position(pos);
                self.entities[k].changed = true;
                assert(entities_view(self.entities@) =~= entities_view(e0).update(
                    k as int,
                    EntityView { position: pos, changed: true, ..entities_view(e0)[k as int] },
                ));
            },
            None => {},
        }
        let ghost e1 = self.entities@;
        let index = self.entities.len();
        self.entities.push(
            SpatialEntity {
                client_id: ClientId(client_id),
                position: Position(pos),
                current_shard: CurrentShard(None),
                nearby_shards: NearbyShards(Vec::new()),
                changed: true,
            },
        );
        assert(entities_view(self.entities@) =~= entities_view(e1).push(
            EntityView { client_id, position: pos, current_shard: None, nearby: Seq::empty(), changed: true },
        ));
        self.player_entities.map.insert(client_id, index);
    }

    /// Sends the waiting messages to the broker, in the order of
    /// `outbox_frames`, and empties the queues. Before the broker is
    /// connected nothing is sent and the waiting messages are dropped.
    pub fn flush_network_messages(&mut self) -> (r: Vec<SpatialAction>)
        ensures
            final(self)@ == (SpatialView {
                subscribes: Seq::empty(),
                unsubscribes: Seq::empty(),
                alerts: Seq::empty(),
                boots: Seq::empty(),
                ..old(self)@
            }),
            old(self)@.broker_conn is None ==> r@.len() == 0,
            old(self)@.broker_conn matches Some(c) ==> spatial_actions_view(r@) == Seq::new(
                outbox_frames(old(self)@).len(),
                |k: int| SpatialActionView::Send(c, BROKER_STREAM, outbox_frames(old(self)@)[k]),
            ),
    {
        let c = match self.socket.broker_conn {
            Some(c) => c,
            None => {
                self.subscribes = Vec::new();
                self.unsubscribes = Vec::new();
                self.alerts = Vec::new();
                self.boots = Vec::new();
                assert(alerts_view(self.alerts@) =~= Seq::empty());
                return Vec::new();
            },
        };
        let ghost s0 = self@;
        let mut frames: Vec<Vec<u8>> = Vec::new();
        let ghost fs0 = s0.subscribes.map_values(
            |m: SubscribeMessage| subscribe_frame(m.client_id, shard_topic(m.topic)),
        );
        let mut i: usize = 0;
        while i < self.subscribes.len()
            invariant
                i <= self.subscribes@.len(),
                self@ == s0,
                fs0 == s0.subscribes.map_values(|m: SubscribeMessage| subscribe_frame(m.client_id, shard_topic(m.topic))),
                frames@.len() == i,
                forall|k: int| 0 <= k < i ==> #[trigger] frames@[k]@ == fs0[k],
            decreases self.subscribes@.len() - i,
        {
            let m = self.subscribes[i];
            let topic = shard_topic_string(m.topic);
            let mut f: Vec<u8> = Vec::new();
            f.push(0x01u8);
            push_u32_le(&mut f, m.client_id);
            push_name_field(&mut f, topic.as_str());
            assert(f@ =~= fs0[i as int]);
            frames.push(f);
            i = i + 1;
        }
        let ghost fs1 = s0.unsubscribes.map_values(
            |m: UnsubscribeMessage| unsubscribe_frame(m.client_id, shard_topic(m.topic)),
        );
        let mut i: usize = 0;
        while i < self.unsubscribes.len()
            invariant
                i <= self.unsubscribes@.len(),
                self@ == s0,
                fs1 == s0.unsubscribes.map_values(
                    |m: UnsubscribeMessage| unsubscribe_frame(m.client_id, shard_topic(m.topic)),
                ),
                frames@.len() == fs0.len() + i,
                forall|k: int| 0 <= k < fs0.len() ==> #[trigger] frames@[k]@ == fs0[k],
                forall|k: int| 0 <= k < i ==> #[trigger] frames@[fs0.len() + k]@ == fs1[k],
            decreases self.unsubscribes@.len() - i,
        {
            let m = self.unsubscribes[i];
            let topic = shard_topic_string(m.topic);
            let mut f: Vec<u8> = Vec::new();
            f.push(0x02u8);
            push_u32_le(&mut f, m.client_id);
            push_name_field(&mut f, topic.as_str());
            assert(f@ =~= fs1[i as int]);
            frames.push(f);
            i = i + 1;
        }
        let ghost fs2 = s0.alerts.map_values(
            |a: (u32, u32, Seq<u32>)| route_frame(shard_topic(a.1), crossing_alert_payload(a.0, a.2)),
        );
        let mut i: usize = 0;
        while i < self.alerts.len()
            invariant
                i <= self.alerts@.len(),
                self@ == s0,
                fs2 == s0.alerts.map_values(
                    |a: (u32, u32, Seq<u32>)| route_frame(shard_topic(a.1), crossing_alert_payload(a.0, a.2)),
                ),
                frames@.len() == fs0.len() + fs1.len() + i,
                forall|k: int| 0 <= k < fs0.len() ==> #[trigger] frames@[k]@ == fs0[k],
                forall|k: int| 0 <= k < fs1.len() ==> #[trigger] frames@[fs0.len() + k]@ == fs1[k],
                forall|k: int| 0 <= k < i ==> #[trigger] frames@[fs0.len() + fs1.len() + k]@ == fs2[k],
            decreases self.alerts@.len() - i,
        {
            let a = &self.alerts[i];
            let target = shard_topic_string(a.source_shard);
            let mut payload: Vec<u8> = Vec::new();
            payload.push(PAYLOAD_CROSSING_ALERT);
            push_u32_le(&mut payload, a.client_id);
            payload.push((a.involved_shards.len() % 256) as u8);
            push_ids(&mut payload, &a.involved_shards);
            assert(payload@ =~= crossing_alert_payload(a.client_id, a.involved_shards@));
            let f = build_route(target.as_str(), payload.as_slice());
            assert(f@ =~= fs2[i as int]);
            frames.push(f);
            i = i + 1;
        }
        let ghost fs3 = s0.boots.map_values(|b: BootShardEvent| route_frame(orchestrator_target(), boot_payload(b)));
        let target = "orchestrator";
        proof {
            reveal_strlit("orchestrator");
        }
        assert(target@ =~= orchestrator_target());
        let mut i: usize = 0;
        while i < self.boots.len()
            invariant
                i <= self.boots@.len(),
                self@ == s0,
                fs3 == s0.boots.map_values(|b: BootShardEvent| route_frame(orchestrator_target(), boot_payload(b))),
                target@ == orchestrator_target(),
                frames@.len() == fs0.len() + fs1.len() + fs2.len() + i,
                forall|k: int| 0 <= k < fs0.len() ==> #[trigger] frames@[k]@ == fs0[k],
                forall|k: int| 0 <= k < fs1.len() ==> #[trigger] frames@[fs0.len() + k]@ == fs1[k],
                forall|k: int| 0 <= k < fs2.len() ==> #[trigger] frames@[fs0.len() + fs1.len() + k]@ == fs2[k],
                forall|k: int|
                    0 <= k < i ==> #[trigger] frames@[fs0.len() + fs1.len() + fs2.len() + k]@ == fs3[k],
            decreases self.boots@.len() - i,
        {
            let b = self.boots[i];
            let mut payload: Vec<u8> = Vec::new();
            payload.push(PAYLOAD_BOOT_SHARD);
            push_u32_le(&mut payload, b.shard_id);
            push_u32_le(&mut payload, b.bounds.min.x);
            push_u32_le(&mut payload, b.bounds.min.y);
            push_u32_le(&mut payload, b.bounds.max.x);
            push_u32_le(&mut payload, b.bounds.max.y);
            assert(payload@ =~= boot_payload(b));
            let f = build_route(target, payload.as_slice());
            assert(f@ =~= fs3[i as int]);
            frames.push(f);
            i = i + 1;
        }
        proof {
            let all = outbox_frames(s0);
            assert(all =~= fs0 + fs1 + fs2 + fs3);
            assert forall|k: int| 0 <= k < all.len() implies #[trigger] frames@[k]@ == all[k] by {
                if k < fs0.len() {
                } else if k < fs0.len() + fs1.len() {
                    assert(frames@[fs0.len() + (k - fs0.len())]@ == fs1[k - fs0.len()]);
                } else if k < fs0.len() + fs1.len() + fs2.len() {
                    assert(frames@[fs0.len() + fs1.len() + (k - fs0.len() - fs1.len())]@ == fs2[k - fs0.len()
                        - fs1.len()]);
                } else {
                    assert(frames@[fs0.len() + fs1.len() + fs2.len() + (k - fs0.len() - fs1.len() - fs2.len())]@
                        == fs3[k - fs0.len() - fs1.len() - fs2.len()]);
                }
            }
        }
        let r = frames_to(c, frames);
        self.subscribes = Vec::new();
        self.unsubscribes = Vec::new();
        self.alerts = Vec::new();
        self.boots = Vec::new();
        assert(alerts_view(self.alerts@) =~= Seq::<(u32, u32, Seq<u32>)>::empty());
        assert(spatial_actions_view(r@) =~= Seq::new(
            outbox_frames(s0).len(),
            |k: int| SpatialActionView::Send(c, BROKER_STREAM, outbox_frames(s0)[k]),
        ));
        r
    }
}


/// The shards near a position, as `shards_near` lists them: increasing,
/// each once.
pub open spec fn near_list<F: Fn(Vec2, Rect) -> bool>(t: QuadTree, pos: Vec2, touches: F, s: Seq<u32>) -> bool {
    &&& strictly_increasing(s)
    &&& forall|id: u32| s.contains(id) <==> spec_near_ids(t, pos, touches).contains(id)
}

/// What checking the shards does to one tracked player, and the messages
/// it queues. A player whose position did not change is left alone. Else
/// it takes the shard of its position; if that differs from its shard,
/// it is unsubscribed from the old one and subscribed to the new one. In a
/// shard, when the shards near it differ from those it was last warned
/// about, it keeps the new list, and its shard is warned if more than one
/// shard is near.
pub open spec fn entity_step<F: Fn(Vec2, Rect) -> bool>(
    t: QuadTree,
    touches: F,
    e0: EntityView,
    e1: EntityView,
    subs: Seq<SubscribeMessage>,
    unsubs: Seq<UnsubscribeMessage>,
    alerts: Seq<(u32, u32, Seq<u32>)>,
) -> bool {
    if !e0.changed {
        e1 == e0 && subs.len() == 0 && unsubs.len() == 0 && alerts.len() == 0
    } else {
        let actual = spec_shard_for(t, e0.position);
        let id = e0.client_id;
        let moved = actual != e0.current_shard;
        &&& e1.client_id == id
        &&& e1.position == e0.position
        &&& e1.current_shard == actual
        &&& !e1.changed
        &&& unsubs == if moved && e0.current_shard is Some {
            seq![UnsubscribeMessage { client_id: id, topic: e0.current_shard->0 }]
        } else {
            Seq::empty()
        }
        &&& subs == if moved && actual is Some {
            seq![SubscribeMessage { client_id: id, topic: actual->0 }]
        } else {
            Seq::empty()
        }
        &&& match actual {
            None => e1.nearby == e0.nearby && alerts.len() == 0,
            Some(src) => exists|near: Seq<u32>|
                #[trigger] near_list(t, e0.position, touches, near) && if near != e0.nearby {
                    &&& e1.nearby == near
                    &&& alerts == if near.len() > 1 {
                        seq![(id, src, near)]
                    } else {
                        Seq::empty()
                    }
                } else {
                    e1.nearby == e0.nearby && alerts.len() == 0
                },
        }
    }
}

/// The sequences one after the other.
pub open spec fn joined<T>(s: Seq<Seq<T>>) -> Seq<T>
    decreases s.len(),
{
    if s.len() == 0 {
        Seq::empty()
    } else {
        joined(s.drop_last()) + s.last()
    }
}

/// The first `n` players took their steps, with the messages listed per
/// player.
pub open spec fn steps_taken<F: Fn(Vec2, Rect) -> bool>(
    t: QuadTree,
    touches: F,
    e0: Seq<EntityView>,
    e1: Seq<EntityView>,
    subs: Seq<Seq<SubscribeMessage>>,
    unsubs: Seq<Seq<UnsubscribeMessage>>,
    alerts: Seq<Seq<(u32, u32, Seq<u32>)>>,
    n: int,
) -> bool {
    &&& subs.len() == n && unsubs.len() == n && alerts.len() == n
    &&& forall|k: int| 0 <= k < n ==> #[trigger] entity_step(t, touches, e0[k], e1[k], subs[k], unsubs[k], alerts[k])
}

/// What checking the shards does: every tracked player takes its step, in
/// order, and the messages are queued in that order.
pub open spec fn transitions<F: Fn(Vec2, Rect) -> bool>(s0: SpatialView, s1: SpatialView, touches: F) -> bool {
    &&& s1 == (SpatialView {
        entities: s1.entities,
        subscribes: s1.subscribes,
        unsubscribes: s1.unsubscribes,
        alerts: s1.alerts,
        ..s0
    })
    &&& s1.entities.len() == s0.entities.len()
    &&& exists|
        subs: Seq<Seq<SubscribeMessage>>,
        unsubs: Seq<Seq<UnsubscribeMessage>>,
        alerts: Seq<Seq<(u32, u32, Seq<u32>)>>,
    |
        #[trigger] steps_taken(s0.tree, touches, s0.entities, s1.entities, subs, unsubs, alerts, s0.entities.len() as int)
            && s1.subscribes == s0.subscribes + joined(subs) && s1.unsubscribes == s0.unsubscribes + joined(unsubs)
            && s1.alerts == s0.alerts + joined(alerts)
}

impl SpatialService {
    /// Checks the shard of every player whose position changed, as
    /// `transitions` states. `touches(p, zone)` tells whether the zone
    /// comes within 5 units of `p`.
    pub fn check_shard_transitions<F: Fn(Vec2, Rect) -> bool>(&mut self, touches: &F)
        requires
            decides(*touches),
        ensures
            transitions(old(self)@, final(self)@, *touches),
            final(self).wf() == old(self).wf(),
    {
        let ghost s0 = self@;
        let ghost mut gsubs: Seq<Seq<SubscribeMessage>> = Seq::empty();
        let ghost mut gunsubs: Seq<Seq<UnsubscribeMessage>> = Seq::empty();
        let ghost mut galerts: Seq<Seq<(u32, u32, Seq<u32>)>> = Seq::empty();
        let n = self.entities.len();
        let mut i: usize = 0;
        while i < n
            invariant
                decides(*touches),
                n == s0.entities.len(),
                i <= n,
                self@ == (SpatialView {
                    entities: self@.entities,
                    subscribes: self@.subscribes,
                    unsubscribes: self@.unsubscribes,
                    alerts: self@.alerts,
                    ..s0
                }),
                self@.entities.len() == n,
                self.entities@.len() == n,
                forall|k: int| i <= k < n ==> #[trigger] self@.entities[k] == s0.entities[k],
                steps_taken(s0.tree, *touches, s0.entities, self@.entities, gsubs, gunsubs, galerts, i as int),
                self@.subscribes == s0.subscribes + joined(gsubs),
                self@.unsubscribes == s0.unsubscribes + joined(gunsubs),
                self@.alerts == s0.alerts + joined(galerts),
            decreases n - i,
        {
            let ghost ents = self@.entities;
            let ghost e0 = self@.entities[i as int];
            let ghost subs0 = self@.subscribes;
            let ghost unsubs0 = self@.unsubscribes;
            let ghost alerts0 = self@.alerts;
            let ghost mut step_subs: Seq<SubscribeMessage> = Seq::empty();
            let ghost mut step_unsubs: Seq<UnsubscribeMessage> = Seq::empty();
            let ghost mut step_alerts: Seq<(u32, u32, Seq<u32>)> = Seq::empty();
            if self.entities[i].changed {
                let id = self.entities[i].client_id.0;
                let pos = self.entities[i].position.0;
                let cur = self.entities[i].current_shard.0;
                let actual = self.quad_tree.shard_for(pos);
                if actual != cur {
                    match cur {
                        Some(old_id) => {
                            self.unsubscribes.push(UnsubscribeMessage { client_id: id, topic: old_id });
                            proof {
                                step_unsubs = seq![UnsubscribeMessage { client_id: id, topic: old_id }];
                            }
                        },
                        None => {},
                    }
                    match actual {
                        Some(new_id) => {
                            self.subscribes.push(SubscribeMessage { client_id: id, topic: new_id });
                            proof {
                                step_subs = seq![SubscribeMessage { client_id: id, topic: new_id }];
                            }
                        },
                        None => {},
                    }
                    self.entities[i].current_shard = CurrentShard(actual);
                }
                match actual {
                    Some(src) => {
                        let near = self.quad_tree.shards_near(pos, touches);
                        proof {
                            assert(near_list(s0.tree, pos, *touches, near@));
                        }
                        if !crate::idset::same_ids(&near, &self.entities[i].nearby_shards.0) {
                            if near.len() > 1 {
                                let involved = crate::idset::copy_ids(&near);
                                self.alerts.push(
                                    CrossingAlertMessage { client_id: id, source_shard: src, involved_shards: involved },
                                );
                                proof {
                                    step_alerts = seq![(id, src, near@)];
                                }
                            }
                            self.entities[i].nearby_shards = NearbyShards(near);
                        }
                    },
                    None => {},
                }
                self.entities[i].changed = false;
            }
            proof {
                assert(self.subscribes@ =~= subs0 + step_subs);
                assert(self.unsubscribes@ =~= unsubs0 + step_unsubs);
                assert(alerts_view(self.alerts@) =~= alerts0 + step_alerts);
                assert(self@.entities =~= ents.update(i as int, self@.entities[i as int]));
                assert(entity_step(s0.tree, *touches, e0, self@.entities[i as int], step_subs, step_unsubs, step_alerts));
                let gs = gsubs.push(step_subs);
                let gu = gunsubs.push(step_unsubs);
                let ga = galerts.push(step_alerts);
                assert(gs.drop_last() =~= gsubs);
                assert(gu.drop_last() =~= gunsubs);
                assert(ga.drop_last() =~= galerts);
                assert(s0.subscribes + joined(gs) =~= s0.subscribes + joined(gsubs) + step_subs);
                assert(s0.unsubscribes + joined(gu) =~= s0.unsubscribes + joined(gunsubs) + step_unsubs);
                assert(s0.alerts + joined(ga) =~= s0.alerts + joined(galerts) + step_alerts);
                assert forall|k: int| 0 <= k < i + 1 implies #[trigger] entity_step(
                    s0.tree,
                    *touches,
                    s0.entities[k],
                    self@.entities[k],
                    gs[k],
                    gu[k],
                    ga[k],
                ) by {
                    if k < i {
                        assert(entity_step(s0.tree, *touches, s0.entities[k], ents[k], gsubs[k], gunsubs[k], galerts[k]));
                    }
                }
                gsubs = gs;
                gunsubs = gu;
                galerts = ga;
            }
            i = i + 1;
        }
        assert(steps_taken(s0.tree, *touches, s0.entities, self@.entities, gsubs, gunsubs, galerts, n as int));
    }
}


/// The number of tracked players in shard `sid`.
pub open spec fn players_in(ents: Seq<EntityView>, sid: u32) -> nat
    decreases ents.len(),
{
    if ents.len() == 0 {
        0
    } else {
        players_in(ents.drop_last(), sid) + if ents.last().current_shard == Some(sid) {
            1nat
        } else {
            0nat
        }
    }
}

/// The largest shard id of the leaves, 0 when there is none.
pub open spec fn max_leaf(leaves: Seq<(u32, Rect)>) -> nat
    decreases leaves.len(),
{
    if leaves.len() == 0 {
        0
    } else {
        let m = max_leaf(leaves.drop_last());
        if leaves.last().0 > m {
            leaves.last().0 as nat
        } else {
            m
        }
    }
}

/// Step `i` of a run of splits: tree `i + 1` is tree `i` split at shard
/// `ks[i]` with fresh ids from `nids[i]`; the next free id moves on by
/// four when a split happened; `news[i]` lists the new shards.
pub open spec fn split_link<F: Fn(Rect) -> Vec2>(
    trees: Seq<QuadTree>,
    nids: Seq<int>,
    news: Seq<Seq<(u32, Rect)>>,
    ks: Seq<u32>,
    center: F,
    i: int,
) -> bool {
    let t0 = trees[i];
    let k = ks[i];
    &&& crate::quadtree::split_rel(t0, trees[i + 1], k, nids[i], center)
    &&& nids[i + 1] == if crate::quadtree::will_split(t0, k) {
        nids[i] + 4
    } else {
        nids[i]
    }
    &&& if crate::quadtree::will_split(t0, k) {
        exists|c: Vec2|
            center.ensures((crate::quadtree::split_node(t0, k).bounds,), c) && news[i]
                == crate::quadtree::new_pairs(crate::quadtree::split_node(t0, k).bounds, c, nids[i])
    } else {
        news[i].len() == 0
    }
}

pub open spec fn split_chain<F: Fn(Rect) -> Vec2>(
    trees: Seq<QuadTree>,
    nids: Seq<int>,
    news: Seq<Seq<(u32, Rect)>>,
    ks: Seq<u32>,
    center: F,
) -> bool {
    &&& trees.len() == ks.len() + 1
    &&& nids.len() == ks.len() + 1
    &&& news.len() == ks.len()
    &&& forall|i: int| 0 <= i < ks.len() ==> #[trigger] split_link(trees, nids, news, ks, center, i)
}

/// The boot orders of new shards.
pub open spec fn boots_of_all(news: Seq<Seq<(u32, Rect)>>) -> Seq<BootShardEvent> {
    boots_of(joined(news))
}

/// `ks` lists, each once, the shards that hold at least
/// `MAX_PLAYERS_PER_SHARD` tracked players.
pub open spec fn over_capacity(ks: Seq<u32>, ents: Seq<EntityView>) -> bool {
    &&& ks.no_duplicates()
    &&& forall|s: u32| ks.contains(s) <==> players_in(ents, s) >= MAX_PLAYERS_PER_SHARD
}

/// The predicate "holds at least `MAX_PLAYERS_PER_SHARD` of the players".
pub open spec fn at_capacity(ents: Seq<EntityView>) -> spec_fn(u32) -> bool {
    |s: u32| players_in(ents, s) >= MAX_PLAYERS_PER_SHARD
}

/// Keeping some items of a list without repeats gives a list without
/// repeats.
proof fn lemma_filter_no_duplicates(list: Seq<u32>, pred: spec_fn(u32) -> bool)
    requires
        list.no_duplicates(),
    ensures
        list.filter(pred).no_duplicates(),
    decreases list.len(),
{
    reveal(Seq::filter);
    if list.len() > 0 {
        let init = list.drop_last();
        assert(init.no_duplicates());
        lemma_filter_no_duplicates(init, pred);
        if pred(list.last()) {
            let f = init.filter(pred);
            if f.contains(list.last()) {
                init.lemma_filter_contains_rev(pred, list.last());
                let m = choose|m: int| 0 <= m < init.len() && init[m] == list.last();
                assert(list[m] == list[list.len() - 1]);
            }
            assert forall|a: int, b: int| 0 <= a < b < f.push(list.last()).len() implies f.push(list.last())[a]
                != f.push(list.last())[b] by {
                if b == f.len() {
                    assert(f.contains(f[a]));
                }
            }
        }
    }
}

proof fn lemma_players_in_step(ents: Seq<EntityView>, i: int, sid: u32)
    requires
        0 <= i < ents.len(),
    ensures
        players_in(ents.subrange(0, i + 1), sid) == players_in(ents.subrange(0, i), sid) + if ents[i].current_shard
            == Some(sid) {
            1nat
        } else {
            0nat
        },
{
    assert(ents.subrange(0, i + 1).drop_last() =~= ents.subrange(0, i));
}

/// The position of `x` in `v`, if it is there.
fn index_of(v: &Vec<u32>, x: u32) -> (r: Option<usize>)
    ensures
        r matches Some(j) ==> j < v@.len() && v@[j as int] == x,
        r is None ==> !v@.contains(x),
{
    let mut j: usize = 0;
    while j < v.len()
        invariant
            j <= v@.len(),
            forall|m: int| 0 <= m < j ==> v@[m] != x,
        decreases v@.len() - j,
    {
        if v[j] == x {
            return Some(j);
        }
        j = j + 1;
    }
    None
}

impl SpatialService {
    /// The shards holding at least one tracked player, each once, and the
    /// number of players in each.
    fn shard_counts(&self) -> (r: (Vec<u32>, Vec<usize>))
        ensures
            r.0@.no_duplicates(),
            r.0@.len() == r.1@.len(),
            r.0@.len() <= self@.entities.len(),
            forall|s: u32| r.0@.contains(s) <==> players_in(self@.entities, s) > 0,
            forall|j: int| 0 <= j < r.0@.len() ==> #[trigger] r.1@[j] == players_in(self@.entities, r.0@[j]),
    {
        let ghost ents = self@.entities;
        let mut shards: Vec<u32> = Vec::new();
        let mut counts: Vec<usize> = Vec::new();
        let mut i: usize = 0;
        while i < self.entities.len()
            invariant
                ents == self@.entities,
                ents.len() == self.entities@.len(),
                i <= ents.len(),
                shards@.no_duplicates(),
                shards@.len() == counts@.len(),
                shards@.len() <= i,
                forall|s: u32| shards@.contains(s) <==> players_in(ents.subrange(0, i as int), s) > 0,
                forall|j: int|
                    0 <= j < shards@.len() ==> #[trigger] counts@[j] == players_in(ents.subrange(0, i as int), shards@[j]),
                forall|j: int| 0 <= j < shards@.len() ==> #[trigger] counts@[j] <= i,
            decreases ents.len() - i,
        {
            proof {
                assert forall|s: u32| #[trigger] players_in(ents.subrange(0, i + 1), s) == players_in(
                    ents.subrange(0, i as int),
                    s,
                ) + if ents[i as int].current_shard == Some(s) {
                    1nat
                } else {
                    0nat
                } by {
                    lemma_players_in_step(ents, i as int, s);
                }
            }
            let ghost sh0 = shards@;
            assert(forall|s: u32| sh0.contains(s) <==> players_in(ents.subrange(0, i as int), s) > 0);
            match self.entities[i].current_shard.0 {
                Some(sid) => {
                    match index_of(&shards, sid) {
                        Some(j) => {
                            let c = counts[j];
                            counts.set(j, c + 1);
                            assert(sh0.contains(sid));
                        },
                        None => {
                            let ghost old_shards = shards@;
                            shards.push(sid);
                            counts.push(1);
                            proof {
                                assert forall|s: u32| shards@.contains(s) <==> old_shards.contains(s) || s == sid by {
                                    if old_shards.contains(s) {
                                        let m = choose|m: int| 0 <= m < old_shards.len() && old_shards[m] == s;
                                        assert(shards@[m] == s);
                                    }
                                    if s == sid {
                                        assert(shards@[old_shards.len() as int] == s);
                                    }
                                }
                            }
                        },
                    }
                },
                None => {},
            }
            proof {
                assert forall|s: u32| shards@.contains(s) <==> sh0.contains(s) || ents[i as int].current_shard
                    == Some(s) by {
                }
                assert forall|s: u32| shards@.contains(s) <==> players_in(ents.subrange(0, i + 1), s) > 0 by {
                    assert(sh0.contains(s) <==> players_in(ents.subrange(0, i as int), s) > 0);
                    assert(shards@.contains(s) <==> sh0.contains(s) || ents[i as int].current_shard == Some(s));
                    assert(players_in(ents.subrange(0, i + 1), s) == players_in(ents.subrange(0, i as int), s)
                        + if ents[i as int].current_shard == Some(s) {
                        1nat
                    } else {
                        0nat
                    });
                }
            }
            i = i + 1;
        }
        assert(ents.subrange(0, ents.len() as int) =~= ents);
        (shards, counts)
    }

    /// Splits every shard that holds at least `MAX_PLAYERS_PER_SHARD`
    /// tracked players, one after the other, numbering the new shards from
    /// one past the largest shard id of the tree, and queues a boot order
    /// for each new shard. `center` gives the centre of a zone. The new
    /// ids, four for each shard over capacity, must fit in a `u32`.
    pub fn monitor_shard_capacity<F: Fn(Rect) -> Vec2>(&mut self, center: &F)
        requires
            forall|b: Rect| center.requires((b,)),
            forall|ks: Seq<u32>|
                #[trigger] over_capacity(ks, old(self)@.entities) ==> max_leaf(spec_leaves(old(self)@.tree)) + 1
                    + 4 * ks.len() <= u32::MAX,
        ensures
            final(self)@ == (SpatialView { tree: final(self)@.tree, boots: final(self)@.boots, ..old(self)@ }),
            exists|ks: Seq<u32>, trees: Seq<QuadTree>, nids: Seq<int>, news: Seq<Seq<(u32, Rect)>>|
                #[trigger] split_chain(trees, nids, news, ks, *center) && over_capacity(ks, old(self)@.entities)
                    && trees[0] == old(self)@.tree && trees.last() == final(self)@.tree && nids[0] == max_leaf(
                    spec_leaves(old(self)@.tree),
                ) + 1 && nids.last() <= u32::MAX && final(self)@.boots == old(self)@.boots + boots_of_all(news),
    {
        let ghost s0 = self@;
        let (shards, counts) = self.shard_counts();
        let leaves = self.quad_tree.get_leaves();
        let mut top: u32 = 0;
        let mut i: usize = 0;
        while i < leaves.len()
            invariant
                i <= leaves@.len(),
                top == max_leaf(leaves@.subrange(0, i as int)),
            decreases leaves@.len() - i,
        {
            assert(leaves@.subrange(0, i + 1).drop_last() =~= leaves@.subrange(0, i as int));
            if leaves[i].0 > top {
                top = leaves[i].0;
            }
            i = i + 1;
        }
        assert(leaves@.subrange(0, leaves@.len() as int) =~= leaves@);
        let ghost full = shards@.filter(at_capacity(s0.entities));
        proof {
            lemma_filter_no_duplicates(shards@, at_capacity(s0.entities));
            assert forall|s: u32| full.contains(s) <==> players_in(s0.entities, s) >= MAX_PLAYERS_PER_SHARD by {
                if full.contains(s) {
                    shards@.lemma_filter_contains_rev(at_capacity(s0.entities), s);
                    let m = choose|m: int| 0 <= m < full.len() && full[m] == s;
                    shards@.lemma_filter_pred(at_capacity(s0.entities), m);
                }
                if players_in(s0.entities, s) >= MAX_PLAYERS_PER_SHARD {
                    assert(shards@.contains(s));
                    let m = choose|m: int| 0 <= m < shards@.len() && shards@[m] == s;
                    shards@.lemma_filter_contains(at_capacity(s0.entities), m);
                }
            }
            assert(over_capacity(full, s0.entities));
            assert(shards@.subrange(0, 0).filter(at_capacity(s0.entities)) =~= Seq::<u32>::empty()) by {
                reveal(Seq::filter);
            }
        }
        let mut next_available_id: u32 = top + 1;
        let ghost mut ks: Seq<u32> = Seq::empty();
        let ghost mut trees: Seq<QuadTree> = seq![s0.tree];
        let ghost mut nids: Seq<int> = seq![next_available_id as int];
        let ghost mut news: Seq<Seq<(u32, Rect)>> = Seq::empty();
        let mut j: usize = 0;
        while j < shards.len()
            invariant
                forall|b: Rect| center.requires((b,)),
                j <= shards@.len(),
                shards@.len() == counts@.len(),
                shards@.len() <= s0.entities.len(),
                shards@.no_duplicates(),
                forall|s: u32| shards@.contains(s) <==> players_in(s0.entities, s) > 0,
                forall|m: int| 0 <= m < shards@.len() ==> #[trigger] counts@[m] == players_in(s0.entities, shards@[m]),
                self@ == (SpatialView { tree: self@.tree, boots: self@.boots, ..s0 }),
                split_chain(trees, nids, news, ks, *center),
                ks.no_duplicates(),
                ks.len() <= j,
                forall|s: u32| ks.contains(s) <==> shards@.subrange(0, j as int).contains(s) && players_in(
                    s0.entities,
                    s,
                ) >= MAX_PLAYERS_PER_SHARD,
                trees[0] == s0.tree,
                trees.last() == self@.tree,
                nids[0] == max_leaf(spec_leaves(s0.tree)) + 1,
                nids.last() == next_available_id as int,
                full == shards@.filter(at_capacity(s0.entities)),
                ks == shards@.subrange(0, j as int).filter(at_capacity(s0.entities)),
                ks.len() <= full.len(),
                next_available_id + 4 * (full.len() - ks.len()) <= u32::MAX,
                self@.boots == s0.boots + boots_of_all(news),
            decreases shards@.len() - j,
        {
            let sid = shards[j];
            proof {
                lemma_prefix_grows(shards@, j as int);
                lemma_next_is_new(shards@, j as int);
            }
            let ghost t0 = self@.tree;
            let ghost ks0 = ks;
            let ghost mut picked = false;
            proof {
                let pred = at_capacity(s0.entities);
                let p1 = shards@.subrange(0, j + 1);
                assert(p1.drop_last() =~= shards@.subrange(0, j as int));
                assert(p1.filter(pred) == if pred(sid) {
                    ks.push(sid)
                } else {
                    ks
                }) by {
                    reveal(Seq::filter);
                }
                assert(shards@ =~= p1 + shards@.subrange(j + 1, shards@.len() as int));
                Seq::filter_distributes_over_add(p1, shards@.subrange(j + 1, shards@.len() as int), pred);
                assert(pred(sid) <==> counts[j as int] >= MAX_PLAYERS_PER_SHARD);
            }
            if counts[j] >= MAX_PLAYERS_PER_SHARD {
                let ghost n0 = next_available_id as int;
                let result = self.quad_tree.split_shard(sid, &mut next_available_id, center);
                let ghost mut new_pairs: Seq<(u32, Rect)> = Seq::empty();
                match result {
                    Some(new_shards) => {
                        let mut k: usize = 0;
                        let ghost b0 = self.boots@;
                        let ghost sv = self@;
                        while k < new_shards.len()
                            invariant
                                k <= new_shards@.len(),
                                self@ == (SpatialView { boots: self@.boots, ..sv }),
                                self.boots@ == b0 + boots_of(new_shards@.subrange(0, k as int)),
                            decreases new_shards@.len() - k,
                        {
                            let (new_id, bounds) = new_shards[k];
                            self.boots.push(BootShardEvent { shard_id: new_id, bounds });
                            assert(boots_of(new_shards@.subrange(0, k + 1)) =~= boots_of(
                                new_shards@.subrange(0, k as int),
                            ).push(BootShardEvent { shard_id: new_id, bounds }));
                            k = k + 1;
                        }
                        assert(new_shards@.subrange(0, new_shards@.len() as int) =~= new_shards@);
                        proof {
                            new_pairs = new_shards@;
                        }
                    },
                    None => {},
                }
                proof {
                    let ns = news.push(new_pairs);
                    assert(ns.drop_last() =~= news);
                    assert(boots_of(joined(ns)) =~= boots_of(joined(news)) + boots_of(new_pairs));
                    let ts = trees.push(self@.tree);
                    let is = nids.push(next_available_id as int);
                    let kk = ks.push(sid);
                    let L = ks.len() as int;
                    assert(ts[L] == t0 && ts[L + 1] == self@.tree && is[L] == n0 && ns[L] == new_pairs);
                    assert(split_link(ts, is, ns, kk, *center, L));
                    assert forall|m: int| 0 <= m < kk.len() implies #[trigger] split_link(ts, is, ns, kk, *center, m) by {
                        if m < ks.len() {
                            assert(split_link(trees, nids, news, ks, *center, m));
                        }
                    }
                    lemma_push_new(ks, sid, shards@, j as int);
                    trees = ts;
                    nids = is;
                    news = ns;
                    ks = kk;
                    picked = true;
                }
            }
            proof {
                let p1 = shards@.subrange(0, j + 1);
                if !picked {
                    assert(ks == ks0);
                }
                assert forall|s: u32| ks.contains(s) <==> p1.contains(s) && players_in(s0.entities, s)
                    >= MAX_PLAYERS_PER_SHARD by {
                    if s != sid {
                        assert(ks.contains(s) <==> ks0.contains(s));
                    }
                }
            }
            j = j + 1;
        }
        proof {
            assert(shards@.subrange(0, shards@.len() as int) =~= shards@);
            assert forall|s: u32| ks.contains(s) <==> players_in(s0.entities, s) >= MAX_PLAYERS_PER_SHARD by {
                if players_in(s0.entities, s) >= MAX_PLAYERS_PER_SHARD {
                    assert(shards@.contains(s));
                }
            }
            assert(over_capacity(ks, s0.entities));
        }
    }
}

/// A crossing alert that lists fewer than 256 shards reads back, at the
/// game server, as the client and the shards it was built from.
pub proof fn lemma_crossing_alert_roundtrip(client_id: u32, shards: Seq<u32>)
    requires
        shards.len() < 256,
    ensures
        parse_crossing_alert(crossing_alert_payload(client_id, shards)) == Some((client_id, shards)),
{
    let p = crossing_alert_payload(client_id, shards);
    crate::wire::lemma_u32_le_roundtrip(client_id);
    assert(p.len() == 6 + 4 * shards.len());
    assert(p[5] == shards.len());
    crate::wire::lemma_le_u32_shift(p, u32_le(client_id), 1, 0);
    let n = shards.len();
    let read = Seq::new(p[5] as nat, |i: int| le_u32(p, 6 + 4 * i) as u32);
    assert forall|i: int| 0 <= i < n implies #[trigger] read[i] == shards[i] by {
        let e = u32_le(shards[i]);
        crate::wire::lemma_u32_le_roundtrip(shards[i]);
        assert(p[6 + 4 * i] == ids_le(shards)[4 * i]);
        assert(p[6 + 4 * i + 1] == ids_le(shards)[4 * i + 1]);
        assert(p[6 + 4 * i + 2] == ids_le(shards)[4 * i + 2]);
        assert(p[6 + 4 * i + 3] == ids_le(shards)[4 * i + 3]);
        assert((4 * i) / 4 == i && (4 * i) % 4 == 0) by (nonlinear_arith)
            requires
                0 <= i,
        ;
        assert((4 * i + 1) / 4 == i && (4 * i + 1) % 4 == 1) by (nonlinear_arith)
            requires
                0 <= i,
        ;
        assert((4 * i + 2) / 4 == i && (4 * i + 2) % 4 == 2) by (nonlinear_arith)
            requires
                0 <= i,
        ;
        assert((4 * i + 3) / 4 == i && (4 * i + 3) % 4 == 3) by (nonlinear_arith)
            requires
                0 <= i,
        ;
        crate::wire::lemma_le_u32_shift(p, e, 6 + 4 * i, 0);
    }
    assert(read =~= shards);
}

/// `10` to the power `k`.
pub open spec fn pow10(k: nat) -> nat
    decreases k,
{
    if k == 0 {
        1
    } else {
        10 * pow10((k - 1) as nat)
    }
}

/// A number below `10^k` has at most `k` decimal digits, each `0` to `9`.
proof fn lemma_decimal_digits(n: nat, k: nat)
    requires
        n < pow10(k),
        k >= 1,
    ensures
        decimal(n).len() <= k,
        forall|i: int| 0 <= i < decimal(n).len() ==> '0' <= #[trigger] decimal(n)[i] <= '9',
    decreases n,
{
    if n >= 10 {
        if k == 1 {
            assert(pow10(1) == 10 * pow10(0));
        }
        let k1 = (k - 1) as nat;
        assert(pow10(k) == 10 * pow10(k1));
        assert(n / 10 < pow10(k1)) by (nonlinear_arith)
            requires
                n < 10 * pow10(k1),
        ;
        lemma_decimal_digits(n / 10, k1);
        let d = decimal(n / 10);
        assert(decimal(n) == d.push(digit_char((n % 10) as int)));
        assert forall|i: int| 0 <= i < decimal(n).len() implies '0' <= #[trigger] decimal(n)[i] <= '9' by {
            if i < d.len() {
                assert(decimal(n)[i] == d[i]);
            }
        }
    }
}

/// The topic of a shard fits the 32-byte name field: it is ASCII, at most
/// 16 characters, and starts and ends with no NUL.
pub proof fn lemma_shard_topic_fits(t: u32)
    ensures
        fits_name_field(shard_topic(t)),
{
    assert(pow10(10) == 10000000000) by {
        reveal_with_fuel(pow10, 11);
    }
    lemma_decimal_digits(t as nat, 10);
    let s = shard_topic(t);
    let d = decimal(t as nat);
    assert(s =~= seq!['s', 'h', 'a', 'r', 'd', ':'] + d);
    assert forall|i: int| 0 <= i < s.len() implies '\0' <= #[trigger] s[i] <= '\u{7f}' by {
        if i >= 6 {
            assert(s[i] == d[i - 6]);
        }
    }
    assert(is_ascii_chars(s));
    is_ascii_chars_encode_utf8(s);
    assert(d.len() >= 1);
    assert(s.last() == d[d.len() - 1]);
}

/// A crossing alert that the spatial service sends about a player of
/// shard `src` reaches, through the broker, the service that announced
/// itself under that shard's topic, and reads back there as the player and
/// the shards near it (when fewer than 256).
pub proof fn lemma_alert_reaches_shard(
    v: BrokerView,
    connection: u64,
    stream: u64,
    src: u32,
    sender_connection: u64,
    sender_stream: u64,
    client_id: u32,
    shards: Seq<u32>,
)
    requires
        shards.len() < 256,
    ensures
        ({
            let payload = crossing_alert_payload(client_id, shards);
            let v1 = spec_handle(v, connection, stream, admin_connect_frame(shard_topic(src))).0;
            &&& spec_handle(v1, sender_connection, sender_stream, route_frame(shard_topic(src), payload)).1
                == HandledView::Sent(seq![(connection, stream, routed_frame(payload))])
            &&& parse_crossing_alert(routed_frame(payload).drop_first()) == Some((client_id, shards))
        }),
{
    let payload = crossing_alert_payload(client_id, shards);
    assert(payload.len() == 6 + 4 * shards.len());
    lemma_announce_then_route(v, connection, stream, shard_topic(src), sender_connection, sender_stream, payload);
    lemma_crossing_alert_roundtrip(client_id, shards);
    assert(routed_frame(payload).drop_first() =~= payload);
}

/// A boot order that the spatial service sends reaches, through the
/// broker, the service that announced itself as the orchestrator, and the
/// orchestrator reads it back as the new shard's id and zone: least x,
/// least y, greatest x, greatest y.
pub proof fn lemma_boot_order_reads_back(
    v: BrokerView,
    connection: u64,
    stream: u64,
    sender_connection: u64,
    sender_stream: u64,
    b: BootShardEvent,
)
    ensures
        ({
            let payload = boot_payload(b);
            let v1 = spec_handle(
                v,
                connection,
                stream,
                admin_connect_frame(crate::orchestrator::orchestrator_name()),
            ).0;
            &&& spec_handle(v1, sender_connection, sender_stream, route_frame(orchestrator_target(), payload)).1
                == HandledView::Sent(seq![(connection, stream, routed_frame(payload))])
            &&& crate::orchestrator::boot_request(routed_frame(payload)) == Some(
                (b.shard_id, b.bounds.min.x, b.bounds.min.y, b.bounds.max.x, b.bounds.max.y),
            )
        }),
{
    let payload = boot_payload(b);
    assert(orchestrator_target() =~= crate::orchestrator::orchestrator_name());
    lemma_announce_then_route(
        v,
        connection,
        stream,
        orchestrator_target(),
        sender_connection,
        sender_stream,
        payload,
    );
    let f = routed_frame(payload);
    crate::wire::lemma_u32_le_roundtrip(b.shard_id);
    crate::wire::lemma_u32_le_roundtrip(b.bounds.min.x);
    crate::wire::lemma_u32_le_roundtrip(b.bounds.min.y);
    crate::wire::lemma_u32_le_roundtrip(b.bounds.max.x);
    crate::wire::lemma_u32_le_roundtrip(b.bounds.max.y);
    assert(f.len() == 22);
    crate::wire::lemma_le_u32_shift(f, u32_le(b.shard_id), 2, 0);
    crate::wire::lemma_le_u32_shift(f, u32_le(b.bounds.min.x), 6, 0);
    crate::wire::lemma_le_u32_shift(f, u32_le(b.bounds.min.y), 10, 0);
    crate::wire::lemma_le_u32_shift(f, u32_le(b.bounds.max.x), 14, 0);
    crate::wire::lemma_le_u32_shift(f, u32_le(b.bounds.max.y), 18, 0);
}

/// A subscription that the spatial service sends puts the client, once,
/// on the broker's list of the shard's topic (when it was there at most
/// once before).
pub proof fn lemma_subscription_reaches_broker(v: BrokerView, connection: u64, stream: u64, m: SubscribeMessage)
    requires
        v.subs.contains_key(shard_topic(m.topic)) ==> v.subs[shard_topic(m.topic)].no_duplicates(),
    ensures
        ({
            let v1 = spec_handle(v, connection, stream, subscribe_frame(m.client_id, shard_topic(m.topic))).0;
            &&& v1.subs.contains_key(shard_topic(m.topic))
            &&& v1.subs[shard_topic(m.topic)].contains(m.client_id)
            &&& v1.subs[shard_topic(m.topic)].no_duplicates()
        }),
{
    lemma_shard_topic_fits(m.topic);
    lemma_subscribe(v, connection, stream, m.client_id, shard_topic(m.topic));
}


/// The shard ids of a tree are the first components of its leaves.
proof fn lemma_leaf_ids_match(t: QuadTree)
    ensures
        crate::quadtree::leaf_ids(t).len() == spec_leaves(t).len(),
        forall|j: int| 0 <= j < spec_leaves(t).len() ==> #[trigger] crate::quadtree::leaf_ids(t)[j] == spec_leaves(t)[j].0,
    decreases t,
{
    match t.children {
        None => {},
        Some(q) => {
            lemma_leaf_ids_match(q.top_left);
            lemma_leaf_ids_match(q.top_right);
            lemma_leaf_ids_match(q.bottom_left);
            lemma_leaf_ids_match(q.bottom_right);
            let own_ids: Seq<u32> = match t.shard_id {
                Some(id) => seq![id],
                None => seq![],
            };
            let own_leaves: Seq<(u32, Rect)> = match t.shard_id {
                Some(id) => seq![(id, t.bounds)],
                None => seq![],
            };
            let ids = crate::quadtree::leaf_ids(t);
            let ls = spec_leaves(t);
            let ia = crate::quadtree::leaf_ids(q.top_left);
            let ib = crate::quadtree::leaf_ids(q.top_right);
            let ic = crate::quadtree::leaf_ids(q.bottom_left);
            let id = crate::quadtree::leaf_ids(q.bottom_right);
            let la = spec_leaves(q.top_left);
            let lb = spec_leaves(q.top_right);
            let lc = spec_leaves(q.bottom_left);
            let ld = spec_leaves(q.bottom_right);
            assert(ids =~= own_ids + ia + ib + ic + id);
            assert(ls =~= own_leaves + la + lb + lc + ld);
            let o = own_ids.len() as int;
            assert forall|j: int| 0 <= j < ls.len() implies #[trigger] ids[j] == ls[j].0 by {
                if j < o {
                } else if j < o + la.len() {
                    assert(ids[j] == ia[j - o] && ls[j] == la[j - o]);
                } else if j < o + la.len() + lb.len() {
                    assert(ids[j] == ib[j - o - la.len()] && ls[j] == lb[j - o - la.len()]);
                } else if j < o + la.len() + lb.len() + lc.len() {
                    assert(ids[j] == ic[j - o - la.len() - lb.len()] && ls[j] == lc[j - o - la.len() - lb.len()]);
                } else {
                    assert(ids[j] == id[j - o - la.len() - lb.len() - lc.len()] && ls[j] == ld[j - o - la.len()
                        - lb.len() - lc.len()]);
                }
            }
        },
    }
}

/// No leaf's shard id is above `max_leaf`.
proof fn lemma_max_leaf_bounds(leaves: Seq<(u32, Rect)>)
    ensures
        forall|j: int| 0 <= j < leaves.len() ==> #[trigger] leaves[j].0 <= max_leaf(leaves),
    decreases leaves.len(),
{
    if leaves.len() > 0 {
        let init = leaves.drop_last();
        lemma_max_leaf_bounds(init);
        assert forall|j: int| 0 <= j < leaves.len() implies #[trigger] leaves[j].0 <= max_leaf(leaves) by {
            if j < init.len() {
                assert(leaves[j] == init[j]);
            }
        }
    }
}

/// Along a run of splits the next free id only grows.
proof fn lemma_nids_grow<F: Fn(Rect) -> Vec2>(
    trees: Seq<QuadTree>,
    nids: Seq<int>,
    news: Seq<Seq<(u32, Rect)>>,
    ks: Seq<u32>,
    center: F,
    i: int,
)
    requires
        split_chain(trees, nids, news, ks, center),
        0 <= i <= ks.len(),
    ensures
        nids[i] <= nids.last(),
    decreases ks.len() - i,
{
    if i < ks.len() {
        assert(split_link(trees, nids, news, ks, center, i));
        lemma_nids_grow(trees, nids, news, ks, center, i + 1);
    }
}

proof fn lemma_chain_keeps_ids_distinct<F: Fn(Rect) -> Vec2>(
    trees: Seq<QuadTree>,
    nids: Seq<int>,
    news: Seq<Seq<(u32, Rect)>>,
    ks: Seq<u32>,
    center: F,
    i: int,
)
    requires
        split_chain(trees, nids, news, ks, center),
        0 <= i <= ks.len(),
        wf(trees[i]),
        crate::quadtree::leaf_ids(trees[i]).no_duplicates(),
        forall|j: int|
            0 <= j < crate::quadtree::leaf_ids(trees[i]).len() ==> #[trigger] crate::quadtree::leaf_ids(trees[i])[j]
                < nids[i],
        0 <= nids[i],
        nids.last() <= u32::MAX,
    ensures
        wf(trees.last()),
        crate::quadtree::leaf_ids(trees.last()).no_duplicates(),
    decreases ks.len() - i,
{
    if i < ks.len() {
        let t0 = trees[i];
        let t1 = trees[i + 1];
        let k = ks[i];
        let n0 = nids[i];
        assert(split_link(trees, nids, news, ks, center, i));
        lemma_nids_grow(trees, nids, news, ks, center, i + 1);
        crate::quadtree::lemma_split_keeps_ids_distinct(t0, t1, k, n0, center);
        if crate::quadtree::will_split(t0, k) {
            crate::quadtree::lemma_split_replaces_shard(t0, t1, k, n0, center);
            let (pre, post) = choose|pre: Seq<u32>, post: Seq<u32>|
                crate::quadtree::leaf_ids(t0) == pre + seq![k] + post && crate::quadtree::leaf_ids(t1) == pre
                    + crate::quadtree::id_range(n0, 4) + post;
            let o = crate::quadtree::leaf_ids(t0);
            let s = crate::quadtree::leaf_ids(t1);
            let lp = pre.len() as int;
            assert forall|j: int| 0 <= j < s.len() implies #[trigger] s[j] < nids[i + 1] by {
                if j < lp {
                    assert(s[j] == o[j]);
                } else if j < lp + 4 {
                    assert(s[j] == crate::quadtree::id_range(n0, 4)[j - lp]);
                } else {
                    assert(s[j] == o[j - 3]);
                }
            }
        }
        lemma_chain_keeps_ids_distinct(trees, nids, news, ks, center, i + 1);
    } else {
        assert(trees.last() == trees[i]);
    }
}

/// The shards that the capacity monitor creates never take the id of
/// another: when the tree's shard ids are distinct before the run of
/// splits, numbered from one past the largest, they are distinct after,
/// and the tree stays well formed.
pub proof fn lemma_capacity_splits_keep_ids_distinct<F: Fn(Rect) -> Vec2>(
    trees: Seq<QuadTree>,
    nids: Seq<int>,
    news: Seq<Seq<(u32, Rect)>>,
    ks: Seq<u32>,
    center: F,
)
    requires
        split_chain(trees, nids, news, ks, center),
        wf(trees[0]),
        crate::quadtree::leaf_ids(trees[0]).no_duplicates(),
        nids[0] == max_leaf(spec_leaves(trees[0])) + 1,
        nids.last() <= u32::MAX,
    ensures
        wf(trees.last()),
        crate::quadtree::leaf_ids(trees.last()).no_duplicates(),
{
    lemma_leaf_ids_match(trees[0]);
    lemma_max_leaf_bounds(spec_leaves(trees[0]));
    let ids = crate::quadtree::leaf_ids(trees[0]);
    assert forall|j: int| 0 <= j < ids.len() implies #[trigger] ids[j] < nids[0] by {
        assert(ids[j] == spec_leaves(trees[0])[j].0);
    }
    lemma_chain_keeps_ids_distinct(trees, nids, news, ks, center, 0);
}
/// A shard of the tree after a run of splits that is one of the shards
/// before, `orig`, or has an id of at least `from`.
pub open spec fn old_or_fresh(ids: Seq<u32>, orig: Seq<u32>, from: int) -> bool {
    forall|j: int| 0 <= j < ids.len() ==> orig.contains(#[trigger] ids[j]) || ids[j] >= from
}

/// Along a run of splits, a leaf whose shard is never split stays, with
/// its zone.
proof fn lemma_chain_keeps_leaf<F: Fn(Rect) -> Vec2>(
    trees: Seq<QuadTree>,
    nids: Seq<int>,
    news: Seq<Seq<(u32, Rect)>>,
    ks: Seq<u32>,
    center: F,
    i: int,
    leaf: (u32, Rect),
)
    requires
        split_chain(trees, nids, news, ks, center),
        0 <= i <= ks.len(),
        wf(trees[i]),
        spec_leaves(trees[i]).contains(leaf),
        !ks.contains(leaf.0),
    ensures
        spec_leaves(trees.last()).contains(leaf),
    decreases ks.len() - i,
{
    if i < ks.len() {
        assert(split_link(trees, nids, news, ks, center, i));
        assert(ks[i] != leaf.0);
        crate::quadtree::lemma_split_keeps_other_leaves(trees[i], trees[i + 1], ks[i], nids[i], center, leaf);
        if crate::quadtree::will_split(trees[i], ks[i]) {
            crate::quadtree::lemma_split_replaces_shard(trees[i], trees[i + 1], ks[i], nids[i], center);
        }
        lemma_chain_keeps_leaf(trees, nids, news, ks, center, i + 1, leaf);
    } else {
        assert(trees.last() == trees[i]);
    }
}

/// Along a run of splits every shard is an old one or numbered from the
/// first free id on.
proof fn lemma_chain_ids_old_or_fresh<F: Fn(Rect) -> Vec2>(
    trees: Seq<QuadTree>,
    nids: Seq<int>,
    news: Seq<Seq<(u32, Rect)>>,
    ks: Seq<u32>,
    center: F,
    i: int,
)
    requires
        split_chain(trees, nids, news, ks, center),
        0 <= i <= ks.len(),
        wf(trees[i]),
        nids[0] <= nids[i],
        nids.last() <= u32::MAX,
        old_or_fresh(crate::quadtree::leaf_ids(trees[i]), crate::quadtree::leaf_ids(trees[0]), nids[0]),
    ensures
        old_or_fresh(crate::quadtree::leaf_ids(trees.last()), crate::quadtree::leaf_ids(trees[0]), nids[0]),
    decreases ks.len() - i,
{
    if i < ks.len() {
        let t0 = trees[i];
        let t1 = trees[i + 1];
        let k = ks[i];
        let n0 = nids[i];
        let orig = crate::quadtree::leaf_ids(trees[0]);
        assert(split_link(trees, nids, news, ks, center, i));
        lemma_nids_grow(trees, nids, news, ks, center, i + 1);
        if crate::quadtree::will_split(t0, k) {
            crate::quadtree::lemma_split_replaces_shard(t0, t1, k, n0, center);
            let (pre, post) = choose|pre: Seq<u32>, post: Seq<u32>|
                crate::quadtree::leaf_ids(t0) == pre + seq![k] + post && crate::quadtree::leaf_ids(t1) == pre
                    + crate::quadtree::id_range(n0, 4) + post;
            let o = crate::quadtree::leaf_ids(t0);
            let s = crate::quadtree::leaf_ids(t1);
            let lp = pre.len() as int;
            assert forall|j: int| 0 <= j < s.len() implies orig.contains(#[trigger] s[j]) || s[j] >= nids[0] by {
                if j < lp {
                    assert(s[j] == o[j]);
                } else if j < lp + 4 {
                    assert(s[j] == crate::quadtree::id_range(n0, 4)[j - lp]);
                } else {
                    assert(s[j] == o[j - 3]);
                }
            }
        }
        lemma_chain_ids_old_or_fresh(trees, nids, news, ks, center, i + 1);
    } else {
        assert(trees.last() == trees[i]);
    }
}

/// What the capacity monitor's run of splits leaves of the tree: every
/// shard that it was not asked to split keeps its zone, and every shard of
/// the new tree is one of the old ones or has an id above every old one.
pub proof fn lemma_capacity_splits_keep_the_rest<F: Fn(Rect) -> Vec2>(
    trees: Seq<QuadTree>,
    nids: Seq<int>,
    news: Seq<Seq<(u32, Rect)>>,
    ks: Seq<u32>,
    center: F,
)
    requires
        split_chain(trees, nids, news, ks, center),
        wf(trees[0]),
        nids[0] == max_leaf(spec_leaves(trees[0])) + 1,
        nids.last() <= u32::MAX,
    ensures
        forall|leaf: (u32, Rect)|
            spec_leaves(trees[0]).contains(leaf) && !ks.contains(leaf.0) ==> #[trigger] spec_leaves(
                trees.last(),
            ).contains(leaf),
        forall|j: int|
            0 <= j < crate::quadtree::leaf_ids(trees.last()).len() ==> {
                let id = #[trigger] crate::quadtree::leaf_ids(trees.last())[j];
                ||| crate::quadtree::leaf_ids(trees[0]).contains(id)
                ||| forall|m: int|
                    0 <= m < crate::quadtree::leaf_ids(trees[0]).len() ==> #[trigger] crate::quadtree::leaf_ids(
                        trees[0],
                    )[m] < id
            },
{
    assert forall|leaf: (u32, Rect)|
        spec_leaves(trees[0]).contains(leaf) && !ks.contains(leaf.0) implies #[trigger] spec_leaves(
        trees.last(),
    ).contains(leaf) by {
        lemma_chain_keeps_leaf(trees, nids, news, ks, center, 0, leaf);
    }
    let orig = crate::quadtree::leaf_ids(trees[0]);
    lemma_leaf_ids_match(trees[0]);
    lemma_max_leaf_bounds(spec_leaves(trees[0]));
    assert forall|m: int| 0 <= m < orig.len() implies #[trigger] orig[m] < nids[0] by {
        assert(orig[m] == spec_leaves(trees[0])[m].0);
    }
    assert(old_or_fresh(orig, orig, nids[0]));
    lemma_chain_ids_old_or_fresh(trees, nids, news, ks, center, 0);
    let fin = crate::quadtree::leaf_ids(trees.last());
    assert forall|j: int| 0 <= j < fin.len() implies {
        let id = #[trigger] fin[j];
        ||| orig.contains(id)
        ||| forall|m: int| 0 <= m < orig.len() ==> #[trigger] orig[m] < id
    } by {
        if !orig.contains(fin[j]) {
            assert(fin[j] >= nids[0]);
        }
    }
}



/// Every player whose position has not changed since the last check is in
/// the shard of its position.
pub open spec fn settled(s: SpatialView) -> bool {
    forall|i: int|
        0 <= i < s.entities.len() && !#[trigger] s.entities[i].changed ==> s.entities[i].current_shard
            == spec_shard_for(s.tree, s.entities[i].position)
}

/// Checking the shards settles every player: afterwards none is marked as
/// moved, each one that had moved is in the shard of its position, and the
/// others keep theirs; so a settled service stays settled.
pub proof fn lemma_transitions_settle<F: Fn(Vec2, Rect) -> bool>(s0: SpatialView, s1: SpatialView, touches: F)
    requires
        transitions(s0, s1, touches),
    ensures
        forall|i: int| 0 <= i < s1.entities.len() ==> !(#[trigger] s1.entities[i]).changed,
        forall|i: int|
            0 <= i < s1.entities.len() && s0.entities[i].changed ==> (#[trigger] s1.entities[i]).current_shard
                == spec_shard_for(s1.tree, s1.entities[i].position),
        settled(s0) ==> settled(s1),
{
    let (subs, unsubs, alerts) = choose|
        subs: Seq<Seq<SubscribeMessage>>,
        unsubs: Seq<Seq<UnsubscribeMessage>>,
        alerts: Seq<Seq<(u32, u32, Seq<u32>)>>,
    |
        #[trigger] steps_taken(s0.tree, touches, s0.entities, s1.entities, subs, unsubs, alerts, s0.entities.len() as int)
            && s1.subscribes == s0.subscribes + joined(subs) && s1.unsubscribes == s0.unsubscribes + joined(unsubs)
            && s1.alerts == s0.alerts + joined(alerts);
    assert forall|i: int| 0 <= i < s1.entities.len() implies !(#[trigger] s1.entities[i]).changed && (
    s0.entities[i].changed ==> s1.entities[i].current_shard == spec_shard_for(s1.tree, s1.entities[i].position))
        && (!s0.entities[i].changed ==> s1.entities[i] == s0.entities[i]) by {
        assert(entity_step(s0.tree, touches, s0.entities[i], s1.entities[i], subs[i], unsubs[i], alerts[i]));
    }
}
/// A lone player that moved ends up in the shard of its new position; when
/// that shard differs from its old one, it is unsubscribed from the old
/// shard (if it had one) and subscribed to the new one (if there is one),
/// and when it does not, no subscription message is queued.
pub proof fn lemma_move_changes_topics<F: Fn(Vec2, Rect) -> bool>(s0: SpatialView, s1: SpatialView, touches: F)
    requires
        transitions(s0, s1, touches),
        s0.entities.len() == 1,
        s0.entities[0].changed,
    ensures
        ({
            let e = s0.entities[0];
            let actual = spec_shard_for(s0.tree, e.position);
            let moved = actual != e.current_shard;
            &&& s1.entities[0].current_shard == actual
            &&& s1.unsubscribes == s0.unsubscribes + if moved && e.current_shard is Some {
                seq![UnsubscribeMessage { client_id: e.client_id, topic: e.current_shard->0 }]
            } else {
                Seq::empty()
            }
            &&& s1.subscribes == s0.subscribes + if moved && actual is Some {
                seq![SubscribeMessage { client_id: e.client_id, topic: actual->0 }]
            } else {
                Seq::empty()
            }
        }),
{
    let (subs, unsubs, alerts) = choose|
        subs: Seq<Seq<SubscribeMessage>>,
        unsubs: Seq<Seq<UnsubscribeMessage>>,
        alerts: Seq<Seq<(u32, u32, Seq<u32>)>>,
    |
        #[trigger] steps_taken(s0.tree, touches, s0.entities, s1.entities, subs, unsubs, alerts, s0.entities.len() as int)
            && s1.subscribes == s0.subscribes + joined(subs) && s1.unsubscribes == s0.unsubscribes + joined(unsubs)
            && s1.alerts == s0.alerts + joined(alerts);
    assert(entity_step(s0.tree, touches, s0.entities[0], s1.entities[0], subs[0], unsubs[0], alerts[0]));
    assert(subs.drop_last() =~= Seq::<Seq<SubscribeMessage>>::empty());
    assert(unsubs.drop_last() =~= Seq::<Seq<UnsubscribeMessage>>::empty());
    assert(joined(subs.drop_last()) == Seq::<SubscribeMessage>::empty());
    assert(joined(unsubs.drop_last()) == Seq::<UnsubscribeMessage>::empty());
    assert(Seq::<SubscribeMessage>::empty() + subs.last() =~= subs[0]);
    assert(Seq::<UnsubscribeMessage>::empty() + unsubs.last() =~= unsubs[0]);
}


/// A position report keeps a settled service settled: the reported player
/// is marked as moved.
pub proof fn lemma_report_keeps_settled(s0: SpatialView, s1: SpatialView, data: Seq<u8>)
    requires
        settled(s0),
        forall|id: u32| #[trigger] s0.players.contains_key(id) ==> s0.players[id] < s0.entities.len(),
        match position_update(data) {
            None => s1 == s0,
            Some((id, pos)) => {
                let moved = if s0.players.contains_key(id) {
                    let k = s0.players[id] as int;
                    s0.entities.update(k, EntityView { position: pos, changed: true, ..s0.entities[k] })
                } else {
                    s0.entities
                };
                s1 == (SpatialView {
                    entities: moved.push(
                        EntityView { client_id: id, position: pos, current_shard: None, nearby: Seq::empty(), changed: true },
                    ),
                    players: s0.players.insert(id, s0.entities.len() as usize),
                    ..s0
                })
            },
        },
    ensures
        settled(s1),
{
    if let Some((id, pos)) = position_update(data) {
        assert forall|i: int| 0 <= i < s1.entities.len() && !#[trigger] s1.entities[i].changed implies s1.entities[i].current_shard
            == spec_shard_for(s1.tree, s1.entities[i].position) by {
            assert(i < s0.entities.len());
            if s0.players.contains_key(id) {
                assert(i != s0.players[id] as int);
            }
            assert(s1.entities[i] == s0.entities[i]);
        }
    }
}

} // verus!
