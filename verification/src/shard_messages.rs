//! The messages that game servers exchange, through the orchestrator, to
//! hand a player from one shard to the next, and what each does to the
//! server that receives it.
use vstd::prelude::*;
use crate::wire::{le_u32, read_u32_le, u32_le, push_u32_le, push_bytes, slice_to_vec};
use crate::geometry::Vec2;
use crate::entities::{EntityAuthority, PlayerEntity, PlayerRegistry};
use crate::server_config::{ServerConfig, status_for};
use crate::protocol::ServerStatus;
use crate::text::{from_utf8_lossy, lossy_text};
use vstd::utf8::encode_utf8;

verus! {

/// A server asks the next one to take a player.
pub struct HandoffRequest {
    pub entity_id: u32,
    pub pos: Vec2,
    pub vel: Vec2,
    pub state: [u8; 64],
}

/// The next server takes the player.
pub struct HandoffAccept {
    pub entity_id: u32,
}

/// The next server refuses the player.
pub struct HandoffReject {
    pub entity_id: u32,
    pub reason: String,
}

/// The handoff of a player is over.
pub struct HandoffComplete {
    pub entity_id: u32,
}

/// The position and velocity of a player, for the servers that mirror it.
pub struct GhostUpdate {
    pub entity_id: u32,
    pub pos: Vec2,
    pub vel: Vec2,
}

/// A message between game servers: it has a tag, a binary body, and an
/// effect on the server that receives it, which answers with frames for
/// the orchestrator to relay.
pub trait InterShardMessage {
    fn resolve(&mut self, registry: &mut PlayerRegistry, server_config: &mut ServerConfig) -> Vec<Vec<u8>>;

    fn to_binary(&self) -> Vec<u8>;

    fn tag(&self) -> u8;
}

/// The frame of a message: its tag, then its body.
pub open spec fn message_frame(tag: u8, body: Seq<u8>) -> Seq<u8> {
    seq![tag] + body
}

/// The body of a position and a velocity.
pub open spec fn motion_bytes(pos: Vec2, vel: Vec2) -> Seq<u8> {
    u32_le(pos.x) + u32_le(pos.y) + u32_le(vel.x) + u32_le(vel.y)
}

/// The frames that resolving a message answers with, as values.
pub open spec fn frames_view(v: Seq<Vec<u8>>) -> Seq<Seq<u8>> {
    v.map_values(|f: Vec<u8>| f@)
}

pub(crate) fn frame_of(tag: u8, body: Vec<u8>) -> (r: Vec<u8>)
    ensures
        r@ == message_frame(tag, body@),
{
    let mut out: Vec<u8> = Vec::new();
    out.push(tag);
    push_bytes(&mut out, body.as_slice());
    assert(out@ =~= message_frame(tag, body@));
    out
}

fn no_frames() -> (r: Vec<Vec<u8>>)
    ensures
        frames_view(r@) == Seq::<Seq<u8>>::empty(),
{
    let r: Vec<Vec<u8>> = Vec::new();
    assert(frames_view(r@) =~= Seq::<Seq<u8>>::empty());
    r
}

fn one_frame(f: Vec<u8>) -> (r: Vec<Vec<u8>>)
    ensures
        frames_view(r@) == seq![f@],
{
    let mut r: Vec<Vec<u8>> = Vec::new();
    r.push(f);
    assert(frames_view(r@) =~= seq![f@]);
    r
}

fn push_motion(out: &mut Vec<u8>, pos: Vec2, vel: Vec2)
    ensures
        final(out)@ == old(out)@ + motion_bytes(pos, vel),
{
    push_u32_le(out, pos.x);
    push_u32_le(out, pos.y);
    push_u32_le(out, vel.x);
    push_u32_le(out, vel.y);
    assert(out@ =~= old(out)@ + motion_bytes(pos, vel));
}

/// The position and velocity held by the 16 bytes at `off`.
pub open spec fn motion_at(data: Seq<u8>, off: int) -> (Vec2, Vec2) {
    (
        Vec2 { x: le_u32(data, off) as u32, y: le_u32(data, off + 4) as u32 },
        Vec2 { x: le_u32(data, off + 8) as u32, y: le_u32(data, off + 12) as u32 },
    )
}

fn read_motion(data: &[u8], off: usize) -> (r: (Vec2, Vec2))
    requires
        off + 16 <= data@.len(),
    ensures
        r == motion_at(data@, off as int),
{
    assert(data@.len() == data.len());
    let px = read_u32_le(data, off);
    let py = read_u32_le(data, off + 4);
    let vx = read_u32_le(data, off + 8);
    let vy = read_u32_le(data, off + 12);
    (Vec2 { x: px, y: py }, Vec2 { x: vx, y: vy })
}

proof fn lemma_motion_roundtrip(pos: Vec2, vel: Vec2, rest: Seq<u8>)
    ensures
        motion_at(motion_bytes(pos, vel) + rest, 0) == (pos, vel),
{
    let b = motion_bytes(pos, vel) + rest;
    crate::wire::lemma_u32_le_roundtrip(pos.x);
    crate::wire::lemma_u32_le_roundtrip(pos.y);
    crate::wire::lemma_u32_le_roundtrip(vel.x);
    crate::wire::lemma_u32_le_roundtrip(vel.y);
    assert(le_u32(b, 0) == le_u32(u32_le(pos.x), 0));
    assert(le_u32(b, 4) == le_u32(u32_le(pos.y), 0));
    assert(le_u32(b, 8) == le_u32(u32_le(vel.x), 0));
    assert(le_u32(b, 12) == le_u32(u32_le(vel.y), 0));
}

impl HandoffRequest {
    pub const TAG: u8 = 0x20;

    /// Body: entity id, position, velocity, then the 64 state bytes.
    pub open spec fn spec_binary(&self) -> Seq<u8> {
        u32_le(self.entity_id) + motion_bytes(self.pos, self.vel) + self.state@
    }

    /// Reads a request from its body; the body holds at least 84 bytes.
    pub fn from_binary(data: &[u8]) -> (r: HandoffRequest)
        requires
            data@.len() >= 84,
        ensures
            r.entity_id == le_u32(data@, 0),
            (r.pos, r.vel) == motion_at(data@, 4),
            r.state@ == data@.subrange(20, 84),
    {
        let entity_id = read_u32_le(data, 0);
        let (pos, vel) = read_motion(data, 4);
        let mut state = [0u8; 64];
        let mut i: usize = 0;
        while i < 64
            invariant
                i <= 64,
                data@.len() >= 84,
                forall|k: int| 0 <= k < i ==> state@[k] == data@[20 + k],
            decreases 64 - i,
        {
            state[i] = data[20 + i];
            i = i + 1;
        }
        assert(state@ =~= data@.subrange(20, 84));
        HandoffRequest { entity_id, pos, vel, state }
    }
}

impl HandoffAccept {
    pub const TAG: u8 = 0x21;

    /// Body: entity id.
    pub open spec fn spec_binary(&self) -> Seq<u8> {
        u32_le(self.entity_id)
    }

    /// Reads an accept from its body; the body holds at least 4 bytes.
    pub fn from_binary(data: &[u8]) -> (r: HandoffAccept)
        requires
            data@.len() >= 4,
        ensures
            r.entity_id == le_u32(data@, 0),
    {
        HandoffAccept { entity_id: read_u32_le(data, 0) }
    }
}

impl HandoffReject {
    pub const TAG: u8 = 0x22;

    /// Body: entity id, then the reason's UTF-8 bytes.
    pub open spec fn spec_binary(&self) -> Seq<u8> {
        u32_le(self.entity_id) + encode_utf8(self.reason@)
    }

    /// Reads a reject from its body; the body holds at least 4 bytes; the
    /// reason is the rest, decoded as `from_utf8_lossy` does.
    pub fn from_binary(data: &[u8]) -> (r: HandoffReject)
        requires
            data@.len() >= 4,
        ensures
            r.entity_id == le_u32(data@, 0),
            r.reason@ == lossy_text(data@.subrange(4, data@.len() as int)),
    {
        let rest = slice_to_vec(data, 4, data.len());
        HandoffReject { entity_id: read_u32_le(data, 0), reason: from_utf8_lossy(rest.as_slice()) }
    }
}

impl HandoffComplete {
    pub const TAG: u8 = 0x24;

    /// Body: entity id.
    pub open spec fn spec_binary(&self) -> Seq<u8> {
        u32_le(self.entity_id)
    }

    /// Reads a completion from its body; the body holds at least 4 bytes.
    pub fn from_binary(data: &[u8]) -> (r: HandoffComplete)
        requires
            data@.len() >= 4,
        ensures
            r.entity_id == le_u32(data@, 0),
    {
        HandoffComplete { entity_id: read_u32_le(data, 0) }
    }
}

impl GhostUpdate {
    pub const TAG: u8 = 0x23;

    /// Body: entity id, position, velocity.
    pub open spec fn spec_binary(&self) -> Seq<u8> {
        u32_le(self.entity_id) + motion_bytes(self.pos, self.vel)
    }

    /// Reads an update from its body; the body holds at least 20 bytes.
    pub fn from_binary(data: &[u8]) -> (r: GhostUpdate)
        requires
            data@.len() >= 20,
        ensures
            r.entity_id == le_u32(data@, 0),
            (r.pos, r.vel) == motion_at(data@, 4),
    {
        let entity_id = read_u32_le(data, 0);
        let (pos, vel) = read_motion(data, 4);
        GhostUpdate { entity_id, pos, vel }
    }
}

/// The player a handoff request creates: a ghost at the requested
/// position and velocity, not turned, in no other shard.
pub open spec fn ghost_from_request(r: HandoffRequest, p: PlayerEntity) -> bool {
    &&& p.id == r.entity_id
    &&& p.authority == EntityAuthority::Ghosted
    &&& p.position == r.pos
    &&& p.rotation == 0
    &&& p.velocity == r.vel
    &&& p.involved_shards@.len() == 0
}

/// What resolving a `HandoffRequest` does: the players and configuration before
/// (`p0`, `c0`) and after (`p1`, `c1`), and the frames it answers with.
pub open spec fn request_resolved(
    m: HandoffRequest,
    p0: Map<u32, PlayerEntity>,
    c0: ServerConfig,
    p1: Map<u32, PlayerEntity>,
    c1: ServerConfig,
    frames: Seq<Seq<u8>>,
) -> bool {
    &&& (c0.status == ServerStatus::Available ==> {
                &&& p1.contains_key(m.entity_id)
                &&& ghost_from_request(m, p1[m.entity_id])
                &&& p1 == p0.insert(m.entity_id, p1[m.entity_id])
                &&& c1.status == status_for(
                    p1.len() as int,
                    c0.max_players as int,
                )
                &&& c1 == (ServerConfig { status: c1.status, ..c0 })
                &&& frames == seq![message_frame(HandoffAccept::TAG, u32_le(m.entity_id))]
            })
    &&& (c0.status != ServerStatus::Available ==> {
                &&& p1 == p0
                &&& c1 == c0
                &&& frames == seq![
                    message_frame(
                        HandoffReject::TAG,
                        u32_le(m.entity_id) + encode_utf8("Server is full"@),
                    ),
                ]
            })
}

/// What resolving a `HandoffAccept` does: the players and configuration before
/// (`p0`, `c0`) and after (`p1`, `c1`), and the frames it answers with.
pub open spec fn accept_resolved(
    m: HandoffAccept,
    p0: Map<u32, PlayerEntity>,
    c0: ServerConfig,
    p1: Map<u32, PlayerEntity>,
    c1: ServerConfig,
    frames: Seq<Seq<u8>>,
) -> bool {
    &&& (p1 == p0)
    &&& (c1 == c0)
    &&& (frames == if p0.contains_key(m.entity_id) && p0[m.entity_id].authority
                == EntityAuthority::PendingHandoff {
                seq![message_frame(HandoffComplete::TAG, u32_le(m.entity_id))]
            } else {
                Seq::<Seq<u8>>::empty()
            })
}

/// What resolving a `HandoffReject` does: the players and configuration before
/// (`p0`, `c0`) and after (`p1`, `c1`), and the frames it answers with.
pub open spec fn reject_resolved(
    m: HandoffReject,
    p0: Map<u32, PlayerEntity>,
    c0: ServerConfig,
    p1: Map<u32, PlayerEntity>,
    c1: ServerConfig,
    frames: Seq<Seq<u8>>,
) -> bool {
    &&& (p1 == if p0.contains_key(m.entity_id) && p0[m.entity_id].authority
                == EntityAuthority::PendingHandoff {
                p0.insert(
                    m.entity_id,
                    PlayerEntity { authority: EntityAuthority::Owned, ..p0[m.entity_id] },
                )
            } else {
                p0
            })
    &&& (c1 == c0)
    &&& (frames == Seq::<Seq<u8>>::empty())
}

/// What resolving a `HandoffComplete` does: the players and configuration before
/// (`p0`, `c0`) and after (`p1`, `c1`), and the frames it answers with.
pub open spec fn complete_resolved(
    m: HandoffComplete,
    p0: Map<u32, PlayerEntity>,
    c0: ServerConfig,
    p1: Map<u32, PlayerEntity>,
    c1: ServerConfig,
    frames: Seq<Seq<u8>>,
) -> bool {
    &&& (p1 == if !p0.contains_key(m.entity_id) {
                p0
            } else if p0[m.entity_id].authority == EntityAuthority::Ghosted {
                p0.insert(
                    m.entity_id,
                    PlayerEntity { authority: EntityAuthority::Owned, ..p0[m.entity_id] },
                )
            } else if p0[m.entity_id].authority == EntityAuthority::PendingHandoff {
                p0.remove(m.entity_id)
            } else {
                p0
            })
    &&& (c1 == c0)
    &&& (frames == Seq::<Seq<u8>>::empty())
}

/// What resolving a `GhostUpdate` does: the players and configuration before
/// (`p0`, `c0`) and after (`p1`, `c1`), and the frames it answers with.
pub open spec fn update_resolved(
    m: GhostUpdate,
    p0: Map<u32, PlayerEntity>,
    c0: ServerConfig,
    p1: Map<u32, PlayerEntity>,
    c1: ServerConfig,
    frames: Seq<Seq<u8>>,
) -> bool {
    &&& (p1 == if p0.contains_key(m.entity_id) && p0[m.entity_id].authority
                == EntityAuthority::Ghosted {
                p0.insert(
                    m.entity_id,
                    PlayerEntity { position: m.pos, velocity: m.vel, ..p0[m.entity_id] },
                )
            } else {
                p0
            })
    &&& (c1 == c0)
    &&& (frames == Seq::<Seq<u8>>::empty())
}

impl InterShardMessage for HandoffRequest {
    /// A server with room takes the player as a ghost, updates its status
    /// and accepts; a full one rejects with reason `Server is full`.
    fn resolve(&mut self, registry: &mut PlayerRegistry, server_config: &mut ServerConfig) -> (r: Vec<Vec<u8>>)
        ensures
            request_resolved(*old(self), old(registry)@, *old(server_config), final(registry)@, *final(server_config), frames_view(r@)),
    {
        if server_config.status == ServerStatus::Available {
            let new_ghost_player = PlayerEntity {
                id: self.entity_id,
                authority: EntityAuthority::Ghosted,
                position: self.pos,
                rotation: 0,
                velocity: self.vel,
                involved_shards: Vec::new(),
            };
            registry.register_player(new_ghost_player);
            server_config.verify_status(registry.len());
            let accept_msg = HandoffAccept { entity_id: self.entity_id };
            one_frame(frame_of(accept_msg.tag(), accept_msg.to_binary()))
        } else {
            let reject_msg = HandoffReject { entity_id: self.entity_id, reason: "Server is full".to_owned() };
            one_frame(frame_of(reject_msg.tag(), reject_msg.to_binary()))
        }
    }

    fn to_binary(&self) -> (r: Vec<u8>)
        ensures
            r@ == self.spec_binary(),
    {
        let mut buf: Vec<u8> = Vec::new();
        push_u32_le(&mut buf, self.entity_id);
        push_motion(&mut buf, self.pos, self.vel);
        push_bytes(&mut buf, self.state.as_slice());
        assert(buf@ =~= self.spec_binary());
        buf
    }

    fn tag(&self) -> (r: u8)
        ensures
            r == HandoffRequest::TAG,
    {
        Self::TAG
    }
}

impl InterShardMessage for HandoffAccept {
    /// A player being handed off is to be completed: answers `HandoffComplete`.
    fn resolve(&mut self, registry: &mut PlayerRegistry, server_config: &mut ServerConfig) -> (r: Vec<Vec<u8>>)
        ensures
            accept_resolved(*old(self), old(registry)@, *old(server_config), final(registry)@, *final(server_config), frames_view(r@)),
    {
        match registry.authority_of(self.entity_id) {
            Some(EntityAuthority::PendingHandoff) => {
                let complete_msg = HandoffComplete { entity_id: self.entity_id };
                one_frame(frame_of(complete_msg.tag(), complete_msg.to_binary()))
            },
            _ => no_frames(),
        }
    }

    fn to_binary(&self) -> (r: Vec<u8>)
        ensures
            r@ == self.spec_binary(),
    {
        let mut buf: Vec<u8> = Vec::new();
        push_u32_le(&mut buf, self.entity_id);
        assert(buf@ =~= self.spec_binary());
        buf
    }

    fn tag(&self) -> (r: u8)
        ensures
            r == HandoffAccept::TAG,
    {
        Self::TAG
    }
}

impl InterShardMessage for HandoffReject {
    /// A player being handed off stays with this server: it becomes `Owned`.
    fn resolve(&mut self, registry: &mut PlayerRegistry, server_config: &mut ServerConfig) -> (r: Vec<Vec<u8>>)
        ensures
            reject_resolved(*old(self), old(registry)@, *old(server_config), final(registry)@, *final(server_config), frames_view(r@)),
    {
        match registry.authority_of(self.entity_id) {
            Some(EntityAuthority::PendingHandoff) => {
                registry.set_authority(self.entity_id, EntityAuthority::Owned);
            },
            _ => {},
        }
        no_frames()
    }

    fn to_binary(&self) -> (r: Vec<u8>)
        ensures
            r@ == self.spec_binary(),
    {
        let mut buf: Vec<u8> = Vec::new();
        push_u32_le(&mut buf, self.entity_id);
        push_bytes(&mut buf, self.reason.as_str().as_bytes());
        assert(buf@ =~= self.spec_binary());
        buf
    }

    fn tag(&self) -> (r: u8)
        ensures
            r == HandoffReject::TAG,
    {
        Self::TAG
    }
}

impl InterShardMessage for HandoffComplete {
    /// A ghost becomes this server's own player; a player this server was
    /// handing off is forgotten.
    fn resolve(&mut self, registry: &mut PlayerRegistry, server_config: &mut ServerConfig) -> (r: Vec<Vec<u8>>)
        ensures
            complete_resolved(*old(self), old(registry)@, *old(server_config), final(registry)@, *final(server_config), frames_view(r@)),
    {
        match registry.authority_of(self.entity_id) {
            Some(EntityAuthority::Ghosted) => {
                registry.set_authority(self.entity_id, EntityAuthority::Owned);
            },
            Some(EntityAuthority::PendingHandoff) => {
                registry.remove_player(self.entity_id);
            },
            _ => {},
        }
        no_frames()
    }

    fn to_binary(&self) -> (r: Vec<u8>)
        ensures
            r@ == self.spec_binary(),
    {
        let mut buf: Vec<u8> = Vec::new();
        push_u32_le(&mut buf, self.entity_id);
        assert(buf@ =~= self.spec_binary());
        buf
    }

    fn tag(&self) -> (r: u8)
        ensures
            r == HandoffComplete::TAG,
    {
        Self::TAG
    }
}

impl InterShardMessage for GhostUpdate {
    /// A ghost takes the position and velocity of the update.
    fn resolve(&mut self, registry: &mut PlayerRegistry, server_config: &mut ServerConfig) -> (r: Vec<Vec<u8>>)
        ensures
            update_resolved(*old(self), old(registry)@, *old(server_config), final(registry)@, *final(server_config), frames_view(r@)),
    {
        match registry.authority_of(self.entity_id) {
            Some(EntityAuthority::Ghosted) => {
                registry.set_motion(self.entity_id, self.pos, self.vel);
            },
            _ => {},
        }
        no_frames()
    }

    fn to_binary(&self) -> (r: Vec<u8>)
        ensures
            r@ == self.spec_binary(),
    {
        let mut buf: Vec<u8> = Vec::new();
        push_u32_le(&mut buf, self.entity_id);
        push_motion(&mut buf, self.pos, self.vel);
        assert(buf@ =~= self.spec_binary());
        buf
    }

    fn tag(&self) -> (r: u8)
        ensures
            r == GhostUpdate::TAG,
    {
        Self::TAG
    }
}

/// A received inter-shard message, by kind.
pub enum ShardMessage {
    Request(HandoffRequest),
    Accept(HandoffAccept),
    Reject(HandoffReject),
    Complete(HandoffComplete),
    Update(GhostUpdate),
}

/// The tag is that of an inter-shard message.
pub open spec fn is_shard_tag(tag: u8) -> bool {
    tag == HandoffRequest::TAG || tag == HandoffAccept::TAG || tag == HandoffReject::TAG
        || tag == HandoffComplete::TAG || tag == GhostUpdate::TAG
}

/// The body is long enough for a message of this tag to be read; reading
/// a shorter one fails outright.
pub open spec fn body_long_enough(tag: u8, len: int) -> bool {
    if tag == HandoffRequest::TAG {
        len >= 84
    } else if tag == GhostUpdate::TAG {
        len >= 20
    } else if tag == HandoffAccept::TAG || tag == HandoffReject::TAG || tag == HandoffComplete::TAG {
        len >= 4
    } else {
        true
    }
}

/// `m` is the message of this tag read from `body`.
pub open spec fn read_as(tag: u8, body: Seq<u8>, m: ShardMessage) -> bool {
    match m {
        ShardMessage::Request(r) => tag == HandoffRequest::TAG && r.entity_id == le_u32(body, 0) && (
        r.pos, r.vel) == motion_at(body, 4) && r.state@ == body.subrange(20, 84),
        ShardMessage::Accept(a) => tag == HandoffAccept::TAG && a.entity_id == le_u32(body, 0),
        ShardMessage::Reject(j) => tag == HandoffReject::TAG && j.entity_id == le_u32(body, 0)
            && j.reason@ == lossy_text(body.subrange(4, body.len() as int)),
        ShardMessage::Complete(c) => tag == HandoffComplete::TAG && c.entity_id == le_u32(body, 0),
        ShardMessage::Update(u) => tag == GhostUpdate::TAG && u.entity_id == le_u32(body, 0) && (
        u.pos, u.vel) == motion_at(body, 4),
    }
}

/// What resolving a message of any kind does.
pub open spec fn resolved(
    m: ShardMessage,
    p0: Map<u32, PlayerEntity>,
    c0: ServerConfig,
    p1: Map<u32, PlayerEntity>,
    c1: ServerConfig,
    frames: Seq<Seq<u8>>,
) -> bool {
    match m {
        ShardMessage::Request(r) => request_resolved(r, p0, c0, p1, c1, frames),
        ShardMessage::Accept(a) => accept_resolved(a, p0, c0, p1, c1, frames),
        ShardMessage::Reject(j) => reject_resolved(j, p0, c0, p1, c1, frames),
        ShardMessage::Complete(c) => complete_resolved(c, p0, c0, p1, c1, frames),
        ShardMessage::Update(u) => update_resolved(u, p0, c0, p1, c1, frames),
    }
}

impl ShardMessage {
    /// Reads the message of this tag from its body; `None` for any other tag.
    pub fn parse(tag: u8, body: &[u8]) -> (r: Option<ShardMessage>)
        requires
            body_long_enough(tag, body@.len() as int),
        ensures
            r.is_some() == is_shard_tag(tag),
            r matches Some(m) ==> read_as(tag, body@, m),
    {
        if tag == HandoffRequest::TAG {
            Some(ShardMessage::Request(HandoffRequest::from_binary(body)))
        } else if tag == HandoffAccept::TAG {
            Some(ShardMessage::Accept(HandoffAccept::from_binary(body)))
        } else if tag == HandoffReject::TAG {
            Some(ShardMessage::Reject(HandoffReject::from_binary(body)))
        } else if tag == GhostUpdate::TAG {
            Some(ShardMessage::Update(GhostUpdate::from_binary(body)))
        } else if tag == HandoffComplete::TAG {
            Some(ShardMessage::Complete(HandoffComplete::from_binary(body)))
        } else {
            None
        }
    }

    /// Resolves the message on this server.
    pub fn resolve(&mut self, registry: &mut PlayerRegistry, server_config: &mut ServerConfig) -> (r: Vec<Vec<u8>>)
        ensures
            resolved(*old(self), old(registry)@, *old(server_config), final(registry)@, *final(server_config), frames_view(r@)),
    {
        match self {
            ShardMessage::Request(m) => m.resolve(registry, server_config),
            ShardMessage::Accept(m) => m.resolve(registry, server_config),
            ShardMessage::Reject(m) => m.resolve(registry, server_config),
            ShardMessage::Complete(m) => m.resolve(registry, server_config),
            ShardMessage::Update(m) => m.resolve(registry, server_config),
        }
    }
}

/// A handoff request read back from its body is the request that was written.
pub proof fn lemma_request_roundtrip(m: HandoffRequest)
    ensures
        m.spec_binary().len() == 84,
        le_u32(m.spec_binary(), 0) == m.entity_id,
        motion_at(m.spec_binary(), 4) == (m.pos, m.vel),
        m.spec_binary().subrange(20, 84) == m.state@,
{
    let b = m.spec_binary();
    crate::wire::lemma_u32_le_roundtrip(m.entity_id);
    lemma_motion_roundtrip(m.pos, m.vel, m.state@);
    let tail = motion_bytes(m.pos, m.vel) + m.state@;
    assert(b =~= u32_le(m.entity_id) + tail);
    assert(le_u32(b, 0) == le_u32(u32_le(m.entity_id), 0));
    assert forall|k: int| 0 <= k < 16 implies b[4 + k] == tail[k] by {}
    assert(motion_at(b, 4) == motion_at(tail, 0));
    assert(b.subrange(20, 84) =~= m.state@);
}

/// A ghost update read back from its body is the update that was written.
pub proof fn lemma_ghost_update_roundtrip(m: GhostUpdate)
    ensures
        m.spec_binary().len() == 20,
        le_u32(m.spec_binary(), 0) == m.entity_id,
        motion_at(m.spec_binary(), 4) == (m.pos, m.vel),
{
    let b = m.spec_binary();
    crate::wire::lemma_u32_le_roundtrip(m.entity_id);
    lemma_motion_roundtrip(m.pos, m.vel, Seq::<u8>::empty());
    let tail = motion_bytes(m.pos, m.vel) + Seq::<u8>::empty();
    assert(b =~= u32_le(m.entity_id) + tail);
    assert(le_u32(b, 0) == le_u32(u32_le(m.entity_id), 0));
    assert forall|k: int| 0 <= k < 16 implies b[4 + k] == tail[k] by {}
    assert(motion_at(b, 4) == motion_at(tail, 0));
}

/// An accept, or a completion, read back from its body names the same player.
pub proof fn lemma_id_body_roundtrip(entity_id: u32)
    ensures
        (HandoffAccept { entity_id }).spec_binary().len() == 4,
        le_u32((HandoffAccept { entity_id }).spec_binary(), 0) == entity_id,
        (HandoffComplete { entity_id }).spec_binary().len() == 4,
        le_u32((HandoffComplete { entity_id }).spec_binary(), 0) == entity_id,
{
    crate::wire::lemma_u32_le_roundtrip(entity_id);
}

/// A reject read back from its body names the same player and gives the
/// same reason.
pub proof fn lemma_reject_roundtrip(m: HandoffReject)
    ensures
        m.spec_binary().len() >= 4,
        le_u32(m.spec_binary(), 0) == m.entity_id,
        lossy_text(m.spec_binary().subrange(4, m.spec_binary().len() as int)) == m.reason@,
{
    let b = m.spec_binary();
    crate::wire::lemma_u32_le_roundtrip(m.entity_id);
    assert(le_u32(b, 0) == le_u32(u32_le(m.entity_id), 0));
    assert(b.subrange(4, b.len() as int) =~= encode_utf8(m.reason@));
    vstd::utf8::encode_utf8_valid_utf8(m.reason@);
    vstd::utf8::encode_utf8_decode_utf8(m.reason@);
}


/// A server with room that takes a player by a handoff request, and is
/// then told the handoff is complete, owns the player, at the position and
/// velocity of the request.
pub proof fn lemma_request_then_complete(
    req: HandoffRequest,
    p0: Map<u32, PlayerEntity>,
    c0: ServerConfig,
    p1: Map<u32, PlayerEntity>,
    c1: ServerConfig,
    f1: Seq<Seq<u8>>,
    p2: Map<u32, PlayerEntity>,
    c2: ServerConfig,
    f2: Seq<Seq<u8>>,
)
    requires
        c0.status == ServerStatus::Available,
        request_resolved(req, p0, c0, p1, c1, f1),
        complete_resolved(HandoffComplete { entity_id: req.entity_id }, p1, c1, p2, c2, f2),
    ensures
        p2.contains_key(req.entity_id),
        p2[req.entity_id].authority == EntityAuthority::Owned,
        p2[req.entity_id].position == req.pos,
        p2[req.entity_id].velocity == req.vel,
        f1 == seq![message_frame(HandoffAccept::TAG, u32_le(req.entity_id))],
{
}

/// A server that hands a player off and has it refused owns it again,
/// unchanged otherwise; one whose handoff completes forgets it.
pub proof fn lemma_handoff_outcomes(
    id: u32,
    reason: String,
    p0: Map<u32, PlayerEntity>,
    c0: ServerConfig,
    p1: Map<u32, PlayerEntity>,
    c1: ServerConfig,
    f1: Seq<Seq<u8>>,
    p2: Map<u32, PlayerEntity>,
    c2: ServerConfig,
    f2: Seq<Seq<u8>>,
)
    requires
        p0.contains_key(id),
        p0[id].authority == EntityAuthority::PendingHandoff,
        reject_resolved(HandoffReject { entity_id: id, reason }, p0, c0, p1, c1, f1),
        complete_resolved(HandoffComplete { entity_id: id }, p0, c0, p2, c2, f2),
    ensures
        p1 == p0.insert(id, PlayerEntity { authority: EntityAuthority::Owned, ..p0[id] }),
        p2 == p0.remove(id),
{
}

} // verus!
