//! The players a game server knows of, and which of them it simulates.
use vstd::prelude::*;
use crate::geometry::Vec2;

verus! {

/// Who simulates a player: this server (`Owned`), this server while the
/// player is being handed to a neighbour (`PendingHandoff`), or a
/// neighbour, this server only mirroring it (`Ghost`).
#[derive(Clone, Copy, Debug, PartialEq, Eq, Structural)]
pub enum EntityAuthority {
    Owned,
    PendingHandoff,
    Ghosted,
}

/// A player as a game server holds it; coordinates and rotation are `f32`
/// bit patterns.
pub struct PlayerEntity {
    pub id: u32,
    pub authority: EntityAuthority,
    pub position: Vec2,
    pub rotation: u32,
    pub velocity: Vec2,
    pub involved_shards: Vec<u32>,
}

#[verifier::external_type_specification]
#[verifier::external_body]
#[verifier::reject_recursive_types(K)]
#[verifier::reject_recursive_types(V)]
#[verifier::reject_recursive_types(S)]
pub struct ExPlatformHashMap<K, V, S>(bevy::platform::collections::HashMap<K, V, S>);

#[verifier::external_type_specification]
#[verifier::external_body]
pub struct ExFixedHasher(bevy::platform::hash::FixedHasher);

/// The map in which a game server keeps its players.
pub type PlayerMap = bevy::platform::collections::HashMap<u32, PlayerEntity>;

/// The players that a registry map holds, by id.
pub uninterp spec fn players_of(m: PlayerMap) -> Map<u32, PlayerEntity>;

/// `HashMap::new`: an empty map.
#[verifier::external_body]
fn players_new() -> (r: PlayerMap)
    ensures
        players_of(r).dom().len() == 0,
        players_of(r).dom().finite(),
{
    bevy::platform::collections::HashMap::new()
}

/// `HashMap::len`: the number of players.
#[verifier::external_body]
fn players_len(m: &PlayerMap) -> (n: usize)
    ensures
        n == players_of(*m).len(),
{
    m.len()
}

/// `HashMap::get`: the player of an id.
#[verifier::external_body]
fn players_get<'a>(m: &'a PlayerMap, id: u32) -> (r:
    Option<&'a PlayerEntity>)
    ensures
        r is Some <==> players_of(*m).contains_key(id),
        r matches Some(p) ==> *p == players_of(*m)[id],
{
    m.get(&id)
}

/// `HashMap::get_mut`: the player of an id, to change in place.
#[verifier::external_body]
fn players_get_mut<'a>(m: &'a mut PlayerMap, id: u32) -> (r:
    Option<&'a mut PlayerEntity>)
    ensures
        r is Some <==> players_of(*old(m)).contains_key(id),
        r matches Some(p) ==> *p == players_of(*old(m))[id] && players_of(*final(m)) == players_of(
            *old(m),
        ).insert(id, *final(p)),
        r is None ==> players_of(*final(m)) == players_of(*old(m)),
{
    m.get_mut(&id)
}

/// `HashMap::insert`: sets the player of an id.
#[verifier::external_body]
fn players_insert(m: &mut PlayerMap, id: u32, p: PlayerEntity)
    ensures
        players_of(*final(m)) == players_of(*old(m)).insert(id, p),
{
    m.insert(id, p);
}

/// `HashMap::remove`: forgets the player of an id.
#[verifier::external_body]
fn players_remove(m: &mut PlayerMap, id: u32)
    ensures
        players_of(*final(m)) == players_of(*old(m)).remove(id),
{
    m.remove(&id);
}

/// `HashMap::keys`, collected: every id once, in the map's order, which
/// the map does not promise.
#[verifier::external_body]
fn players_ids(m: &PlayerMap) -> (r: Vec<u32>)
    ensures
        r@.no_duplicates(),
        forall|id: u32| r@.contains(id) <==> players_of(*m).contains_key(id),
{
    m.keys().copied().collect()
}

/// The players of a game server, by id.
pub struct PlayerRegistry {
    pub players: PlayerMap,
}

/// The way an input moves a player: `0` up, `1` down, `2` left, `3` right,
/// anything else not at all. Only the newest input counts.
pub enum Direction {
    Up,
    Down,
    Left,
    Right,
    Still,
}

pub open spec fn spec_direction(input: [u8; 16]) -> Direction {
    let d = input[0];
    if d == 0 {
        Direction::Up
    } else if d == 1 {
        Direction::Down
    } else if d == 2 {
        Direction::Left
    } else if d == 3 {
        Direction::Right
    } else {
        Direction::Still
    }
}

/// The player `p` after moving by `input`, where `shift(c, true)` moves a
/// coordinate by the player speed upwards and `shift(c, false)` downwards.
pub open spec fn moved_by<F: Fn(u32, bool) -> u32>(p: PlayerEntity, q: PlayerEntity, input: [u8; 16], shift: F) -> bool {
    &&& q.id == p.id
    &&& q.authority == p.authority
    &&& q.rotation == p.rotation
    &&& q.velocity == p.velocity
    &&& q.involved_shards == p.involved_shards
    &&& match spec_direction(input) {
        Direction::Up => q.position.x == p.position.x && shift.ensures((p.position.y, true), q.position.y),
        Direction::Down => q.position.x == p.position.x && shift.ensures((p.position.y, false), q.position.y),
        Direction::Left => q.position.y == p.position.y && shift.ensures((p.position.x, false), q.position.x),
        Direction::Right => q.position.y == p.position.y && shift.ensures((p.position.x, true), q.position.x),
        Direction::Still => q.position == p.position,
    }
}

/// What each input byte does to a player: `0` moves it up (`shift` of y
/// upwards), `1` down, `2` left (`shift` of x downwards), `3` right (`shift`
/// of x upwards), each leaving the other coordinate as it was; any other
/// byte leaves the player where it is. Nothing but the position changes.
pub proof fn lemma_input_bytes_move<F: Fn(u32, bool) -> u32>(
    p: PlayerEntity,
    q: PlayerEntity,
    input: [u8; 16],
    shift: F,
)
    requires
        moved_by(p, q, input, shift),
    ensures
        q.id == p.id && q.authority == p.authority && q.rotation == p.rotation && q.velocity == p.velocity,
        input[0] == 0 ==> q.position.x == p.position.x && shift.ensures((p.position.y, true), q.position.y),
        input[0] == 1 ==> q.position.x == p.position.x && shift.ensures((p.position.y, false), q.position.y),
        input[0] == 2 ==> q.position.y == p.position.y && shift.ensures((p.position.x, false), q.position.x),
        input[0] == 3 ==> q.position.y == p.position.y && shift.ensures((p.position.x, true), q.position.x),
        input[0] > 3 ==> q.position == p.position,
{
}

impl PlayerEntity {
    /// Applies the newest input to the player's position. The caller's
    /// `shift` adds (`true`) or subtracts (`false`) the player speed, 5, to a
    /// coordinate.
    pub fn interpret_player_input<F: Fn(u32, bool) -> u32>(&mut self, input: [u8; 16], shift: &F)
        requires
            forall|c: u32, up: bool| shift.requires((c, up)),
        ensures
            moved_by(*old(self), *final(self), input, *shift),
            input[0] == 0 ==> final(self).position.x == old(self).position.x && shift.ensures(
                (old(self).position.y, true),
                final(self).position.y,
            ),
            input[0] == 1 ==> final(self).position.x == old(self).position.x && shift.ensures(
                (old(self).position.y, false),
                final(self).position.y,
            ),
            input[0] == 2 ==> final(self).position.y == old(self).position.y && shift.ensures(
                (old(self).position.x, false),
                final(self).position.x,
            ),
            input[0] == 3 ==> final(self).position.y == old(self).position.y && shift.ensures(
                (old(self).position.x, true),
                final(self).position.x,
            ),
            input[0] > 3 ==> final(self).position == old(self).position,
    {
        let direction = input[0];
        if direction == 0 {
            self.position.y = shift(self.position.y, true);
        } else if direction == 1 {
            self.position.y = shift(self.position.y, false);
        } else if direction == 2 {
            self.position.x = shift(self.position.x, false);
        } else if direction == 3 {
            self.position.x = shift(self.position.x, true);
        }
    }
}

impl PlayerRegistry {
    /// The players by id.
    pub open spec fn view(&self) -> Map<u32, PlayerEntity> {
        players_of(self.players)
    }

    /// An empty registry.
    pub fn new() -> (r: PlayerRegistry)
        ensures
            r@ == Map::<u32, PlayerEntity>::empty(),
    {
        PlayerRegistry { players: players_new() }
    }

    /// The number of players.
    pub fn len(&self) -> (n: usize)
        ensures
            n == self@.len(),
    {
        players_len(&self.players)
    }

    /// Whether a player has this id.
    pub fn contains(&self, id: u32) -> (r: bool)
        ensures
            r == self@.contains_key(id),
    {
        players_get(&self.players, id).is_some()
    }

    /// The player of this id, if there is one.
    pub fn get(&self, id: u32) -> (r: Option<&PlayerEntity>)
        ensures
            r is Some <==> self@.contains_key(id),
            r matches Some(p) ==> *p == self@[id],
    {
        players_get(&self.players, id)
    }

    /// The authority over the player of this id, if there is one.
    pub fn authority_of(&self, id: u32) -> (r: Option<EntityAuthority>)
        ensures
            r is Some <==> self@.contains_key(id),
            r matches Some(a) ==> a == self@[id].authority,
    {
        match players_get(&self.players, id) {
            Some(p) => Some(p.authority),
            None => None,
        }
    }

    /// The ids of the players, each once, in no promised order.
    pub fn ids(&self) -> (r: Vec<u32>)
        ensures
            r@.no_duplicates(),
            forall|id: u32| r@.contains(id) <==> self@.contains_key(id),
    {
        players_ids(&self.players)
    }

    /// Adds a player, replacing the one with the same id.
    pub fn register_player(&mut self, player: PlayerEntity)
        ensures
            final(self)@ == old(self)@.insert(player.id, player),
    {
        let id = player.id;
        players_insert(&mut self.players, id, player);
    }

    /// Forgets the player of this id.
    pub fn remove_player(&mut self, id: u32)
        ensures
            final(self)@ == old(self)@.remove(id),
    {
        players_remove(&mut self.players, id);
    }

    /// Sets the authority over the player of this id, if there is one.
    pub fn set_authority(&mut self, id: u32, authority: EntityAuthority)
        ensures
            old(self)@.contains_key(id) ==> final(self)@ == old(self)@.insert(
                id,
                PlayerEntity { authority, ..old(self)@[id] },
            ),
            !old(self)@.contains_key(id) ==> final(self)@ == old(self)@,
    {
        match players_get_mut(&mut self.players, id) {
            Some(p) => {
                p.authority = authority;
            },
            None => {},
        }
    }

    /// Sets the position and velocity of the player of this id, if there is one.
    pub fn set_motion(&mut self, id: u32, position: Vec2, velocity: Vec2)
        ensures
            old(self)@.contains_key(id) ==> final(self)@ == old(self)@.insert(
                id,
                PlayerEntity { position, velocity, ..old(self)@[id] },
            ),
            !old(self)@.contains_key(id) ==> final(self)@ == old(self)@,
    {
        match players_get_mut(&mut self.players, id) {
            Some(p) => {
                p.position = position;
                p.velocity = velocity;
            },
            None => {},
        }
    }

    /// Marks the player of this id as being handed off to the listed shards,
    /// if it is one this server owns.
    pub fn start_handoff(&mut self, id: u32, involved_shards: Vec<u32>)
        ensures
            old(self)@.contains_key(id) && old(self)@[id].authority == EntityAuthority::Owned
                ==> final(self)@ == old(self)@.insert(
                id,
                PlayerEntity {
                    authority: EntityAuthority::PendingHandoff,
                    involved_shards,
                    ..old(self)@[id]
                },
            ),
            !(old(self)@.contains_key(id) && old(self)@[id].authority == EntityAuthority::Owned)
                ==> final(self)@ == old(self)@,
    {
        match players_get_mut(&mut self.players, id) {
            Some(p) => {
                if p.authority == EntityAuthority::Owned {
                    p.authority = EntityAuthority::PendingHandoff;
                    p.involved_shards = involved_shards;
                }
            },
            None => {},
        }
    }

    /// Applies a client's newest input to its player, if it has one.
    pub fn update_player_input<F: Fn(u32, bool) -> u32>(&mut self, client_id: u32, input: [u8; 16], shift: &F)
        requires
            forall|c: u32, up: bool| shift.requires((c, up)),
        ensures
            old(self)@.contains_key(client_id) ==> final(self)@.contains_key(client_id)
                && final(self)@ == old(self)@.insert(client_id, final(self)@[client_id])
                && moved_by(old(self)@[client_id], final(self)@[client_id], input, *shift),
            !old(self)@.contains_key(client_id) ==> final(self)@ == old(self)@,
    {
        match players_get_mut(&mut self.players, client_id) {
            Some(player) => {
                player.interpret_player_input(input, shift);
            },
            None => {},
        }
    }
}

impl Default for PlayerRegistry {
    fn default() -> (r: PlayerRegistry)
        ensures
            r@ == Map::<u32, PlayerEntity>::empty(),
    {
        PlayerRegistry::new()
    }
}

} // verus!
