//! The orchestrator: it knows the game servers by their connections,
//! relays the messages they send each other, records their heartbeats, and
//! keeps enough idle servers running. The functions here decide; the caller
//! performs the returned actions on the sockets, on Redis and on Docker.
use vstd::prelude::*;
use std::collections::HashMap;
use vstd::std_specs::iter::IteratorSpec;
use vstd::string::StringExecFns;
use crate::wire::{le_u32, read_u32_le, push_u32_le, u32_le, slice_to_vec};
use crate::protocol::{
    Heartbeat, ServerStatus, ServerState, TAG_ADMIN_ROUTE_RECEIVE, PAYLOAD_BOOT_SHARD, ORCH_PORT, BROK_PORT,
    PAYLOAD_WAKEUP_COMMAND, admin_connect_frame, build_admin_connect, route_frame, build_route, dgs_name,
};
use crate::shard_messages::is_shard_tag;
use crate::text::{decimal, u64_to_decimal, utf8_lossy, from_utf8_lossy, without_matches, remove_matches};
use crate::uuids::{uuid_text, uuid_to_string};
use crate::broker::{BrokerView, HandledView, spec_handle, lemma_announce_then_route};
use crate::protocol::routed_frame;
use crate::game_server::{zone_frame, zone_frame_of, shard_name};
use crate::text::shard_topic;

verus! {

broadcast use vstd::std_specs::hash::group_hash_axioms;

/// The number of idle game servers the orchestrator keeps ready.
pub const HOT_SERVERS_MIN: usize = 4;

/// The id of a game server that has not sent a heartbeat yet.
pub const UNKNOWN_DGS: u128 = 0xffff_ffff_ffff_ffff_ffff_ffff_ffff_ffffu128;

/// The seconds after which Redis forgets a server that stopped beating.
pub const HEARTBEAT_TTL: u64 = 15;

/// What the orchestrator knows of a game server: its id (the UUID's
/// value, `UNKNOWN_DGS` until its first heartbeat) and how to reach it.
#[derive(Clone, Copy, Debug, PartialEq, Eq, Structural)]
pub struct DGSNetworkInfo {
    pub dgs_id: u128,
    pub connection_dgs: Option<u64>,
    pub stream_dgs: Option<u64>,
}

/// The orchestrator's connections: to the broker, and to each game server,
/// by connection id.
pub struct GameSocket {
    pub dgs_network_info_dictionary: HashMap<u64, DGSNetworkInfo>,
    pub connection_broker: Option<u64>,
    pub stream_broker: Option<u64>,
}

/// The orchestrator's connections as values.
pub struct OrchView {
    pub dgs: Map<u64, DGSNetworkInfo>,
    pub connection_broker: Option<u64>,
    pub stream_broker: Option<u64>,
}

impl GameSocket {
    pub open spec fn view(&self) -> OrchView {
        OrchView {
            dgs: self.dgs_network_info_dictionary@,
            connection_broker: self.connection_broker,
            stream_broker: self.stream_broker,
        }
    }
}

/// Something for the caller to do on the orchestrator's behalf.
#[derive(Debug, PartialEq, Eq)]
pub enum OrchAction {
    /// Send a frame on a connection and stream.
    Send { connection: u64, stream: u64, data: Vec<u8> },
    /// Open a stream on a connection, reliable or not.
    CreateStream { connection: u64, reliable: bool },
    /// Parse the text as a JSON heartbeat and pass it to `record_heartbeat`.
    ReadHeartbeat { connection: u64, text: String },
    /// Look in Redis for an idle server and, if there is one, pass it to
    /// `wake_up` with this shard and zone.
    FindIdleServer { shard_id: u32, min_x: u32, min_y: u32, max_x: u32, max_y: u32 },
}

/// An action as values.
pub enum OrchActionView {
    Send(u64, u64, Seq<u8>),
    CreateStream(u64, bool),
    ReadHeartbeat(u64, Seq<char>),
    FindIdleServer(u32, u32, u32, u32, u32),
}

pub open spec fn orch_action_view(a: OrchAction) -> OrchActionView {
    match a {
        OrchAction::Send { connection, stream, data } => OrchActionView::Send(connection, stream, data@),
        OrchAction::CreateStream { connection, reliable } => OrchActionView::CreateStream(connection, reliable),
        OrchAction::ReadHeartbeat { connection, text } => OrchActionView::ReadHeartbeat(connection, text@),
        OrchAction::FindIdleServer { shard_id, min_x, min_y, max_x, max_y } => OrchActionView::FindIdleServer(
            shard_id,
            min_x,
            min_y,
            max_x,
            max_y,
        ),
    }
}

pub open spec fn orch_actions_view(v: Seq<OrchAction>) -> Seq<OrchActionView> {
    v.map_values(|a: OrchAction| orch_action_view(a))
}

fn no_actions() -> (r: Vec<OrchAction>)
    ensures
        orch_actions_view(r@) == Seq::<OrchActionView>::empty(),
{
    let r: Vec<OrchAction> = Vec::new();
    assert(orch_actions_view(r@) =~= Seq::<OrchActionView>::empty());
    r
}

fn one_action(a: OrchAction) -> (r: Vec<OrchAction>)
    ensures
        orch_actions_view(r@) == seq![orch_action_view(a)],
{
    let mut r: Vec<OrchAction> = Vec::new();
    r.push(a);
    assert(orch_actions_view(r@) =~= seq![orch_action_view(a)]);
    r
}

/// The name by which the orchestrator announces itself to the broker.
pub open spec fn orchestrator_name() -> Seq<char> {
    seq!['o', 'r', 'c', 'h', 'e', 's', 't', 'r', 'a', 't', 'o', 'r']
}

/// A frame sent to the broker, once its connection and stream are known;
/// dropped before.
pub open spec fn to_broker(s: OrchView, frame: Seq<u8>) -> Seq<OrchActionView> {
    match (s.connection_broker, s.stream_broker) {
        (Some(c), Some(st)) => seq![OrchActionView::Send(c, st, frame)],
        _ => Seq::empty(),
    }
}

/// The shard and zone of a boot request routed by the broker: tag `0x0C`,
/// then `0x90`, shard id and the four bounds; `None` for any other frame
/// or one cut short.
pub open spec fn boot_request(data: Seq<u8>) -> Option<(u32, u32, u32, u32, u32)> {
    if data.len() >= 22 && data[0] == TAG_ADMIN_ROUTE_RECEIVE && data[1] == PAYLOAD_BOOT_SHARD {
        Some(
            (
                le_u32(data, 2) as u32,
                le_u32(data, 6) as u32,
                le_u32(data, 10) as u32,
                le_u32(data, 14) as u32,
                le_u32(data, 18) as u32,
            ),
        )
    } else {
        None
    }
}

/// The entry of a game server whose message came on `connection` and
/// `stream`: the known one, or a new one with an unknown id.
pub open spec fn entry_for(dgs: Map<u64, DGSNetworkInfo>, connection: u64, stream: u64) -> DGSNetworkInfo {
    if dgs.contains_key(connection) {
        dgs[connection]
    } else {
        DGSNetworkInfo { dgs_id: UNKNOWN_DGS, connection_dgs: Some(connection), stream_dgs: Some(stream) }
    }
}

/// Where a relayed message goes: to a server whose id is the target, the
/// one found first, if both its connection and stream are known. `None`
/// when no server has that id.
pub open spec fn relay_choice(dgs: Map<u64, DGSNetworkInfo>, target: u128, r: Option<(u64, u64)>) -> bool {
    &&& r matches Some((c, st)) ==> exists|k: u64|
        #[trigger] dgs.contains_key(k) && dgs[k].dgs_id == target && dgs[k].connection_dgs == Some(c)
            && dgs[k].stream_dgs == Some(st)
    &&& (forall|k: u64| #[trigger] dgs.contains_key(k) ==> dgs[k].dgs_id != target) ==> r is None
    &&& (exists|k: u64| #[trigger] dgs.contains_key(k) && dgs[k].dgs_id == target) && (forall|k: u64|
        #[trigger] dgs.contains_key(k) && dgs[k].dgs_id == target ==> dgs[k].connection_dgs is Some
            && dgs[k].stream_dgs is Some) ==> r is Some
}

/// The frame relayed to the target server: the message's tag, then what
/// follows the target's id.
pub open spec fn relayed_frame(data: Seq<u8>) -> Seq<u8> {
    seq![data[0]] + data.subrange(5, data.len() as int)
}

/// What a message does. From the broker, a boot request asks the caller
/// to find an idle server; anything else from it is ignored. From a game
/// server, once the broker is connected: the server gets an entry if it
/// had none; an inter-shard message (tags `0x20` to `0x24`) of at least 5
/// bytes is relayed to the server whose id follows the tag; anything else
/// is read, as text, for a heartbeat.
pub open spec fn spec_on_message(
    s0: OrchView,
    s1: OrchView,
    connection: u64,
    stream: u64,
    data: Seq<u8>,
    acts: Seq<OrchActionView>,
) -> bool {
    if data.len() == 0 || s0.connection_broker == Some(connection) || s0.connection_broker is None {
        &&& s1 == s0
        &&& acts == if data.len() > 0 && s0.connection_broker == Some(connection) {
            match boot_request(data) {
                Some((shard_id, min_x, min_y, max_x, max_y)) => seq![
                    OrchActionView::FindIdleServer(shard_id, min_x, min_y, max_x, max_y),
                ],
                None => Seq::empty(),
            }
        } else {
            Seq::empty()
        }
    } else {
        &&& s1.connection_broker == s0.connection_broker
        &&& s1.stream_broker == s0.stream_broker
        &&& s1.dgs == s0.dgs.insert(connection, entry_for(s0.dgs, connection, stream))
        &&& if is_shard_tag(data[0]) {
            if data.len() < 5 {
                acts == Seq::<OrchActionView>::empty()
            } else {
                exists|r: Option<(u64, u64)>|
                    #[trigger] relay_choice(s0.dgs, le_u32(data, 1) as u128, r) && acts == match r {
                        Some((c, st)) => seq![OrchActionView::Send(c, st, relayed_frame(data))],
                        None => Seq::empty(),
                    }
            }
        } else {
            acts == seq![OrchActionView::ReadHeartbeat(connection, utf8_lossy(data))]
        }
    }
}

/// The word Redis holds for a status.
pub open spec fn status_word(s: ServerStatus) -> Seq<char> {
    match s {
        ServerStatus::Available => "available"@,
        ServerStatus::Full => "full"@,
    }
}

/// The word Redis holds for a state.
pub open spec fn state_word(s: ServerState) -> Seq<char> {
    match s {
        ServerState::WarmUp => "warmup"@,
        ServerState::Idle => "idle"@,
        ServerState::Running => "running"@,
        ServerState::Stopping => "stopping"@,
    }
}

/// The Redis key of the server whose UUID text is `id`.
pub open spec fn server_key(id: Seq<char>) -> Seq<char> {
    "server:"@ + id
}

/// The fields a heartbeat sets, in order.
pub open spec fn heartbeat_fields(h: Heartbeat) -> Seq<(Seq<char>, Seq<char>)> {
    seq![
        ("port"@, decimal(h.port as nat)),
        ("ip"@, h.ip@),
        ("zone"@, h.zone@),
        ("player_count"@, decimal(h.player_count as nat)),
        ("max_players"@, decimal(h.max_players as nat)),
        ("status"@, status_word(h.status)),
        ("state"@, state_word(h.state)),
    ]
}

/// What to write to Redis: the fields of a hash key, then how long the
/// key lives.
#[derive(Debug, PartialEq, Eq)]
pub struct RedisRecord {
    pub key: String,
    pub fields: Vec<(String, String)>,
    pub ttl_seconds: u64,
}

pub open spec fn fields_view(v: Seq<(String, String)>) -> Seq<(Seq<char>, Seq<char>)> {
    v.map_values(|f: (String, String)| (f.0@, f.1@))
}

/// The payload that wakes a server up in charge of a shard: tag `0x91`,
/// shard id, then the four bounds.
pub open spec fn wakeup_payload(shard_id: u32, min_x: u32, min_y: u32, max_x: u32, max_y: u32) -> Seq<u8> {
    seq![PAYLOAD_WAKEUP_COMMAND] + u32_le(shard_id) + u32_le(min_x) + u32_le(min_y) + u32_le(max_x) + u32_le(
        max_y,
    )
}

/// `keys[i]` is the first key whose state is `idle`.
pub open spec fn first_idle(states: Seq<String>, i: int) -> bool {
    &&& 0 <= i < states.len()
    &&& states[i]@ == "idle"@
    &&& forall|j: int| 0 <= j < i ==> states[j]@ != "idle"@
}

/// The number of `idle` states.
pub open spec fn idle_count(states: Seq<String>) -> nat
    decreases states.len(),
{
    if states.len() == 0 {
        0
    } else {
        idle_count(states.drop_last()) + if states.last()@ == "idle"@ {
            1nat
        } else {
            0nat
        }
    }
}

/// The servers to start so that `HOT_SERVERS_MIN` are idle.
pub open spec fn spec_servers_to_start(idle: int) -> int {
    if idle < HOT_SERVERS_MIN {
        HOT_SERVERS_MIN - idle
    } else {
        0
    }
}

impl GameSocket {
    /// No game server known, and no broker yet.
    pub fn new() -> (r: GameSocket)
        ensures
            r@.dgs == Map::<u64, DGSNetworkInfo>::empty(),
            r@.connection_broker is None,
            r@.stream_broker is None,
    {
        GameSocket {
            dgs_network_info_dictionary: HashMap::new(),
            connection_broker: None,
            stream_broker: None,
        }
    }

    /// A connection is established: the first is the broker's, which gets
    /// an unreliable stream; the others are game servers'.
    pub fn on_connected(&mut self, connection: u64) -> (r: Vec<OrchAction>)
        ensures
            old(self)@.connection_broker is None ==> final(self)@ == (OrchView {
                connection_broker: Some(connection),
                ..old(self)@
            }) && orch_actions_view(r@) == seq![OrchActionView::CreateStream(connection, false)],
            old(self)@.connection_broker is Some ==> final(self)@ == old(self)@ && orch_actions_view(r@)
                == Seq::<OrchActionView>::empty(),
    {
        if self.connection_broker.is_none() {
            self.connection_broker = Some(connection);
            one_action(OrchAction::CreateStream { connection, reliable: false })
        } else {
            no_actions()
        }
    }

    /// A stream is open: on the broker's connection it becomes the
    /// broker's stream, and the orchestrator announces itself.
    pub fn on_stream_created(&mut self, connection: u64, stream: u64) -> (r: Vec<OrchAction>)
        ensures
            old(self)@.connection_broker == Some(connection) ==> final(self)@ == (OrchView {
                stream_broker: Some(stream),
                ..old(self)@
            }) && orch_actions_view(r@) == seq![
                OrchActionView::Send(connection, stream, admin_connect_frame(orchestrator_name())),
            ],
            old(self)@.connection_broker != Some(connection) ==> final(self)@ == old(self)@
                && orch_actions_view(r@) == Seq::<OrchActionView>::empty(),
    {
        match self.connection_broker {
            Some(b) => {
                if b == connection {
                    self.stream_broker = Some(stream);
                    let name = "orchestrator";
                    proof {
                        reveal_strlit("orchestrator");
                    }
                    assert(name@ =~= orchestrator_name());
                    let auth = build_admin_connect(name);
                    return one_action(OrchAction::Send { connection, stream, data: auth });
                }
                no_actions()
            },
            None => no_actions(),
        }
    }

    /// Finds the server a message for `target` goes to.
    fn find_target(&self, target: u128) -> (r: Option<(u64, u64)>)
        ensures
            relay_choice(self@.dgs, target, r),
    {
        let ghost m = self@.dgs;
        for (key, dgs) in it: self.dgs_network_info_dictionary.iter()
            invariant
                m == self@.dgs,
                it.seq() == self.dgs_network_info_dictionary.iter().remaining(),
                forall|i: int| 0 <= i < it.index() ==> (*it.seq()[i].1).dgs_id != target,
        {
            if dgs.dgs_id == target {
                let k = *key;
                assert(m.contains_key(k) && m[k] == *dgs);
                match (dgs.connection_dgs, dgs.stream_dgs) {
                    (Some(c), Some(st)) => {
                        return Some((c, st));
                    },
                    _ => {
                        return None;
                    },
                }
            }
        }
        proof {
            let seq = self.dgs_network_info_dictionary.iter().remaining();
            assert forall|k: u64| #[trigger] m.contains_key(k) implies m[k].dgs_id != target by {
                assert(seq.contains((&k, &m[k])));
                let i = choose|i: int| 0 <= i < seq.len() && seq[i] == (&k, &m[k]);
                assert((*seq[i].1).dgs_id != target);
            }
        }
        None
    }

    /// Decides what a message received on `connection` and `stream` does,
    /// as `spec_on_message` states.
    pub fn on_message(&mut self, connection: u64, stream: u64, data: &[u8]) -> (r: Vec<OrchAction>)
        ensures
            spec_on_message(old(self)@, final(self)@, connection, stream, data@, orch_actions_view(r@)),
    {
        if data.len() == 0 {
            return no_actions();
        }
        let from_broker = match self.connection_broker {
            Some(b) => b == connection,
            None => false,
        };
        if from_broker {
            if data.len() >= 22 && data[0] == TAG_ADMIN_ROUTE_RECEIVE && data[1] == PAYLOAD_BOOT_SHARD {
                let shard_id = read_u32_le(data, 2);
                let min_x = read_u32_le(data, 6);
                let min_y = read_u32_le(data, 10);
                let max_x = read_u32_le(data, 14);
                let max_y = read_u32_le(data, 18);
                return one_action(OrchAction::FindIdleServer { shard_id, min_x, min_y, max_x, max_y });
            }
            return no_actions();
        }
        if self.connection_broker.is_none() {
            return no_actions();
        }
        let ghost s0 = self@;
        let entry = match self.dgs_network_info_dictionary.get(&connection) {
            Some(d) => *d,
            None => DGSNetworkInfo { dgs_id: UNKNOWN_DGS, connection_dgs: Some(connection), stream_dgs: Some(stream) },
        };
        let tag = data[0];
        let acts = if tag == 0x20 || tag == 0x21 || tag == 0x22 || tag == 0x23 || tag == 0x24 {
            if data.len() < 5 {
                no_actions()
            } else {
                let target = read_u32_le(data, 1);
                let r = self.find_target(target as u128);
                match r {
                    Some((c, st)) => {
                        let mut forwarded: Vec<u8> = Vec::new();
                        forwarded.push(tag);
                        let rest = slice_to_vec(data, 5, data.len());
                        let mut rest = rest;
                        forwarded.append(&mut rest);
                        assert(forwarded@ =~= relayed_frame(data@));
                        let a = one_action(OrchAction::Send { connection: c, stream: st, data: forwarded });
                        assert(relay_choice(s0.dgs, le_u32(data@, 1) as u128, r));
                        a
                    },
                    None => {
                        assert(relay_choice(s0.dgs, le_u32(data@, 1) as u128, r));
                        no_actions()
                    },
                }
            }
        } else {
            let text = from_utf8_lossy(data);
            one_action(OrchAction::ReadHeartbeat { connection, text })
        };
        self.dgs_network_info_dictionary.insert(connection, entry);
        acts
    }
}


impl GameSocket {
    /// Records a heartbeat that came on `connection`: the server takes the
    /// heartbeat's id if its own was unknown. Returns what to write to
    /// Redis: the server's key, its fields, and a lifetime of 15 seconds.
    pub fn record_heartbeat(&mut self, connection: u64, heartbeat: &Heartbeat) -> (r: RedisRecord)
        ensures
            final(self)@.connection_broker == old(self)@.connection_broker,
            final(self)@.stream_broker == old(self)@.stream_broker,
            final(self)@.dgs == if old(self)@.dgs.contains_key(connection) && old(self)@.dgs[connection].dgs_id
                == UNKNOWN_DGS {
                old(self)@.dgs.insert(
                    connection,
                    DGSNetworkInfo { dgs_id: heartbeat.id, ..old(self)@.dgs[connection] },
                )
            } else {
                old(self)@.dgs
            },
            r.key@ == server_key(uuid_text(heartbeat.id)),
            fields_view(r.fields@) == heartbeat_fields(*heartbeat),
            r.ttl_seconds == HEARTBEAT_TTL,
    {
        match self.dgs_network_info_dictionary.get(&connection) {
            Some(d) => {
                if d.dgs_id == UNKNOWN_DGS {
                    let updated = DGSNetworkInfo { dgs_id: heartbeat.id, ..*d };
                    self.dgs_network_info_dictionary.insert(connection, updated);
                }
            },
            None => {},
        }
        let key = "server:".to_owned().concat(uuid_to_string(heartbeat.id).as_str());
        let status = match heartbeat.status {
            ServerStatus::Available => "available".to_owned(),
            ServerStatus::Full => "full".to_owned(),
        };
        let state = match heartbeat.state {
            ServerState::WarmUp => "warmup".to_owned(),
            ServerState::Idle => "idle".to_owned(),
            ServerState::Running => "running".to_owned(),
            ServerState::Stopping => "stopping".to_owned(),
        };
        let mut fields: Vec<(String, String)> = Vec::new();
        fields.push(("port".to_owned(), u64_to_decimal(heartbeat.port as u64)));
        fields.push(("ip".to_owned(), heartbeat.ip.clone()));
        fields.push(("zone".to_owned(), heartbeat.zone.clone()));
        fields.push(("player_count".to_owned(), u64_to_decimal(heartbeat.player_count as u64)));
        fields.push(("max_players".to_owned(), u64_to_decimal(heartbeat.max_players as u64)));
        fields.push(("status".to_owned(), status));
        fields.push(("state".to_owned(), state));
        assert(fields_view(fields@) =~= heartbeat_fields(*heartbeat));
        RedisRecord { key, fields, ttl_seconds: HEARTBEAT_TTL }
    }

    /// Wakes the idle server whose UUID text is `uuid` in charge of a
    /// shard. Returns the Redis key to set to `warmup`, and the order,
    /// routed through the broker to the server.
    pub fn wake_up(&self, uuid: &str, shard_id: u32, min_x: u32, min_y: u32, max_x: u32, max_y: u32) -> (r: (
        String,
        Vec<OrchAction>,
    ))
        ensures
            r.0@ == server_key(uuid@),
            orch_actions_view(r.1@) == to_broker(
                self@,
                route_frame(dgs_name(uuid@), wakeup_payload(shard_id, min_x, min_y, max_x, max_y)),
            ),
    {
        let key = "server:".to_owned().concat(uuid);
        proof {
            reveal_strlit("dgs_");
        }
        let target = "dgs_".to_owned().concat(uuid);
        assert(target@ =~= dgs_name(uuid@));
        let mut payload: Vec<u8> = Vec::new();
        payload.push(PAYLOAD_WAKEUP_COMMAND);
        push_u32_le(&mut payload, shard_id);
        push_u32_le(&mut payload, min_x);
        push_u32_le(&mut payload, min_y);
        push_u32_le(&mut payload, max_x);
        push_u32_le(&mut payload, max_y);
        assert(payload@ =~= wakeup_payload(shard_id, min_x, min_y, max_x, max_y));
        let frame = build_route(target.as_str(), payload.as_slice());
        let acts = match (self.connection_broker, self.stream_broker) {
            (Some(c), Some(st)) => one_action(OrchAction::Send { connection: c, stream: st, data: frame }),
            _ => no_actions(),
        };
        (key, acts)
    }
}

/// The UUID text of a server's Redis key: the key without `server:`.
pub fn server_id_of_key(key: &str) -> (r: String)
    ensures
        r@ == without_matches(key@, "server:"@),
{
    remove_matches(key, "server:")
}

/// The UUID text of the first server, in the order of `keys`, whose state
/// is `idle`; `states[i]` is the state of `keys[i]`, empty where Redis had
/// none.
pub fn get_idle_server_id(keys: &Vec<String>, states: &Vec<String>) -> (r: Option<String>)
    requires
        keys@.len() == states@.len(),
    ensures
        r is None <==> forall|i: int| 0 <= i < states@.len() ==> states@[i]@ != "idle"@,
        r matches Some(id) ==> exists|i: int| #[trigger] first_idle(states@, i) && id@ == without_matches(
            keys@[i]@,
            "server:"@,
        ),
{
    let mut i: usize = 0;
    while i < keys.len()
        invariant
            keys@.len() == states@.len(),
            i <= keys@.len(),
            forall|j: int| 0 <= j < i ==> states@[j]@ != "idle"@,
        decreases keys@.len() - i,
    {
        if crate::text::str_eq(states[i].as_str(), "idle") {
            let id = server_id_of_key(keys[i].as_str());
            assert(first_idle(states@, i as int));
            return Some(id);
        }
        i = i + 1;
    }
    None
}

/// The number of servers whose state is `idle`.
pub fn count_idle_servers(states: &Vec<String>) -> (n: usize)
    ensures
        n == idle_count(states@),
{
    let mut n: usize = 0;
    let mut i: usize = 0;
    while i < states.len()
        invariant
            i <= states@.len(),
            n == idle_count(states@.subrange(0, i as int)),
            n <= i,
        decreases states@.len() - i,
    {
        assert(states@.subrange(0, i + 1).drop_last() =~= states@.subrange(0, i as int));
        if crate::text::str_eq(states[i].as_str(), "idle") {
            n = n + 1;
        }
        i = i + 1;
    }
    assert(states@.subrange(0, states@.len() as int) =~= states@);
    n
}

/// The number of servers to start so that `HOT_SERVERS_MIN` are idle.
pub fn servers_to_start(idle: usize) -> (n: usize)
    ensures
        n == spec_servers_to_start(idle as int),
{
    if idle < HOT_SERVERS_MIN {
        HOT_SERVERS_MIN - idle
    } else {
        0
    }
}


/// The name of the container of server `id`.
pub open spec fn container_name(id: u32) -> Seq<char> {
    "dgs-"@ + decimal(id as nat)
}

/// The arguments of `docker` that start the container of server `id`,
/// told where the orchestrator and the broker listen and what its id is.
pub open spec fn run_args(id: u32) -> Seq<Seq<char>> {
    seq![
        "run"@,
        "--name"@,
        container_name(id),
        "-e"@,
        "ORCHESTRATOR_IP=host.docker.internal"@,
        "-e"@,
        "ORCHESTRATOR_PORT="@ + decimal(ORCH_PORT as nat),
        "-e"@,
        "BROKER_IP=host.docker.internal"@,
        "-e"@,
        "BROKER_PORT="@ + decimal(BROK_PORT as nat),
        "-e"@,
        "SERVER_ID="@ + decimal(id as nat),
        "--add-host=host.docker.internal:host-gateway"@,
        "dgs-image"@,
    ]
}

pub open spec fn strings_view(v: Seq<String>) -> Seq<Seq<char>> {
    v.map_values(|s: String| s@)
}

/// The ids given to the game servers started so far: the next one to give,
/// counting from 0 and wrapping after `u32::MAX`.
pub struct ServerLauncher {
    pub next_id: u32,
}

impl ServerLauncher {
    /// No server started yet.
    pub fn new() -> (r: ServerLauncher)
        ensures
            r.next_id == 0,
    {
        ServerLauncher { next_id: 0 }
    }

    /// Takes the next server id.
    pub fn next_server(&mut self) -> (id: u32)
        ensures
            id == old(self).next_id,
            final(self).next_id == if old(self).next_id == u32::MAX {
                0
            } else {
                (old(self).next_id + 1) as u32
            },
    {
        let id = self.next_id;
        self.next_id = if id == u32::MAX {
            0
        } else {
            id + 1
        };
        id
    }
}

/// The name of the container of server `id`: `dgs-` and the id.
pub fn container_name_of(id: u32) -> (r: String)
    ensures
        r@ == container_name(id),
{
    "dgs-".to_owned().concat(u64_to_decimal(id as u64).as_str())
}

/// The arguments of `docker` that start the container of server `id`.
pub fn docker_run_args(id: u32) -> (r: Vec<String>)
    ensures
        strings_view(r@) == run_args(id),
{
    let mut v: Vec<String> = Vec::new();
    v.push("run".to_owned());
    v.push("--name".to_owned());
    v.push(container_name_of(id));
    v.push("-e".to_owned());
    v.push("ORCHESTRATOR_IP=host.docker.internal".to_owned());
    v.push("-e".to_owned());
    v.push("ORCHESTRATOR_PORT=".to_owned().concat(u64_to_decimal(ORCH_PORT as u64).as_str()));
    v.push("-e".to_owned());
    v.push("BROKER_IP=host.docker.internal".to_owned());
    v.push("-e".to_owned());
    v.push("BROKER_PORT=".to_owned().concat(u64_to_decimal(BROK_PORT as u64).as_str()));
    v.push("-e".to_owned());
    v.push("SERVER_ID=".to_owned().concat(u64_to_decimal(id as u64).as_str()));
    v.push("--add-host=host.docker.internal:host-gateway".to_owned());
    v.push("dgs-image".to_owned());
    assert(strings_view(v@) =~= run_args(id));
    v
}

/// The names of the containers of servers `0` to `count - 1`, which
/// stopping all servers removes.
pub fn container_names(count: u32) -> (r: Vec<String>)
    ensures
        r@.len() == count,
        forall|i: int| 0 <= i < count ==> #[trigger] r@[i]@ == container_name(i as u32),
{
    let mut v: Vec<String> = Vec::new();
    let mut i: u32 = 0;
    while i < count
        invariant
            i <= count,
            v@.len() == i,
            forall|j: int| 0 <= j < i ==> #[trigger] v@[j]@ == container_name(j as u32),
        decreases count - i,
    {
        v.push(container_name_of(i));
        i = i + 1;
    }
    v
}


/// The text holds no match of the pattern.
pub open spec fn free_of(s: Seq<char>, pat: Seq<char>) -> bool {
    forall|i: int| 0 <= i && i + pat.len() <= s.len() ==> #[trigger] s.subrange(i, i + pat.len()) != pat
}

proof fn lemma_without_matches_free(s: Seq<char>, pat: Seq<char>)
    requires
        pat.len() > 0,
        free_of(s, pat),
    ensures
        without_matches(s, pat) == s,
    decreases s.len(),
{
    if s.len() >= pat.len() {
        assert(s.subrange(0, 0 + pat.len() as int) != pat);
        let t = s.drop_first();
        assert forall|i: int| 0 <= i && i + pat.len() <= t.len() implies #[trigger] t.subrange(i, i + pat.len()) != pat by {
            assert(t.subrange(i, i + pat.len()) =~= s.subrange(i + 1, i + 1 + pat.len()));
        }
        lemma_without_matches_free(t, pat);
        assert(seq![s[0]] + t =~= s);
    }
}

/// The UUID text read back from a server's Redis key, as
/// `get_idle_server_id` reads it, is the text the key was made of, when
/// that text holds no `server:`.
pub proof fn lemma_server_key_roundtrip(id: Seq<char>)
    requires
        free_of(id, "server:"@),
    ensures
        without_matches(server_key(id), "server:"@) == id,
{
    reveal_strlit("server:");
    let k = server_key(id);
    assert(k.subrange(0, 7) =~= "server:"@);
    assert(k.subrange(7, k.len() as int) =~= id);
    lemma_without_matches_free(id, "server:"@);
}

/// The UUID text that `get_idle_server_id` reads from the Redis key that
/// `record_heartbeat` writes for a server is the text of the server's UUID.
pub proof fn lemma_heartbeat_key_roundtrip(id: u128)
    ensures
        without_matches(server_key(uuid_text(id)), "server:"@) == uuid_text(id),
{
    reveal_strlit("server:");
    let t = uuid_text(id);
    assert forall|i: int| 0 <= i && i + "server:"@.len() <= t.len() implies #[trigger] t.subrange(
        i,
        i + "server:"@.len(),
    ) != "server:"@ by {
        crate::uuids::lemma_uuid_text_has_no_s(id, i);
        assert(t.subrange(i, i + 7)[0] == t[i]);
    }
    lemma_server_key_roundtrip(t);
}

/// The wake-up order the orchestrator routes for a shard reaches, through
/// the broker, the game server that announced itself as `dgs_` and its
/// UUID text, and carries there the shard's id, its topic and its zone.
pub proof fn lemma_wakeup_reaches_server(
    v: BrokerView,
    connection: u64,
    stream: u64,
    uuid: Seq<char>,
    sender_connection: u64,
    sender_stream: u64,
    shard_id: u32,
    min_x: u32,
    min_y: u32,
    max_x: u32,
    max_y: u32,
)
    ensures
        ({
            let payload = wakeup_payload(shard_id, min_x, min_y, max_x, max_y);
            let v1 = spec_handle(v, connection, stream, admin_connect_frame(dgs_name(uuid))).0;
            &&& spec_handle(v1, sender_connection, sender_stream, route_frame(dgs_name(uuid), payload)).1
                == HandledView::Sent(seq![(connection, stream, routed_frame(payload))])
            &&& payload[0] == PAYLOAD_WAKEUP_COMMAND
            &&& payload.drop_first().len() == 20
            &&& shard_name(payload.drop_first()) == shard_topic(shard_id)
            &&& zone_frame_of(payload.drop_first()) == zone_frame(shard_id, min_x, min_y, max_x, max_y)
        }),
{
    let payload = wakeup_payload(shard_id, min_x, min_y, max_x, max_y);
    lemma_announce_then_route(v, connection, stream, dgs_name(uuid), sender_connection, sender_stream, payload);
    let body = payload.drop_first();
    assert(body =~= u32_le(shard_id) + u32_le(min_x) + u32_le(min_y) + u32_le(max_x) + u32_le(max_y));
    crate::wire::lemma_u32_le_roundtrip(shard_id);
    crate::wire::lemma_u32_le_roundtrip(min_x);
    crate::wire::lemma_u32_le_roundtrip(min_y);
    crate::wire::lemma_u32_le_roundtrip(max_x);
    crate::wire::lemma_u32_le_roundtrip(max_y);
    crate::wire::lemma_le_u32_shift(body, u32_le(shard_id), 0, 0);
    crate::wire::lemma_le_u32_shift(body, u32_le(min_x), 4, 0);
    crate::wire::lemma_le_u32_shift(body, u32_le(min_y), 8, 0);
    crate::wire::lemma_le_u32_shift(body, u32_le(max_x), 12, 0);
    crate::wire::lemma_le_u32_shift(body, u32_le(max_y), 16, 0);
}

} // verus!
