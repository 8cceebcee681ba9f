//! The configuration and status of a game server.
use vstd::prelude::*;
use crate::protocol::{ServerStatus, ServerState, ORCH_IP, ORCH_PORT, BROK_IP, BROK_PORT};
use crate::text::{parse_unsigned, spec_parse_unsigned};
use crate::uuids::new_uuid_v4;

verus! {

/// What a game server knows of itself. `id` is its UUID's value; the zone
/// bounds are `f32` bit patterns.
pub struct ServerConfig {
    pub ip: String,
    pub id: u128,
    pub port: u16,
    pub zone: String,
    pub max_players: usize,
    pub status: ServerStatus,
    pub state: ServerState,
    pub orchestrator_ip: String,
    pub orchestrator_port: u16,
    pub broker_ip: String,
    pub broker_port: u16,
    pub min_x: u32,
    pub min_y: u32,
    pub max_x: u32,
    pub max_y: u32,
}

/// The status of a server with `player_count` players: full from
/// `max_players` on.
pub open spec fn status_for(player_count: int, max_players: int) -> ServerStatus {
    if player_count >= max_players {
        ServerStatus::Full
    } else {
        ServerStatus::Available
    }
}

/// The setting parses as an unsigned number not above `max`, or is absent.
pub open spec fn setting_ok(setting: Option<&str>, max: nat) -> bool {
    match setting {
        Some(s) => spec_parse_unsigned(s@) matches Some(n) && n <= max,
        None => true,
    }
}

/// The number a setting gives, or the default when it is absent.
pub open spec fn setting_value(setting: Option<&str>, default: nat) -> nat {
    match setting {
        Some(s) => spec_parse_unsigned(s@).unwrap(),
        None => default,
    }
}

/// The text a setting gives, or the default when it is absent.
pub open spec fn text_setting(setting: Option<String>, default: Seq<char>) -> Seq<char> {
    match setting {
        Some(s) => s@,
        None => default,
    }
}

fn number_setting(setting: Option<&str>, default: u64, max: u64) -> (r: u64)
    requires
        setting_ok(setting, max as nat),
        default <= max,
    ensures
        r == setting_value(setting, default as nat),
{
    match setting {
        Some(s) => match parse_unsigned(s, max) {
            Some(v) => v,
            None => 0,
        },
        None => default,
    }
}

fn text_or(setting: Option<String>, default: &str) -> (r: String)
    ensures
        r@ == text_setting(setting, default@),
{
    match setting {
        Some(s) => s,
        None => default.to_owned(),
    }
}

impl ServerConfig {
    /// The configuration from the process's settings (`DS_PORT`, `DS_ZONE`,
    /// `MAX_PLAYERS`, `ORCHESTRATOR_IP`, `ORCHESTRATOR_PORT`, `BROKER_IP`,
    /// `BROKER_PORT`, each absent or its text) and the server's own address.
    /// Absent settings take their defaults: port 0, zone `zone_A`, 100
    /// players, the orchestrator and broker at their usual address and port.
    /// The server gets a fresh random id, starts `Available` in `WarmUp`, its
    /// zone bounds all zero.
    pub fn from_env_values(
        ds_port: Option<&str>,
        ds_zone: Option<String>,
        max_players: Option<&str>,
        orchestrator_ip: Option<String>,
        orchestrator_port: Option<&str>,
        broker_ip: Option<String>,
        broker_port: Option<&str>,
        ip: String,
    ) -> (r: ServerConfig)
        requires
            setting_ok(ds_port, u16::MAX as nat),
            setting_ok(max_players, usize::MAX as nat),
            setting_ok(orchestrator_port, u16::MAX as nat),
            setting_ok(broker_port, u16::MAX as nat),
        ensures
            r.port == setting_value(ds_port, 0),
            r.zone@ == text_setting(ds_zone, "zone_A"@),
            r.max_players == setting_value(max_players, 100),
            r.orchestrator_ip@ == text_setting(orchestrator_ip, ORCH_IP@),
            r.orchestrator_port == setting_value(orchestrator_port, ORCH_PORT as nat),
            r.broker_ip@ == text_setting(broker_ip, BROK_IP@),
            r.broker_port == setting_value(broker_port, BROK_PORT as nat),
            r.ip@ == ip@,
            (r.id >> 76u128) & 0xf == 4,
            r.status == ServerStatus::Available,
            r.state == ServerState::WarmUp,
            r.min_x == 0 && r.min_y == 0 && r.max_x == 0 && r.max_y == 0,
    {
        let port = number_setting(ds_port, 0, 65535) as u16;
        let zone = text_or(ds_zone, "zone_A");
        let max_players = number_setting(max_players, 100, usize::MAX as u64) as usize;
        let id = new_uuid_v4();
        let orchestrator_ip = text_or(orchestrator_ip, ORCH_IP);
        let orchestrator_port = number_setting(orchestrator_port, ORCH_PORT as u64, 65535) as u16;
        let broker_ip = text_or(broker_ip, BROK_IP);
        let broker_port = number_setting(broker_port, BROK_PORT as u64, 65535) as u16;
        ServerConfig {
            id,
            ip,
            port,
            zone,
            max_players,
            status: ServerStatus::Available,
            state: ServerState::WarmUp,
            orchestrator_ip,
            orchestrator_port,
            broker_ip,
            broker_port,
            min_x: 0,
            min_y: 0,
            max_x: 0,
            max_y: 0,
        }
    }

    /// Sets the status from the number of players: full from the limit on.
    pub fn verify_status(&mut self, player_count: usize)
        ensures
            final(self).status == status_for(player_count as int, old(self).max_players as int),
            *final(self) == (ServerConfig { status: final(self).status, ..*old(self) }),
    {
        self.status = if player_count >= self.max_players {
            ServerStatus::Full
        } else {
            ServerStatus::Available
        };
    }
}

} // verus!
