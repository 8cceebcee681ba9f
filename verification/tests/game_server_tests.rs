use shardgrid::entities::{EntityAuthority, PlayerEntity, PlayerRegistry};
use shardgrid::game_server::{GameServer, GameSocket, ServerAction, Selection};
use shardgrid::geometry::Vec2;
use shardgrid::protocol::{ClientInit, ClientInput, ServerState, ServerStatus};
use shardgrid::server_config::ServerConfig;

fn b(x: f32) -> u32 {
    x.to_bits()
}

fn config() -> ServerConfig {
    ServerConfig::from_env_values(None, None, Some("2"), None, None, None, None, "10.0.0.5".to_string())
}

fn server() -> GameServer {
    GameServer {
        socket: GameSocket { connection_orch: Some(1), stream_orch: Some(11), connection_broker: Some(2), stream_broker: Some(22) },
        registry: PlayerRegistry::new(),
        config: config(),
    }
}

fn player(id: u32, authority: EntityAuthority, x: f32, y: f32) -> PlayerEntity {
    PlayerEntity {
        id,
        authority,
        position: Vec2::new(b(x), b(y)),
        rotation: 0,
        velocity: Vec2::new(b(1.0), b(0.0)),
        involved_shards: Vec::new(),
    }
}

fn shift(c: u32, up: bool) -> u32 {
    let v = f32::from_bits(c);
    (if up { v + 5.0 } else { v - 5.0 }).to_bits()
}

#[test]
fn config_defaults() {
    let c = ServerConfig::from_env_values(None, None, None, None, None, None, None, "ip".to_string());
    assert_eq!(c.port, 0);
    assert_eq!(c.zone, "zone_A");
    assert_eq!(c.max_players, 100);
    assert_eq!(c.orchestrator_ip, "127.0.0.1");
    assert_eq!(c.orchestrator_port, 22555);
    assert_eq!(c.broker_port, 8080);
    assert_eq!(c.status, ServerStatus::Available);
    assert_eq!(c.state, ServerState::WarmUp);
    // A fresh version-4 UUID.
    assert_eq!((c.id >> 76) & 0xf, 4);
    assert_ne!(c.id, config().id);
    let c = ServerConfig::from_env_values(Some("7000"), Some("zone_B".to_string()), Some("5"), None, Some("1"), Some("b".to_string()), Some("2"), "ip".to_string());
    assert_eq!((c.port, c.zone.as_str(), c.max_players, c.orchestrator_port, c.broker_ip.as_str(), c.broker_port), (7000, "zone_B", 5, 1, "b", 2));
}

#[test]
fn verify_status_is_full_from_the_limit() {
    let mut c = config();
    c.verify_status(1);
    assert_eq!(c.status, ServerStatus::Available);
    c.verify_status(2);
    assert_eq!(c.status, ServerStatus::Full);
}

#[test]
fn the_first_connection_is_the_orchestrator_the_second_the_broker() {
    let mut s = server();
    s.socket = GameSocket { connection_orch: None, stream_orch: None, connection_broker: None, stream_broker: None };
    assert_eq!(s.on_connected(5), vec![ServerAction::CreateStream { connection: 5, reliable: true }]);
    assert_eq!(s.on_connected(6), vec![ServerAction::CreateStream { connection: 6, reliable: false }]);
    assert!(s.on_connected(7).is_empty());
    assert_eq!(s.socket.connection_orch, Some(5));
    assert_eq!(s.socket.connection_broker, Some(6));
    assert!(s.on_stream_created(5, 50).is_empty());
    assert_eq!(s.socket.stream_orch, Some(50));
    let acts = s.on_stream_created(6, 60);
    assert_eq!(s.socket.stream_broker, Some(60));
    assert_eq!(s.config.state, ServerState::Idle);
    match &acts[..] {
        [ServerAction::Send { connection: 6, stream: 60, data }] => {
            assert_eq!(data[0], 0x0A);
            let name = String::from_utf8_lossy(&data[1..33]).trim_matches('\0').to_string();
            // The name field holds 32 bytes: the UUID is cut.
            let full = format!("dgs_{}", uuid::Uuid::from_u128(s.config.id));
            assert_eq!(name, full[..32].to_string());
        }
        other => panic!("unexpected {:?}", other),
    }
}

#[test]
fn the_zone_order_puts_the_server_in_charge() {
    let mut s = server();
    let mut data = vec![0x55];
    data.extend_from_slice(&9u32.to_le_bytes());
    for v in [0.0f32, 0.0, 50.0, 50.0] {
        data.extend_from_slice(&v.to_bits().to_le_bytes());
    }
    let (acts, stop) = s.on_message(1, &data);
    assert!(stop);
    assert_eq!(s.config.zone, "9");
    assert_eq!(s.config.state, ServerState::Running);
    assert_eq!(s.config.max_x, b(50.0));
    let mut zone = vec![0x00];
    zone.extend_from_slice(&data[1..]);
    assert_eq!(acts, vec![ServerAction::Send { connection: 2, stream: 22, data: zone }]);
    // A zone order of the wrong size changes nothing.
    let (acts, stop) = s.on_message(1, &[0x55, 1, 2, 3]);
    assert!(stop && acts.is_empty());
}

#[test]
fn a_handoff_request_is_accepted_while_there_is_room() {
    let mut s = server();
    let mut data = vec![0x20];
    data.extend_from_slice(&4u32.to_le_bytes());
    for v in [10.0f32, 20.0, 1.0, 0.0] {
        data.extend_from_slice(&v.to_bits().to_le_bytes());
    }
    data.extend_from_slice(&[0u8; 64]);
    let (acts, stop) = s.on_message(1, &data);
    assert!(!stop);
    assert_eq!(acts, vec![ServerAction::Send { connection: 1, stream: 11, data: vec![0x21, 4, 0, 0, 0] }]);
    assert_eq!(s.registry.authority_of(4), Some(EntityAuthority::Ghosted));
    assert_eq!(s.registry.get(4).unwrap().position, Vec2::new(b(10.0), b(20.0)));
}

#[test]
fn a_full_server_rejects_a_handoff() {
    let mut s = server();
    s.registry.register_player(player(1, EntityAuthority::Owned, 1.0, 1.0));
    s.registry.register_player(player(2, EntityAuthority::Owned, 1.0, 1.0));
    s.config.verify_status(s.registry.len());
    assert_eq!(s.config.status, ServerStatus::Full);
    let mut data = vec![0x20];
    data.extend_from_slice(&4u32.to_le_bytes());
    data.extend_from_slice(&[0u8; 16 + 64]);
    let (acts, _) = s.on_message(1, &data);
    let mut expected = vec![0x22, 4, 0, 0, 0];
    expected.extend_from_slice(b"Server is full");
    assert_eq!(acts, vec![ServerAction::Send { connection: 1, stream: 11, data: expected }]);
    assert!(!s.registry.contains(4));
}

#[test]
fn accept_completes_reject_restores_and_complete_forgets() {
    let mut s = server();
    s.registry.register_player(player(7, EntityAuthority::PendingHandoff, 1.0, 1.0));
    let (acts, _) = s.on_message(1, &[0x21, 7, 0, 0, 0]);
    assert_eq!(acts, vec![ServerAction::Send { connection: 1, stream: 11, data: vec![0x24, 7, 0, 0, 0] }]);
    let (acts, _) = s.on_message(1, &[0x22, 7, 0, 0, 0, b'n', b'o']);
    assert!(acts.is_empty());
    assert_eq!(s.registry.authority_of(7), Some(EntityAuthority::Owned));
    s.registry.set_authority(7, EntityAuthority::PendingHandoff);
    s.on_message(1, &[0x24, 7, 0, 0, 0]);
    assert!(!s.registry.contains(7));
    // A ghost that completes becomes owned.
    s.registry.register_player(player(8, EntityAuthority::Ghosted, 1.0, 1.0));
    s.on_message(1, &[0x24, 8, 0, 0, 0]);
    assert_eq!(s.registry.authority_of(8), Some(EntityAuthority::Owned));
}

#[test]
fn ghost_updates_move_ghosts_only() {
    let mut s = server();
    s.registry.register_player(player(3, EntityAuthority::Ghosted, 1.0, 1.0));
    s.registry.register_player(player(4, EntityAuthority::Owned, 1.0, 1.0));
    for id in [3u32, 4] {
        let mut data = vec![0x23];
        data.extend_from_slice(&id.to_le_bytes());
        for v in [30.0f32, 40.0, 0.0, 2.0] {
            data.extend_from_slice(&v.to_bits().to_le_bytes());
        }
        s.on_message(1, &data);
    }
    assert_eq!(s.registry.get(3).unwrap().position, Vec2::new(b(30.0), b(40.0)));
    assert_eq!(s.registry.get(3).unwrap().velocity, Vec2::new(b(0.0), b(2.0)));
    assert_eq!(s.registry.get(4).unwrap().position, Vec2::new(b(1.0), b(1.0)));
}

#[test]
fn broker_messages() {
    let mut s = server();
    let (acts, stop) = s.on_message(2, &[0x07, 1, 2]);
    assert!(!stop);
    assert_eq!(acts, vec![ServerAction::DecodeClientInit { bytes: vec![1, 2] }]);
    let (acts, _) = s.on_message(2, &[0x05, 9]);
    assert_eq!(acts, vec![ServerAction::DecodeClientInput { bytes: vec![9] }]);
    // A player handed over through the broker arrives pending.
    let mut data = vec![0x0C, 0x07];
    data.extend_from_slice(&5u32.to_le_bytes());
    data.extend_from_slice(&b(12.0).to_le_bytes());
    data.extend_from_slice(&b(13.0).to_le_bytes());
    let (acts, stop) = s.on_message(2, &data);
    assert!(acts.is_empty() && !stop);
    assert_eq!(s.registry.authority_of(5), Some(EntityAuthority::PendingHandoff));
    // A routed payload cut short stops the tick.
    let (_, stop) = s.on_message(2, &[0x0C, 0x07, 1]);
    assert!(stop);
    let (_, stop) = s.on_message(2, &[0x0C]);
    assert!(stop);
}

#[test]
fn a_wake_up_announces_the_shard_then_its_zone() {
    let mut s = server();
    let mut data = vec![0x0C, 0x91];
    data.extend_from_slice(&6u32.to_le_bytes());
    for v in [0.0f32, 0.0, 10.0, 10.0] {
        data.extend_from_slice(&v.to_bits().to_le_bytes());
    }
    let (acts, stop) = s.on_message(2, &data);
    assert!(!stop);
    assert_eq!(acts.len(), 3);
    match &acts[0] {
        ServerAction::Send { connection: 2, stream: 22, data } => assert_eq!(&data[..8], &[0x0A, b's', b'h', b'a', b'r', b'd', b':', b'6']),
        other => panic!("unexpected {:?}", other),
    }
    assert_eq!(acts[1], ServerAction::Sleep { millis: 50 });
    assert_eq!(s.config.zone, "6");
    assert_eq!(s.config.state, ServerState::Running);
}

#[test]
fn a_crossing_alert_starts_a_handoff_or_prepares_a_ghost() {
    let mut s = server();
    s.registry.register_player(player(7, EntityAuthority::Owned, 1.0, 1.0));
    let alert = |id: u32| {
        let mut d = vec![0x0C, 0x99];
        d.extend_from_slice(&id.to_le_bytes());
        d.push(2);
        d.extend_from_slice(&1u32.to_le_bytes());
        d.extend_from_slice(&2u32.to_le_bytes());
        d
    };
    s.on_message(2, &alert(7));
    let p = s.registry.get(7).unwrap();
    assert_eq!(p.authority, EntityAuthority::PendingHandoff);
    assert_eq!(p.involved_shards, vec![1, 2]);
    s.on_message(2, &alert(8));
    let g = s.registry.get(8).unwrap();
    assert_eq!(g.authority, EntityAuthority::Ghosted);
    assert_eq!(g.position, Vec2::new(0, 0));
}

#[test]
fn spawn_and_move_a_client() {
    let mut s = server();
    s.spawn_client(ClientInit { client_id: 3, pos_x: b(10.0), pos_y: b(10.0) });
    assert_eq!(s.registry.authority_of(3), Some(EntityAuthority::Owned));
    let mut input = [9u8; 16];
    input[0] = 0;
    s.apply_client_input(&ClientInput { client_id: 3, sequence_id: 0, input }, &shift);
    assert_eq!(s.registry.get(3).unwrap().position, Vec2::new(b(10.0), b(15.0)));
    input[0] = 2;
    s.apply_client_input(&ClientInput { client_id: 3, sequence_id: 1, input }, &shift);
    assert_eq!(s.registry.get(3).unwrap().position, Vec2::new(b(5.0), b(15.0)));
    input[0] = 7;
    s.apply_client_input(&ClientInput { client_id: 3, sequence_id: 2, input }, &shift);
    assert_eq!(s.registry.get(3).unwrap().position, Vec2::new(b(5.0), b(15.0)));
}

#[test]
fn ticks_send_ghost_updates_positions_and_handoffs() {
    let mut s = server();
    s.config.min_x = b(0.0);
    s.config.min_y = b(0.0);
    s.config.max_x = b(50.0);
    s.config.max_y = b(50.0);
    s.registry.register_player(player(1, EntityAuthority::PendingHandoff, 60.0, 10.0));
    s.registry.register_player(player(2, EntityAuthority::Owned, 10.0, 10.0));
    s.registry.register_player(player(3, EntityAuthority::Ghosted, 10.0, 10.0));
    s.registry.register_player(player(4, EntityAuthority::PendingHandoff, 20.0, 20.0));

    let mut ghost = s.send_ghost_update();
    ghost.sort_by_key(|a| match a { ServerAction::Send { data, .. } => data[1], _ => 0 });
    assert_eq!(ghost.len(), 2);
    match &ghost[0] {
        ServerAction::Send { connection: 1, stream: 11, data } => {
            assert_eq!(data[0], 0x23);
            assert_eq!(&data[1..5], &1u32.to_le_bytes());
            assert_eq!(&data[5..9], &b(60.0).to_le_bytes());
        }
        other => panic!("unexpected {:?}", other),
    }

    let published = s.publish();
    assert_eq!(published.len(), 3);
    for a in &published {
        match a {
            ServerAction::Send { connection: 2, stream: 22, data } => {
                assert_eq!(data[0], 0x0B);
                assert_eq!(&data[1..8], b"spatial");
                assert_eq!(&data[33..35], &[13, 0]);
                assert_eq!(data[35], 0x10);
            }
            other => panic!("unexpected {:?}", other),
        }
    }

    let mut selected = s.selected_ids(Selection::Leaving);
    selected.sort();
    assert_eq!(selected, vec![1]);
    let handoffs = s.process_handoffs();
    assert_eq!(handoffs.len(), 1);
    match &handoffs[0] {
        ServerAction::Send { connection: 1, stream: 11, data } => {
            assert_eq!(data.len(), 1 + 84);
            assert_eq!(data[0], 0x20);
            assert_eq!(&data[1..5], &1u32.to_le_bytes());
            assert!(data[21..].iter().all(|x| *x == 0));
        }
        other => panic!("unexpected {:?}", other),
    }
    assert_eq!(s.registry.authority_of(1), Some(EntityAuthority::Ghosted));
    assert_eq!(s.registry.authority_of(4), Some(EntityAuthority::PendingHandoff));
    assert!(s.process_handoffs().is_empty());
}

#[test]
fn heartbeat_reports_the_server() {
    let mut s = server();
    s.registry.register_player(player(1, EntityAuthority::Owned, 1.0, 1.0));
    let h = s.heartbeat();
    assert_eq!(h.id, s.config.id);
    assert_eq!(h.ip, "10.0.0.5");
    assert_eq!(h.player_count, 1);
    assert_eq!(h.max_players, 2);
    assert_eq!(s.send_to_orchestrator(vec![1, 2]), vec![ServerAction::Send { connection: 1, stream: 11, data: vec![1, 2] }]);
    s.socket.stream_orch = None;
    assert!(s.send_to_orchestrator(vec![1]).is_empty());
}

#[test]
fn a_request_then_a_completion_makes_the_player_ours() {
    let mut s = server();
    let mut data = vec![0x20];
    data.extend_from_slice(&12u32.to_le_bytes());
    for v in [5.0f32, 6.0, 7.0, 8.0] {
        data.extend_from_slice(&v.to_bits().to_le_bytes());
    }
    data.extend_from_slice(&[1u8; 64]);
    s.on_message(1, &data);
    s.on_message(1, &[0x24, 12, 0, 0, 0]);
    let p = s.registry.get(12).unwrap();
    assert_eq!(p.authority, EntityAuthority::Owned);
    assert_eq!(p.position, Vec2::new(b(5.0), b(6.0)));
    assert_eq!(p.velocity, Vec2::new(b(7.0), b(8.0)));
}

#[test]
fn a_refused_handoff_keeps_the_player() {
    let mut s = server();
    s.registry.register_player(player(2, EntityAuthority::PendingHandoff, 3.0, 4.0));
    s.on_message(1, &[0x22, 2, 0, 0, 0]);
    let p = s.registry.get(2).unwrap();
    assert_eq!(p.authority, EntityAuthority::Owned);
    assert_eq!(p.position, Vec2::new(b(3.0), b(4.0)));
    // Unknown players and non-pending ones are left alone.
    s.on_message(1, &[0x22, 3, 0, 0, 0]);
    assert!(!s.registry.contains(3));
}
