use shardgrid::broker::{Broker, Handled, Outgoing};
use shardgrid::entities::{EntityAuthority, PlayerEntity, PlayerRegistry};
use shardgrid::game_server::{GameServer, GameSocket as ServerSocket, ServerAction};
use shardgrid::geometry::{Rect, Vec2};
use shardgrid::orchestrator::{get_idle_server_id, GameSocket as OrchSocket, OrchAction};
use shardgrid::protocol::{ClientInit, Heartbeat, ServerState, ServerStatus};
use shardgrid::server_config::ServerConfig;
use shardgrid::spatial::{SpatialAction, SpatialService};

fn center(r: Rect) -> Vec2 {
    let cx = (f32::from_bits(r.min.x) + f32::from_bits(r.max.x)) * 0.5;
    let cy = (f32::from_bits(r.min.y) + f32::from_bits(r.max.y)) * 0.5;
    Vec2::new(cx.to_bits(), cy.to_bits())
}

fn touches(p: Vec2, r: Rect) -> bool {
    let (px, py) = (f32::from_bits(p.x), f32::from_bits(p.y));
    let cx = px.clamp(f32::from_bits(r.min.x), f32::from_bits(r.max.x));
    let cy = py.clamp(f32::from_bits(r.min.y), f32::from_bits(r.max.y));
    !((cx - px) * (cx - px) + (cy - py) * (cy - py) > 25.0)
}

fn sent(h: Handled) -> Vec<Outgoing> {
    match h {
        Handled::Sent(v) => v,
        other => panic!("expected frames, got {:?}", other),
    }
}

fn game_server() -> GameServer {
    GameServer {
        socket: ServerSocket { connection_orch: Some(1), stream_orch: Some(1), connection_broker: Some(2), stream_broker: Some(2) },
        registry: PlayerRegistry::new(),
        config: ServerConfig::from_env_values(None, None, None, None, None, None, None, "ip".to_string()),
    }
}

#[test]
fn a_heartbeat_key_gives_back_the_server_uuid() {
    let mut o = OrchSocket::new();
    let id = 0x0123_4567_89ab_cdef_0123_4567_89ab_cdefu128;
    let h = Heartbeat {
        id,
        ip: "i".to_string(),
        port: 1,
        zone: "z".to_string(),
        player_count: 0,
        max_players: 1,
        status: ServerStatus::Available,
        state: ServerState::Idle,
    };
    let rec = o.record_heartbeat(5, &h);
    let found = get_idle_server_id(&vec![rec.key.clone()], &vec!["idle".to_string()]);
    assert_eq!(found, Some("01234567-89ab-cdef-0123-456789abcdef".to_string()));
}

#[test]
fn a_wake_up_reaches_the_idle_server_and_puts_it_in_charge() {
    // The game server announces itself to the broker on its broker stream.
    let mut server = game_server();
    server.socket.connection_broker = Some(30);
    server.socket.stream_broker = None;
    let announce = match &server.on_stream_created(30, 31)[..] {
        [ServerAction::Send { data, .. }] => data.clone(),
        other => panic!("unexpected {:?}", other),
    };
    let mut broker = Broker::new();
    sent(broker.handle_message(30, 31, &announce));
    // The orchestrator wakes it up through the broker.
    let mut orch = OrchSocket::new();
    orch.on_connected(40);
    orch.on_stream_created(40, 41);
    let uuid = uuid::Uuid::from_u128(server.config.id).to_string();
    let (_, acts) = orch.wake_up(&uuid, 12, 0, 0, 100.0f32.to_bits(), 100.0f32.to_bits());
    let order = match &acts[..] {
        [OrchAction::Send { connection: 40, stream: 41, data }] => data.clone(),
        other => panic!("unexpected {:?}", other),
    };
    let delivered = sent(broker.handle_message(40, 41, &order));
    assert_eq!(delivered.len(), 1);
    assert_eq!((delivered[0].connection, delivered[0].stream), (30, 31));
    let (acts, stop) = server.on_message(30, &delivered[0].data);
    assert!(!stop);
    assert_eq!(server.config.zone, "12");
    assert_eq!(server.config.state, ServerState::Running);
    assert_eq!(server.config.max_x, 100.0f32.to_bits());
    assert_eq!(acts.len(), 3);
}

#[test]
fn a_crossing_alert_reaches_the_shard_of_the_player() {
    // Shard 1's server announces its topic.
    let mut server = game_server();
    server.socket.connection_broker = Some(30);
    server.socket.stream_broker = Some(31);
    server.registry.register_player(PlayerEntity {
        id: 9,
        authority: EntityAuthority::Owned,
        position: Vec2::new(0, 0),
        rotation: 0,
        velocity: Vec2::new(0, 0),
        involved_shards: Vec::new(),
    });
    let mut broker = Broker::new();
    sent(broker.handle_message(30, 31, &shardgrid::protocol::build_admin_connect("shard:1")));
    // The spatial service sees player 9 near shards 1 and 2.
    let mut spatial = SpatialService::init_spatial_service(&center);
    spatial.on_connected(50);
    let mut report = vec![0x10];
    report.extend_from_slice(&9u32.to_le_bytes());
    report.extend_from_slice(&(-470.0f32).to_bits().to_le_bytes());
    report.extend_from_slice(&499.0f32.to_bits().to_le_bytes());
    spatial.receive_position_update(&report);
    spatial.check_shard_transitions(&touches);
    let frames: Vec<Vec<u8>> = spatial
        .flush_network_messages()
        .into_iter()
        .map(|a| match a {
            SpatialAction::Send { data, .. } => data,
            other => panic!("unexpected {:?}", other),
        })
        .collect();
    // A subscription to shard 1, then the alert routed to "shard:1".
    assert_eq!(frames.len(), 2);
    sent(broker.handle_message(50, 0, &frames[0]));
    let delivered = sent(broker.handle_message(50, 0, &frames[1]));
    assert_eq!(delivered.len(), 1);
    server.on_message(30, &delivered[0].data);
    let p = server.registry.get(9).unwrap();
    assert_eq!(p.authority, EntityAuthority::PendingHandoff);
    assert_eq!(p.involved_shards, vec![1, 2]);
}

#[test]
fn a_subscription_from_the_spatial_service_brings_the_shard_broadcasts() {
    let mut broker = Broker::new();
    // Client 0 enters the world.
    broker.register_client(60, 6, ClientInit { client_id: 0, pos_x: 0, pos_y: 0 });
    let mut spatial = SpatialService::init_spatial_service(&center);
    spatial.on_connected(50);
    let mut report = vec![0x10];
    report.extend_from_slice(&0u32.to_le_bytes());
    report.extend_from_slice(&(-499.0f32).to_bits().to_le_bytes());
    report.extend_from_slice(&499.0f32.to_bits().to_le_bytes());
    spatial.receive_position_update(&report);
    spatial.check_shard_transitions(&touches);
    for a in spatial.flush_network_messages() {
        if let SpatialAction::Send { data, .. } = a {
            sent(broker.handle_message(50, 0, &data));
        }
    }
    // Shard 1 publishes; client 0 receives it.
    let mut publish = vec![0x03];
    let mut field = [0u8; 32];
    field[..7].copy_from_slice(b"shard:1");
    publish.extend_from_slice(&field);
    publish.extend_from_slice(&1u16.to_le_bytes());
    publish.push(77);
    let out = sent(broker.handle_message(30, 3, &publish));
    assert_eq!(out, vec![Outgoing { connection: 60, stream: 3, data: vec![0x04, 1, 0, 77] }]);
}

#[test]
fn new_shards_never_take_an_existing_id() {
    let mut s = SpatialService::init_spatial_service(&center);
    raise(&mut s.quad_tree);
    for i in 0..2000u32 {
        let mut report = vec![0x10];
        report.extend_from_slice(&i.to_le_bytes());
        let x = if i < 1000 { -499.0f32 } else { 499.0f32 };
        report.extend_from_slice(&x.to_bits().to_le_bytes());
        report.extend_from_slice(&499.0f32.to_bits().to_le_bytes());
        s.receive_position_update(&report);
    }
    s.check_shard_transitions(&touches);
    s.monitor_shard_capacity(&center);
    assert_eq!(s.boots.len(), 8);
    let mut ids: Vec<u32> = s.quad_tree.get_leaves().iter().map(|l| l.0).collect();
    assert_eq!(ids.len(), 1024 - 2 + 8);
    ids.sort();
    ids.dedup();
    assert_eq!(ids.len(), 1024 - 2 + 8);
    assert!(ids.iter().all(|id| *id >= 1 && *id <= 1032));
}

fn raise(t: &mut shardgrid::quadtree::QuadTree) {
    t.max_depth = 6;
    if let Some(q) = t.children.as_mut() {
        raise(&mut q.top_left);
        raise(&mut q.top_right);
        raise(&mut q.bottom_left);
        raise(&mut q.bottom_right);
    }
}

#[test]
fn the_zone_a_server_takes_registers_its_shard_with_the_broker() {
    let mut server = game_server();
    let mut order = vec![0x55];
    order.extend_from_slice(&9u32.to_le_bytes());
    for v in [0.0f32, 10.0, 50.0, 60.0] {
        order.extend_from_slice(&v.to_bits().to_le_bytes());
    }
    let (acts, _) = server.on_message(1, &order);
    let frame = match &acts[..] {
        [ServerAction::Send { connection: 2, stream: 2, data }] => data.clone(),
        other => panic!("unexpected {:?}", other),
    };
    let mut broker = Broker::new();
    sent(broker.handle_message(2, 2, &frame));
    let entry = broker.shard_map.shard_connections[&9];
    assert_eq!((entry.min_x, entry.min_y, entry.max_x, entry.max_y), (0.0f32.to_bits(), 10.0f32.to_bits(), 50.0f32.to_bits(), 60.0f32.to_bits()));
    assert_eq!((entry.connection_dgs, entry.stream_dgs), (Some(2), Some(2)));
    // A client entering inside the zone is sent to that server.
    let (_, relay) = broker.register_client(70, 7, ClientInit { client_id: 0, pos_x: 20.0f32.to_bits(), pos_y: 20.0f32.to_bits() });
    assert_eq!(relay.map(|(l, _)| (l.connection, l.stream)), Some((2, 2)));
}
