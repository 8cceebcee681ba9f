use shardgrid::client::{add_input_in_buffer, make_input, random_input, ClientAction, ClientEvent, ClientState};
use shardgrid::gatekeeper::{
    available_servers, find_available_server, health, login, map_continent_to_zone, pick_server, zone_for,
    LoginRequest, ServerInfo, ServerRecord, STATUS_SERVICE_UNAVAILABLE, STATUS_UNAUTHORIZED,
};
use shardgrid::orchestrator::{
    container_name_of, container_names, count_idle_servers, docker_run_args, get_idle_server_id,
    server_id_of_key, servers_to_start, GameSocket, OrchAction, ServerLauncher, UNKNOWN_DGS,
};
use shardgrid::protocol::{Heartbeat, ServerState, ServerStatus, INPUT_DOWN, INPUT_LEFT, INPUT_RIGHT, INPUT_UP};

fn record(status: &str, zone: &str, ip: &str, port: u16) -> ServerRecord {
    ServerRecord { status: Some(status.to_string()), zone: Some(zone.to_string()), ip: ip.to_string(), port }
}

#[test]
fn health_is_ok() {
    assert_eq!(health().status, "ok");
}

#[test]
fn continents_map_to_zones() {
    assert_eq!(map_continent_to_zone("EU"), "EU");
    assert_eq!(map_continent_to_zone("NA"), "NA");
    assert_eq!(map_continent_to_zone("SA"), "NA");
    assert_eq!(map_continent_to_zone("AS"), "ASIA");
    assert_eq!(map_continent_to_zone("OC"), "ASIA");
    assert_eq!(map_continent_to_zone("AF"), "EU");
    assert_eq!(map_continent_to_zone(""), "EU");
    assert_eq!(zone_for(None), "EU");
    assert_eq!(zone_for(Some("OC")), "ASIA");
}

#[test]
fn only_available_servers_of_the_zone_are_offered() {
    let records = vec![
        record("available", "EU", "1.1.1.1", 1),
        record("full", "EU", "2.2.2.2", 2),
        record("available", "NA", "3.3.3.3", 3),
        ServerRecord { status: None, zone: Some("EU".to_string()), ip: "4.4.4.4".to_string(), port: 4 },
        record("available", "EU", "5.5.5.5", 5),
    ];
    let offers = available_servers(&records, "EU");
    let ips: Vec<&str> = offers.iter().map(|s| s.ip.as_str()).collect();
    assert_eq!(ips, vec!["1.1.1.1", "5.5.5.5"]);
    let picked = find_available_server("EU", &records).expect("two candidates");
    assert!(picked.ip == "1.1.1.1" || picked.ip == "5.5.5.5");
    assert_eq!(picked.zone, "EU");
    assert!(find_available_server("ASIA", &records).is_none());
    let list = vec![ServerInfo { ip: "a".into(), port: 1, zone: "EU".into() }, ServerInfo { ip: "b".into(), port: 2, zone: "EU".into() }];
    assert_eq!(pick_server(list, 1).unwrap().ip, "b");
    assert!(pick_server(Vec::new(), 0).is_none());
}

#[test]
fn login_outcomes() {
    let records = vec![record("available", "NA", "9.9.9.9", 7777)];
    let bad = LoginRequest { username: "bob", password: "nope" };
    match login(&bad, Some("NA"), &records) {
        Err((code, e)) => {
            assert_eq!(code, STATUS_UNAUTHORIZED);
            assert_eq!(e.error, "Nom d'utilisateur ou mot de passe incorrect");
        }
        Ok(_) => panic!("bad credentials accepted"),
    }
    let empty = LoginRequest { username: "", password: "1234" };
    assert!(matches!(login(&empty, Some("NA"), &records), Err((401, _))));
    let good = LoginRequest { username: "bob", password: "1234" };
    let ok = login(&good, Some("SA"), &records).expect("a server of zone NA");
    assert_eq!(ok.server.ip, "9.9.9.9");
    assert_eq!(ok.server.port, 7777);
    assert_eq!(ok.player_id.len(), 36);
    assert!(uuid::Uuid::parse_str(&ok.player_id).is_ok());
    match login(&good, None, &records) {
        Err((code, e)) => {
            assert_eq!(code, STATUS_SERVICE_UNAVAILABLE);
            assert_eq!(e.error, "No server available");
        }
        Ok(_) => panic!("no EU server exists"),
    }
}

fn heartbeat(id: u128, state: ServerState) -> Heartbeat {
    Heartbeat {
        id,
        ip: "10.0.0.2".to_string(),
        port: 7000,
        zone: "3".to_string(),
        player_count: 12,
        max_players: 100,
        status: ServerStatus::Available,
        state,
    }
}

#[test]
fn the_orchestrator_announces_itself_to_the_broker() {
    let mut o = GameSocket::new();
    assert_eq!(o.on_connected(1), vec![OrchAction::CreateStream { connection: 1, reliable: false }]);
    assert!(o.on_connected(2).is_empty());
    assert!(o.on_stream_created(2, 9).is_empty());
    let acts = o.on_stream_created(1, 5);
    assert_eq!(o.stream_broker, Some(5));
    match &acts[..] {
        [OrchAction::Send { connection: 1, stream: 5, data }] => {
            assert_eq!(data.len(), 33);
            assert_eq!(&data[1..13], b"orchestrator");
        }
        other => panic!("unexpected {:?}", other),
    }
}

#[test]
fn game_server_messages_are_relayed_or_read_as_heartbeats() {
    let mut o = GameSocket::new();
    o.on_connected(1);
    o.on_stream_created(1, 5);
    // A heartbeat from server connection 20.
    let text = b"{\"id\":\"x\"}";
    let acts = o.on_message(20, 3, text);
    assert_eq!(acts, vec![OrchAction::ReadHeartbeat { connection: 20, text: "{\"id\":\"x\"}".to_string() }]);
    assert_eq!(o.dgs_network_info_dictionary[&20].dgs_id, UNKNOWN_DGS);
    let rec = o.record_heartbeat(20, &heartbeat(7, ServerState::Idle));
    assert_eq!(o.dgs_network_info_dictionary[&20].dgs_id, 7);
    assert_eq!(rec.key, format!("server:{}", uuid::Uuid::from_u128(7)));
    assert_eq!(rec.ttl_seconds, 15);
    let fields: Vec<(&str, &str)> = rec.fields.iter().map(|(a, b)| (a.as_str(), b.as_str())).collect();
    assert_eq!(
        fields,
        vec![("port", "7000"), ("ip", "10.0.0.2"), ("zone", "3"), ("player_count", "12"), ("max_players", "100"), ("status", "available"), ("state", "idle")]
    );
    // A later heartbeat keeps the first id.
    o.record_heartbeat(20, &heartbeat(8, ServerState::Running));
    assert_eq!(o.dgs_network_info_dictionary[&20].dgs_id, 7);
    // A handoff message addressed to server 7 is relayed without the id.
    let acts = o.on_message(21, 4, &[0x21, 7, 0, 0, 0, 0xAA, 0xBB]);
    assert_eq!(acts, vec![OrchAction::Send { connection: 20, stream: 3, data: vec![0x21, 0xAA, 0xBB] }]);
    // To an unknown server, or too short: nothing.
    assert!(o.on_message(21, 4, &[0x21, 9, 0, 0, 0, 1]).is_empty());
    assert!(o.on_message(21, 4, &[0x21, 7, 0]).is_empty());
    assert_eq!(o.dgs_network_info_dictionary.len(), 2);
}

#[test]
fn before_the_broker_nothing_is_read_and_boot_requests_come_from_it() {
    let mut o = GameSocket::new();
    assert!(o.on_message(20, 3, b"{}").is_empty());
    assert!(o.dgs_network_info_dictionary.is_empty());
    o.on_connected(1);
    let mut boot = vec![0x0C, 0x90];
    boot.extend_from_slice(&4u32.to_le_bytes());
    for v in [1u32, 2, 3, 4] {
        boot.extend_from_slice(&v.to_le_bytes());
    }
    assert_eq!(o.on_message(1, 0, &boot), vec![OrchAction::FindIdleServer { shard_id: 4, min_x: 1, min_y: 2, max_x: 3, max_y: 4 }]);
    assert!(o.on_message(1, 0, &boot[..21]).is_empty());
}

#[test]
fn waking_an_idle_server() {
    let mut o = GameSocket::new();
    o.on_connected(1);
    o.on_stream_created(1, 5);
    let (key, acts) = o.wake_up("abc", 4, 1, 2, 3, 4);
    assert_eq!(key, "server:abc");
    match &acts[..] {
        [OrchAction::Send { connection: 1, stream: 5, data }] => {
            assert_eq!(data[0], 0x0B);
            assert_eq!(&data[1..8], b"dgs_abc");
            assert_eq!(&data[33..35], &[21, 0]);
            assert_eq!(data[35], 0x91);
            assert_eq!(&data[36..40], &4u32.to_le_bytes());
        }
        other => panic!("unexpected {:?}", other),
    }
}

#[test]
fn idle_servers_are_found_and_counted() {
    let keys = vec!["server:a".to_string(), "server:b".to_string(), "server:c".to_string()];
    let states = vec!["running".to_string(), "idle".to_string(), "idle".to_string()];
    assert_eq!(get_idle_server_id(&keys, &states), Some("b".to_string()));
    assert_eq!(count_idle_servers(&states), 2);
    let none = vec!["running".to_string(), String::new(), "warmup".to_string()];
    assert_eq!(get_idle_server_id(&keys, &none), None);
    assert_eq!(count_idle_servers(&none), 0);
    assert_eq!(server_id_of_key("server:xyz"), "xyz");
    assert_eq!(servers_to_start(0), 4);
    assert_eq!(servers_to_start(3), 1);
    assert_eq!(servers_to_start(4), 0);
    assert_eq!(servers_to_start(9), 0);
}

#[test]
fn servers_are_numbered_and_named() {
    let mut l = ServerLauncher::new();
    assert_eq!(l.next_server(), 0);
    assert_eq!(l.next_server(), 1);
    l.next_id = u32::MAX;
    assert_eq!(l.next_server(), u32::MAX);
    assert_eq!(l.next_id, 0);
    assert_eq!(container_name_of(12), "dgs-12");
    assert_eq!(container_names(3), vec!["dgs-0", "dgs-1", "dgs-2"]);
    assert!(container_names(0).is_empty());
    let args = docker_run_args(5);
    assert_eq!(
        args,
        vec![
            "run", "--name", "dgs-5", "-e", "ORCHESTRATOR_IP=host.docker.internal", "-e", "ORCHESTRATOR_PORT=22555",
            "-e", "BROKER_IP=host.docker.internal", "-e", "BROKER_PORT=8080", "-e", "SERVER_ID=5",
            "--add-host=host.docker.internal:host-gateway", "dgs-image",
        ]
    );
}

#[test]
fn inputs_shift_the_history() {
    let mut buf = [0u8; 16];
    for i in 1..=17u8 {
        add_input_in_buffer(&mut buf, i);
    }
    assert_eq!(buf[0], 17);
    assert_eq!(buf[15], 2);
    assert_eq!(make_input(true, false, true, false), INPUT_LEFT | INPUT_UP);
    assert_eq!(make_input(false, true, false, true), INPUT_RIGHT | INPUT_DOWN);
    assert_eq!(make_input(false, false, false, false), 0);
    for _ in 0..32 {
        assert_eq!(random_input() & 0xf0, 0);
    }
}

#[test]
fn the_client_learns_its_id_and_reads_broadcasts() {
    let mut c = ClientState::new();
    assert_eq!(c.on_connected(3), ClientAction::CreateStream { connection: 3, reliable: true });
    assert_eq!(c.on_stream_created(3, 8), ClientAction::Send { connection: 3, stream: 8, data: vec![0x07] });
    assert_eq!(c.receive_packet(&[0x06, 42, 0, 0, 0]), ClientEvent::IdAssigned(42));
    assert_eq!(c.client_id, 42);
    assert_eq!(c.receive_packet(&[0x06, 1, 0]), ClientEvent::Ignored);
    assert_eq!(c.client_id, 42);
    assert_eq!(c.receive_packet(&[0x04, 2, 0, 7, 8, 9]), ClientEvent::Broadcast(vec![7, 8]));
    assert_eq!(c.receive_packet(&[0x04, 5, 0, 7]), ClientEvent::BadBroadcast);
    assert_eq!(c.receive_packet(&[0x33]), ClientEvent::Ignored);
    let first = c.next_input(INPUT_UP);
    assert_eq!(first.client_id, 42);
    assert_eq!(first.sequence_id, 0);
    assert_eq!(first.input[0], INPUT_UP);
    let second = c.next_input(INPUT_LEFT);
    assert_eq!(second.sequence_id, 1);
    assert_eq!(&second.input[..2], &[INPUT_LEFT, INPUT_UP]);
    assert_eq!(c.input_frame(&[1, 2]), Some(ClientAction::Send { connection: 3, stream: 8, data: vec![0x05, 1, 2] }));
    assert_eq!(ClientState::new().input_frame(&[1]), None);
}
