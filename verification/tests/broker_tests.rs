use shardgrid::broker::{Broker, Handled, Link, Outgoing};
use shardgrid::protocol::{build_admin_connect, build_route, ClientInit, TAG_ADMIN_ROUTE_RECEIVE};

fn bits(x: f32) -> [u8; 4] {
    x.to_bits().to_le_bytes()
}

fn zone_frame(shard: u32, min_x: f32, min_y: f32, max_x: f32, max_y: f32) -> Vec<u8> {
    let mut f = vec![0x00];
    f.extend_from_slice(&shard.to_le_bytes());
    for v in [min_x, min_y, max_x, max_y] {
        f.extend_from_slice(&bits(v));
    }
    f
}

fn topic_frame(tag: u8, client: u32, topic: &str) -> Vec<u8> {
    let mut f = vec![tag];
    f.extend_from_slice(&client.to_le_bytes());
    let mut field = [0u8; 32];
    field[..topic.len()].copy_from_slice(topic.as_bytes());
    f.extend_from_slice(&field);
    f
}

fn publish_frame(topic: &str, payload: &[u8]) -> Vec<u8> {
    let mut f = vec![0x03];
    let mut field = [0u8; 32];
    field[..topic.len()].copy_from_slice(topic.as_bytes());
    f.extend_from_slice(&field);
    f.extend_from_slice(&(payload.len() as u16).to_le_bytes());
    f.extend_from_slice(payload);
    f
}

fn sent(h: Handled) -> Vec<Outgoing> {
    match h {
        Handled::Sent(v) => v,
        other => panic!("expected frames, got {:?}", other),
    }
}

#[test]
fn a_client_is_registered_with_the_shard_of_its_position() {
    let mut b = Broker::new();
    assert!(sent(b.handle_message(10, 1, &zone_frame(3, 0.0, 0.0, 50.0, 50.0))).is_empty());
    assert_eq!(b.shard_map.shard_connections.len(), 1);
    let init = ClientInit { client_id: 0, pos_x: 10.0f32.to_bits(), pos_y: 20.0f32.to_bits() };
    let (out, relay) = b.register_client(77, 2, init);
    assert_eq!(out, vec![Outgoing { connection: 77, stream: 2, data: vec![0x06, 0, 0, 0, 0] }]);
    let (link, relayed) = relay.expect("a shard holds the position");
    assert_eq!(link, Link { connection: 10, stream: 1 });
    assert_eq!(relayed.client_id, 0);
    assert_eq!(relayed.pos_x, 10.0f32.to_bits());
    assert_eq!(b.clients.next_id, 1);
    // A second client outside every zone has no shard, and the next id.
    let far = ClientInit { client_id: 0, pos_x: 80.0f32.to_bits(), pos_y: 20.0f32.to_bits() };
    let (out, relay) = b.register_client(78, 2, far);
    assert_eq!(out[0].data, vec![0x06, 1, 0, 0, 0]);
    assert!(relay.is_none());
}

#[test]
fn inputs_are_relayed_to_the_shard_of_the_client() {
    let mut b = Broker::new();
    sent(b.handle_message(10, 1, &zone_frame(3, 0.0, 0.0, 50.0, 50.0)));
    let init = ClientInit { client_id: 0, pos_x: 1.0f32.to_bits(), pos_y: 1.0f32.to_bits() };
    b.register_client(77, 2, init);
    let mut input = vec![0x05, 0, 0, 0, 0];
    input.extend_from_slice(&[3; 16]);
    let out = sent(b.handle_message(77, 2, &input));
    assert_eq!(out.len(), 1);
    assert_eq!(out[0].connection, 10);
    assert_eq!(out[0].stream, 1);
    assert_eq!(out[0].data, input);
    // An unknown client's input goes nowhere; a short one is dropped.
    input[1] = 9;
    assert!(sent(b.handle_message(77, 2, &input)).is_empty());
    assert!(sent(b.handle_message(77, 2, &input[..10])).is_empty());
}

#[test]
fn publications_reach_the_subscribers_once() {
    let mut b = Broker::new();
    for (conn, _) in [(70u64, 0), (71, 1)] {
        let init = ClientInit { client_id: 0, pos_x: 0, pos_y: 0 };
        b.register_client(conn, 5, init);
    }
    sent(b.handle_message(1, 0, &topic_frame(0x01, 0, "shard:1")));
    sent(b.handle_message(1, 0, &topic_frame(0x01, 1, "shard:1")));
    sent(b.handle_message(1, 0, &topic_frame(0x01, 1, "shard:1")));
    let out = sent(b.handle_message(1, 9, &publish_frame("shard:1", &[42, 43])));
    assert_eq!(out.len(), 2);
    assert_eq!(out[0], Outgoing { connection: 70, stream: 9, data: vec![0x04, 2, 0, 42, 43] });
    assert_eq!(out[1].connection, 71);
    sent(b.handle_message(1, 0, &topic_frame(0x02, 0, "shard:1")));
    let out = sent(b.handle_message(1, 9, &publish_frame("shard:1", &[1])));
    assert_eq!(out.len(), 1);
    assert_eq!(out[0].connection, 71);
    // No subscriber, nothing sent.
    assert!(sent(b.handle_message(1, 9, &publish_frame("shard:2", &[1]))).is_empty());
}

#[test]
fn routed_payloads_reach_the_named_service() {
    let mut b = Broker::new();
    sent(b.handle_message(4, 6, &build_admin_connect("orchestrator")));
    let out = sent(b.handle_message(5, 0, &build_route("orchestrator", &[0x90, 1, 2])));
    assert_eq!(out, vec![Outgoing { connection: 4, stream: 6, data: vec![TAG_ADMIN_ROUTE_RECEIVE, 0x90, 1, 2] }]);
    assert!(sent(b.handle_message(5, 0, &build_route("nobody", &[1]))).is_empty());
}

#[test]
fn a_short_zone_frame_stops_the_tick_and_entry_requests_are_handed_back() {
    let mut b = Broker::new();
    assert_eq!(b.handle_message(1, 1, &[0x00, 1, 2]), Handled::Stop);
    assert_eq!(b.handle_message(1, 1, &[0x07, 9, 9]), Handled::ClientInit(vec![9, 9]));
    assert!(sent(b.handle_message(1, 1, &[])).is_empty());
    assert!(sent(b.handle_message(1, 1, &[0x42])).is_empty());
}

#[test]
fn client_ids_are_never_reused() {
    let mut b = Broker::new();
    let mut ids = Vec::new();
    for conn in 0..5u64 {
        let (out, _) = b.register_client(conn, 0, ClientInit { client_id: 99, pos_x: 0, pos_y: 0 });
        ids.push(u32::from_le_bytes([out[0].data[1], out[0].data[2], out[0].data[3], out[0].data[4]]));
    }
    assert_eq!(ids, vec![0, 1, 2, 3, 4]);
    assert_eq!(b.clients.clients.len(), 5);
}

#[test]
fn unsubscribing_undoes_a_subscription() {
    let mut b = Broker::new();
    sent(b.handle_message(1, 0, &topic_frame(0x01, 4, "shard:3")));
    sent(b.handle_message(1, 0, &topic_frame(0x01, 6, "shard:3")));
    let before = b.subs.subscriptions.get("shard:3").cloned();
    assert_eq!(before, Some(vec![4, 6]));
    sent(b.handle_message(2, 0, &topic_frame(0x01, 8, "shard:3")));
    assert_eq!(b.subs.subscriptions.get("shard:3").cloned(), Some(vec![4, 6, 8]));
    sent(b.handle_message(3, 1, &topic_frame(0x02, 8, "shard:3")));
    assert_eq!(b.subs.subscriptions.get("shard:3").cloned(), before);
    // A topic without subscribers is left with an empty list.
    sent(b.handle_message(2, 0, &topic_frame(0x01, 8, "shard:9")));
    sent(b.handle_message(3, 1, &topic_frame(0x02, 8, "shard:9")));
    assert_eq!(b.subs.subscriptions.get("shard:9").cloned(), Some(vec![]));
}

#[test]
fn registrations_take_consecutive_ids_with_their_own_links() {
    let mut b = Broker::new();
    for conn in 10..13u64 {
        b.register_client(conn, conn + 100, ClientInit { client_id: 0, pos_x: 0, pos_y: 0 });
    }
    assert_eq!(b.clients.next_id, 3);
    for (i, conn) in (10..13u64).enumerate() {
        let info = b.clients.clients.get(&(i as u32)).expect("registered");
        assert_eq!(info.broker_to_client, Link { connection: conn, stream: conn + 100 });
        assert_eq!(info.broker_to_server, None);
    }
}
