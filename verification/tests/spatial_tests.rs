use shardgrid::geometry::{Rect, Vec2};
use shardgrid::protocol::CrossingAlertData;
use shardgrid::spatial::{SpatialAction, SpatialService, SubscribeMessage, UnsubscribeMessage, BROKER_STREAM};

fn v(x: f32, y: f32) -> Vec2 {
    Vec2::new(x.to_bits(), y.to_bits())
}

fn center(r: Rect) -> Vec2 {
    let cx = (f32::from_bits(r.min.x) + f32::from_bits(r.max.x)) * 0.5;
    let cy = (f32::from_bits(r.min.y) + f32::from_bits(r.max.y)) * 0.5;
    Vec2::new(cx.to_bits(), cy.to_bits())
}

fn touches(p: Vec2, r: Rect) -> bool {
    let (px, py) = (f32::from_bits(p.x), f32::from_bits(p.y));
    let cx = px.clamp(f32::from_bits(r.min.x), f32::from_bits(r.max.x));
    let cy = py.clamp(f32::from_bits(r.min.y), f32::from_bits(r.max.y));
    !((cx - px) * (cx - px) + (cy - py) * (cy - py) > 25.0)
}

fn report(id: u32, x: f32, y: f32) -> Vec<u8> {
    let mut d = vec![0x10];
    d.extend_from_slice(&id.to_le_bytes());
    d.extend_from_slice(&x.to_bits().to_le_bytes());
    d.extend_from_slice(&y.to_bits().to_le_bytes());
    d
}

fn frames(acts: &[SpatialAction]) -> Vec<Vec<u8>> {
    acts.iter()
        .map(|a| match a {
            SpatialAction::Send { connection: 1, stream: BROKER_STREAM, data } => data.clone(),
            other => panic!("unexpected {:?}", other),
        })
        .collect()
}

#[test]
fn the_world_starts_as_1024_shards() {
    let s = SpatialService::init_spatial_service(&center);
    let leaves = s.quad_tree.get_leaves();
    assert_eq!(leaves.len(), 1024);
    assert_eq!(s.quad_tree.bounds, Rect::from_corners(v(-500.0, -500.0), v(500.0, 500.0)));
    assert_eq!(s.quad_tree.shard_for(v(-499.0, 499.0)), Some(1));
    assert_eq!(s.quad_tree.shard_for(v(499.0, -499.0)), Some(1024));
}

#[test]
fn connecting_announces_the_service_and_queues_boot_orders() {
    let mut s = SpatialService::init_spatial_service(&center);
    assert!(s.flush_network_messages().is_empty());
    assert_eq!(s.on_connected(1), vec![SpatialAction::CreateStream { connection: 1, reliable: true }]);
    let acts = s.on_stream_created(1);
    let f = frames(&acts);
    assert_eq!(f.len(), 1);
    assert_eq!(&f[0][1..8], b"spatial");
    assert_eq!(s.boots.len(), 1024);
    let out = frames(&s.flush_network_messages());
    assert_eq!(out.len(), 1024);
    assert_eq!(&out[0][1..13], b"orchestrator");
    assert_eq!(&out[0][33..35], &[21, 0]);
    assert_eq!(out[0][35], 0x90);
    assert_eq!(&out[0][36..40], &1u32.to_le_bytes());
    assert_eq!(&out[0][40..44], &(-500.0f32).to_bits().to_le_bytes());
    assert!(s.boots.is_empty());
}

#[test]
fn moving_players_change_topics_and_raise_alerts() {
    let mut s = SpatialService::init_spatial_service(&center);
    s.on_connected(1);
    s.receive_position_update(&report(9, -499.0, 499.0));
    assert_eq!(s.entities.len(), 1);
    s.check_shard_transitions(&touches);
    assert_eq!(s.subscribes, vec![SubscribeMessage { client_id: 9, topic: 1 }]);
    assert!(s.unsubscribes.is_empty());
    assert!(s.alerts.is_empty());
    assert_eq!(s.entities[0].current_shard.0, Some(1));
    assert!(!s.entities[0].changed);
    let out = frames(&s.flush_network_messages());
    assert_eq!(out.len(), 1);
    assert_eq!(out[0][0], 0x01);
    assert_eq!(&out[0][1..5], &9u32.to_le_bytes());
    assert_eq!(&out[0][5..12], b"shard:1");
    // Nothing changed: nothing happens.
    s.check_shard_transitions(&touches);
    assert!(s.subscribes.is_empty());

    // The player moves to the border between shards 1 and 2: each report
    // spawns a new entity for the client.
    s.receive_position_update(&report(9, -470.0, 499.0));
    assert_eq!(s.entities.len(), 2);
    s.check_shard_transitions(&touches);
    // Both entities are in shard 1, within 5 units of shard 2 (which
    // starts at x = -468.75); the new one is subscribed to shard 1.
    assert_eq!(s.entities[0].current_shard.0, Some(1));
    assert_eq!(s.entities[1].current_shard.0, Some(1));
    assert_eq!(s.subscribes, vec![SubscribeMessage { client_id: 9, topic: 1 }]);
    assert_eq!(s.alerts.len(), 2);
    assert_eq!(s.alerts[0].involved_shards, vec![1, 2]);
    assert_eq!(s.alerts[0].source_shard, 1);
    assert_eq!(s.alerts[1].source_shard, 1);
    let out = frames(&s.flush_network_messages());
    // One subscription, then the two alerts.
    assert_eq!(out.len(), 3);
    assert_eq!(out[0][0], 0x01);
    // Further into shard 2, the topic changes.
    s.receive_position_update(&report(9, -450.0, 480.0));
    s.check_shard_transitions(&touches);
    assert_eq!(s.entities[1].current_shard.0, Some(2));
    assert_eq!(s.unsubscribes, vec![UnsubscribeMessage { client_id: 9, topic: 1 }]);
    assert_eq!(s.subscribes, vec![SubscribeMessage { client_id: 9, topic: 2 }, SubscribeMessage { client_id: 9, topic: 2 }]);
    // Every player is settled in the shard of its position.
    for e in &s.entities {
        assert!(!e.changed);
        assert_eq!(e.current_shard.0, s.quad_tree.shard_for(e.position.0));
    }
    let alert = &out[1];
    assert_eq!(alert[0], 0x0B);
    assert_eq!(&alert[1..8], b"shard:1");
    let payload_len = u16::from_le_bytes([alert[33], alert[34]]) as usize;
    let data = CrossingAlertData::from_bytes(&alert[35..35 + payload_len]).expect("an alert");
    assert_eq!(data.client_id, 9);
    assert_eq!(data.involved_shards, vec![1, 2]);
}

#[test]
fn leaving_the_world_unsubscribes() {
    let mut s = SpatialService::init_spatial_service(&center);
    s.receive_position_update(&report(3, 0.0, 0.0));
    s.check_shard_transitions(&touches);
    let shard = s.entities[0].current_shard.0.expect("inside the world");
    s.receive_position_update(&report(3, 900.0, 0.0));
    s.check_shard_transitions(&touches);
    assert_eq!(s.entities[0].current_shard.0, None);
    assert_eq!(s.unsubscribes, vec![UnsubscribeMessage { client_id: 3, topic: shard }]);
    // Before the broker is connected nothing is sent and the messages are dropped.
    assert!(s.flush_network_messages().is_empty());
    assert!(s.unsubscribes.is_empty());
    assert!(s.subscribes.is_empty());
}

#[test]
fn reports_of_other_kinds_are_ignored() {
    let mut s = SpatialService::init_spatial_service(&center);
    s.receive_position_update(&[0x11, 0, 0, 0, 0, 0, 0, 0, 0, 0, 0, 0, 0]);
    s.receive_position_update(&report(1, 0.0, 0.0)[..12]);
    s.receive_position_update(&[]);
    assert!(s.entities.is_empty());
}

#[test]
fn crowded_shards_are_split_and_booted() {
    let mut s = SpatialService::init_spatial_service(&center);
    // Depth limit reached: shards of the initial tree cannot be split.
    for i in 0..1000u32 {
        s.receive_position_update(&report(i, -499.0, 499.0));
    }
    s.check_shard_transitions(&touches);
    s.monitor_shard_capacity(&center);
    assert!(s.boots.is_empty());
    // Raise the limit: shard 1 splits into 1025..1028.
    raise(&mut s.quad_tree);
    s.monitor_shard_capacity(&center);
    let ids: Vec<u32> = s.boots.iter().map(|b| b.shard_id).collect();
    assert_eq!(ids, vec![1025, 1026, 1027, 1028]);
    assert_eq!(s.quad_tree.shard_for(v(-499.0, 499.0)), Some(1025));
}

fn raise(t: &mut shardgrid::quadtree::QuadTree) {
    t.max_depth = 6;
    if let Some(q) = t.children.as_mut() {
        raise(&mut q.top_left);
        raise(&mut q.top_right);
        raise(&mut q.bottom_left);
        raise(&mut q.bottom_right);
    }
}

#[test]
fn splitting_keeps_the_other_shards_and_numbers_new_ones_above_all() {
    let mut s = SpatialService::init_spatial_service(&center);
    for i in 0..1000u32 {
        s.receive_position_update(&report(i, 499.0, -499.0));
    }
    s.check_shard_transitions(&touches);
    raise(&mut s.quad_tree);
    let before = s.quad_tree.get_leaves();
    s.monitor_shard_capacity(&center);
    let after = s.quad_tree.get_leaves();
    assert_eq!(after.len(), before.len() + 3);
    // Every shard but the crowded one keeps its zone.
    for leaf in &before {
        if leaf.0 != 1024 {
            assert!(after.contains(leaf));
        }
    }
    assert!(!after.iter().any(|l| l.0 == 1024));
    // Every shard is an old one or has an id above all old ones.
    let top = before.iter().map(|l| l.0).max().unwrap();
    for leaf in &after {
        assert!(before.iter().any(|b| b.0 == leaf.0) || leaf.0 > top);
    }
    let ids: Vec<u32> = s.boots.iter().map(|b| b.shard_id).collect();
    assert_eq!(ids, vec![1025, 1026, 1027, 1028]);
}

#[test]
fn a_lone_move_changes_topics() {
    let mut s = SpatialService::init_spatial_service(&center);
    s.on_connected(1);
    s.receive_position_update(&report(5, -499.0, 499.0));
    s.check_shard_transitions(&touches);
    s.flush_network_messages();
    // The same entity moves: only the reports spawn new entities, so move
    // it by hand.
    s.entities[0].position.0 = v(-450.0, 480.0);
    s.entities[0].changed = true;
    s.check_shard_transitions(&touches);
    assert_eq!(s.entities[0].current_shard.0, Some(2));
    assert_eq!(s.unsubscribes, vec![UnsubscribeMessage { client_id: 5, topic: 1 }]);
    assert_eq!(s.subscribes, vec![SubscribeMessage { client_id: 5, topic: 2 }]);
}
