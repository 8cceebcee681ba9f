use shardgrid::geometry::{Rect, Vec2};
use shardgrid::quadtree::{QuadTree, Quadrants};

fn v(x: f32, y: f32) -> Vec2 {
    Vec2::new(x.to_bits(), y.to_bits())
}

fn leaf(a: Vec2, b: Vec2, id: u32) -> QuadTree {
    QuadTree { bounds: Rect::from_corners(a, b), depth: 1, max_depth: 1, children: None, shard_id: Some(id) }
}

// A 100 x 100 world split in four.
fn create_test_tree() -> QuadTree {
    QuadTree {
        bounds: Rect::from_corners(v(0.0, 0.0), v(100.0, 100.0)),
        depth: 0,
        max_depth: 1,
        shard_id: None,
        children: Some(Box::new(Quadrants {
            top_left: leaf(v(0.0, 50.0), v(50.0, 100.0), 1),
            top_right: leaf(v(50.0, 50.0), v(100.0, 100.0), 2),
            bottom_left: leaf(v(0.0, 0.0), v(50.0, 50.0), 3),
            bottom_right: leaf(v(50.0, 0.0), v(100.0, 50.0), 4),
        })),
    }
}

// Whether the zone comes within `margin` of the point.
fn within(margin: f32) -> impl Fn(Vec2, Rect) -> bool {
    move |p: Vec2, r: Rect| {
        let (px, py) = (f32::from_bits(p.x), f32::from_bits(p.y));
        let cx = px.clamp(f32::from_bits(r.min.x), f32::from_bits(r.max.x));
        let cy = py.clamp(f32::from_bits(r.min.y), f32::from_bits(r.max.y));
        let d2 = (cx - px) * (cx - px) + (cy - py) * (cy - py);
        !(d2 > margin * margin)
    }
}

fn center(r: Rect) -> Vec2 {
    let cx = (f32::from_bits(r.min.x) + f32::from_bits(r.max.x)) * 0.5;
    let cy = (f32::from_bits(r.min.y) + f32::from_bits(r.max.y)) * 0.5;
    Vec2::new(cx.to_bits(), cy.to_bits())
}

#[test]
fn test_shard_for_resolves_correctly() {
    let tree = create_test_tree();
    assert_eq!(tree.shard_for(v(25.0, 75.0)), Some(1));
    assert_eq!(tree.shard_for(v(75.0, 25.0)), Some(4));
}

#[test]
fn test_shards_near_detects_boundaries() {
    let tree = create_test_tree();
    let near = tree.shards_near(v(48.0, 75.0), &within(5.0));
    assert!(near.contains(&1));
    assert!(near.contains(&2));
    assert_eq!(near.len(), 2);
}

#[test]
fn shard_for_outside_the_world_is_none() {
    let tree = create_test_tree();
    assert_eq!(tree.shard_for(v(150.0, 20.0)), None);
    assert_eq!(tree.shard_for(v(-1.0, 20.0)), None);
    assert_eq!(tree.shard_for(v(f32::NAN, 20.0)), None);
}

#[test]
fn shard_for_on_a_border_takes_the_first_quadrant() {
    let tree = create_test_tree();
    // (50, 50) lies on the edge of all four; top-left is searched first.
    assert_eq!(tree.shard_for(v(50.0, 50.0)), Some(1));
    assert_eq!(tree.shard_for(v(10.0, 10.0)), Some(3));
}

#[test]
fn shards_near_in_the_middle_of_a_shard_is_that_shard() {
    let tree = create_test_tree();
    assert_eq!(tree.shards_near(v(25.0, 25.0), &within(5.0)), vec![3]);
    // At the centre all four shards are near, listed in increasing order.
    assert_eq!(tree.shards_near(v(50.0, 50.0), &within(5.0)), vec![1, 2, 3, 4]);
    // Far outside, nothing.
    assert!(tree.shards_near(v(500.0, 500.0), &within(5.0)).is_empty());
}

#[test]
fn generate_numbers_the_leaves_from_one() {
    let tree = QuadTree::generate(Rect::from_corners(v(-500.0, -500.0), v(500.0, 500.0)), 2, &center);
    let leaves = tree.get_leaves();
    assert_eq!(leaves.len(), 16);
    let ids: Vec<u32> = leaves.iter().map(|l| l.0).collect();
    assert_eq!(ids, (1..=16).collect::<Vec<u32>>());
    // The first leaf is the top-left quadrant of the top-left quadrant.
    assert_eq!(leaves[0].1, Rect::from_corners(v(-500.0, 250.0), v(-250.0, 500.0)));
    assert_eq!(tree.shard_for(v(-400.0, 400.0)), Some(1));
    assert_eq!(tree.shard_for(v(400.0, -400.0)), Some(16));
}

#[test]
fn generate_of_depth_zero_is_one_shard() {
    let tree = QuadTree::generate(Rect::from_corners(v(0.0, 0.0), v(10.0, 10.0)), 0, &center);
    assert_eq!(tree.get_leaves(), vec![(1, Rect::from_corners(v(0.0, 0.0), v(10.0, 10.0)))]);
}

#[test]
fn split_shard_replaces_a_leaf_by_four() {
    let mut tree = QuadTree::generate(Rect::from_corners(v(0.0, 0.0), v(100.0, 100.0)), 1, &center);
    tree.max_depth = 2;
    set_max_depth(&mut tree, 2);
    let mut next_id = 5;
    let new = tree.split_shard(1, &mut next_id, &center).expect("shard 1 can be split");
    assert_eq!(next_id, 9);
    let ids: Vec<u32> = new.iter().map(|l| l.0).collect();
    assert_eq!(ids, vec![5, 6, 7, 8]);
    assert_eq!(new[1].1, Rect::from_corners(v(25.0, 75.0), v(50.0, 100.0)));
    let leaf_ids: Vec<u32> = tree.get_leaves().iter().map(|l| l.0).collect();
    assert_eq!(leaf_ids, vec![5, 6, 7, 8, 2, 3, 4]);
    assert_eq!(tree.shard_for(v(10.0, 90.0)), Some(5));
}

#[test]
fn split_shard_at_the_depth_limit_or_unknown_does_nothing() {
    let mut tree = create_test_tree();
    let mut next_id = 5;
    assert!(tree.split_shard(2, &mut next_id, &center).is_none());
    assert!(tree.split_shard(42, &mut next_id, &center).is_none());
    assert_eq!(next_id, 5);
    assert_eq!(tree.get_leaves().len(), 4);
}

fn set_max_depth(t: &mut QuadTree, d: u8) {
    t.max_depth = d;
    if let Some(q) = t.children.as_mut() {
        set_max_depth(&mut q.top_left, d);
        set_max_depth(&mut q.top_right, d);
        set_max_depth(&mut q.bottom_left, d);
        set_max_depth(&mut q.bottom_right, d);
    }
}
