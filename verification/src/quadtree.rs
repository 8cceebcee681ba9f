//! The spatial partition of the world: a quadtree whose leaves are the
//! shards, each run by one game server.
//!
//! Deciding whether a point lies in a rectangle is done here on the
//! coordinates' bit patterns. The two decisions that need floating-point
//! arithmetic, the centre of a rectangle and whether a rectangle lies within
//! a distance of a point, are taken by the caller's closures.
use vstd::prelude::*;
use crate::geometry::{Rect, Vec2, spec_from_corners, f32_le, f32_is_nan, f32_key, spec_min, spec_max};
use crate::idset::{strictly_increasing, merge_sorted};

verus! {

/// The four children of an inner node, in the order in which they are
/// searched and numbered.
pub struct Quadrants {
    pub top_left: QuadTree,
    pub top_right: QuadTree,
    pub bottom_left: QuadTree,
    pub bottom_right: QuadTree,
}

/// A node of the partition: a leaf carries the id of the shard that covers
/// `bounds`; an inner node splits `bounds` into four quadrants.
pub struct QuadTree {
    pub bounds: Rect,
    pub depth: u8,
    pub max_depth: u8,
    pub children: Option<Box<Quadrants>>,
    pub shard_id: Option<u32>,
}

/// The (shard id, zone) pairs of the tree, a node's own before its
/// children's, children in quadrant order.
pub open spec fn spec_leaves(t: QuadTree) -> Seq<(u32, Rect)>
    decreases t,
{
    let own: Seq<(u32, Rect)> = match t.shard_id {
        Some(id) => seq![(id, t.bounds)],
        None => seq![],
    };
    match t.children {
        None => own,
        Some(q) => own + spec_leaves(q.top_left) + spec_leaves(q.top_right) + spec_leaves(
            q.bottom_left,
        ) + spec_leaves(q.bottom_right),
    }
}

/// The shard ids of the tree, in the order of `spec_leaves`.
pub open spec fn leaf_ids(t: QuadTree) -> Seq<u32>
    decreases t,
{
    let own: Seq<u32> = match t.shard_id {
        Some(id) => seq![id],
        None => seq![],
    };
    match t.children {
        None => own,
        Some(q) => own + leaf_ids(q.top_left) + leaf_ids(q.top_right) + leaf_ids(q.bottom_left)
            + leaf_ids(q.bottom_right),
    }
}

/// `4` to the power `n`: the number of leaves of a complete tree of height `n`.
pub open spec fn pow4(n: nat) -> nat
    decreases n,
{
    if n == 0 {
        1
    } else {
        4 * pow4((n - 1) as nat)
    }
}

/// The zones of the four quadrants of `b` around the point `c`, in
/// quadrant order: top left, top right, bottom left, bottom right.
pub open spec fn quadrant_rects(b: Rect, c: Vec2) -> (Rect, Rect, Rect, Rect) {
    (
        spec_from_corners(Vec2 { x: b.min.x, y: c.y }, Vec2 { x: c.x, y: b.max.y }),
        spec_from_corners(c, b.max),
        spec_from_corners(b.min, c),
        spec_from_corners(Vec2 { x: c.x, y: b.min.y }, Vec2 { x: b.max.x, y: c.y }),
    )
}

/// The children of the node `t` cover the quadrants of its zone around the
/// point `c`.
pub open spec fn children_around(t: QuadTree, c: Vec2) -> bool {
    match t.children {
        None => true,
        Some(q) => {
            let r = quadrant_rects(t.bounds, c);
            &&& q.top_left.bounds == r.0
            &&& q.top_right.bounds == r.1
            &&& q.bottom_left.bounds == r.2
            &&& q.bottom_right.bounds == r.3
        },
    }
}

/// Every inner node splits its zone around a centre that `center` answers
/// for that zone.
pub open spec fn split_by<F: Fn(Rect) -> Vec2>(t: QuadTree, center: F) -> bool
    decreases t,
{
    match t.children {
        None => true,
        Some(q) => {
            &&& exists|c: Vec2| center.ensures((t.bounds,), c) && children_around(t, c)
            &&& split_by(q.top_left, center)
            &&& split_by(q.top_right, center)
            &&& split_by(q.bottom_left, center)
            &&& split_by(q.bottom_right, center)
        },
    }
}

/// Every leaf sits at the depth limit.
pub open spec fn complete(t: QuadTree) -> bool
    decreases t,
{
    match t.children {
        None => t.depth == t.max_depth,
        Some(q) => complete(q.top_left) && complete(q.top_right) && complete(q.bottom_left)
            && complete(q.bottom_right),
    }
}

/// `n, n + 1, ..., n + len - 1`.
pub open spec fn id_range(n: int, len: nat) -> Seq<u32> {
    Seq::new(len, |i: int| (n + i) as u32)
}

proof fn lemma_pow4_positive(n: nat)
    ensures
        pow4(n) >= 1,
    decreases n,
{
    if n > 0 {
        lemma_pow4_positive((n - 1) as nat);
    }
}

/// Splitting `t` at shard `target` changes something: the first node met in
/// quadrant order that carries `target` lies above the depth limit.
pub open spec fn will_split(t: QuadTree, target: u32) -> bool
    decreases t,
{
    if t.shard_id == Some(target) {
        t.depth < t.max_depth
    } else {
        match t.children {
            None => false,
            Some(q) => will_split(q.top_left, target) || will_split(q.top_right, target)
                || will_split(q.bottom_left, target) || will_split(q.bottom_right, target),
        }
    }
}

/// The node that splitting `t` at `target` splits.
pub open spec fn split_node(t: QuadTree, target: u32) -> QuadTree
    decreases t,
{
    if t.shard_id == Some(target) {
        t
    } else {
        match t.children {
            None => t,
            Some(q) => if will_split(q.top_left, target) {
                split_node(q.top_left, target)
            } else if will_split(q.top_right, target) {
                split_node(q.top_right, target)
            } else if will_split(q.bottom_left, target) {
                split_node(q.bottom_left, target)
            } else {
                split_node(q.bottom_right, target)
            },
        }
    }
}

/// A leaf one level below `parent`, covering `bounds`, with shard `id`.
pub open spec fn leaf_below(parent: QuadTree, bounds: Rect, id: int) -> QuadTree {
    QuadTree {
        bounds,
        depth: (parent.depth + 1) as u8,
        max_depth: parent.max_depth,
        children: None,
        shard_id: Some(id as u32),
    }
}

/// The four new leaves that split `t` around `c`, numbered from `nid`.
pub open spec fn new_quadrants(t: QuadTree, c: Vec2, nid: int) -> Quadrants {
    let r = quadrant_rects(t.bounds, c);
    Quadrants {
        top_left: leaf_below(t, r.0, nid),
        top_right: leaf_below(t, r.1, nid + 1),
        bottom_left: leaf_below(t, r.2, nid + 2),
        bottom_right: leaf_below(t, r.3, nid + 3),
    }
}

/// The (shard id, zone) pairs of the four new leaves that split `b` around
/// `c`, numbered from `nid`.
pub open spec fn new_pairs(b: Rect, c: Vec2, nid: int) -> Seq<(u32, Rect)> {
    let r = quadrant_rects(b, c);
    seq![
        (nid as u32, r.0),
        ((nid + 1) as u32, r.1),
        ((nid + 2) as u32, r.2),
        ((nid + 3) as u32, r.3),
    ]
}

/// `new` is the node `old` turned into an inner node over four new leaves
/// numbered from `nid`, around a centre that `center` answers for its zone.
pub open spec fn split_here<F: Fn(Rect) -> Vec2>(old: QuadTree, new: QuadTree, nid: int, center: F) -> bool {
    &&& new.bounds == old.bounds
    &&& new.depth == old.depth
    &&& new.max_depth == old.max_depth
    &&& new.shard_id.is_none()
    &&& exists|c: Vec2|
        center.ensures((old.bounds,), c) && new.children == Some(Box::new(new_quadrants(old, c, nid)))
}

/// `new` is what splitting `old` at shard `target` with fresh ids from `nid`
/// gives: `old` itself when nothing is split, else `old` with the node
/// `split_node(old, target)` split, all else unchanged.
pub open spec fn split_rel<F: Fn(Rect) -> Vec2>(
    old: QuadTree,
    new: QuadTree,
    target: u32,
    nid: int,
    center: F,
) -> bool
    decreases old,
{
    if !will_split(old, target) {
        new == old
    } else if old.shard_id == Some(target) {
        split_here(old, new, nid, center)
    } else {
        match (old.children, new.children) {
            (Some(q), Some(q2)) => {
                &&& new.bounds == old.bounds
                &&& new.depth == old.depth
                &&& new.max_depth == old.max_depth
                &&& new.shard_id == old.shard_id
                &&& if will_split(q.top_left, target) {
                    &&& split_rel(q.top_left, q2.top_left, target, nid, center)
                    &&& q2.top_right == q.top_right
                    &&& q2.bottom_left == q.bottom_left
                    &&& q2.bottom_right == q.bottom_right
                } else if will_split(q.top_right, target) {
                    &&& q2.top_left == q.top_left
                    &&& split_rel(q.top_right, q2.top_right, target, nid, center)
                    &&& q2.bottom_left == q.bottom_left
                    &&& q2.bottom_right == q.bottom_right
                } else if will_split(q.bottom_left, target) {
                    &&& q2.top_left == q.top_left
                    &&& q2.top_right == q.top_right
                    &&& split_rel(q.bottom_left, q2.bottom_left, target, nid, center)
                    &&& q2.bottom_right == q.bottom_right
                } else {
                    &&& q2.top_left == q.top_left
                    &&& q2.top_right == q.top_right
                    &&& q2.bottom_left == q.bottom_left
                    &&& split_rel(q.bottom_right, q2.bottom_right, target, nid, center)
                }
            },
            _ => false,
        }
    }
}

fn quadrant_bounds(b: Rect, c: Vec2) -> (r: (Rect, Rect, Rect, Rect))
    ensures
        r == quadrant_rects(b, c),
{
    (
        Rect::from_corners(Vec2 { x: b.min.x, y: c.y }, Vec2 { x: c.x, y: b.max.y }),
        Rect::from_corners(c, b.max),
        Rect::from_corners(b.min, c),
        Rect::from_corners(Vec2 { x: c.x, y: b.min.y }, Vec2 { x: b.max.x, y: c.y }),
    )
}

/// A child sits one level below its parent, under the same depth limit.
pub open spec fn child_of(parent: QuadTree, child: QuadTree) -> bool {
    child.depth == parent.depth + 1 && child.max_depth == parent.max_depth
}

/// Well-formed: leaves and only leaves carry a shard id, and depths count
/// the levels up to the limit.
pub open spec fn wf(t: QuadTree) -> bool
    decreases t,
{
    &&& t.depth <= t.max_depth
    &&& match t.children {
        None => t.shard_id.is_some(),
        Some(q) => {
            &&& t.shard_id.is_none()
            &&& child_of(t, q.top_left) && wf(q.top_left)
            &&& child_of(t, q.top_right) && wf(q.top_right)
            &&& child_of(t, q.bottom_left) && wf(q.bottom_left)
            &&& child_of(t, q.bottom_right) && wf(q.bottom_right)
        },
    }
}

/// The shard that `shard_for` assigns to a point: `None` outside the zone,
/// else the first child's answer that is not `None`, else the node's id.
pub open spec fn spec_shard_for(t: QuadTree, p: Vec2) -> Option<u32>
    decreases t,
{
    if !t.bounds.spec_contains(p) {
        None
    } else {
        match t.children {
            None => t.shard_id,
            Some(q) => {
                let a = spec_shard_for(q.top_left, p);
                let b = spec_shard_for(q.top_right, p);
                let c = spec_shard_for(q.bottom_left, p);
                let d = spec_shard_for(q.bottom_right, p);
                if a.is_some() {
                    a
                } else if b.is_some() {
                    b
                } else if c.is_some() {
                    c
                } else if d.is_some() {
                    d
                } else {
                    t.shard_id
                }
            },
        }
    }
}

/// The closure answers the same for the same point and rectangle, so that
/// its answer is the predicate `touches.ensures((p, r), true)`.
pub open spec fn decides<F: Fn(Vec2, Rect) -> bool>(touches: F) -> bool {
    &&& forall|p: Vec2, r: Rect| touches.requires((p, r))
    &&& forall|p: Vec2, r: Rect, b: bool| #[trigger] touches.ensures((p, r), b) ==> (b <==> touches.ensures(
        (p, r),
        true,
    ))
}

/// The shard ids that `shards_near` reports: nothing under a node whose zone
/// the closure rejects, else the ids of the leaves below.
pub open spec fn spec_near_ids<F: Fn(Vec2, Rect) -> bool>(t: QuadTree, pos: Vec2, touches: F) -> Set<u32>
    decreases t,
{
    if !touches.ensures((pos, t.bounds), true) {
        Set::empty()
    } else {
        match t.children {
            Some(q) => spec_near_ids(q.top_left, pos, touches).union(spec_near_ids(q.top_right, pos, touches)).union(
                spec_near_ids(q.bottom_left, pos, touches),
            ).union(spec_near_ids(q.bottom_right, pos, touches)),
            None => match t.shard_id {
                Some(id) => set![id],
                None => Set::empty(),
            },
        }
    }
}

impl QuadTree {
    /// The shard whose zone holds `pos`; `None` when no zone of the tree does.
    pub fn shard_for(&self, pos: Vec2) -> (r: Option<u32>)
        ensures
            r == spec_shard_for(*self, pos),
        decreases self,
    {
        if !self.bounds.contains(pos) {
            return None;
        }
        match &self.children {
            Some(q) => {
                let a = q.top_left.shard_for(pos);
                if a.is_some() {
                    return a;
                }
                let b = q.top_right.shard_for(pos);
                if b.is_some() {
                    return b;
                }
                let c = q.bottom_left.shard_for(pos);
                if c.is_some() {
                    return c;
                }
                let d = q.bottom_right.shard_for(pos);
                if d.is_some() {
                    return d;
                }
            },
            None => {},
        }
        self.shard_id
    }

    /// The distinct shard ids, in increasing order, of the leaves whose zone
    /// and every enclosing zone `touches` accepts for `pos`. The caller's
    /// closure tells whether a zone comes within the search radius of the
    /// point.
    pub fn shards_near<F: Fn(Vec2, Rect) -> bool>(&self, pos: Vec2, touches: &F) -> (r: Vec<u32>)
        requires
            decides(*touches),
        ensures
            strictly_increasing(r@),
            forall|id: u32| r@.contains(id) <==> spec_near_ids(*self, pos, *touches).contains(id),
        decreases self,
    {
        let mut result: Vec<u32> = Vec::new();
        let hit = touches(pos, self.bounds);
        if !hit {
            return result;
        }
        assert((*touches).ensures((pos, self.bounds), true));
        match &self.children {
            Some(q) => {
                let a = q.top_left.shards_near(pos, touches);
                merge_sorted(&mut result, &a);
                let b = q.top_right.shards_near(pos, touches);
                merge_sorted(&mut result, &b);
                let c = q.bottom_left.shards_near(pos, touches);
                merge_sorted(&mut result, &c);
                let d = q.bottom_right.shards_near(pos, touches);
                merge_sorted(&mut result, &d);
                proof {
                    let sa = spec_near_ids(q.top_left, pos, *touches);
                    let sb = spec_near_ids(q.top_right, pos, *touches);
                    let sc = spec_near_ids(q.bottom_left, pos, *touches);
                    let sd = spec_near_ids(q.bottom_right, pos, *touches);
                    assert(spec_near_ids(*self, pos, *touches) == sa.union(sb).union(sc).union(sd));
                    assert forall|id: u32| result@.contains(id) <==> spec_near_ids(*self, pos, *touches).contains(id) by {
                        assert(a@.contains(id) <==> sa.contains(id));
                        assert(b@.contains(id) <==> sb.contains(id));
                        assert(c@.contains(id) <==> sc.contains(id));
                        assert(d@.contains(id) <==> sd.contains(id));
                    }
                }
            },
            None => {
                if let Some(id) = self.shard_id {
                    result.push(id);
                    assert(result@[0] == id);
                }
            },
        }
        result
    }

    /// Builds the complete tree of height `max_depth` over `bounds`, its
    /// leaves numbered from 1 in quadrant order. `center` gives the centre of
    /// a zone.
    pub fn generate<F: Fn(Rect) -> Vec2>(bounds: Rect, max_depth: u8, center: &F) -> (t: QuadTree)
        requires
            forall|r: Rect| center.requires((r,)),
            1 + pow4(max_depth as nat) <= u32::MAX,
        ensures
            wf(t),
            complete(t),
            split_by(t, *center),
            t.bounds == bounds,
            t.depth == 0,
            t.max_depth == max_depth,
            leaf_ids(t) == id_range(1, pow4(max_depth as nat)),
    {
        let mut next_id: u32 = 1;
        Self::subdivide(bounds, 0, max_depth, &mut next_id, center)
    }

    /// Builds the complete subtree over `bounds` from level `depth` down to
    /// `max_depth`, numbering its leaves from `next_id` on.
    fn subdivide<F: Fn(Rect) -> Vec2>(
        bounds: Rect,
        depth: u8,
        max_depth: u8,
        next_id: &mut u32,
        center: &F,
    ) -> (t: QuadTree)
        requires
            forall|r: Rect| center.requires((r,)),
            depth <= max_depth,
            *old(next_id) + pow4((max_depth - depth) as nat) <= u32::MAX,
        ensures
            wf(t),
            complete(t),
            split_by(t, *center),
            t.bounds == bounds,
            t.depth == depth,
            t.max_depth == max_depth,
            *final(next_id) == *old(next_id) + pow4((max_depth - depth) as nat),
            leaf_ids(t) == id_range(*old(next_id) as int, pow4((max_depth - depth) as nat)),
        decreases max_depth - depth,
    {
        let ghost n0 = *next_id as int;
        let ghost k = (max_depth - depth) as nat;
        if depth == max_depth {
            let current_id = *next_id;
            *next_id = *next_id + 1;
            let t = QuadTree { bounds, depth, max_depth, children: None, shard_id: Some(current_id) };
            assert(leaf_ids(t) =~= id_range(n0, pow4(k)));
            return t;
        }
        let ghost p = pow4((k - 1) as nat);
        proof {
            assert((k - 1) as nat == (max_depth - (depth + 1)) as nat);
            assert(pow4(k) == 4 * p);
            lemma_pow4_positive((k - 1) as nat);
        }
        let c = center(bounds);
        let (tl, tr, bl, br) = quadrant_bounds(bounds, c);
        let a = Self::subdivide(tl, depth + 1, max_depth, next_id, center);
        let b = Self::subdivide(tr, depth + 1, max_depth, next_id, center);
        let d = Self::subdivide(bl, depth + 1, max_depth, next_id, center);
        let e = Self::subdivide(br, depth + 1, max_depth, next_id, center);
        let t = QuadTree {
            bounds,
            depth,
            max_depth,
            children: Some(Box::new(Quadrants { top_left: a, top_right: b, bottom_left: d, bottom_right: e })),
            shard_id: None,
        };
        proof {
            assert(children_around(t, c));
            assert(leaf_ids(t) =~= id_range(n0, pow4(k)));
        }
        t
    }

    /// Splits the shard `target_shard` into four new shards numbered from
    /// `next_id`, which moves past them. Returns the new (shard id, zone)
    /// pairs, or `None` when the first node carrying that shard is at the
    /// depth limit or no node carries it.
    pub fn split_shard<F: Fn(Rect) -> Vec2>(
        &mut self,
        target_shard: u32,
        next_id: &mut u32,
        center: &F,
    ) -> (r: Option<Vec<(u32, Rect)>>)
        requires
            forall|b: Rect| center.requires((b,)),
            will_split(*old(self), target_shard) ==> *old(next_id) + 4 <= u32::MAX,
        ensures
            split_rel(*old(self), *final(self), target_shard, *old(next_id) as int, *center),
            r.is_some() == will_split(*old(self), target_shard),
            *final(next_id) == if will_split(*old(self), target_shard) {
                *old(next_id) + 4
            } else {
                *old(next_id) as int
            },
            r matches Some(v) ==> exists|c: Vec2|
                center.ensures((split_node(*old(self), target_shard).bounds,), c) && v@ == new_pairs(
                    split_node(*old(self), target_shard).bounds,
                    c,
                    *old(next_id) as int,
                ),
        decreases *old(self),
    {
        let here = match self.shard_id {
            Some(id) => id == target_shard,
            None => false,
        };
        if here {
            if self.depth >= self.max_depth {
                return None;
            }
            let c = center(self.bounds);
            let (tl, tr, bl, br) = quadrant_bounds(self.bounds, c);
            let id0 = *next_id;
            *next_id = *next_id + 1;
            let id1 = *next_id;
            *next_id = *next_id + 1;
            let id2 = *next_id;
            *next_id = *next_id + 1;
            let id3 = *next_id;
            *next_id = *next_id + 1;
            let depth = self.depth + 1;
            let max_depth = self.max_depth;
            let q = Quadrants {
                top_left: QuadTree { bounds: tl, depth, max_depth, children: None, shard_id: Some(id0) },
                top_right: QuadTree { bounds: tr, depth, max_depth, children: None, shard_id: Some(id1) },
                bottom_left: QuadTree { bounds: bl, depth, max_depth, children: None, shard_id: Some(id2) },
                bottom_right: QuadTree { bounds: br, depth, max_depth, children: None, shard_id: Some(id3) },
            };
            let ghost old_node = *self;
            self.shard_id = None;
            self.children = Some(Box::new(q));
            let mut new_leaves: Vec<(u32, Rect)> = Vec::new();
            new_leaves.push((id0, tl));
            new_leaves.push((id1, tr));
            new_leaves.push((id2, bl));
            new_leaves.push((id3, br));
            proof {
                assert(q == new_quadrants(old_node, c, id0 as int));
                assert(new_leaves@ =~= new_pairs(old_node.bounds, c, id0 as int));
            }
            return Some(new_leaves);
        }
        let kids = self.children.take();
        match kids {
            None => None,
            Some(boxed) => {
                let mut q = *boxed;
                let r1 = q.top_left.split_shard(target_shard, next_id, center);
                if r1.is_some() {
                    self.children = Some(Box::new(q));
                    return r1;
                }
                let r2 = q.top_right.split_shard(target_shard, next_id, center);
                if r2.is_some() {
                    self.children = Some(Box::new(q));
                    return r2;
                }
                let r3 = q.bottom_left.split_shard(target_shard, next_id, center);
                if r3.is_some() {
                    self.children = Some(Box::new(q));
                    return r3;
                }
                let r4 = q.bottom_right.split_shard(target_shard, next_id, center);
                self.children = Some(Box::new(q));
                r4
            },
        }
    }

    /// All (shard id, zone) pairs of the tree.
    pub fn get_leaves(&self) -> (r: Vec<(u32, Rect)>)
        ensures
            r@ == spec_leaves(*self),
        decreases self,
    {
        let mut leaves: Vec<(u32, Rect)> = Vec::new();
        if let Some(id) = self.shard_id {
            leaves.push((id, self.bounds));
        }
        match &self.children {
            Some(q) => {
                let mut a = q.top_left.get_leaves();
                leaves.append(&mut a);
                let mut b = q.top_right.get_leaves();
                leaves.append(&mut b);
                let mut c = q.bottom_left.get_leaves();
                leaves.append(&mut c);
                let mut d = q.bottom_right.get_leaves();
                leaves.append(&mut d);
            },
            None => {},
        }
        assert(leaves@ =~= spec_leaves(*self));
        leaves
    }
}

/// Splitting a well-formed tree at a shard that it can split keeps it
/// well-formed and replaces that shard, among the shard ids in order, by the
/// four new ids; every other shard stays where it was.
pub proof fn lemma_split_replaces_shard<F: Fn(Rect) -> Vec2>(
    old: QuadTree,
    new: QuadTree,
    target: u32,
    nid: int,
    center: F,
)
    requires
        wf(old),
        will_split(old, target),
        split_rel(old, new, target, nid, center),
    ensures
        wf(new),
        new.bounds == old.bounds,
        new.depth == old.depth,
        new.max_depth == old.max_depth,
        exists|pre: Seq<u32>, post: Seq<u32>|
            leaf_ids(old) == pre + seq![target] + post && leaf_ids(new) == pre + id_range(nid, 4)
                + post,
    decreases old,
{
    if old.shard_id == Some(target) {
        let c = choose|c: Vec2|
            center.ensures((old.bounds,), c) && new.children == Some(Box::new(new_quadrants(old, c, nid)));
        let q = new_quadrants(old, c, nid);
        assert(new.children.unwrap() == q);
        assert(wf(q.top_left) && wf(q.top_right) && wf(q.bottom_left) && wf(q.bottom_right));
        assert(child_of(new, q.top_left) && child_of(new, q.top_right) && child_of(new, q.bottom_left)
            && child_of(new, q.bottom_right));
        assert(wf(new));
        assert(leaf_ids(q.top_left) =~= seq![nid as u32]);
        assert(leaf_ids(q.top_right) =~= seq![(nid + 1) as u32]);
        assert(leaf_ids(q.bottom_left) =~= seq![(nid + 2) as u32]);
        assert(leaf_ids(q.bottom_right) =~= seq![(nid + 3) as u32]);
        assert(leaf_ids(new) =~= Seq::<u32>::empty() + id_range(nid, 4) + Seq::<u32>::empty());
        assert(leaf_ids(old) =~= Seq::<u32>::empty() + seq![target] + Seq::<u32>::empty());
    } else {
        let q = old.children.unwrap();
        let q2 = new.children.unwrap();
        let a = leaf_ids(q.top_left);
        let b = leaf_ids(q.top_right);
        let c = leaf_ids(q.bottom_left);
        let d = leaf_ids(q.bottom_right);
        assert(leaf_ids(old) =~= a + b + c + d);
        if will_split(q.top_left, target) {
            lemma_split_replaces_shard(q.top_left, q2.top_left, target, nid, center);
            assert(wf(new));
            let (pre, post) = choose|pre: Seq<u32>, post: Seq<u32>|
                leaf_ids(q.top_left) == pre + seq![target] + post && leaf_ids(q2.top_left) == pre
                    + id_range(nid, 4) + post;
            assert(leaf_ids(new) =~= leaf_ids(q2.top_left) + b + c + d);
            assert(leaf_ids(old) =~= pre + seq![target] + (post + b + c + d));
            assert(leaf_ids(new) =~= pre + id_range(nid, 4) + (post + b + c + d));
        } else if will_split(q.top_right, target) {
            lemma_split_replaces_shard(q.top_right, q2.top_right, target, nid, center);
            assert(wf(new));
            let (pre, post) = choose|pre: Seq<u32>, post: Seq<u32>|
                leaf_ids(q.top_right) == pre + seq![target] + post && leaf_ids(q2.top_right) == pre
                    + id_range(nid, 4) + post;
            assert(leaf_ids(new) =~= a + leaf_ids(q2.top_right) + c + d);
            assert(leaf_ids(old) =~= (a + pre) + seq![target] + (post + c + d));
            assert(leaf_ids(new) =~= (a + pre) + id_range(nid, 4) + (post + c + d));
        } else if will_split(q.bottom_left, target) {
            lemma_split_replaces_shard(q.bottom_left, q2.bottom_left, target, nid, center);
            assert(wf(new));
            let (pre, post) = choose|pre: Seq<u32>, post: Seq<u32>|
                leaf_ids(q.bottom_left) == pre + seq![target] + post && leaf_ids(q2.bottom_left)
                    == pre + id_range(nid, 4) + post;
            assert(leaf_ids(new) =~= a + b + leaf_ids(q2.bottom_left) + d);
            assert(leaf_ids(old) =~= (a + b + pre) + seq![target] + (post + d));
            assert(leaf_ids(new) =~= (a + b + pre) + id_range(nid, 4) + (post + d));
        } else {
            lemma_split_replaces_shard(q.bottom_right, q2.bottom_right, target, nid, center);
            assert(wf(new));
            let (pre, post) = choose|pre: Seq<u32>, post: Seq<u32>|
                leaf_ids(q.bottom_right) == pre + seq![target] + post && leaf_ids(q2.bottom_right)
                    == pre + id_range(nid, 4) + post;
            assert(leaf_ids(new) =~= a + b + c + leaf_ids(q2.bottom_right));
            assert(leaf_ids(old) =~= (a + b + c + pre) + seq![target] + post);
            assert(leaf_ids(new) =~= (a + b + c + pre) + id_range(nid, 4) + post);
        }
    }
}

/// When the shard ids of a tree are distinct and all below `nid`,
/// splitting keeps them distinct.
pub proof fn lemma_split_keeps_ids_distinct<F: Fn(Rect) -> Vec2>(
    old: QuadTree,
    new: QuadTree,
    target: u32,
    nid: int,
    center: F,
)
    requires
        wf(old),
        split_rel(old, new, target, nid, center),
        leaf_ids(old).no_duplicates(),
        forall|i: int| 0 <= i < leaf_ids(old).len() ==> leaf_ids(old)[i] < nid,
        0 <= nid,
        will_split(old, target) ==> nid + 4 <= u32::MAX + 1,
    ensures
        leaf_ids(new).no_duplicates(),
{
    if will_split(old, target) {
        lemma_split_replaces_shard(old, new, target, nid, center);
        let (pre, post) = choose|pre: Seq<u32>, post: Seq<u32>|
            leaf_ids(old) == pre + seq![target] + post && leaf_ids(new) == pre + id_range(nid, 4)
                + post;
        let s = leaf_ids(new);
        let o = leaf_ids(old);
        let n = id_range(nid, 4);
        let lp = pre.len() as int;
        assert(o.len() == lp + 1 + post.len());
        assert(s.len() == lp + 4 + post.len());
        assert forall|k: int| 0 <= k < 4 implies n[k] == nid + k by {}
        assert forall|i: int, j: int| 0 <= i < j < s.len() implies s[i] != s[j] by {
            if i < lp && j < lp {
                assert(s[i] == o[i] && s[j] == o[j]);
            } else if i < lp && j < lp + 4 {
                assert(s[i] == o[i]);
                assert(s[j] == n[j - lp]);
                assert(o[i] < nid);
            } else if i < lp {
                assert(s[i] == o[i] && s[j] == o[j - 3]);
            } else if i < lp + 4 && j < lp + 4 {
                assert(s[i] == n[i - lp] && s[j] == n[j - lp]);
            } else if i < lp + 4 {
                assert(s[i] == n[i - lp]);
                assert(s[j] == o[j - 3]);
                assert(o[j - 3] < nid);
            } else {
                assert(s[i] == o[i - 3] && s[j] == o[j - 3]);
            }
        }
    }
}
/// Splitting a well-formed tree at shard `target` keeps every other leaf,
/// with its zone.
pub proof fn lemma_split_keeps_other_leaves<F: Fn(Rect) -> Vec2>(
    old: QuadTree,
    new: QuadTree,
    target: u32,
    nid: int,
    center: F,
    leaf: (u32, Rect),
)
    requires
        wf(old),
        split_rel(old, new, target, nid, center),
        spec_leaves(old).contains(leaf),
        leaf.0 != target,
    ensures
        spec_leaves(new).contains(leaf),
    decreases old,
{
    broadcast use vstd::seq_lib::lemma_seq_concat_contains_all_elements;

    if will_split(old, target) {
        if old.shard_id == Some(target) {
            assert(old.children is None);
            assert(spec_leaves(old) =~= seq![(target, old.bounds)]);
        } else {
            let q = old.children.unwrap();
            let q2 = new.children.unwrap();
            assert(spec_leaves(old) =~= spec_leaves(q.top_left) + spec_leaves(q.top_right) + spec_leaves(
                q.bottom_left,
            ) + spec_leaves(q.bottom_right));
            assert(spec_leaves(new) =~= spec_leaves(q2.top_left) + spec_leaves(q2.top_right) + spec_leaves(
                q2.bottom_left,
            ) + spec_leaves(q2.bottom_right));
            if will_split(q.top_left, target) {
                if spec_leaves(q.top_left).contains(leaf) {
                    lemma_split_keeps_other_leaves(q.top_left, q2.top_left, target, nid, center, leaf);
                }
            } else if will_split(q.top_right, target) {
                if spec_leaves(q.top_right).contains(leaf) {
                    lemma_split_keeps_other_leaves(q.top_right, q2.top_right, target, nid, center, leaf);
                }
            } else if will_split(q.bottom_left, target) {
                if spec_leaves(q.bottom_left).contains(leaf) {
                    lemma_split_keeps_other_leaves(q.bottom_left, q2.bottom_left, target, nid, center, leaf);
                }
            } else {
                if spec_leaves(q.bottom_right).contains(leaf) {
                    lemma_split_keeps_other_leaves(q.bottom_right, q2.bottom_right, target, nid, center, leaf);
                }
            }
        }
    }
}


/// The shard that `shard_for` finds in a well-formed tree is one of its shards.
pub proof fn lemma_shard_for_is_a_shard(t: QuadTree, p: Vec2)
    requires
        wf(t),
    ensures
        spec_shard_for(t, p) matches Some(id) ==> leaf_ids(t).contains(id),
    decreases t,
{
    if t.bounds.spec_contains(p) {
        match t.children {
            None => {
                assert(leaf_ids(t)[0] == t.shard_id.unwrap());
            },
            Some(q) => {
                lemma_shard_for_is_a_shard(q.top_left, p);
                lemma_shard_for_is_a_shard(q.top_right, p);
                lemma_shard_for_is_a_shard(q.bottom_left, p);
                lemma_shard_for_is_a_shard(q.bottom_right, p);
                let a = leaf_ids(q.top_left);
                let b = leaf_ids(q.top_right);
                let c = leaf_ids(q.bottom_left);
                let d = leaf_ids(q.bottom_right);
                assert(leaf_ids(t) =~= a + b + c + d);
                if let Some(id) = spec_shard_for(t, p) {
                    if spec_shard_for(q.top_left, p).is_some() {
                        let k = choose|k: int| 0 <= k < a.len() && a[k] == id;
                        assert(leaf_ids(t)[k] == id);
                    } else if spec_shard_for(q.top_right, p).is_some() {
                        let k = choose|k: int| 0 <= k < b.len() && b[k] == id;
                        assert(leaf_ids(t)[a.len() + k] == id);
                    } else if spec_shard_for(q.bottom_left, p).is_some() {
                        let k = choose|k: int| 0 <= k < c.len() && c[k] == id;
                        assert(leaf_ids(t)[a.len() + b.len() + k] == id);
                    } else {
                        let k = choose|k: int| 0 <= k < d.len() && d[k] == id;
                        assert(leaf_ids(t)[a.len() + b.len() + c.len() + k] == id);
                    }
                }
            },
        }
    }
}

/// Every shard that `shards_near` reports is a shard of the tree.
pub proof fn lemma_near_ids_are_shards<F: Fn(Vec2, Rect) -> bool>(t: QuadTree, pos: Vec2, touches: F, id: u32)
    requires
        spec_near_ids(t, pos, touches).contains(id),
    ensures
        leaf_ids(t).contains(id),
    decreases t,
{
    match t.children {
        None => {
            assert(leaf_ids(t)[0] == id);
        },
        Some(q) => {
            let own: Seq<u32> = match t.shard_id {
                Some(x) => seq![x],
                None => seq![],
            };
            let a = leaf_ids(q.top_left);
            let b = leaf_ids(q.top_right);
            let c = leaf_ids(q.bottom_left);
            let d = leaf_ids(q.bottom_right);
            assert(leaf_ids(t) =~= own + a + b + c + d);
            let o = own.len() as int;
            if spec_near_ids(q.top_left, pos, touches).contains(id) {
                lemma_near_ids_are_shards(q.top_left, pos, touches, id);
                let k = choose|k: int| 0 <= k < a.len() && a[k] == id;
                assert(leaf_ids(t)[o + k] == id);
            } else if spec_near_ids(q.top_right, pos, touches).contains(id) {
                lemma_near_ids_are_shards(q.top_right, pos, touches, id);
                let k = choose|k: int| 0 <= k < b.len() && b[k] == id;
                assert(leaf_ids(t)[o + a.len() + k] == id);
            } else if spec_near_ids(q.bottom_left, pos, touches).contains(id) {
                lemma_near_ids_are_shards(q.bottom_left, pos, touches, id);
                let k = choose|k: int| 0 <= k < c.len() && c[k] == id;
                assert(leaf_ids(t)[o + a.len() + b.len() + k] == id);
            } else {
                lemma_near_ids_are_shards(q.bottom_right, pos, touches, id);
                let k = choose|k: int| 0 <= k < d.len() && d[k] == id;
                assert(leaf_ids(t)[o + a.len() + b.len() + c.len() + k] == id);
            }
        },
    }
}

/// A tree built by `generate` numbers its shards without repetition.
pub proof fn lemma_generated_ids_distinct(len: nat)
    requires
        1 + len <= u32::MAX + 1,
    ensures
        id_range(1, len).no_duplicates(),
{
}


/// The point lies in the rectangle, edges included: the centre of a zone.
pub open spec fn centre_inside(b: Rect, c: Vec2) -> bool {
    &&& f32_le(b.min.x, c.x)
    &&& f32_le(c.x, b.max.x)
    &&& f32_le(b.min.y, c.y)
    &&& f32_le(c.y, b.max.y)
}

/// The closure answers, for every zone that holds a point, a centre inside
/// that zone.
pub open spec fn centres_inside<F: Fn(Rect) -> Vec2>(center: F) -> bool {
    forall|b: Rect, c: Vec2|
        #[trigger] center.ensures((b,), c) && f32_le(b.min.x, b.max.x) && f32_le(b.min.y, b.max.y)
            ==> centre_inside(b, c)
}

/// A number whose key lies between those of two corners lies between the
/// sides of the rectangle they span.
proof fn lemma_between(a: u32, b: u32, p: u32)
    requires
        !f32_is_nan(a),
        !f32_is_nan(b),
        !f32_is_nan(p),
        f32_key(a) <= f32_key(p) <= f32_key(b),
    ensures
        f32_le(spec_min(a, b), p),
        f32_le(p, spec_max(a, b)),
{
}

/// In a well-formed tree whose inner nodes split their zones around a
/// centre inside the zone (as `generate` builds it with such a closure),
/// every point of the zone falls in some shard.
pub proof fn lemma_split_tree_covers<F: Fn(Rect) -> Vec2>(t: QuadTree, center: F, p: Vec2)
    requires
        wf(t),
        split_by(t, center),
        centres_inside(center),
        t.bounds.spec_contains(p),
    ensures
        spec_shard_for(t, p).is_some(),
    decreases t,
{
    match t.children {
        None => {},
        Some(q) => {
            let c = choose|c: Vec2| center.ensures((t.bounds,), c) && children_around(t, c);
            let b = t.bounds;
            assert(centre_inside(b, c));
            let r = quadrant_rects(b, c);
            let left = f32_key(p.x) <= f32_key(c.x);
            let up = f32_key(c.y) <= f32_key(p.y);
            if left && up {
                lemma_between(b.min.x, c.x, p.x);
                lemma_between(c.y, b.max.y, p.y);
                assert(r.0.spec_contains(p));
                lemma_split_tree_covers(q.top_left, center, p);
            } else if !left && up {
                lemma_between(c.x, b.max.x, p.x);
                lemma_between(c.y, b.max.y, p.y);
                assert(r.1.spec_contains(p));
                lemma_split_tree_covers(q.top_right, center, p);
            } else if left && !up {
                lemma_between(b.min.x, c.x, p.x);
                lemma_between(b.min.y, c.y, p.y);
                assert(r.2.spec_contains(p));
                lemma_split_tree_covers(q.bottom_left, center, p);
            } else {
                lemma_between(c.x, b.max.x, p.x);
                lemma_between(b.min.y, c.y, p.y);
                assert(r.3.spec_contains(p));
                lemma_split_tree_covers(q.bottom_right, center, p);
            }
        },
    }
}

} // verus!
