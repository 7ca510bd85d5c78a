//! The quadtree that obstacle rectangles are stored in. Its behaviour is
//! taken on trust from its documentation and source: nothing in this file is
//! proved.

use vstd::prelude::*;
use vstd::arithmetic::power2::pow2;
use quadtree_rs::area::AreaBuilder;
use quadtree_rs::point::Point;
use quadtree_rs::Quadtree;
use crate::geometry::{Rect, Region};

verus! {

/// A `quadtree_rs::Quadtree` over `i32` coordinates that maps each stored
/// rectangle to the identifier it was inserted with.
#[verifier::external_body]
pub struct RegionTree {
    tree: Quadtree<i32, u32>,
}

/// The rectangles that the quadtree holds, in the order in which a walk of
/// the whole tree meets them.
pub uninterp spec fn stored_regions(tree: RegionTree) -> Seq<Rect>;

/// Side length of the square, anchored at the origin, that the quadtree covers.
pub uninterp spec fn covered_side(tree: RegionTree) -> int;

/// The square that a tree of the given side covers.
pub open spec fn covered_square(side: int) -> Region {
    Region { x: 0, y: 0, w: side, h: side }
}

/// `Quadtree::new`: an empty tree over the square of side `2^depth` anchored
/// at the origin.
#[verifier::external_body]
pub(crate) fn tree_new(depth: usize) -> (tree: RegionTree)
    requires
        depth <= 30,
    ensures
        stored_regions(tree) == Seq::<Rect>::empty(),
        covered_side(tree) == pow2(depth as nat),
{
    RegionTree { tree: Quadtree::new(depth) }
}

/// `Quadtree::insert`: the rectangle is stored when the covered square
/// contains it, and the tree is left as it was otherwise. Where the stored
/// rectangle comes in a walk is left open. The rectangle must have positive
/// extents and edges that fit the coordinate type, as `AreaBuilder::build`
/// and the edge arithmetic of `Area` demand.
#[verifier::external_body]
pub(crate) fn tree_insert(tree: &mut RegionTree, r: Rect, id: u32) -> (stored: bool)
    requires
        r.size.0 > 0,
        r.size.1 > 0,
        r.anchor.0 + r.size.0 <= i32::MAX,
        r.anchor.1 + r.size.1 <= i32::MAX,
    ensures
        stored == covered_square(covered_side(*old(tree))).contains(r.region()),
        stored ==> stored_regions(*final(tree)).to_multiset() == stored_regions(
            *old(tree),
        ).to_multiset().insert(r),
        !stored ==> stored_regions(*final(tree)) == stored_regions(*old(tree)),
        covered_side(*final(tree)) == covered_side(*old(tree)),
{
    let area = AreaBuilder::default()
        .anchor(Point { x: r.anchor.0, y: r.anchor.1 })
        .dimensions((r.size.0, r.size.1))
        .build()
        .unwrap();
    tree.tree.insert(area, id).is_some()
}

/// `Quadtree::regions`: every stored rectangle once, in the order in which
/// the tree is walked. The walk depends on the tree alone.
#[verifier::external_body]
pub(crate) fn tree_regions(tree: &RegionTree) -> (all: Vec<Rect>)
    ensures
        all@ == stored_regions(*tree),
{
    tree.tree
        .regions()
        .map(|a| Rect { anchor: (a.anchor().x, a.anchor().y), size: (a.width(), a.height()) })
        .collect()
}

/// `Quadtree::query`: whether any stored rectangle shares interior area with
/// the query rectangle, which must have positive extents and edges that fit
/// the coordinate type.
#[verifier::external_body]
pub(crate) fn tree_query(tree: &RegionTree, q: Rect) -> (hit: bool)
    requires
        q.size.0 > 0,
        q.size.1 > 0,
        q.anchor.0 + q.size.0 <= i32::MAX,
        q.anchor.1 + q.size.1 <= i32::MAX,
    ensures
        hit == (exists|r: Rect| #[trigger]
            stored_regions(*tree).contains(r) && r.region().overlaps(q.region())),
{
    let area = AreaBuilder::default()
        .anchor(Point { x: q.anchor.0, y: q.anchor.1 })
        .dimensions((q.size.0, q.size.1))
        .build()
        .unwrap();
    tree.tree.query(area).next().is_some()
}

} // verus!
