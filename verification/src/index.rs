//! The obstacle index: every rectangle that was inserted, found again by the
//! rectangles that touch it.

use vstd::prelude::*;
use vstd::multiset::Multiset;
use vstd::seq_lib::{lemma_multiset_commutative, to_multiset_build};
use crate::geometry::{Rect, Region, lemma_inflated_overlap_is_touch, lemma_touches_symmetric};
use crate::quadtree::{RegionTree, stored_regions, tree_new, tree_insert, tree_regions, tree_query};

verus! {

/// Depth of the quadtree behind an index: it covers coordinates up to `2^16`.
/// Rectangles that it cannot hold are kept in a plain list beside it.
pub const INDEX_DEPTH: usize = 16;

/// Largest magnitude of a coordinate or an extent in a query.
pub const COORD_LIMIT: i64 = 0x1_0000_0000_0000;

/// Why a rectangle was refused as an obstacle.
#[derive(Clone, Copy, Debug, PartialEq, Eq, Structural)]
pub enum GeometryError {
    /// The width or the height is negative.
    NegativeExtent,
}

/// A rectangle that was inserted is found in every listing taken afterwards,
/// with the anchor and the size it was given, whether or not it fits a
/// world; and the listing has grown by that one rectangle.
pub proof fn lemma_inserted_is_listed(before: Multiset<Rect>, o: Rect, listing: Seq<Rect>)
    requires
        listing.to_multiset() == before.insert(o),
    ensures
        listing.contains(o),
        listing.len() == before.len() + 1,
        forall|r: Rect| before.count(r) > 0 ==> listing.contains(r),
{
    listing.to_multiset_ensures();
    assert(before.insert(o).count(o) > 0);
    assert forall|r: Rect| before.count(r) > 0 implies listing.contains(r) by {
        assert(before.insert(o).count(r) > 0);
    }
}

/// All rectangles that were inserted: those that the quadtree can hold in
/// the quadtree, the others in a list of their own.
pub struct ObstacleIndex {
    tree: RegionTree,
    outliers: Vec<Rect>,
    counter: u32,
}

impl ObstacleIndex {
    /// The rectangles in the index, in the order in which they are listed.
    pub closed spec fn listing(&self) -> Seq<Rect> {
        stored_regions(self.tree) + self.outliers@
    }

    /// The rectangles in the index, with multiplicity.
    pub closed spec fn view(&self) -> Multiset<Rect> {
        stored_regions(self.tree).to_multiset().add(self.outliers@.to_multiset())
    }

    /// The identifier that the next rectangle will get.
    pub closed spec fn next_id(&self) -> nat {
        self.counter as nat
    }

    /// Some rectangle of the index touches the region.
    pub open spec fn touches_any(&self, r: Region) -> bool {
        exists|o: Rect| #[trigger] self@.count(o) > 0 && o.region().touches(r)
    }

    /// The listing holds what the index holds.
    pub proof fn lemma_listing(&self)
        ensures
            self.listing().to_multiset() == self@,
    {
        lemma_multiset_commutative(stored_regions(self.tree), self.outliers@);
    }

    /// An index that holds nothing.
    pub fn new() -> (index: Self)
        ensures
            index@ == Multiset::<Rect>::empty(),
            index.listing() == Seq::<Rect>::empty(),
            index.next_id() == 0,
    {
        let index = ObstacleIndex { tree: tree_new(INDEX_DEPTH), outliers: Vec::new(), counter: 0 };
        proof {
            index.outliers@.to_multiset_ensures();
        }
        index
    }

    /// Whether another rectangle can still be given an identifier.
    pub fn has_room(&self) -> (room: bool)
        ensures
            room == (self.next_id() < u32::MAX),
    {
        self.counter < u32::MAX
    }

    /// Stores the rectangle exactly as given and returns its identifier;
    /// identifiers count up from zero. A rectangle with a negative extent is
    /// refused and changes nothing.
    pub fn insert(&mut self, o: Rect) -> (res: Result<u32, GeometryError>)
        requires
            old(self).next_id() < u32::MAX,
        ensures
            o.well_formed() ==> res == Ok::<u32, GeometryError>(old(self).next_id() as u32)
                && final(self)@ == old(self)@.insert(o)
                && final(self).next_id() == old(self).next_id() + 1,
            !o.well_formed() ==> res == Err::<u32, GeometryError>(GeometryError::NegativeExtent)
                && final(self)@ == old(self)@
                && final(self).listing() == old(self).listing()
                && final(self).next_id() == old(self).next_id(),
    {
        if o.size.0 < 0 || o.size.1 < 0 {
            return Err(GeometryError::NegativeExtent);
        }
        let id = self.counter;
        let indexable = o.size.0 > 0 && o.size.1 > 0
            && o.anchor.0 as i64 + o.size.0 as i64 <= i32::MAX as i64
            && o.anchor.1 as i64 + o.size.1 as i64 <= i32::MAX as i64;
        let stored = indexable && tree_insert(&mut self.tree, o, id);
        if !stored {
            self.outliers.push(o);
            proof {
                to_multiset_build(old(self).outliers@, o);
            }
        }
        self.counter = id + 1;
        Ok(id)
    }

    /// Every rectangle of the index, with the anchor and size it was
    /// inserted with. The order is that of [`ObstacleIndex::listing`]: it
    /// stays the same as long as nothing is inserted.
    pub fn list(&self) -> (all: Vec<Rect>)
        ensures
            all@ == self.listing(),
            all@.to_multiset() == self@,
    {
        let mut all = tree_regions(&self.tree);
        let mut i: usize = 0;
        while i < self.outliers.len()
            invariant
                i <= self.outliers.len(),
                all@ == stored_regions(self.tree) + self.outliers@.take(i as int),
            decreases self.outliers.len() - i,
        {
            all.push(self.outliers[i]);
            i = i + 1;
        }
        proof {
            assert(self.outliers@.take(i as int) =~= self.outliers@);
            self.lemma_listing();
        }
        all
    }

    /// Whether any rectangle of the index touches the given one, which lies
    /// in the positive quadrant and keeps clear of the largest coordinate.
    pub(crate) fn touches(&self, x: i64, y: i64, w: i64, h: i64) -> (hit: bool)
        requires
            0 < x,
            0 < y,
            0 <= w,
            0 <= h,
            x + w < i32::MAX,
            y + h < i32::MAX,
        ensures
            hit == self.touches_any(Region { x: x as int, y: y as int, w: w as int, h: h as int }),
    {
        let ghost r = Region { x: x as int, y: y as int, w: w as int, h: h as int };
        let q = Rect {
            anchor: ((x - 1) as i32, (y - 1) as i32),
            size: ((w + 2) as i32, (h + 2) as i32),
        };
        proof {
            stored_regions(self.tree).to_multiset_ensures();
            self.outliers@.to_multiset_ensures();
        }
        if tree_query(&self.tree, q) {
            proof {
                let o = choose|o: Rect| #[trigger]
                    stored_regions(self.tree).contains(o) && o.region().overlaps(q.region());
                lemma_inflated_overlap_is_touch(r, o.region());
                lemma_touches_symmetric(r, o.region());
                assert(self@.count(o) > 0);
            }
            return true;
        }
        let mut i: usize = 0;
        while i < self.outliers.len()
            invariant
                i <= self.outliers.len(),
                r == (Region { x: x as int, y: y as int, w: w as int, h: h as int }),
                0 < x,
                0 < y,
                0 <= w,
                0 <= h,
                x + w < i32::MAX,
                y + h < i32::MAX,
                forall|k: int| 0 <= k < i ==> !(#[trigger] self.outliers[k]).region().touches(r),
            decreases self.outliers.len() - i,
        {
            let o = self.outliers[i];
            let ox = o.anchor.0 as i64;
            let oy = o.anchor.1 as i64;
            if ox <= x + w && x <= ox + o.size.0 as i64 && oy <= y + h && y <= oy + o.size.1 as i64 {
                proof {
                    self.outliers@.to_multiset_ensures();
                    assert(self@.count(o) > 0);
                }
                return true;
            }
            i = i + 1;
        }
        false
    }
}

} // verus!
