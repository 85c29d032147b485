//! A static spatial index over bounding boxes.

use vstd::prelude::*;
use static_aabb2d_index::{StaticAABB2DIndex, StaticAABB2DIndexBuilder, StaticAABB2DIndexBuildError};
use crate::geometry::Aabb;

verus! {

/// The spatial index of one frame: built once from every box, then only
/// queried. It holds a `StaticAABB2DIndex` over `i64` coordinates.
#[verifier::external_body]
pub struct SpatialIndex {
    inner: StaticAABB2DIndex<i64>,
}

/// The index under construction: a `StaticAABB2DIndexBuilder` over `i64`
/// coordinates, filled box by box.
#[verifier::external_body]
pub struct IndexBuilder {
    inner: StaticAABB2DIndexBuilder<i64>,
}

/// `StaticAABB2DIndexBuildError`, which a builder gives in place of an index
/// when it was not handed as many boxes as it was made for.
#[verifier::external_type_specification]
#[verifier::external_body]
pub struct ExStaticIndexBuildError(StaticAABB2DIndexBuildError);

/// The most boxes one index holds. The tree over them takes less than 64
/// bytes for each box, so that with this many it still fits into what can be
/// allocated at once.
pub const MAX_INDEXED: usize = usize::MAX / 128;

/// The boxes held by an index, in the order in which they were added.
pub uninterp spec fn index_boxes(index: SpatialIndex) -> Seq<Aabb>;

/// The boxes added to a builder so far, in order.
pub uninterp spec fn builder_boxes(builder: IndexBuilder) -> Seq<Aabb>;

/// The number of boxes a builder was created for.
pub uninterp spec fn builder_capacity(builder: IndexBuilder) -> nat;

/// The positions that a query over `boxes` reports for `area`, in the order
/// in which the index walks its tree.
pub uninterp spec fn query_hits(boxes: Seq<Aabb>, area: Aabb) -> Seq<usize>;

/// What every query answer satisfies: each position of a box that overlaps
/// `area` is listed exactly once, and nothing else is.
pub open spec fn exact_hits(boxes: Seq<Aabb>, area: Aabb, hits: Seq<usize>) -> bool {
    &&& hits.no_duplicates()
    &&& forall|j: usize| #[trigger]
        hits.contains(j) <==> (j < boxes.len() && boxes[j as int].overlaps(area))
}

/// `StaticAABB2DIndexBuilder::new`: a builder for exactly `count` boxes, none
/// added yet.
#[verifier::external_body]
fn builder_new(count: usize) -> (builder: IndexBuilder)
    requires
        count <= MAX_INDEXED,
    ensures
        builder_boxes(builder) == Seq::<Aabb>::empty(),
        builder_capacity(builder) == count,
{
    IndexBuilder { inner: StaticAABB2DIndexBuilder::new(count) }
}

/// `StaticAABB2DIndexBuilder::add`: appends one box. The box must have its
/// corners in order, which the builder checks in debug builds.
#[verifier::external_body]
fn builder_add(builder: &mut IndexBuilder, b: Aabb)
    requires
        b.valid(),
        builder_boxes(*old(builder)).len() < builder_capacity(*old(builder)),
    ensures
        builder_boxes(*final(builder)) == builder_boxes(*old(builder)).push(b),
        builder_capacity(*final(builder)) == builder_capacity(*old(builder)),
{
    builder.inner.add(b.min_x, b.min_y, b.max_x, b.max_y);
}

/// `StaticAABB2DIndexBuilder::build`: succeeds exactly when as many boxes
/// were added as the builder was created for, and the index then holds them
/// in the order of their addition. With `i64` coordinates the conversion to
/// `f64` that the builder performs cannot fail.
#[verifier::external_body]
fn builder_build(builder: IndexBuilder) -> (built: Result<
    SpatialIndex,
    StaticAABB2DIndexBuildError,
>)
    ensures
        built.is_ok() <==> builder_boxes(builder).len() == builder_capacity(builder),
        built matches Ok(index) ==> index_boxes(index) == builder_boxes(builder),
{
    match builder.inner.build() {
        Ok(inner) => Ok(SpatialIndex { inner }),
        Err(e) => Err(e),
    }
}

/// `StaticAABB2DIndex::query`: the positions of the boxes that overlap the
/// query area, each once, in an order fixed by the index's contents.
#[verifier::external_body]
fn index_query(index: &SpatialIndex, area: Aabb) -> (hits: Vec<usize>)
    ensures
        hits@ == query_hits(index_boxes(*index), area),
        exact_hits(index_boxes(*index), area, hits@),
{
    index.inner.query(area.min_x, area.min_y, area.max_x, area.max_y)
}

/// `StaticAABB2DIndex::count`: the number of boxes that the index holds.
#[verifier::external_body]
fn index_count(index: &SpatialIndex) -> (count: usize)
    ensures
        count == index_boxes(*index).len(),
{
    index.inner.count()
}

impl View for SpatialIndex {
    type V = Seq<Aabb>;

    closed spec fn view(&self) -> Seq<Aabb> {
        index_boxes(*self)
    }
}

impl SpatialIndex {
    /// Builds the index of `boxes`; position `i` of the index is `boxes[i]`.
    pub fn build(boxes: &Vec<Aabb>) -> (index: SpatialIndex)
        requires
            boxes.len() <= MAX_INDEXED,
            forall|i: int| 0 <= i < boxes.len() ==> (#[trigger] boxes[i]).valid(),
        ensures
            index@ == boxes@,
    {
        let mut builder = builder_new(boxes.len());
        let mut i: usize = 0;
        while i < boxes.len()
            invariant
                i <= boxes.len(),
                builder_capacity(builder) == boxes.len(),
                builder_boxes(builder) == boxes@.take(i as int),
                forall|k: int| 0 <= k < boxes.len() ==> (#[trigger] boxes[k]).valid(),
            decreases boxes.len() - i,
        {
            builder_add(&mut builder, boxes[i]);
            proof {
                assert(boxes@.take(i as int).push(boxes[i as int]) =~= boxes@.take(i + 1));
            }
            i += 1;
        }
        proof {
            assert(boxes@.take(boxes.len() as int) =~= boxes@);
        }
        match builder_build(builder) {
            Ok(index) => index,
            Err(_) => vstd::pervasive::unreached(),
        }
    }

    /// The number of boxes in the index.
    pub fn len(&self) -> (count: usize)
        ensures
            count == self@.len(),
    {
        index_count(self)
    }

    /// The positions of the boxes that overlap `area`: each exactly once, in
    /// no order that a caller may rely on.
    pub fn query(&self, area: Aabb) -> (hits: Vec<usize>)
        ensures
            hits@ == query_hits(self@, area),
            exact_hits(self@, area, hits@),
    {
        index_query(self, area)
    }
}

} // verus!
