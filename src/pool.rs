//! A fixed set of segments with ids `0..k`, a placement policy that routes
//! keys to them, and a cache in front of them.

use crate::metric::{Metadata, Size};
use crate::placement::{AllocErr, Allocator};
use crate::segment::{is_plan, AppendPlan, SegmentErr, SegmentFile};
use vstd::prelude::*;

verus! {

/// `segments` are `k` fresh segments, the one at position `i` with id `i`.
pub open spec fn fresh_segments(segments: Seq<SegmentFile>, k: u64) -> bool {
    &&& segments.len() == k
    &&& forall|i: int| 0 <= i < k ==> #[trigger] segments[i] == (SegmentFile { id: i as u64, size: 0 })
}

/// What planning an append of `len` bytes to segment `id` gives.
pub open spec fn plan_outcome(
    segments: Seq<SegmentFile>,
    id: u64,
    len: u64,
    r: Result<AppendPlan, SegmentErr>,
) -> bool {
    if id >= segments.len() {
        r == Err::<AppendPlan, SegmentErr>(
            SegmentErr::AllocErr(AllocErr::OutOfRange(id, segments.len() as u64)),
        )
    } else if segments[id as int].size + len > u64::MAX {
        r == Err::<AppendPlan, SegmentErr>(SegmentErr::AllocErr(AllocErr::SegmentFull(id)))
    } else {
        r.is_ok() && is_plan(r.unwrap(), id, segments[id as int].size, len)
    }
}

/// What routing a key and planning an append of `len` bytes gives: a
/// refusal of the placement policy, or the outcome of planning for the
/// segment it chose.
pub open spec fn routed_outcome(segments: Seq<SegmentFile>, len: u64, r: Result<AppendPlan, SegmentErr>) -> bool {
    match r {
        Err(SegmentErr::AllocErr(_)) => true,
        _ => exists|id: u64| #[trigger] plan_outcome(segments, id, len, r),
    }
}

/// Whether `plan` applies to `segments`: its segment exists and has not
/// grown since the plan was made.
pub open spec fn plan_applies(segments: Seq<SegmentFile>, plan: AppendPlan) -> bool {
    plan.segment < segments.len() && segments[plan.segment as int].size == plan.offset
}

/// The segments after confirming `plan`: only the planned segment changes.
pub open spec fn confirmed(segments: Seq<SegmentFile>, plan: AppendPlan) -> Seq<SegmentFile> {
    if plan_applies(segments, plan) {
        segments.update(plan.segment as int, SegmentFile { id: plan.segment, size: plan.new_size })
    } else {
        segments
    }
}

/// Owns `k` segments for its whole life; `A` places keys, `C` caches values.
pub struct SegmentPool<A, C> {
    segments: Vec<SegmentFile>,
    metadata: Metadata,
    allocator: A,
    cache: C,
}

impl<A, C> SegmentPool<A, C> {
    pub closed spec fn spec_segments(&self) -> Seq<SegmentFile> {
        self.segments@
    }

    pub closed spec fn spec_base(&self) -> Seq<char> {
        self.metadata.base@
    }

    pub closed spec fn spec_bounds(&self) -> Size {
        self.metadata.size
    }

    pub closed spec fn spec_cache(&self) -> C {
        self.cache
    }

    /// The segment at position `i` has id `i`.
    pub closed spec fn wf(&self) -> bool {
        &&& self.segments@.len() <= u64::MAX
        &&& forall|i: int|
            0 <= i < self.segments@.len() ==> (#[trigger] self.segments@[i]).id == i as u64
    }

    /// A pool of `k` fresh segments under `path`, with the given size bounds
    /// or the default ones.
    pub fn new(path: String, k: u64, size: Option<Size>, allocator: A, cache: C) -> (r: Self)
        requires
            k <= usize::MAX,
        ensures
            r.wf(),
            fresh_segments(r.spec_segments(), k),
            r.spec_base() == path@,
            r.spec_bounds() == Size::or_default_spec(size),
    {
        let mut segments: Vec<SegmentFile> = Vec::new();
        let mut i: u64 = 0;
        while i < k
            invariant
                i <= k <= usize::MAX,
                fresh_segments(segments@, i),
            decreases k - i,
        {
            let (segment, _record) = SegmentFile::new(i);
            segments.push(segment);
            i = i + 1;
        }
        SegmentPool {
            segments,
            metadata: Metadata { base: path, size: Size::or_default(size) },
            allocator,
            cache,
        }
    }

    /// The number of segments, fixed at construction.
    pub fn segment_count(&self) -> (r: u64)
        requires
            self.wf(),
        ensures
            r == self.spec_segments().len(),
    {
        self.segments.len() as u64
    }

    /// The bookkeeping of segment `id`, if the pool has it.
    pub fn segment(&self, id: u64) -> (r: Option<SegmentFile>)
        ensures
            r == if id < self.spec_segments().len() {
                Some(self.spec_segments()[id as int])
            } else {
                None
            },
    {
        if id < self.segments.len() as u64 {
            Some(self.segments[id as usize])
        } else {
            None
        }
    }

    /// Plans an append of `len` bytes to segment `id`.
    pub fn plan_append_to(&self, id: u64, len: u64) -> (r: Result<AppendPlan, SegmentErr>)
        requires
            self.wf(),
        ensures
            plan_outcome(self.spec_segments(), id, len, r),
    {
        if id >= self.segments.len() as u64 {
            return Err(SegmentErr::AllocErr(AllocErr::OutOfRange(id, self.segments.len() as u64)));
        }
        match self.segments[id as usize].plan_append(len) {
            Some(plan) => Ok(plan),
            None => Err(SegmentErr::AllocErr(AllocErr::SegmentFull(id))),
        }
    }

    /// Routes `key` through the placement policy, then plans an append of
    /// `len` bytes to the chosen segment. A refusal of the policy comes back
    /// as an allocation error; whatever segment it picks, the outcome is that
    /// of planning for that segment.
    pub fn plan_append<K>(&mut self, key: K, len: u64) -> (r: Result<AppendPlan, SegmentErr>)
        where
            A: Allocator<K, u64, AllocErr>,
        requires
            old(self).wf(),
        ensures
            final(self).wf(),
            final(self).spec_segments() == old(self).spec_segments(),
            final(self).spec_base() == old(self).spec_base(),
            final(self).spec_bounds() == old(self).spec_bounds(),
            routed_outcome(old(self).spec_segments(), len, r),
    {
        match self.allocator.allocate(key) {
            Err(e) => Err(SegmentErr::AllocErr(e)),
            Ok(id) => self.plan_append_to(id, len),
        }
    }

    /// Records that `plan` was carried out on disk; `false`, changing
    /// nothing, where it does not apply to the pool as it stands.
    pub fn confirm(&mut self, plan: &AppendPlan) -> (r: bool)
        requires
            old(self).wf(),
        ensures
            final(self).wf(),
            r == plan_applies(old(self).spec_segments(), *plan),
            final(self).spec_segments() == confirmed(old(self).spec_segments(), *plan),
            final(self).spec_base() == old(self).spec_base(),
            final(self).spec_bounds() == old(self).spec_bounds(),
    {
        if plan.segment >= self.segments.len() as u64 {
            return false;
        }
        let i = plan.segment as usize;
        let mut segment = self.segments[i];
        if segment.confirm(plan) {
            self.segments[i] = segment;
            true
        } else {
            false
        }
    }

    /// The base location of the pool's files.
    pub fn base(&self) -> (r: &String)
        ensures
            r@ == self.spec_base(),
    {
        &self.metadata.base
    }

    /// The target size bounds of the pool's segments.
    pub fn bounds(&self) -> (r: Size)
        ensures
            r == self.spec_bounds(),
    {
        self.metadata.size
    }

    /// The cache in front of the pool, for reads that fall through to it.
    pub fn cache_mut(&mut self) -> (r: &mut C)
        ensures
            *r == old(self).spec_cache(),
            final(self).spec_cache() == *final(r),
            final(self).wf() == old(self).wf(),
            final(self).spec_segments() == old(self).spec_segments(),
            final(self).spec_base() == old(self).spec_base(),
            final(self).spec_bounds() == old(self).spec_bounds(),
    {
        &mut self.cache
    }
}

/// A fresh pool of `k` segments has exactly `k` segments with ids `0..k`,
/// each empty; an append confirmed on one of them changes that one alone, and
/// every other segment still plans its appends as a fresh segment.
pub proof fn lemma_pool_cardinality(segments: Seq<SegmentFile>, k: u64, plan: AppendPlan, other: u64, len: u64)
    requires
        fresh_segments(segments, k),
        plan.segment < k,
        is_plan(plan, plan.segment, 0, plan.len),
        other < k,
        other != plan.segment,
    ensures
        segments.len() == k,
        forall|i: int| 0 <= i < k ==> (#[trigger] segments[i]).id == i && segments[i].size == 0,
        confirmed(segments, plan)[plan.segment as int].size == plan.len,
        confirmed(segments, plan)[other as int] == segments[other as int],
        confirmed(segments, plan).len() == k,
        forall|r: Result<AppendPlan, SegmentErr>|
            plan_outcome(confirmed(segments, plan), other, len, r) ==> r.is_ok() && is_plan(
                r.unwrap(),
                other,
                0,
                len,
            ),
{
    assert(segments[plan.segment as int].size == 0);
}

/// Appends to two distinct segments do not touch each other: confirming
/// one leaves the other's plan applicable, and the two confirmations give
/// the same segments in either order, each segment with its own new length.
pub proof fn lemma_isolation(segments: Seq<SegmentFile>, p: AppendPlan, q: AppendPlan)
    requires
        p.segment != q.segment,
        plan_applies(segments, p),
        plan_applies(segments, q),
    ensures
        plan_applies(confirmed(segments, p), q),
        plan_applies(confirmed(segments, q), p),
        confirmed(confirmed(segments, p), q) == confirmed(confirmed(segments, q), p),
        confirmed(confirmed(segments, p), q)[p.segment as int].size == p.new_size,
        confirmed(confirmed(segments, p), q)[q.segment as int].size == q.new_size,
{
    assert(confirmed(confirmed(segments, p), q) =~= confirmed(confirmed(segments, q), p));
}

} // verus!
