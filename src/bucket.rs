//! A fixed-capacity index: a sequence of fixed-width segments of optional
//! values, where key `k` lives at offset `k % width` of segment `k / width`.

use vstd::prelude::*;

verus! {

/// Number of slots in each segment of a bucket.
pub const SEGMENT_SIZE: usize = 256;

/// The segment that `key` belongs to.
pub fn sindex(key: usize, size: usize) -> (r: usize)
    requires
        size != 0,
    ensures
        r == key / size,
{
    key / size
}

/// The offset of `key` inside its segment.
pub fn index(key: usize, size: usize) -> (r: usize)
    requires
        size != 0,
    ensures
        r == key % size,
{
    key % size
}

/// A segment holds one optional value per slot; the index never grows.
pub struct FixedBucket<T> {
    inner: Vec<Vec<Option<T>>>,
}

/// Errors of bucket operations that address a slot.
#[derive(Debug, Clone, Copy, PartialEq, Eq)]
pub enum BucketError<T> {
    SegmentNotFound(usize, T),
    IndexNotFound(usize, usize, T),
}

/// Errors of filter operations.
#[derive(Debug, Clone, Copy, PartialEq, Eq)]
pub enum FilterError<T> {
    /// The filter cannot take more distinct keys at this capacity.
    FilterFull(usize),
    UnknownError(T),
}

/// The number of slots that `with_capacity(requested)` provides: one more
/// segment than the whole segments the request fills.
pub open spec fn capacity_for(requested: nat) -> nat {
    ((requested / SEGMENT_SIZE as nat) + 1) * SEGMENT_SIZE as nat
}

/// What a lookup of `key` gives on the slots `slots`.
pub open spec fn lookup_of<T>(slots: Seq<Option<T>>, key: int) -> Option<T> {
    if 0 <= key < slots.len() {
        slots[key]
    } else {
        None
    }
}

/// The slots after storing `value` for `key`: unchanged beyond the capacity.
pub open spec fn mutate_of<T>(slots: Seq<Option<T>>, key: int, value: T) -> Seq<Option<T>> {
    if 0 <= key < slots.len() {
        slots.update(key, Some(value))
    } else {
        slots
    }
}

/// A bucket made for `requested` keys has `capacity_for(requested)` slots;
/// before any mutation every lookup gives `None`; after storing `value` for
/// a key in range a lookup of that key gives it and other keys are
/// unaffected; a lookup at or beyond the capacity gives `None`. Where the
/// request is a whole number of segments the capacity is one segment more
/// than the request rounded up.
pub proof fn lemma_bucket_determinism<T>(
    requested: nat,
    fresh: Seq<Option<T>>,
    key: int,
    other: int,
    value: T,
)
    requires
        requested > 0,
        fresh.len() == capacity_for(requested),
        forall|k: int| 0 <= k < fresh.len() ==> #[trigger] fresh[k] == None::<T>,
    ensures
        lookup_of(fresh, key) == None::<T>,
        0 <= key < fresh.len() ==> lookup_of(mutate_of(fresh, key, value), key) == Some(value),
        other != key ==> lookup_of(mutate_of(fresh, key, value), other) == lookup_of(fresh, other),
        key >= fresh.len() ==> lookup_of(mutate_of(fresh, key, value), key) == None::<T>,
        requested % (SEGMENT_SIZE as nat) == 0 ==> fresh.len() == ((requested + 255) / 256
            + 1) * 256,
{
    if requested % (SEGMENT_SIZE as nat) == 0 {
        assert((requested + 255) / 256 == requested / 256) by (nonlinear_arith)
            requires
                requested % 256 == 0,
        ;
    }
}

impl<T: Copy> View for FixedBucket<T> {
    type V = Seq<Option<T>>;

    /// The slots of all segments, in key order.
    closed spec fn view(&self) -> Seq<Option<T>> {
        Seq::new(
            (self.inner@.len() * SEGMENT_SIZE) as nat,
            |k: int| self.inner@[k / SEGMENT_SIZE as int]@[k % SEGMENT_SIZE as int],
        )
    }
}

impl<T: Copy> FixedBucket<T> {
    /// Every segment has exactly `SEGMENT_SIZE` slots.
    pub closed spec fn wf(&self) -> bool {
        &&& self.inner@.len() * SEGMENT_SIZE <= usize::MAX
        &&& forall|s: int|
            0 <= s < self.inner@.len() ==> #[trigger] self.inner@[s]@.len() == SEGMENT_SIZE
    }

    /// A bucket with room for at least `requested` keys, every slot empty.
    pub fn with_capacity(requested: usize) -> (r: FixedBucket<T>)
        requires
            requested != 0,
            capacity_for(requested as nat) <= usize::MAX,
        ensures
            r.wf(),
            r@.len() == capacity_for(requested as nat),
            r@.len() >= requested,
            forall|k: int| 0 <= k < r@.len() ==> #[trigger] r@[k] == None::<T>,
    {
        let count = sindex(requested, SEGMENT_SIZE) + 1;
        let mut data: Vec<Vec<Option<T>>> = Vec::with_capacity(count);
        let mut i: usize = 0;
        while i < count
            invariant
                i <= count,
                data@.len() == i,
                forall|s: int| 0 <= s < i ==> #[trigger] data@[s]@.len() == SEGMENT_SIZE,
                forall|s: int, o: int|
                    0 <= s < i && 0 <= o < SEGMENT_SIZE ==> #[trigger] data@[s]@[o] == None::<T>,
            decreases count - i,
        {
            let mut segment: Vec<Option<T>> = Vec::with_capacity(SEGMENT_SIZE);
            let mut j: usize = 0;
            while j < SEGMENT_SIZE
                invariant
                    j <= SEGMENT_SIZE,
                    segment@.len() == j,
                    forall|o: int| 0 <= o < j ==> #[trigger] segment@[o] == None::<T>,
                decreases SEGMENT_SIZE - j,
            {
                segment.push(None);
                j = j + 1;
            }
            data.push(segment);
            i = i + 1;
        }
        let r = FixedBucket { inner: data };
        assert forall|k: int| 0 <= k < r@.len() implies #[trigger] r@[k] == None::<T> by {
            assert(0 <= k / 256 < count && 0 <= k % 256 < 256) by (nonlinear_arith)
                requires
                    0 <= k < count * 256,
            ;
        }
        assert(capacity_for(requested as nat) >= requested) by (nonlinear_arith);
        r
    }

    /// The value stored for `key`; `None` where the slot is empty or the key
    /// is beyond the bucket's capacity. The two cases look alike on purpose.
    pub fn lookup(&self, key: usize) -> (r: Option<T>)
        requires
            self.wf(),
        ensures
            r == lookup_of(self@, key as int),
    {
        let sidx = sindex(key, SEGMENT_SIZE);
        let idx = index(key, SEGMENT_SIZE);
        if sidx < self.inner.len() {
            assert(key < self@.len()) by (nonlinear_arith)
                requires
                    sidx == key / 256,
                    sidx < self.inner@.len(),
                    self@.len() == self.inner@.len() * 256,
            ;
            self.inner[sidx][idx]
        } else {
            assert(key >= self@.len()) by (nonlinear_arith)
                requires
                    sidx == key / 256,
                    sidx >= self.inner@.len(),
                    self@.len() == self.inner@.len() * 256,
            ;
            None
        }
    }

    /// Stores `value` for `key`, replacing what was there, and returns `true`;
    /// a key beyond the capacity changes nothing and gives `false`.
    pub fn mutate(&mut self, key: usize, value: T) -> (r: bool)
        requires
            old(self).wf(),
        ensures
            final(self).wf(),
            r == (key < old(self)@.len()),
            final(self)@ == mutate_of(old(self)@, key as int, value),
    {
        let sidx = sindex(key, SEGMENT_SIZE);
        let idx = index(key, SEGMENT_SIZE);
        if sidx < self.inner.len() {
            let ghost before = self@;
            assert(key < before.len()) by (nonlinear_arith)
                requires
                    sidx == key / 256,
                    sidx < self.inner@.len(),
                    before.len() == self.inner@.len() * 256,
            ;
            self.inner[sidx][idx] = Some(value);
            assert forall|k: int| 0 <= k < self@.len() implies #[trigger] self@[k] == before.update(
                key as int,
                Some(value),
            )[k] by {
                if k != key {
                    assert(k / 256 != sidx || k % 256 != idx) by (nonlinear_arith)
                        requires
                            k != key,
                            sidx == key / 256,
                            idx == key % 256,
                            0 <= k,
                    ;
                }
            }
            assert(self@ =~= before.update(key as int, Some(value)));
            true
        } else {
            assert(key >= self@.len()) by (nonlinear_arith)
                requires
                    sidx == key / 256,
                    sidx >= self.inner@.len(),
                    self@.len() == self.inner@.len() * 256,
            ;
            false
        }
    }

    /// Total number of slots.
    pub fn size(&self) -> (r: usize)
        requires
            self.wf(),
        ensures
            r == self@.len(),
    {
        self.inner.len() * SEGMENT_SIZE
    }
}

} // verus!
