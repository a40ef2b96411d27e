//! Small descriptors: size bounds, record locations, pool metadata, and
//! sparse or dense data sets.

use vstd::prelude::*;

verus! {

/// Lower and upper byte targets of a segment.
#[derive(Debug, Clone, Copy, PartialEq, Eq)]
pub struct Size(pub u64, pub u64);

/// The placeholder bounds used when none are given.
pub const DEFAULT_BOUND: u64 = 500;

impl Default for Size {
    fn default() -> (r: Size)
        ensures
            r == Size(DEFAULT_BOUND, DEFAULT_BOUND),
    {
        Size(DEFAULT_BOUND, DEFAULT_BOUND)
    }
}

impl Size {
    pub open spec fn or_default_spec(size: Option<Size>) -> Size {
        match size {
            Some(s) => s,
            None => Size(DEFAULT_BOUND, DEFAULT_BOUND),
        }
    }

    /// The given bounds, or the default ones.
    pub fn or_default(size: Option<Size>) -> (r: Size)
        ensures
            r == Size::or_default_spec(size),
    {
        match size {
            Some(s) => s,
            None => Size::default(),
        }
    }
}

/// Where a record lives: its segment id and its offset in that segment.
#[derive(Debug, Clone, Copy, PartialEq, Eq)]
pub struct Index(pub u64, pub u64);

/// What a pool records about itself: where its files live and the target
/// size bounds of its segments.
#[derive(Debug)]
pub struct Metadata {
    pub base: String,
    pub size: Size,
}

/// The outcome of a sparse lookup: the data with the position found, or
/// nothing.
pub enum Value<T> {
    Found { data: Vec<T>, index: usize },
    NotFound,
}

/// Values paired with the keys that index them.
pub struct Sparse<T> {
    index: Vec<usize>,
    data: Vec<T>,
}

/// Values stored for every key.
pub struct Dense<T> {
    pub data: Vec<T>,
}

pub enum Data<T> {
    Sparse(Sparse<T>),
    Dense(Dense<T>),
}

/// Keys in non-decreasing order.
pub open spec fn sorted(s: Seq<usize>) -> bool {
    forall|i: int, j: int| 0 <= i <= j < s.len() ==> s[i] <= s[j]
}

/// The largest key of `s`, or 0 where there is none.
pub open spec fn max_key(s: Seq<usize>) -> usize
    decreases s.len(),
{
    if s.len() == 0 {
        0
    } else {
        let rest = max_key(s.drop_last());
        if s.last() > rest {
            s.last()
        } else {
            rest
        }
    }
}

impl<T> Sparse<T> {
    pub closed spec fn spec_index(&self) -> Seq<usize> {
        self.index@
    }

    pub closed spec fn spec_data(&self) -> Seq<T> {
        self.data@
    }

    pub fn with_index(index: Vec<usize>, data: Vec<T>) -> (r: Sparse<T>)
        ensures
            r.spec_index() == index@,
            r.spec_data() == data@,
    {
        Sparse { index, data }
    }

    /// Binary search for `idx` among the keys. Over sorted keys the search
    /// finds `idx` exactly when it is there; a position it gives always holds
    /// `idx`.
    pub fn get(self, idx: usize) -> (r: Value<T>)
        ensures
            match r {
                Value::Found { data, index } => data@ == self.spec_data() && index
                    < self.spec_index().len() && self.spec_index()[index as int] == idx,
                Value::NotFound => sorted(self.spec_index()) ==> !self.spec_index().contains(idx),
            },
    {
        let mut lo: usize = 0;
        let mut hi: usize = self.index.len();
        while lo < hi
            invariant
                lo <= hi <= self.index@.len(),
                sorted(self.index@) ==> forall|i: int|
                    0 <= i < self.index@.len() && #[trigger] self.index@[i] == idx ==> lo <= i < hi,
            decreases hi - lo,
        {
            let mid = lo + (hi - lo) / 2;
            let key = self.index[mid];
            if key == idx {
                return Value::Found { data: self.data, index: mid };
            } else if key < idx {
                lo = mid + 1;
            } else {
                hi = mid;
            }
        }
        Value::NotFound
    }

    /// The largest key, or 0 where there are none.
    pub fn size(self) -> (r: usize)
        ensures
            r == max_key(self.spec_index()),
    {
        let mut best: usize = 0;
        let mut i: usize = 0;
        while i < self.index.len()
            invariant
                i <= self.index@.len(),
                best == max_key(self.index@.subrange(0, i as int)),
            decreases self.index@.len() - i,
        {
            assert(self.index@.subrange(0, i + 1).drop_last() =~= self.index@.subrange(0, i as int));
            if self.index[i] > best {
                best = self.index[i];
            }
            i = i + 1;
        }
        assert(self.index@.subrange(0, i as int) =~= self.index@);
        best
    }
}

} // verus!
