//! The storage facade: a live pool for data, a graveyard for tombstones, and
//! the collector that compacts live segments against the tombstones.

use crate::checksum::{be_bytes, be_value, decode_record, encode_record, lemma_be_round_trip};
use crate::pool::{routed_outcome, SegmentPool};
use crate::placement::{AllocErr, Allocator};
use crate::segment::{AppendPlan, SegmentErr};
use vstd::prelude::*;

verus! {

/// Removes the value stored under a key.
pub trait Delete<K, V>: Sized {
    type Error;

    fn delete(&mut self, idx: K) -> Result<(), Self::Error>;
}

/// Stores a value under a key: one of the random-access operations.
pub trait Put<K, V>: Sized {
    type Error;

    fn put(&mut self, idx: K, value: V) -> Result<(), Self::Error>;
}

/// A record of the live pool: `len` bytes of `key` at `offset` in `segment`.
#[derive(Debug, Clone, Copy, PartialEq, Eq)]
pub struct Entry {
    pub key: u64,
    pub segment: u64,
    pub offset: u64,
    pub len: u64,
}

/// Marks the record of `key` at `offset` in `segment` as deleted.
#[derive(Debug, Clone, Copy, PartialEq, Eq)]
pub struct Tombstone {
    pub key: u64,
    pub segment: u64,
    pub offset: u64,
}

/// Bytes of one tombstone in the graveyard's log.
pub const TOMBSTONE_LEN: usize = 24;

/// A tombstone's bytes: key, segment and offset, each 8 bytes big-endian.
pub open spec fn tombstone_bytes(t: Tombstone) -> Seq<u8> {
    be_bytes(t.key) + be_bytes(t.segment) + be_bytes(t.offset)
}

/// The tombstones of a log made of whole 24-byte records.
pub open spec fn tombstones_of(log: Seq<u8>) -> Seq<Tombstone> {
    Seq::new(
        log.len() / 24,
        |i: int|
            Tombstone {
                key: be_value(log.subrange(24 * i, 24 * i + 8)),
                segment: be_value(log.subrange(24 * i + 8, 24 * i + 16)),
                offset: be_value(log.subrange(24 * i + 16, 24 * i + 24)),
            },
    )
}

/// The bytes of a tombstone record.
pub fn encode_tombstone(t: &Tombstone) -> (r: Vec<u8>)
    ensures
        r@ == tombstone_bytes(*t),
{
    let mut r = encode_record(t.key);
    let mut s = encode_record(t.segment);
    let mut o = encode_record(t.offset);
    r.append(&mut s);
    r.append(&mut o);
    r
}

/// Eight bytes of `log` from `start`, as a big-endian integer.
fn read_field(log: &[u8], start: usize) -> (r: u64)
    requires
        start + 8 <= log@.len(),
    ensures
        r == be_value(log@.subrange(start as int, start + 8)),
{
    let n: usize = log.len();
    let end: usize = start + 8;
    let mut field: Vec<u8> = Vec::with_capacity(8);
    let mut i: usize = start;
    while i < end
        invariant
            end == start + 8,
            start <= i <= end <= log@.len(),
            field@ == log@.subrange(start as int, i as int),
        decreases start + 8 - i,
    {
        field.push(log[i]);
        i = i + 1;
    }
    match decode_record(field.as_slice()) {
        Some(v) => v,
        None => 0,
    }
}

/// Scans a graveyard log into its tombstones; `None` where the log does
/// not end on a record boundary.
pub fn decode_tombstones(log: &[u8]) -> (r: Option<Vec<Tombstone>>)
    ensures
        r.is_some() <==> log@.len() % 24 == 0,
        r.is_some() ==> r.unwrap()@ == tombstones_of(log@),
{
    if log.len() % TOMBSTONE_LEN != 0 {
        return None;
    }
    let n: usize = log.len();
    let count = n / TOMBSTONE_LEN;
    let mut out: Vec<Tombstone> = Vec::with_capacity(count);
    let mut i: usize = 0;
    while i < count
        invariant
            n == log@.len(),
            count == log@.len() / 24,
            log@.len() % 24 == 0,
            i <= count,
            out@.len() == i,
            forall|j: int| 0 <= j < i ==> #[trigger] out@[j] == tombstones_of(log@)[j],
        decreases count - i,
    {
        assert(24 * i + 24 <= log@.len()) by (nonlinear_arith)
            requires
                i < count,
                count == log@.len() / 24,
        ;
        let at = TOMBSTONE_LEN * i;
        let t = Tombstone {
            key: read_field(log, at),
            segment: read_field(log, at + 8),
            offset: read_field(log, at + 16),
        };
        out.push(t);
        i = i + 1;
    }
    assert(out@ =~= tombstones_of(log@));
    Some(out)
}

/// Decoding the record written for a tombstone gives that tombstone back.
pub proof fn lemma_tombstone_round_trip(t: Tombstone)
    ensures
        tombstones_of(tombstone_bytes(t)) == seq![t],
{
    lemma_be_round_trip(t.key);
    lemma_be_round_trip(t.segment);
    lemma_be_round_trip(t.offset);
    let b = tombstone_bytes(t);
    assert(b.subrange(0, 8) =~= be_bytes(t.key));
    assert(b.subrange(8, 16) =~= be_bytes(t.segment));
    assert(b.subrange(16, 24) =~= be_bytes(t.offset));
    assert(tombstones_of(b) =~= seq![t]);
}

/// Whether `e` is the record that some tombstone of `tombs` invalidated.
pub open spec fn is_dead(e: Entry, tombs: Seq<Tombstone>) -> bool {
    exists|j: int|
        0 <= j < tombs.len() && #[trigger] tombs[j] == (Tombstone {
            key: e.key,
            segment: e.segment,
            offset: e.offset,
        })
}

/// The entries that no tombstone invalidated, in their order.
pub open spec fn survivors_of(entries: Seq<Entry>, tombs: Seq<Tombstone>) -> Seq<Entry>
    decreases entries.len(),
{
    if entries.len() == 0 {
        Seq::empty()
    } else {
        let rest = survivors_of(entries.drop_last(), tombs);
        if is_dead(entries.last(), tombs) {
            rest
        } else {
            rest.push(entries.last())
        }
    }
}

/// The sum of the lengths of `entries`.
pub open spec fn total_len(entries: Seq<Entry>) -> nat
    decreases entries.len(),
{
    if entries.len() == 0 {
        0
    } else {
        total_len(entries.drop_last()) + entries.last().len as nat
    }
}

/// `entries` rewritten back to back from offset 0 into segment `target`.
pub open spec fn relocated(entries: Seq<Entry>, target: u64) -> Seq<Entry> {
    Seq::new(
        entries.len(),
        |i: int|
            Entry {
                key: entries[i].key,
                segment: target,
                offset: total_len(entries.subrange(0, i)) as u64,
                len: entries[i].len,
            },
    )
}

/// Whether `e` was invalidated by a tombstone of `tombs`.
fn dead(e: &Entry, tombs: &Vec<Tombstone>) -> (r: bool)
    ensures
        r == is_dead(*e, tombs@),
{
    let mut j: usize = 0;
    while j < tombs.len()
        invariant
            j <= tombs@.len(),
            forall|k: int|
                0 <= k < j ==> #[trigger] tombs@[k] != (Tombstone {
                    key: e.key,
                    segment: e.segment,
                    offset: e.offset,
                }),
        decreases tombs@.len() - j,
    {
        let t = tombs[j];
        if t.key == e.key && t.segment == e.segment && t.offset == e.offset {
            return true;
        }
        j = j + 1;
    }
    false
}

/// The entries that survive the tombstones, in their order.
pub fn survivors(entries: &Vec<Entry>, tombs: &Vec<Tombstone>) -> (r: Vec<Entry>)
    ensures
        r@ == survivors_of(entries@, tombs@),
{
    let mut out: Vec<Entry> = Vec::new();
    let mut i: usize = 0;
    while i < entries.len()
        invariant
            i <= entries@.len(),
            out@ == survivors_of(entries@.subrange(0, i as int), tombs@),
        decreases entries@.len() - i,
    {
        assert(entries@.subrange(0, i + 1).drop_last() =~= entries@.subrange(0, i as int));
        let e = entries[i];
        if !dead(&e, tombs) {
            out.push(e);
        }
        i = i + 1;
    }
    assert(entries@.subrange(0, i as int) =~= entries@);
    out
}

/// Lays `entries` out back to back from offset 0 in segment `target`;
/// `None` where their total length does not fit in 64 bits.
pub fn relocate(entries: &Vec<Entry>, target: u64) -> (r: Option<Vec<Entry>>)
    ensures
        r.is_some() <==> total_len(entries@) <= u64::MAX,
        r.is_some() ==> r.unwrap()@ == relocated(entries@, target),
{
    let mut out: Vec<Entry> = Vec::new();
    let mut offset: u64 = 0;
    let mut i: usize = 0;
    while i < entries.len()
        invariant
            i <= entries@.len(),
            offset == total_len(entries@.subrange(0, i as int)),
            out@ =~= relocated(entries@.subrange(0, i as int), target),
        decreases entries@.len() - i,
    {
        let e = entries[i];
        let ghost next = entries@.subrange(0, i + 1);
        assert(next.drop_last() =~= entries@.subrange(0, i as int));
        if e.len > u64::MAX - offset {
            proof {
                lemma_total_len_prefix(entries@, i + 1);
            }
            return None;
        }
        assert forall|j: int| 0 <= j <= i implies #[trigger] next.subrange(0, j)
            =~= entries@.subrange(0, i as int).subrange(0, j) by {
            assert(next.subrange(0, j) =~= entries@.subrange(0, j));
            assert(entries@.subrange(0, i as int).subrange(0, j) =~= entries@.subrange(0, j));
        }
        assert(next.subrange(0, i as int) =~= entries@.subrange(0, i as int));
        out.push(Entry { key: e.key, segment: target, offset, len: e.len });
        assert(out@ =~= relocated(next, target));
        offset = offset + e.len;
        i = i + 1;
    }
    assert(entries@.subrange(0, i as int) =~= entries@);
    Some(out)
}

/// A prefix never has more bytes than the whole.
proof fn lemma_total_len_prefix(s: Seq<Entry>, n: int)
    requires
        0 <= n <= s.len(),
    ensures
        total_len(s.subrange(0, n)) <= total_len(s),
    decreases s.len(),
{
    if n < s.len() {
        assert(s.drop_last().subrange(0, n) =~= s.subrange(0, n));
        lemma_total_len_prefix(s.drop_last(), n);
    } else {
        assert(s.subrange(0, n) =~= s);
    }
}

/// Every surviving entry is a non-invalidated entry of the input.
proof fn lemma_survivors_sound(entries: Seq<Entry>, tombs: Seq<Tombstone>)
    ensures
        forall|j: int|
            0 <= j < survivors_of(entries, tombs).len() ==> exists|i: int|
                0 <= i < entries.len() && entries[i] == #[trigger] survivors_of(entries, tombs)[j]
                    && !is_dead(entries[i], tombs),
    decreases entries.len(),
{
    if entries.len() > 0 {
        let init = entries.drop_last();
        lemma_survivors_sound(init, tombs);
        let rest = survivors_of(init, tombs);
        let surv = survivors_of(entries, tombs);
        assert forall|j: int| 0 <= j < surv.len() implies exists|i: int|
            0 <= i < entries.len() && entries[i] == #[trigger] surv[j] && !is_dead(entries[i], tombs) by {
            if j < rest.len() {
                assert(surv[j] == rest[j]);
                let i = choose|i: int|
                    0 <= i < init.len() && init[i] == #[trigger] rest[j] && !is_dead(init[i], tombs);
                assert(entries[i] == init[i]);
            } else {
                assert(entries[entries.len() - 1] == surv[j]);
            }
        }
    }
}

/// Every non-invalidated entry of the input survives.
proof fn lemma_survivors_complete(entries: Seq<Entry>, tombs: Seq<Tombstone>)
    ensures
        forall|i: int|
            0 <= i < entries.len() && !is_dead(#[trigger] entries[i], tombs) ==> exists|j: int|
                0 <= j < survivors_of(entries, tombs).len() && survivors_of(entries, tombs)[j]
                    == entries[i],
    decreases entries.len(),
{
    if entries.len() > 0 {
        let init = entries.drop_last();
        lemma_survivors_complete(init, tombs);
        let rest = survivors_of(init, tombs);
        let surv = survivors_of(entries, tombs);
        assert forall|i: int| 0 <= i < entries.len() && !is_dead(#[trigger] entries[i], tombs) implies exists|j: int|
            0 <= j < surv.len() && surv[j] == entries[i] by {
            if i < init.len() {
                assert(init[i] == entries[i]);
                let j = choose|j: int| 0 <= j < rest.len() && rest[j] == init[i];
                assert(surv[j] == rest[j]);
            } else {
                assert(surv[surv.len() - 1] == entries[i]);
            }
        }
    }
}

/// The compaction policy: a segment is rewritten once the share of its
/// bytes that are still live falls below `threshold_percent`.
#[derive(Debug, Clone, Copy, PartialEq, Eq)]
pub struct Collector {
    pub threshold_percent: u64,
}

/// The default share of live bytes below which a segment is compacted.
pub const DEFAULT_THRESHOLD_PERCENT: u64 = 50;

/// Whether `live` of `total` bytes is below `threshold` percent.
pub open spec fn below_threshold(live: u64, total: u64, threshold: u64) -> bool {
    live * 100 < threshold * total
}

impl Collector {
    pub fn new() -> (r: Collector)
        ensures
            r.threshold_percent == DEFAULT_THRESHOLD_PERCENT,
    {
        Collector { threshold_percent: DEFAULT_THRESHOLD_PERCENT }
    }

    /// Whether a segment with `live` of its `total` bytes still live should
    /// be rewritten.
    pub fn needs_compaction(&self, live: u64, total: u64) -> (r: bool)
        ensures
            r == below_threshold(live, total, self.threshold_percent),
    {
        let lhs: u128 = live as u128 * 100;
        proof {
            let t = self.threshold_percent as int;
            let n = total as int;
            vstd::arithmetic::mul::lemma_mul_upper_bound(
                t,
                u64::MAX as int,
                n,
                u64::MAX as int,
            );
            assert(u64::MAX as int * u64::MAX as int <= u128::MAX);
        }
        let rhs: u128 = self.threshold_percent as u128 * total as u128;
        lhs < rhs
    }

    /// The rewrite of a segment's entries: those that no tombstone
    /// invalidated, laid out back to back in segment `target`. `None` where
    /// their total length does not fit in 64 bits.
    pub fn compact(&self, entries: &Vec<Entry>, tombs: &Vec<Tombstone>, target: u64) -> (r: Option<
        Vec<Entry>,
    >)
        ensures
            r.is_some() <==> total_len(survivors_of(entries@, tombs@)) <= u64::MAX,
            r.is_some() ==> r.unwrap()@ == relocated(survivors_of(entries@, tombs@), target),
    {
        let live = survivors(entries, tombs);
        relocate(&live, target)
    }
}

/// Relocation keeps each entry's key and length and moves it to the target.
proof fn lemma_relocated_fields(entries: Seq<Entry>, target: u64)
    ensures
        relocated(entries, target).len() == entries.len(),
        forall|j: int|
            0 <= j < entries.len() ==> (#[trigger] relocated(entries, target)[j]).key == entries[j].key
                && relocated(entries, target)[j].len == entries[j].len && relocated(
                entries,
                target,
            )[j].segment == target,
{
}

/// After compaction every entry that no tombstone invalidated is still
/// found, with its key and length, at its new place in the target segment;
/// every entry found there stands for a non-invalidated input entry, so no
/// invalidated entry comes back; and all of them lie in the one target
/// segment, so compacting never adds segments.
pub proof fn lemma_compaction(entries: Seq<Entry>, tombs: Seq<Tombstone>, target: u64)
    ensures
        ({
            let out = relocated(survivors_of(entries, tombs), target);
            &&& forall|i: int|
                0 <= i < entries.len() && !is_dead(#[trigger] entries[i], tombs) ==> exists|j: int|
                    0 <= j < out.len() && out[j].key == entries[i].key && out[j].len
                        == entries[i].len
            &&& forall|j: int|
                0 <= j < out.len() ==> exists|i: int|
                    0 <= i < entries.len() && !is_dead(entries[i], tombs) && entries[i].key
                        == (#[trigger] out[j]).key && entries[i].len == out[j].len
            &&& forall|j: int| 0 <= j < out.len() ==> (#[trigger] out[j]).segment == target
        }),
{
    let surv = survivors_of(entries, tombs);
    let out = relocated(surv, target);
    lemma_relocated_fields(surv, target);
    assert forall|i: int| 0 <= i < entries.len() && !is_dead(#[trigger] entries[i], tombs) implies exists|j: int|
        0 <= j < out.len() && out[j].key == entries[i].key && out[j].len == entries[i].len by {
        lemma_survivors_complete(entries, tombs);
        let j = choose|j: int| 0 <= j < surv.len() && surv[j] == entries[i];
        assert(out[j].key == entries[i].key && out[j].len == entries[i].len);
    }
    assert forall|j: int| 0 <= j < out.len() implies exists|i: int|
        0 <= i < entries.len() && !is_dead(entries[i], tombs) && entries[i].key == (
        #[trigger] out[j]).key && entries[i].len == out[j].len by {
        lemma_survivors_sound(entries, tombs);
        assert(surv[j] == surv[j]);
        let i = choose|i: int|
            0 <= i < entries.len() && entries[i] == #[trigger] surv[j] && !is_dead(entries[i], tombs);
    }
}

/// The tombstone log: append and scan only, with no access by key.
pub struct Graveyard<A, C> {
    data: SegmentPool<A, C>,
}

impl<A, C> Graveyard<A, C> {
    pub closed spec fn spec_pool(&self) -> SegmentPool<A, C> {
        self.data
    }

    pub fn new(data: SegmentPool<A, C>) -> (r: Graveyard<A, C>)
        ensures
            r.spec_pool() == data,
    {
        Graveyard { data }
    }

    /// The pool that holds the log, for reading.
    pub fn pool(&self) -> (r: &SegmentPool<A, C>)
        ensures
            *r == self.spec_pool(),
    {
        &self.data
    }

    /// Plans appending the record of `t` to the log, routed by its key, and
    /// gives the record's bytes.
    pub fn append(&mut self, t: &Tombstone) -> (r: (Result<AppendPlan, SegmentErr>, Vec<u8>))
        where
            A: Allocator<u64, u64, AllocErr>,
        requires
            old(self).spec_pool().wf(),
        ensures
            final(self).spec_pool().wf(),
            final(self).spec_pool().spec_segments() == old(self).spec_pool().spec_segments(),
            routed_outcome(old(self).spec_pool().spec_segments(), TOMBSTONE_LEN as u64, r.0),
            r.1@ == tombstone_bytes(*t),
    {
        let plan = self.data.plan_append(t.key, TOMBSTONE_LEN as u64);
        (plan, encode_tombstone(t))
    }

    /// Records that a planned tombstone was written.
    pub fn confirm(&mut self, plan: &AppendPlan) -> (r: bool)
        requires
            old(self).spec_pool().wf(),
        ensures
            final(self).spec_pool().wf(),
            r == crate::pool::plan_applies(old(self).spec_pool().spec_segments(), *plan),
            final(self).spec_pool().spec_segments() == crate::pool::confirmed(
                old(self).spec_pool().spec_segments(),
                *plan,
            ),
    {
        self.data.confirm(plan)
    }
}

/// The entry point for puts and deletes: a live pool and its graveyard.
pub struct Storage<A, C, B, D> {
    inner: SegmentPool<A, C>,
    bin: Graveyard<B, D>,
}

impl<A, C, B, D> Storage<A, C, B, D> {
    pub closed spec fn spec_inner(&self) -> SegmentPool<A, C> {
        self.inner
    }

    pub closed spec fn spec_bin(&self) -> Graveyard<B, D> {
        self.bin
    }

    pub fn new(inner: SegmentPool<A, C>, bin: Graveyard<B, D>) -> (r: Self)
        ensures
            r.spec_inner() == inner,
            r.spec_bin() == bin,
    {
        Storage { inner, bin }
    }

    /// Plans storing `len` bytes under `key` in the live pool.
    pub fn put<K>(&mut self, key: K, len: u64) -> (r: Result<AppendPlan, SegmentErr>)
        where
            A: Allocator<K, u64, AllocErr>,
        requires
            old(self).spec_inner().wf(),
        ensures
            final(self).spec_inner().wf(),
            final(self).spec_inner().spec_segments() == old(self).spec_inner().spec_segments(),
            final(self).spec_bin() == old(self).spec_bin(),
            routed_outcome(old(self).spec_inner().spec_segments(), len, r),
    {
        self.inner.plan_append(key, len)
    }

    /// Plans recording the deletion `t` in the graveyard, and gives the
    /// tombstone's bytes; the live pool is left as it is.
    pub fn delete(&mut self, t: &Tombstone) -> (r: (Result<AppendPlan, SegmentErr>, Vec<u8>))
        where
            B: Allocator<u64, u64, AllocErr>,
        requires
            old(self).spec_bin().spec_pool().wf(),
        ensures
            final(self).spec_bin().spec_pool().wf(),
            final(self).spec_bin().spec_pool().spec_segments() == old(
                self,
            ).spec_bin().spec_pool().spec_segments(),
            final(self).spec_inner() == old(self).spec_inner(),
            routed_outcome(
                old(self).spec_bin().spec_pool().spec_segments(),
                TOMBSTONE_LEN as u64,
                r.0,
            ),
            r.1@ == tombstone_bytes(*t),
    {
        self.bin.append(t)
    }

    /// The live pool.
    pub fn data(&mut self) -> (r: &mut SegmentPool<A, C>)
        ensures
            *r == old(self).spec_inner(),
            final(self).spec_inner() == *final(r),
            final(self).spec_bin() == old(self).spec_bin(),
    {
        &mut self.inner
    }

    /// The graveyard.
    pub fn graveyard(&mut self) -> (r: &mut Graveyard<B, D>)
        ensures
            *r == old(self).spec_bin(),
            final(self).spec_bin() == *final(r),
            final(self).spec_inner() == old(self).spec_inner(),
    {
        &mut self.bin
    }
}

} // verus!
