use segstore::bucket::{index, sindex, FixedBucket};
use segstore::cache::{Cache, NoCache, TtlCache};
use segstore::checksum::{decode_record, encode_record};
use segstore::layout::path_of;
use segstore::metric::{Size, Sparse, Value};
use segstore::placement::{AllocErr, Allocator, HashModAllocator};
use segstore::pool::SegmentPool;
use segstore::segment::{ChecksumErr, Reconcile, SegmentErr, SegmentFile};
use segstore::storage::{
    decode_tombstones, encode_tombstone, survivors, Collector, Entry, Graveyard, Storage, Tombstone,
};

fn pool(k: u64) -> SegmentPool<HashModAllocator, NoCache> {
    SegmentPool::new(String::from("/var/seg"), k, None, HashModAllocator::new(k), NoCache)
}

#[test]
fn checksum_record_is_big_endian_length() {
    assert_eq!(encode_record(5), vec![0, 0, 0, 0, 0, 0, 0, 5]);
    assert_eq!(encode_record(0x0102_0304_0506_0708), vec![1, 2, 3, 4, 5, 6, 7, 8]);
    assert_eq!(decode_record(&[1, 2, 3, 4, 5, 6, 7, 8]), Some(0x0102_0304_0506_0708));
    assert_eq!(decode_record(&[0, 0, 5]), None);
    assert_eq!(decode_record(&[0; 9]), None);
}

#[test]
fn fresh_segment_round_trip() {
    let (seg, record) = SegmentFile::new(7);
    assert_eq!(seg, SegmentFile { id: 7, size: 0 });
    assert_eq!(record, vec![0; 8]);
    let buffer = b"some bytes";
    let plan = seg.plan_append(buffer.len() as u64).unwrap();
    assert_eq!(plan.offset, 0);
    assert_eq!(plan.new_size, 10);
    let reopened = SegmentFile::reopen(7, &plan.record, buffer.len() as u64).unwrap();
    assert_eq!(reopened.size, 10);
    assert_eq!(reopened.id, 7);
}

#[test]
fn corrupted_checksum_is_refused() {
    let record = encode_record(42);
    assert_eq!(SegmentFile::reopen(1, &record, 41), Err(ChecksumErr::SizeMismatchErr(42, 41)));
    assert_eq!(SegmentFile::reopen(1, &[1, 2, 3], 3), Err(ChecksumErr::ParseErr(3)));
    assert_eq!(SegmentFile::reopen(1, &[], 0), Err(ChecksumErr::ParseErr(0)));
}

#[test]
fn append_plan_and_confirm() {
    let (mut seg, _) = SegmentFile::new(3);
    let first = seg.plan_append(4).unwrap();
    assert!(seg.confirm(&first));
    assert_eq!(seg.size, 4);
    let second = seg.plan_append(6).unwrap();
    assert_eq!(second.offset, 4);
    assert_eq!(second.record, encode_record(10));
    // a plan made before the first append no longer applies
    assert!(!seg.confirm(&first));
    assert_eq!(seg.size, 4);
    assert!(seg.confirm(&second));
    assert_eq!(seg.size, 10);
    let full = SegmentFile { id: 3, size: u64::MAX - 1 };
    assert!(full.plan_append(2).is_none());
    assert!(full.plan_append(1).is_some());
}

#[test]
fn hello_scenario() {
    let mut p = pool(2);
    let plan = p.plan_append_to(0, 5).unwrap();
    assert_eq!(plan.segment, 0);
    assert_eq!(plan.offset, 0);
    assert_eq!(plan.record, vec![0, 0, 0, 0, 0, 0, 0, 5]);
    assert!(p.confirm(&plan));
    assert_eq!(p.segment(0).unwrap().size, 5);
    assert_eq!(p.segment(1).unwrap().size, 0);
    assert!(SegmentFile::reopen(0, &plan.record, 5).is_ok());
    let tampered = encode_record(99);
    assert_eq!(SegmentFile::reopen(0, &tampered, 5), Err(ChecksumErr::SizeMismatchErr(99, 5)));
}

#[test]
fn pool_has_exactly_k_fresh_segments() {
    let p = pool(3);
    assert_eq!(p.segment_count(), 3);
    for i in 0..3u64 {
        assert_eq!(p.segment(i), Some(SegmentFile { id: i, size: 0 }));
    }
    assert_eq!(p.segment(3), None);
    assert_eq!(p.bounds(), Size(500, 500));
    assert_eq!(p.base(), "/var/seg");
    let q: SegmentPool<HashModAllocator, NoCache> =
        SegmentPool::new(String::from("b"), 1, Some(Size(1, 2)), HashModAllocator::new(1), NoCache);
    assert_eq!(q.bounds(), Size(1, 2));
}

#[test]
fn pool_segments_are_independent() {
    let mut p = pool(2);
    let a = p.plan_append_to(0, 3).unwrap();
    let b = p.plan_append_to(1, 8).unwrap();
    assert!(p.confirm(&a));
    assert!(p.confirm(&b));
    assert_eq!(p.segment(0).unwrap().size, 3);
    assert_eq!(p.segment(1).unwrap().size, 8);
    assert_eq!(p.plan_append_to(0, 1).unwrap().offset, 3);
}

#[test]
fn pool_routes_keys_modulo_k() {
    let mut p = pool(3);
    let plan = p.plan_append(7u64, 2).unwrap();
    assert_eq!(plan.segment, 1);
    match p.plan_append_to(5, 1) {
        Err(SegmentErr::AllocErr(AllocErr::OutOfRange(5, 3))) => {}
        other => panic!("unexpected {:?}", other),
    }
    let mut empty = pool(0);
    match empty.plan_append(1u64, 1) {
        Err(SegmentErr::AllocErr(AllocErr::NoSegments)) => {}
        other => panic!("unexpected {:?}", other),
    }
}

#[test]
fn allocator_is_hash_mod_k() {
    let mut a = HashModAllocator::new(4);
    assert_eq!(a.route(10), Ok(2));
    assert_eq!(a.allocate(3), Ok(3));
    assert_eq!(HashModAllocator::new(0).route(1), Err(AllocErr::NoSegments));
}

#[test]
fn bucket_scenario() {
    let mut b: FixedBucket<char> = FixedBucket::with_capacity(300);
    assert_eq!(b.size(), 512);
    assert!(b.mutate(300, 'x'));
    assert_eq!(b.lookup(300), Some('x'));
    assert_eq!(b.lookup(511), None);
    assert_eq!(b.lookup(512), None);
    assert!(!b.mutate(512, 'y'));
    assert_eq!(b.lookup(512), None);
}

#[test]
fn bucket_sizes_and_last_write_wins() {
    let b: FixedBucket<u32> = FixedBucket::with_capacity(1);
    assert_eq!(b.size(), 256);
    let b: FixedBucket<u32> = FixedBucket::with_capacity(256);
    assert_eq!(b.size(), 512);
    let mut b: FixedBucket<u32> = FixedBucket::with_capacity(255);
    for k in 0..256 {
        assert_eq!(b.lookup(k), None);
    }
    assert!(b.mutate(0, 1));
    assert!(b.mutate(0, 2));
    assert!(b.mutate(255, 9));
    assert_eq!(b.lookup(0), Some(2));
    assert_eq!(b.lookup(255), Some(9));
    assert_eq!(b.lookup(1), None);
    assert_eq!(b.lookup(usize::MAX), None);
}

#[test]
fn slot_resolution() {
    assert_eq!(sindex(300, 256), 1);
    assert_eq!(index(300, 256), 44);
    assert_eq!(sindex(255, 256), 0);
    assert_eq!(index(256, 256), 0);
}

#[test]
fn sparse_lookup_and_size() {
    let s = Sparse::with_index(vec![1, 4, 9], vec!['a', 'b', 'c']);
    match s.get(4) {
        Value::Found { data, index } => {
            assert_eq!(index, 1);
            assert_eq!(data, vec!['a', 'b', 'c']);
        }
        Value::NotFound => panic!("key 4 is present"),
    }
    let s = Sparse::with_index(vec![1, 4, 9], vec!['a', 'b', 'c']);
    assert!(matches!(s.get(5), Value::NotFound));
    let s = Sparse::with_index(vec![3, 11, 7], vec![0u8, 0, 0]);
    assert_eq!(s.size(), 11);
    let s: Sparse<u8> = Sparse::with_index(vec![], vec![]);
    assert_eq!(s.size(), 0);
}

#[test]
fn size_default_is_500() {
    assert_eq!(Size::default(), Size(500, 500));
}

#[test]
fn tombstone_log_round_trip() {
    let a = Tombstone { key: 1, segment: 2, offset: 0x0300 };
    let b = Tombstone { key: u64::MAX, segment: 0, offset: 7 };
    let mut log = encode_tombstone(&a);
    assert_eq!(log.len(), 24);
    assert_eq!(&log[16..24], &[0, 0, 0, 0, 0, 0, 3, 0]);
    log.extend(encode_tombstone(&b));
    assert_eq!(decode_tombstones(&log), Some(vec![a, b]));
    assert_eq!(decode_tombstones(&log[..30]), None);
    assert_eq!(decode_tombstones(&[]), Some(vec![]));
}

#[test]
fn compaction_keeps_live_and_drops_dead() {
    let entries = vec![
        Entry { key: 1, segment: 0, offset: 0, len: 4 },
        Entry { key: 2, segment: 0, offset: 4, len: 6 },
        Entry { key: 3, segment: 0, offset: 10, len: 2 },
    ];
    let tombs = vec![Tombstone { key: 2, segment: 0, offset: 4 }];
    assert_eq!(survivors(&entries, &tombs), vec![entries[0], entries[2]]);
    let out = Collector::new().compact(&entries, &tombs, 5).unwrap();
    assert_eq!(
        out,
        vec![
            Entry { key: 1, segment: 5, offset: 0, len: 4 },
            Entry { key: 3, segment: 5, offset: 4, len: 2 },
        ]
    );
    // a tombstone for another location does not kill the entry
    let other = vec![Tombstone { key: 2, segment: 1, offset: 4 }];
    assert_eq!(survivors(&entries, &other), entries);
    let huge = vec![
        Entry { key: 1, segment: 0, offset: 0, len: u64::MAX },
        Entry { key: 2, segment: 0, offset: 0, len: 1 },
    ];
    assert_eq!(Collector::new().compact(&huge, &vec![], 0), None);
}

#[test]
fn compaction_threshold() {
    let c = Collector::new();
    assert_eq!(c.threshold_percent, 50);
    assert!(c.needs_compaction(49, 100));
    assert!(!c.needs_compaction(50, 100));
    assert!(!c.needs_compaction(0, 0));
    assert!(c.needs_compaction(0, u64::MAX));
}

#[test]
fn segment_paths() {
    let (data, checksum) = path_of(b"/tmp/pool", 12);
    assert_eq!(data, b"/tmp/pool/12.data".to_vec());
    assert_eq!(checksum, b"/tmp/pool/12.checksum".to_vec());
    let (data, _) = path_of(b"x", 0);
    assert_eq!(data, b"x/0.data".to_vec());
    let (data, _) = path_of(b"", u64::MAX);
    assert_eq!(data, b"/18446744073709551615.data".to_vec());
}

#[test]
fn graveyard_appends_tombstones() {
    let mut g = Graveyard::new(pool(2));
    let t = Tombstone { key: 3, segment: 1, offset: 8 };
    let (plan, bytes) = g.append(&t);
    let plan = plan.unwrap();
    assert_eq!(plan.segment, 1);
    assert_eq!(plan.len, 24);
    assert_eq!(bytes, encode_tombstone(&t));
    assert!(g.confirm(&plan));
    assert_eq!(g.pool().segment(1).unwrap().size, 24);
    assert_eq!(decode_tombstones(&bytes), Some(vec![t]));
}

#[test]
fn storage_composes_pool_and_graveyard() {
    let mut s = Storage::new(pool(2), Graveyard::new(pool(1)));
    let plan = s.data().plan_append(4u64, 9).unwrap();
    assert_eq!(plan.segment, 0);
    assert!(s.data().confirm(&plan));
    let (dplan, _) = s.graveyard().append(&Tombstone { key: 4, segment: 0, offset: 0 });
    assert_eq!(dplan.unwrap().segment, 0);
    assert_eq!(s.data().segment(0).unwrap().size, 9);
}

#[test]
fn no_cache_always_misses() {
    let mut c = NoCache;
    Cache::<u64, u64>::put(&mut c, 1, 2);
    assert_eq!(Cache::<u64, u64>::fetch(&mut c, 1), None);
    assert!(!Cache::<u64, u64>::expire(&mut c, 1, Some(5)));
}

#[test]
fn storage_put_and_delete_plans() {
    let mut s = Storage::new(pool(3), Graveyard::new(pool(2)));
    let put = s.put(5u64, 11).unwrap();
    assert_eq!(put.segment, 2);
    assert_eq!(put.new_size, 11);
    assert_eq!(put.record, encode_record(11));
    let t = Tombstone { key: 5, segment: 2, offset: 0 };
    let (del, bytes) = s.delete(&t);
    let del = del.unwrap();
    assert_eq!(del.segment, 1);
    assert_eq!(del.len, 24);
    assert_eq!(decode_tombstones(&bytes), Some(vec![t]));
}

#[test]
fn reconcile_policies() {
    let record = encode_record(5);
    assert_eq!(
        SegmentFile::reopen_with(2, &record, 5, Reconcile::Report),
        Ok((SegmentFile { id: 2, size: 5 }, false))
    );
    assert_eq!(
        SegmentFile::reopen_with(2, &record, 9, Reconcile::Report),
        Err(ChecksumErr::SizeMismatchErr(5, 9))
    );
    assert_eq!(
        SegmentFile::reopen_with(2, &record, 9, Reconcile::Truncate),
        Ok((SegmentFile { id: 2, size: 5 }, true))
    );
    // data shorter than confirmed cannot be repaired
    assert_eq!(
        SegmentFile::reopen_with(2, &record, 3, Reconcile::Truncate),
        Err(ChecksumErr::SizeMismatchErr(5, 3))
    );
    assert_eq!(
        SegmentFile::reopen_with(2, &[9], 1, Reconcile::Truncate),
        Err(ChecksumErr::ParseErr(1))
    );
}

#[test]
fn ttl_cache_expiry() {
    let mut c: TtlCache<u32> = TtlCache::new();
    assert_eq!(c.fetch(1), None);
    c.put(1, 10);
    c.put(2, 20);
    assert_eq!(c.fetch(1), Some(10));
    c.put(1, 11);
    assert_eq!(c.fetch(1), Some(11));
    assert!(c.expire(1, Some(5)));
    assert!(!c.expire(3, Some(5)));
    c.tick(4);
    assert_eq!(c.fetch(1), Some(11));
    c.tick(5);
    assert_eq!(c.fetch(1), None);
    assert_eq!(c.fetch(2), Some(20));
    assert!(c.expire(1, None));
    assert_eq!(c.get(1), Some(11));
    assert!(c.set_ttl(2, Some(u64::MAX)));
    c.tick(u64::MAX - 1);
    assert_eq!(c.get(2), Some(20));
    c.tick(u64::MAX);
    assert_eq!(c.get(2), None);
    c.insert(2, 21);
    assert_eq!(c.get(2), Some(21));
}
