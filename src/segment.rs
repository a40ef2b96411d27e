//! The bookkeeping of one segment: its id and the confirmed length of its
//! data stream, the integrity gate that runs on every reopen, and the plan
//! of an append (where the bytes go and which checksum record follows them).
//! The files themselves are written by the caller.

use crate::placement::AllocErr;
use crate::checksum::{be_bytes, decode_record, encode_record, record_value};
use vstd::prelude::*;

verus! {

/// Declares std's I/O error so that segment errors can carry it.
#[verifier::external_type_specification]
#[verifier::external_body]
pub struct ExIoError(std::io::Error);

/// Why a checksum record does not confirm its data stream.
#[derive(Debug, PartialEq, Eq)]
pub enum ChecksumErr {
    /// The record holds the first length, the data stream has the second.
    SizeMismatchErr(u64, u64),
    /// The record is not an 8-byte integer; it has this many bytes.
    ParseErr(usize),
}

/// The layer at which a segment or pool operation failed.
#[derive(Debug)]
pub enum SegmentErr {
    IoError(std::io::Error),
    ChecksumErr(ChecksumErr),
    AllocErr(AllocErr),
}

/// What reopening gives for a checksum record and a data stream of
/// `data_len` bytes: the confirmed length, or why it is refused.
pub open spec fn reopen_outcome(record: Seq<u8>, data_len: u64) -> Result<u64, ChecksumErr> {
    match record_value(record) {
        None => Err(ChecksumErr::ParseErr(record.len() as usize)),
        Some(stored) => if stored == data_len {
            Ok(stored)
        } else {
            Err(ChecksumErr::SizeMismatchErr(stored, data_len))
        },
    }
}

/// What to do on reopen when the data stream is longer than its checksum
/// record confirms, as after a crash between the data write and the
/// checksum write.
#[derive(Debug, Clone, Copy, PartialEq, Eq)]
pub enum Reconcile {
    /// Refuse to open with a size mismatch.
    Report,
    /// Open at the confirmed length; the caller truncates the data stream.
    Truncate,
}

/// What reopening under `policy` gives: the confirmed length, whether the
/// data stream must be cut back to it, or why the segment is refused.
pub open spec fn reconcile_outcome(record: Seq<u8>, data_len: u64, policy: Reconcile) -> Result<
    (u64, bool),
    ChecksumErr,
> {
    match record_value(record) {
        None => Err(ChecksumErr::ParseErr(record.len() as usize)),
        Some(stored) => if stored == data_len {
            Ok((stored, false))
        } else if stored < data_len && policy == Reconcile::Truncate {
            Ok((stored, true))
        } else {
            Err(ChecksumErr::SizeMismatchErr(stored, data_len))
        },
    }
}

/// The checksum record written after appending `len` bytes to a data stream
/// of `size` bytes: the resulting total length.
pub open spec fn append_record(size: u64, len: u64) -> Seq<u8> {
    be_bytes((size + len) as u64)
}

/// One append, decided before any byte is written: `len` bytes go to the end
/// of segment `segment`'s data stream at `offset`; then `record` replaces the
/// checksum record, confirming `new_size` bytes.
#[derive(Debug)]
pub struct AppendPlan {
    pub segment: u64,
    pub offset: u64,
    pub len: u64,
    pub new_size: u64,
    pub record: Vec<u8>,
}

/// Whether `p` is the plan of appending `len` bytes to a segment with the
/// given id and confirmed size.
pub open spec fn is_plan(p: AppendPlan, id: u64, size: u64, len: u64) -> bool {
    &&& size + len <= u64::MAX
    &&& p.segment == id
    &&& p.offset == size
    &&& p.len == len
    &&& p.new_size == size + len
    &&& p.record@ == append_record(size, len)
}

/// A segment's identity and the length of data its checksum record confirms.
#[derive(Debug, Clone, Copy, PartialEq, Eq)]
pub struct SegmentFile {
    pub id: u64,
    /// The confirmed length of the data stream.
    pub size: u64,
}

impl SegmentFile {
    /// A fresh segment, and the checksum record to store beside its empty
    /// data stream.
    pub fn new(id: u64) -> (r: (SegmentFile, Vec<u8>))
        ensures
            r.0 == (SegmentFile { id, size: 0 }),
            r.1@ == be_bytes(0),
    {
        (SegmentFile { id, size: 0 }, encode_record(0))
    }

    /// The integrity gate of a reopen: the segment is accepted only where its
    /// checksum record is an 8-byte integer equal to the data stream's length.
    pub fn reopen(id: u64, record: &[u8], data_len: u64) -> (r: Result<SegmentFile, ChecksumErr>)
        ensures
            match reopen_outcome(record@, data_len) {
                Ok(size) => r == Ok::<SegmentFile, ChecksumErr>((SegmentFile { id, size })),
                Err(e) => r == Err::<SegmentFile, ChecksumErr>(e),
            },
    {
        match SegmentFile::reopen_with(id, record, data_len, Reconcile::Report) {
            Ok((segment, _)) => Ok(segment),
            Err(e) => Err(e),
        }
    }

    /// Reopens under a reconciliation policy. On success the flag says
    /// whether the data stream must be truncated to the segment's size.
    pub fn reopen_with(id: u64, record: &[u8], data_len: u64, policy: Reconcile) -> (r: Result<
        (SegmentFile, bool),
        ChecksumErr,
    >)
        ensures
            match reconcile_outcome(record@, data_len, policy) {
                Ok((size, cut)) => r == Ok::<(SegmentFile, bool), ChecksumErr>(
                    ((SegmentFile { id, size }), cut),
                ),
                Err(e) => r == Err::<(SegmentFile, bool), ChecksumErr>(e),
            },
    {
        match decode_record(record) {
            None => Err(ChecksumErr::ParseErr(record.len())),
            Some(stored) => {
                if stored == data_len {
                    Ok((SegmentFile { id, size: stored }, false))
                } else if stored < data_len && matches!(policy, Reconcile::Truncate) {
                    Ok((SegmentFile { id, size: stored }, true))
                } else {
                    Err(ChecksumErr::SizeMismatchErr(stored, data_len))
                }
            },
        }
    }

    /// Plans an append of `len` bytes; `None` where the resulting length
    /// would not fit in 64 bits.
    pub fn plan_append(&self, len: u64) -> (r: Option<AppendPlan>)
        ensures
            r.is_some() <==> self.size + len <= u64::MAX,
            r.is_some() ==> is_plan(r.unwrap(), self.id, self.size, len),
    {
        if len > u64::MAX - self.size {
            return None;
        }
        let new_size = self.size + len;
        Some(AppendPlan { segment: self.id, offset: self.size, len, new_size, record: encode_record(new_size) })
    }

    /// Records that `plan` was carried out: data first, then the checksum.
    /// A plan made for another segment or another size is refused and
    /// changes nothing.
    pub fn confirm(&mut self, plan: &AppendPlan) -> (r: bool)
        ensures
            r == (plan.segment == old(self).id && plan.offset == old(self).size),
            *final(self) == if r {
                SegmentFile { id: old(self).id, size: plan.new_size }
            } else {
                *old(self)
            },
    {
        if plan.segment == self.id && plan.offset == self.size {
            self.size = plan.new_size;
            true
        } else {
            false
        }
    }
}

/// Appending any buffer to a fresh segment and reopening it against the
/// resulting data stream succeeds, and the checksum equals the buffer's length.
pub proof fn lemma_fresh_append_round_trip(len: u64)
    ensures
        reopen_outcome(append_record(0, len), (0 + len) as u64) == Ok::<u64, ChecksumErr>(len),
{
    crate::checksum::lemma_be_round_trip(len);
}

/// A checksum record that holds any length other than the data stream's is
/// refused with a size mismatch carrying both lengths.
pub proof fn lemma_corruption_detected(stored: u64, actual: u64)
    requires
        stored != actual,
    ensures
        reopen_outcome(be_bytes(stored), actual) == Err::<u64, ChecksumErr>(
            ChecksumErr::SizeMismatchErr(stored, actual),
        ),
{
    crate::checksum::lemma_be_round_trip(stored);
}

} // verus!
