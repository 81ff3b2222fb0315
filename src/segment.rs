//! An append-only segment: the bytes stored for one identity.
//!
//! Bytes once written are never rewritten; each append reports where its
//! bytes landed as an `(offset, length)` record.
use vstd::prelude::*;
use vstd::slice::{slice_subrange, slice_to_vec};

use crate::error::StoreError;

verus! {

/// The segment after appending `data`, and the record that describes it.
pub open spec fn append_spec(seg: Seq<u8>, data: Seq<u8>) -> (Seq<u8>, (u64, u64)) {
    (seg + data, (seg.len() as u64, data.len() as u64))
}

/// Whether an append of `data` fits in a segment of `seg` bytes.
pub open spec fn append_fits(seg: Seq<u8>, data: Seq<u8>) -> bool {
    seg.len() + data.len() <= usize::MAX
}

/// The `length` bytes at `offset`, or `None` where fewer are stored.
pub open spec fn read_spec(seg: Seq<u8>, offset: u64, length: u64) -> Option<Seq<u8>> {
    if offset + length <= seg.len() {
        Some(seg.subrange(offset as int, offset + length))
    } else {
        None
    }
}

/// The bytes of one identity, held in memory.
pub struct Segment {
    data: Vec<u8>,
}

impl View for Segment {
    type V = Seq<u8>;

    closed spec fn view(&self) -> Seq<u8> {
        self.data@
    }
}

impl Segment {
    /// An empty segment.
    pub fn open() -> (r: Segment)
        ensures
            r@ == Seq::<u8>::empty(),
    {
        Segment { data: Vec::new() }
    }

    /// The number of bytes stored.
    pub fn len(&self) -> (r: u64)
        ensures
            r == self@.len(),
    {
        self.data.len() as u64
    }

    /// Appends `data` at the end and returns its offset and length. Fails
    /// with `StoreError::Io`, and changes nothing, where the segment would
    /// outgrow the address space.
    pub fn append(&mut self, data: &[u8]) -> (r: Result<(u64, u64), StoreError>)
        ensures
            append_fits(old(self)@, data@) ==> r == Ok::<(u64, u64), StoreError>(
                append_spec(old(self)@, data@).1,
            ) && final(self)@ == append_spec(old(self)@, data@).0,
            !append_fits(old(self)@, data@) ==> r == Err::<(u64, u64), StoreError>(
                StoreError::Io,
            ) && final(self)@ == old(self)@,
    {
        if data.len() > usize::MAX - self.data.len() {
            return Err(StoreError::Io);
        }
        let offset = self.data.len() as u64;
        self.data.extend_from_slice(data);
        proof {
            assert(self.data@ =~= old(self)@ + data@) by {
                assert forall|i: int| 0 <= i < self.data@.len() implies self.data@[i] == (old(
                    self,
                )@ + data@)[i] by {
                    if i >= old(self)@.len() {
                        assert(cloned::<u8>(data@[i - old(self)@.len()], self.data@[i]));
                    }
                }
            }
        }
        Ok((offset, data.len() as u64))
    }

    /// Reads exactly `length` bytes at `offset`. Fails with
    /// `StoreError::ShortRead` where the segment holds fewer.
    pub fn read(&self, offset: u64, length: u64) -> (r: Result<Vec<u8>, StoreError>)
        ensures
            match read_spec(self@, offset, length) {
                Some(bytes) => r is Ok && r.unwrap()@ == bytes,
                None => r == Err::<Vec<u8>, StoreError>(StoreError::ShortRead),
            },
    {
        let n = self.data.len() as u64;
        if offset > n || length > n - offset {
            return Err(StoreError::ShortRead);
        }
        let start = offset as usize;
        let end = (offset + length) as usize;
        let bytes = slice_to_vec(slice_subrange(self.data.as_slice(), start, end));
        Ok(bytes)
    }
}

/// Appends `body` to `segment` as one record and returns the list of records
/// that describe it. Fails with `StoreError::Io`, changing nothing, where the
/// segment would outgrow the address space.
pub fn write_files_to_storage(segment: &mut Segment, body: &[u8]) -> (r: Result<
    Vec<(u64, u64)>,
    StoreError,
>)
    ensures
        append_fits(old(segment)@, body@) ==> r is Ok && r.unwrap()@ == seq![
            append_spec(old(segment)@, body@).1,
        ] && final(segment)@ == append_spec(old(segment)@, body@).0,
        !append_fits(old(segment)@, body@) ==> r == Err::<Vec<(u64, u64)>, StoreError>(
            StoreError::Io,
        ) && final(segment)@ == old(segment)@,
{
    match segment.append(body) {
        Ok(record) => {
            let v = vec![record];
            Ok(v)
        },
        Err(e) => Err(e),
    }
}

/// Two appends in a row land one after the other, and the first one's bytes
/// read back unchanged after the second.
pub proof fn lemma_append_monotonic(seg: Seq<u8>, a: Seq<u8>, b: Seq<u8>)
    requires
        seg.len() + a.len() + b.len() <= usize::MAX,
    ensures
        ({
            let (s1, r1) = append_spec(seg, a);
            let (s2, r2) = append_spec(s1, b);
            &&& append_fits(seg, a)
            &&& append_fits(s1, b)
            &&& r2.0 >= r1.0 + a.len()
            &&& r1.1 == a.len()
            &&& read_spec(s2, r1.0, r1.1) == Some(a)
        }),
{
    let (s1, r1) = append_spec(seg, a);
    let (s2, r2) = append_spec(s1, b);
    assert(s2.subrange(seg.len() as int, (seg.len() + a.len()) as int) =~= a);
}

} // verus!
