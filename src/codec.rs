//! Binary encoding of an ordered list of `(offset, length)` records.
//!
//! Layout: the records one after another, each as sixteen bytes, the offset
//! then the length, both as little-endian `u64`. An empty list is encoded as
//! no bytes at all. Input whose length is not a multiple of sixteen is
//! rejected as truncated.
use vstd::bytes::{
    spec_u64_from_le_bytes, spec_u64_to_le_bytes, u64_from_le_bytes, u64_to_le_bytes,
    lemma_auto_spec_u64_to_from_le_bytes,
};
use vstd::prelude::*;
use vstd::slice::slice_subrange;

use crate::error::StoreError;

verus! {

/// Size in bytes of one encoded record.
pub const RECORD_BYTES: usize = 16;

/// One `(offset, length)` record as sixteen bytes.
pub open spec fn record_bytes(r: (u64, u64)) -> Seq<u8> {
    spec_u64_to_le_bytes(r.0) + spec_u64_to_le_bytes(r.1)
}

/// The encoding of a whole list of records.
pub open spec fn encode_spec(rs: Seq<(u64, u64)>) -> Seq<u8>
    decreases rs.len(),
{
    if rs.len() == 0 {
        Seq::empty()
    } else {
        encode_spec(rs.drop_last()) + record_bytes(rs.last())
    }
}

/// The record that starts at byte `16 * i` of `b`.
pub open spec fn record_at(b: Seq<u8>, i: int) -> (u64, u64) {
    (
        spec_u64_from_le_bytes(b.subrange(16 * i, 16 * i + 8)),
        spec_u64_from_le_bytes(b.subrange(16 * i + 8, 16 * i + 16)),
    )
}

/// What decoding `b` gives: `None` for truncated input.
pub open spec fn decode_spec(b: Seq<u8>) -> Option<Seq<(u64, u64)>> {
    if b.len() % 16 != 0 {
        None
    } else {
        Some(Seq::new((b.len() / 16) as nat, |i: int| record_at(b, i)))
    }
}

proof fn lemma_record_bytes(r: (u64, u64))
    ensures
        record_bytes(r).len() == 16,
        record_bytes(r).subrange(0, 8) == spec_u64_to_le_bytes(r.0),
        record_bytes(r).subrange(8, 16) == spec_u64_to_le_bytes(r.1),
{
    lemma_auto_spec_u64_to_from_le_bytes();
    let a = spec_u64_to_le_bytes(r.0);
    let b = spec_u64_to_le_bytes(r.1);
    assert(record_bytes(r).subrange(0, 8) =~= a);
    assert(record_bytes(r).subrange(8, 16) =~= b);
}

/// The encoding has sixteen bytes per record, and the bytes of record `i`
/// stand at `16 * i`.
pub proof fn lemma_encode_layout(rs: Seq<(u64, u64)>)
    ensures
        encode_spec(rs).len() == 16 * rs.len(),
        forall|i: int|
            0 <= i < rs.len() ==> #[trigger] record_at(encode_spec(rs), i) == rs[i],
    decreases rs.len(),
{
    lemma_auto_spec_u64_to_from_le_bytes();
    if rs.len() > 0 {
        let init = rs.drop_last();
        let last = rs.last();
        lemma_encode_layout(init);
        lemma_record_bytes(last);
        let e = encode_spec(rs);
        let ei = encode_spec(init);
        let n = init.len() as int;
        assert(e == ei + record_bytes(last));
        assert forall|i: int| 0 <= i < rs.len() implies #[trigger] record_at(e, i) == rs[i] by {
            if i < n {
                assert(e.subrange(16 * i, 16 * i + 8) =~= ei.subrange(16 * i, 16 * i + 8));
                assert(e.subrange(16 * i + 8, 16 * i + 16) =~= ei.subrange(16 * i + 8, 16 * i + 16));
                assert(record_at(ei, i) == init[i]);
            } else {
                assert(e.subrange(16 * i, 16 * i + 8) =~= record_bytes(last).subrange(0, 8));
                assert(e.subrange(16 * i + 8, 16 * i + 16) =~= record_bytes(last).subrange(8, 16));
            }
        }
    }
}

/// Decoding the encoding of any list of records gives that list back.
pub proof fn lemma_round_trip(rs: Seq<(u64, u64)>)
    ensures
        decode_spec(encode_spec(rs)) == Some(rs),
{
    lemma_encode_layout(rs);
    let e = encode_spec(rs);
    assert((16 * rs.len()) % 16 == 0) by (nonlinear_arith);
    assert((16 * rs.len()) / 16 == rs.len()) by (nonlinear_arith);
    assert(Seq::new((e.len() / 16) as nat, |i: int| record_at(e, i)) =~= rs);
}

/// Encoding is one to one: bytes that decode to a list are that list's
/// encoding.
pub proof fn lemma_decode_encodes(b: Seq<u8>)
    requires
        decode_spec(b) is Some,
    ensures
        encode_spec(decode_spec(b).unwrap()) == b,
{
    let rs = decode_spec(b).unwrap();
    lemma_encode_layout(rs);
    lemma_auto_spec_u64_to_from_le_bytes();
    let e = encode_spec(rs);
    assert(e.len() == b.len()) by (nonlinear_arith)
        requires
            e.len() == 16 * rs.len(),
            rs.len() == b.len() / 16,
            b.len() % 16 == 0,
    ;
    assert forall|k: int| 0 <= k < b.len() implies e[k] == b[k] by {
        let i = k / 16;
        assert(0 <= i < rs.len() && 16 * i <= k < 16 * i + 16) by (nonlinear_arith)
            requires
                0 <= k < b.len(),
                i == k / 16,
                rs.len() == b.len() / 16,
                b.len() % 16 == 0,
        ;
        assert(record_at(e, i) == record_at(b, i));
        let eb0 = e.subrange(16 * i, 16 * i + 8);
        let bb0 = b.subrange(16 * i, 16 * i + 8);
        let eb1 = e.subrange(16 * i + 8, 16 * i + 16);
        let bb1 = b.subrange(16 * i + 8, 16 * i + 16);
        assert(spec_u64_to_le_bytes(spec_u64_from_le_bytes(eb0)) == eb0);
        assert(spec_u64_to_le_bytes(spec_u64_from_le_bytes(bb0)) == bb0);
        assert(spec_u64_to_le_bytes(spec_u64_from_le_bytes(eb1)) == eb1);
        assert(spec_u64_to_le_bytes(spec_u64_from_le_bytes(bb1)) == bb1);
        if k < 16 * i + 8 {
            assert(eb0[k - 16 * i] == e[k]);
            assert(bb0[k - 16 * i] == b[k]);
        } else {
            assert(eb1[k - 16 * i - 8] == e[k]);
            assert(bb1[k - 16 * i - 8] == b[k]);
        }
    }
    assert(e =~= b);
}

fn push_u64(out: &mut Vec<u8>, v: u64)
    ensures
        final(out)@ == old(out)@ + spec_u64_to_le_bytes(v),
{
    let mut bytes = u64_to_le_bytes(v);
    out.append(&mut bytes);
}

/// Encodes `records` in the layout described at the top of this module.
pub fn encode_records(records: &[(u64, u64)]) -> (r: Vec<u8>)
    ensures
        r@ == encode_spec(records@),
{
    let mut out: Vec<u8> = Vec::new();
    let mut i: usize = 0;
    while i < records.len()
        invariant
            0 <= i <= records@.len(),
            out@ == encode_spec(records@.take(i as int)),
        decreases records@.len() - i,
    {
        let (offset, length) = records[i];
        push_u64(&mut out, offset);
        push_u64(&mut out, length);
        assert(records@.take(i as int + 1).drop_last() =~= records@.take(i as int));
        i = i + 1;
    }
    assert(records@.take(i as int) =~= records@);
    out
}

/// Decodes bytes written by `encode_records`. Fails with
/// `StoreError::Decode` exactly when the length is not a multiple of
/// sixteen; otherwise the result is the one list whose encoding is `bytes`.
pub fn decode_records(bytes: &[u8]) -> (r: Result<Vec<(u64, u64)>, StoreError>)
    ensures
        match r {
            Ok(v) => decode_spec(bytes@) == Some(v@) && encode_spec(v@) == bytes@,
            Err(e) => decode_spec(bytes@) is None && e == StoreError::Decode,
        },
{
    if bytes.len() % RECORD_BYTES != 0 {
        return Err(StoreError::Decode);
    }
    let n: usize = bytes.len() / RECORD_BYTES;
    let mut out: Vec<(u64, u64)> = Vec::new();
    let mut i: usize = 0;
    while i < n
        invariant
            n == bytes@.len() / 16,
            bytes@.len() % 16 == 0,
            bytes@.len() <= usize::MAX,
            0 <= i <= n,
            out@.len() == i,
            forall|j: int| 0 <= j < i ==> #[trigger] out@[j] == record_at(bytes@, j),
        decreases n - i,
    {
        assert(16 * i + 16 <= bytes@.len()) by (nonlinear_arith)
            requires
                i < n,
                n == bytes@.len() / 16,
        ;
        let start: usize = 16 * i;
        let offset = u64_from_le_bytes(slice_subrange(bytes, start, start + 8));
        let length = u64_from_le_bytes(slice_subrange(bytes, start + 8, start + 16));
        out.push((offset, length));
        i = i + 1;
    }
    assert(out@ =~= decode_spec(bytes@).unwrap());
    proof {
        lemma_decode_encodes(bytes@);
    }
    Ok(out)
}

} // verus!
