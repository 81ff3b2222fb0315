//! The upload: check that the key is new, store the payload in the
//! identity's segment, then record where it landed in the index.
use vstd::prelude::*;
use vstd::string::StringSliceAdditionalSpecFns;

use crate::codec::{encode_records, encode_spec};
use crate::database::{composite_spec, valid_identity, Database};
use crate::error::StoreError;
use crate::index::MetaIndex;
use crate::segment::{append_fits, append_spec, write_files_to_storage, Segment};

verus! {

/// How an upload ended, where no storage operation failed.
#[derive(Clone, Copy, Debug, PartialEq, Eq, Structural)]
pub enum UploadOutcome {
    /// The payload was stored and indexed.
    Uploaded,
    /// The key already existed; nothing was stored.
    KeyExists,
    /// The payload was empty; nothing was stored.
    NoData,
    /// The segment reported no record for the payload.
    NoRecords,
}

impl UploadOutcome {
    /// The status code that the outcome is answered with.
    pub fn status(&self) -> (r: u16)
        ensures
            r == (if *self == UploadOutcome::Uploaded { 200u16 } else { 400u16 }),
    {
        match self {
            UploadOutcome::Uploaded => 200,
            _ => 400,
        }
    }
}

/// The state of the index and of the segment after an upload of `payload`
/// under `key` for `user`, and how it ended.
pub open spec fn upload_spec(
    index: Map<Seq<u8>, Seq<u8>>,
    seg: Seq<u8>,
    user: Seq<u8>,
    key: Seq<u8>,
    payload: Seq<u8>,
) -> (Map<Seq<u8>, Seq<u8>>, Seq<u8>, Result<UploadOutcome, StoreError>) {
    let ck = composite_spec(user, key);
    if index.contains_key(ck) {
        (index, seg, Ok(UploadOutcome::KeyExists))
    } else if payload.len() == 0 {
        (index, seg, Ok(UploadOutcome::NoData))
    } else if !append_fits(seg, payload) {
        (index, seg, Err(StoreError::Io))
    } else {
        let (seg2, record) = append_spec(seg, payload);
        (index.insert(ck, encode_spec(seq![record])), seg2, Ok(UploadOutcome::Uploaded))
    }
}

/// Uploads `payload` under `key` for the identity of `db`, whose bytes are
/// kept in `segment`.
pub fn put_service(
    db: &Database,
    index: &mut MetaIndex,
    segment: &mut Segment,
    key: &str,
    payload: &[u8],
) -> (r: Result<UploadOutcome, StoreError>)
    ensures
        (final(index)@, final(segment)@, r) == upload_spec(
            old(index)@,
            old(segment)@,
            db.user(),
            key.spec_bytes(),
            payload@,
        ),
{
    if db.check_key(index, key) {
        return Ok(UploadOutcome::KeyExists);
    }
    if payload.len() == 0 {
        return Ok(UploadOutcome::NoData);
    }
    let list = match write_files_to_storage(segment, payload) {
        Ok(list) => list,
        Err(e) => return Err(e),
    };
    if list.len() == 0 {
        return Ok(UploadOutcome::NoRecords);
    }
    let bytes = encode_records(list.as_slice());
    assert(list@ =~= seq![append_spec(old(segment)@, payload@).1]);
    db.upload_sql(index, key, bytes.as_slice());
    Ok(UploadOutcome::Uploaded)
}

/// What the caller of an upload learnt from its last action.
pub enum UploadEvent {
    /// Nothing yet: the upload begins.
    Start,
    /// The index was asked whether the key exists.
    KeyChecked(bool),
    /// The payload was read to its end; this many bytes came.
    Ingested(usize),
    /// The payload was appended; these records describe it.
    Stored(Vec<(u64, u64)>),
    /// The encoded records were written to the index.
    Indexed,
    /// The last action failed.
    Failed(StoreError),
}

/// What the caller of an upload does next.
pub enum UploadAction {
    /// Ask the index whether the key exists.
    CheckKey,
    /// Read the payload to its end.
    Ingest,
    /// Append the payload to the identity's segment.
    Store,
    /// Write these bytes to the index under the key.
    Index(Vec<u8>),
    /// Answer with this result; the upload is over.
    Finish(Result<UploadOutcome, StoreError>),
}

/// The next step of an upload whose storage operations a caller performs
/// itself, given what the last one gave.
pub fn upload_step(event: UploadEvent) -> (r: UploadAction)
    ensures
        match event {
            UploadEvent::Start => r is CheckKey,
            UploadEvent::KeyChecked(true) => r == UploadAction::Finish(
                Ok(UploadOutcome::KeyExists),
            ),
            UploadEvent::KeyChecked(false) => r is Ingest,
            UploadEvent::Ingested(n) => if n == 0 {
                r == UploadAction::Finish(Ok(UploadOutcome::NoData))
            } else {
                r is Store
            },
            UploadEvent::Stored(list) => if list@.len() == 0 {
                r == UploadAction::Finish(Ok(UploadOutcome::NoRecords))
            } else {
                r matches UploadAction::Index(bytes) && bytes@ == encode_spec(list@)
            },
            UploadEvent::Indexed => r == UploadAction::Finish(Ok(UploadOutcome::Uploaded)),
            UploadEvent::Failed(e) => r == UploadAction::Finish(Err(e)),
        },
{
    match event {
        UploadEvent::Start => UploadAction::CheckKey,
        UploadEvent::KeyChecked(exists) => {
            if exists {
                UploadAction::Finish(Ok(UploadOutcome::KeyExists))
            } else {
                UploadAction::Ingest
            }
        },
        UploadEvent::Ingested(n) => {
            if n == 0 {
                UploadAction::Finish(Ok(UploadOutcome::NoData))
            } else {
                UploadAction::Store
            }
        },
        UploadEvent::Stored(list) => {
            if list.len() == 0 {
                UploadAction::Finish(Ok(UploadOutcome::NoRecords))
            } else {
                UploadAction::Index(encode_records(list.as_slice()))
            }
        },
        UploadEvent::Indexed => UploadAction::Finish(Ok(UploadOutcome::Uploaded)),
        UploadEvent::Failed(e) => UploadAction::Finish(Err(e)),
    }
}

/// Once a key was uploaded, a second upload of it, whatever its payload,
/// reports that the key exists and changes neither the index nor the
/// segment.
pub proof fn lemma_second_upload_conflicts(
    index: Map<Seq<u8>, Seq<u8>>,
    seg: Seq<u8>,
    user: Seq<u8>,
    key: Seq<u8>,
    first: Seq<u8>,
    second: Seq<u8>,
)
    requires
        upload_spec(index, seg, user, key, first).2 == Ok::<UploadOutcome, StoreError>(
            UploadOutcome::Uploaded,
        ),
    ensures
        ({
            let (index1, seg1, _) = upload_spec(index, seg, user, key, first);
            upload_spec(index1, seg1, user, key, second) == (
                index1,
                seg1,
                Ok::<UploadOutcome, StoreError>(UploadOutcome::KeyExists),
            )
        }),
{
}

/// An empty payload under a new key is rejected, and neither the index nor
/// the segment changes.
pub proof fn lemma_empty_payload_rejected(
    index: Map<Seq<u8>, Seq<u8>>,
    seg: Seq<u8>,
    user: Seq<u8>,
    key: Seq<u8>,
)
    requires
        !index.contains_key(composite_spec(user, key)),
    ensures
        upload_spec(index, seg, user, key, Seq::empty()) == (
            index,
            seg,
            Ok::<UploadOutcome, StoreError>(UploadOutcome::NoData),
        ),
{
}

/// Uploads of one key under two different identities do not collide: the
/// second ends as it would have without the first, and leaves the first
/// one's index entry as it was.
pub proof fn lemma_identities_isolated(
    index: Map<Seq<u8>, Seq<u8>>,
    seg_a: Seq<u8>,
    seg_b: Seq<u8>,
    user_a: Seq<u8>,
    user_b: Seq<u8>,
    key: Seq<u8>,
    payload_a: Seq<u8>,
    payload_b: Seq<u8>,
)
    requires
        valid_identity(user_a),
        valid_identity(user_b),
        user_a != user_b,
    ensures
        composite_spec(user_a, key) != composite_spec(user_b, key),
        ({
            let (index1, _, _) = upload_spec(index, seg_a, user_a, key, payload_a);
            let (index2, seg_b2, r_b) = upload_spec(index1, seg_b, user_b, key, payload_b);
            let (index_alone, seg_b_alone, r_b_alone) = upload_spec(
                index,
                seg_b,
                user_b,
                key,
                payload_b,
            );
            &&& r_b == r_b_alone
            &&& seg_b2 == seg_b_alone
            &&& index2.contains_key(composite_spec(user_a, key)) == index1.contains_key(
                composite_spec(user_a, key),
            )
            &&& index1.contains_key(composite_spec(user_a, key)) ==> index2[composite_spec(
                user_a,
                key,
            )] == index1[composite_spec(user_a, key)]
        }),
{
    if composite_spec(user_a, key) == composite_spec(user_b, key) {
        crate::database::lemma_composite_injective(user_a, key, user_b, key);
    }
}

} // verus!
