use blobstore::codec::{decode_records, encode_records};
use blobstore::database::Database;
use blobstore::error::StoreError;
use blobstore::index::MetaIndex;
use blobstore::segment::{write_files_to_storage, Segment};
use blobstore::service::{put_service, upload_step, UploadAction, UploadEvent, UploadOutcome};

#[test]
fn encode_layout_is_little_endian_pairs() {
    let bytes = encode_records(&[(1, 0x0203)]);
    assert_eq!(
        bytes,
        vec![1, 0, 0, 0, 0, 0, 0, 0, 0x03, 0x02, 0, 0, 0, 0, 0, 0]
    );
    assert!(encode_records(&[]).is_empty());
}

#[test]
fn codec_round_trip() {
    let cases: Vec<Vec<(u64, u64)>> = vec![
        vec![],
        vec![(0, 11)],
        vec![(5, 7), (u64::MAX, 0), (0, u64::MAX), (123456789, 987654321)],
    ];
    for records in cases {
        let bytes = encode_records(&records);
        assert_eq!(bytes.len(), 16 * records.len());
        assert_eq!(decode_records(&bytes), Ok(records));
    }
}

#[test]
fn decode_rejects_truncated_input() {
    let bytes = encode_records(&[(1, 2), (3, 4)]);
    assert_eq!(decode_records(&bytes[..31]), Err(StoreError::Decode));
    assert_eq!(decode_records(&bytes[..1]), Err(StoreError::Decode));
    assert_eq!(decode_records(&[]), Ok(vec![]));
}

#[test]
fn append_monotonic_and_read_back() {
    let mut seg = Segment::open();
    let a = b"first payload".to_vec();
    let b = b"second".to_vec();
    let (o1, l1) = seg.append(&a).unwrap();
    let (o2, l2) = seg.append(&b).unwrap();
    assert_eq!((o1, l1), (0, 13));
    assert_eq!((o2, l2), (13, 6));
    assert!(o2 >= o1 + a.len() as u64);
    assert_eq!(seg.read(o1, l1), Ok(a));
    assert_eq!(seg.read(o2, l2), Ok(b));
    assert_eq!(seg.len(), 19);
}

#[test]
fn read_past_end_is_short() {
    let mut seg = Segment::open();
    seg.append(b"abc").unwrap();
    assert_eq!(seg.read(0, 4), Err(StoreError::ShortRead));
    assert_eq!(seg.read(3, 1), Err(StoreError::ShortRead));
    assert_eq!(seg.read(u64::MAX, 2), Err(StoreError::ShortRead));
    assert_eq!(seg.read(3, 0), Ok(vec![]));
}

#[test]
fn write_files_returns_one_record() {
    let mut seg = Segment::open();
    assert_eq!(write_files_to_storage(&mut seg, b"xy"), Ok(vec![(0, 2)]));
    assert_eq!(write_files_to_storage(&mut seg, b"abc"), Ok(vec![(2, 3)]));
    assert_eq!(seg.read(0, 5), Ok(b"xyabc".to_vec()));
}

#[test]
fn identity_must_be_nonempty_without_separator() {
    assert!(Database::new("alice").is_ok());
    assert_eq!(Database::new("").err(), Some(StoreError::BadRequest));
    assert_eq!(Database::new("al|ice").err(), Some(StoreError::BadRequest));
}

#[test]
fn composite_key_joins_with_separator() {
    let db = Database::new("alice").unwrap();
    assert_eq!(db.composite_key("report"), b"alice|report".to_vec());
    assert_eq!(db.composite_key("a|b"), b"alice|a|b".to_vec());
}

#[test]
fn end_to_end_upload() {
    let db = Database::new("alice").unwrap();
    let mut index = MetaIndex::new();
    let mut seg = Segment::open();
    let r = put_service(&db, &mut index, &mut seg, "report", b"hello world");
    assert_eq!(r, Ok(UploadOutcome::Uploaded));
    assert_eq!(r.unwrap().status(), 200);
    assert!(db.check_key(&index, "report"));
    assert_eq!(db.get_records(&index, "report"), Ok(vec![(0, 11)]));
    assert_eq!(seg.read(0, 11), Ok(b"hello world".to_vec()));

    let again = put_service(&db, &mut index, &mut seg, "report", b"hello world");
    assert_eq!(again, Ok(UploadOutcome::KeyExists));
    assert_eq!(again.unwrap().status(), 400);
    assert_eq!(seg.len(), 11);
    assert_eq!(seg.read(0, 11), Ok(b"hello world".to_vec()));
}

#[test]
fn second_upload_keeps_first_bytes() {
    let db = Database::new("carol").unwrap();
    let mut index = MetaIndex::new();
    let mut seg = Segment::open();
    put_service(&db, &mut index, &mut seg, "k", b"one").unwrap();
    let r = put_service(&db, &mut index, &mut seg, "k", b"a different payload");
    assert_eq!(r, Ok(UploadOutcome::KeyExists));
    assert_eq!(seg.len(), 3);
    assert_eq!(db.get_records(&index, "k"), Ok(vec![(0, 3)]));
}

#[test]
fn empty_payload_is_rejected() {
    let db = Database::new("alice").unwrap();
    let mut index = MetaIndex::new();
    let mut seg = Segment::open();
    let r = put_service(&db, &mut index, &mut seg, "empty", b"");
    assert_eq!(r, Ok(UploadOutcome::NoData));
    assert_eq!(r.unwrap().status(), 400);
    assert!(!db.check_key(&index, "empty"));
    assert_eq!(seg.len(), 0);
}

#[test]
fn identities_do_not_collide() {
    let alice = Database::new("alice").unwrap();
    let bob = Database::new("bob").unwrap();
    let mut index = MetaIndex::new();
    let mut seg_a = Segment::open();
    let mut seg_b = Segment::open();
    assert_eq!(
        put_service(&alice, &mut index, &mut seg_a, "shared", b"from alice"),
        Ok(UploadOutcome::Uploaded)
    );
    assert_eq!(
        put_service(&bob, &mut index, &mut seg_b, "shared", b"bob"),
        Ok(UploadOutcome::Uploaded)
    );
    assert_eq!(alice.get_records(&index, "shared"), Ok(vec![(0, 10)]));
    assert_eq!(bob.get_records(&index, "shared"), Ok(vec![(0, 3)]));
    assert_eq!(seg_a.read(0, 10), Ok(b"from alice".to_vec()));
    assert_eq!(seg_b.read(0, 3), Ok(b"bob".to_vec()));
}

#[test]
fn append_without_index_leaves_key_unknown() {
    let db = Database::new("alice").unwrap();
    let index = MetaIndex::new();
    let mut seg = Segment::open();
    assert_eq!(write_files_to_storage(&mut seg, b"orphan"), Ok(vec![(0, 6)]));
    assert!(!db.check_key(&index, "report"));
    assert_eq!(db.check_key_nonexistance(&index, "report"), Err(StoreError::NotFound));
    assert_eq!(db.get_records(&index, "report"), Err(StoreError::NotFound));
}

#[test]
fn corrupt_index_value_fails_to_decode() {
    let db = Database::new("alice").unwrap();
    let mut index = MetaIndex::new();
    db.upload_sql(&mut index, "bad", &[1, 2, 3]);
    assert_eq!(db.check_key_nonexistance(&index, "bad"), Ok(()));
    assert_eq!(db.get_records(&index, "bad"), Err(StoreError::Decode));
}

#[test]
fn delete_removes_only_that_key() {
    let db = Database::new("alice").unwrap();
    let mut index = MetaIndex::new();
    let mut seg = Segment::open();
    put_service(&db, &mut index, &mut seg, "a", b"1").unwrap();
    put_service(&db, &mut index, &mut seg, "b", b"22").unwrap();
    db.delete_key(&mut index, "a");
    assert!(!db.check_key(&index, "a"));
    assert_eq!(db.get_records(&index, "b"), Ok(vec![(1, 2)]));
    db.delete_key(&mut index, "a");
    assert!(!db.check_key(&index, "a"));
    assert_eq!(
        put_service(&db, &mut index, &mut seg, "a", b"333"),
        Ok(UploadOutcome::Uploaded)
    );
    assert_eq!(db.get_records(&index, "a"), Ok(vec![(3, 3)]));
}

#[test]
fn index_put_replaces_value() {
    let mut index = MetaIndex::new();
    assert!(!index.contains(b"k"));
    index.put(b"k", b"v1");
    index.put(b"k", b"v2");
    assert_eq!(index.get(b"k"), Some(b"v2".to_vec()));
    index.delete(b"k");
    assert_eq!(index.get(b"k"), None);
}

#[test]
fn upload_steps_follow_the_outcomes() {
    assert!(matches!(upload_step(UploadEvent::Start), UploadAction::CheckKey));
    assert!(matches!(
        upload_step(UploadEvent::KeyChecked(true)),
        UploadAction::Finish(Ok(UploadOutcome::KeyExists))
    ));
    assert!(matches!(upload_step(UploadEvent::KeyChecked(false)), UploadAction::Ingest));
    assert!(matches!(
        upload_step(UploadEvent::Ingested(0)),
        UploadAction::Finish(Ok(UploadOutcome::NoData))
    ));
    assert!(matches!(upload_step(UploadEvent::Ingested(4)), UploadAction::Store));
    assert!(matches!(
        upload_step(UploadEvent::Stored(vec![])),
        UploadAction::Finish(Ok(UploadOutcome::NoRecords))
    ));
    match upload_step(UploadEvent::Stored(vec![(0, 11)])) {
        UploadAction::Index(bytes) => assert_eq!(bytes, encode_records(&[(0, 11)])),
        _ => panic!("expected an index write"),
    }
    assert!(matches!(
        upload_step(UploadEvent::Indexed),
        UploadAction::Finish(Ok(UploadOutcome::Uploaded))
    ));
    assert!(matches!(
        upload_step(UploadEvent::Failed(StoreError::Io)),
        UploadAction::Finish(Err(StoreError::Io))
    ));
}
