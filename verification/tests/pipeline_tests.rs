use shardstore::codec::ShardCodec;
use shardstore::errors::StorageError;
use shardstore::metadata::{Bucket, BucketListResponse, ObjectMetadata};
use shardstore::pipeline::{
    assemble_slots, plan_shards, recover_object, summarize_delete, summarize_put,
};
use shardstore::placement::PlacementResolver;
use shardstore::store::{shard_key, DeleteOutcome, ReadOutcome};

fn codec_6_3() -> ShardCodec {
    ShardCodec::new(6, 3).unwrap()
}

#[test]
fn plan_covers_every_shard_once() {
    let codec = codec_6_3();
    let resolver = PlacementResolver::new(9);
    let plan = plan_shards(&codec, &resolver, b"plan-object");
    assert_eq!(plan.len(), 9);
    for (i, target) in plan.iter().enumerate() {
        assert_eq!(target.shard_index, i);
        assert_eq!(target.location, resolver.resolve(b"plan-object", i));
        assert_eq!(target.key, shard_key(b"plan-object", i));
    }
}

#[test]
fn assemble_maps_reads_to_slots() {
    let reads = vec![
        ReadOutcome::Present(vec![1, 2, 3]),
        ReadOutcome::Absent,
        ReadOutcome::Present(vec![4, 5, 6]),
    ];
    let slots = assemble_slots(reads).unwrap();
    assert_eq!(slots, vec![Some(vec![1, 2, 3]), None, Some(vec![4, 5, 6])]);
}

#[test]
fn assemble_surfaces_read_failures() {
    let reads = vec![
        ReadOutcome::Present(vec![1]),
        ReadOutcome::Failed,
        ReadOutcome::Absent,
    ];
    assert_eq!(assemble_slots(reads).unwrap_err(), StorageError::ShardIo);
}

#[test]
fn recover_round_trips_with_absences() {
    let codec = codec_6_3();
    let buffer: Vec<u8> = (0..5000u32).map(|i| (i % 255) as u8).collect();
    let shards = codec.encode(&buffer).unwrap();
    let reads: Vec<ReadOutcome> = shards
        .into_iter()
        .enumerate()
        .map(|(i, shard)| {
            if i == 2 || i == 8 {
                ReadOutcome::Absent
            } else {
                ReadOutcome::Present(shard)
            }
        })
        .collect();
    let recovered = recover_object(&codec, reads).unwrap();
    assert_eq!(&recovered[..buffer.len()], &buffer[..]);
}

#[test]
fn recover_treats_io_failure_as_fatal() {
    // A single failed read is fatal even though eight shards are present.
    let codec = codec_6_3();
    let shards = codec.encode(&vec![9u8; 600]).unwrap();
    let reads: Vec<ReadOutcome> = shards
        .into_iter()
        .enumerate()
        .map(|(i, shard)| {
            if i == 4 {
                ReadOutcome::Failed
            } else {
                ReadOutcome::Present(shard)
            }
        })
        .collect();
    assert_eq!(recover_object(&codec, reads).unwrap_err(), StorageError::ShardIo);
}

#[test]
fn recover_reports_reconstruction_failure() {
    let codec = codec_6_3();
    let shards = codec.encode(&vec![7u8; 600]).unwrap();
    let reads: Vec<ReadOutcome> = shards
        .into_iter()
        .enumerate()
        .map(|(i, shard)| {
            if i < 4 {
                ReadOutcome::Absent
            } else {
                ReadOutcome::Present(shard)
            }
        })
        .collect();
    assert_eq!(
        recover_object(&codec, reads).unwrap_err(),
        StorageError::Reconstruction
    );
}

#[test]
fn put_report_lists_failed_indices_in_order() {
    let results = vec![true, false, true, true, false, true, true, true, false];
    let report = summarize_put(&results);
    assert_eq!(report.failed, vec![1, 4, 8]);
    assert!(!report.succeeded());
}

#[test]
fn put_report_empty_when_all_writes_land() {
    let report = summarize_put(&vec![true; 9]);
    assert!(report.failed.is_empty());
    assert!(report.succeeded());
}

#[test]
fn delete_succeeds_when_every_slot_is_removed() {
    let outcomes = vec![DeleteOutcome::Removed; 9];
    assert!(summarize_delete(&outcomes).is_ok());
}

#[test]
fn delete_aborts_on_first_missing_slot() {
    let mut outcomes = vec![DeleteOutcome::Removed; 9];
    outcomes[3] = DeleteOutcome::Missing;
    outcomes[5] = DeleteOutcome::Failed;
    assert_eq!(summarize_delete(&outcomes).unwrap_err(), StorageError::NotFound);
}

#[test]
fn delete_aborts_on_first_io_failure() {
    let mut outcomes = vec![DeleteOutcome::Removed; 9];
    outcomes[2] = DeleteOutcome::Failed;
    assert_eq!(summarize_delete(&outcomes).unwrap_err(), StorageError::ShardIo);
}

#[test]
fn metadata_records_hold_their_fields() {
    let object = ObjectMetadata {
        id: 17,
        bucket_name: "photos".to_string(),
        object_id: "0f8fad5b".to_string(),
        file_name: Some("cat.png".to_string()),
        content_type: Some("image/png".to_string()),
        content_length: Some(12_001),
        created_at: "2024-05-01T00:00:00Z".to_string(),
    };
    assert_eq!(object.bucket_name, "photos");
    assert_eq!(object.content_length, Some(12_001));
    let bucket = Bucket {
        id: "b-1".to_string(),
        bucket_name: "photos".to_string(),
        created_at: "2024-05-01T00:00:00Z".to_string(),
    };
    let listing = BucketListResponse { buckets: vec![bucket.clone()] };
    assert_eq!(listing.buckets.len(), 1);
    assert_eq!(listing.buckets[0].bucket_name, bucket.bucket_name);
}
