//! Plain records describing stored objects and buckets.
//!
//! The engine itself never reads these: they are the shapes that a metadata
//! catalog around it records and returns.  They carry only plain values, so a
//! caller can move them across the boundary of the engine unchanged.

use vstd::prelude::*;

verus! {

/// The catalog record of one stored object.
///
/// `object_id` is the opaque identifier that scopes the object's shards; it is
/// assigned once at put time and never reused.  `content_length` is the true
/// byte length of the object, which a caller needs to trim the zero padding
/// that decoding leaves after the last data byte.
#[derive(Clone, Debug)]
pub struct ObjectMetadata {
    pub id: i64,
    pub bucket_name: String,
    pub object_id: String,
    pub file_name: Option<String>,
    pub content_type: Option<String>,
    pub content_length: Option<i64>,
    pub created_at: String,
}

/// The catalog record of one bucket.
#[derive(Clone, Debug)]
pub struct Bucket {
    pub id: String,
    pub bucket_name: String,
    pub created_at: String,
}

/// The buckets of the catalog, as a listing returns them.
#[derive(Clone, Debug)]
pub struct BucketListResponse {
    pub buckets: Vec<Bucket>,
}

} // verus!
