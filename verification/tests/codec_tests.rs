use shardstore::codec::ShardCodec;
use shardstore::errors::StorageError;

fn codec_6_3() -> ShardCodec {
    ShardCodec::new(6, 3).unwrap()
}

fn all_present(shards: Vec<Vec<u8>>) -> Vec<Option<Vec<u8>>> {
    shards.into_iter().map(Some).collect()
}

#[test]
fn new_rejects_zero_data_shards() {
    assert_eq!(ShardCodec::new(0, 3).unwrap_err(), StorageError::Encoding);
}

#[test]
fn new_rejects_zero_parity_shards() {
    assert_eq!(ShardCodec::new(6, 0).unwrap_err(), StorageError::Encoding);
}

#[test]
fn new_rejects_more_than_256_shards() {
    assert_eq!(ShardCodec::new(254, 3).unwrap_err(), StorageError::Encoding);
    assert!(ShardCodec::new(253, 3).is_ok());
    assert!(ShardCodec::new(128, 128).is_ok());
}

#[test]
fn encode_divisible_buffer_has_no_padding() {
    // 12 000 bytes of 0x01 over k = 6, m = 3: nine shards of 2000 bytes,
    // every data shard unpadded 0x01 throughout.
    let codec = codec_6_3();
    let buffer = vec![0x01u8; 12_000];
    let shards = codec.encode(&buffer).unwrap();
    assert_eq!(shards.len(), 9);
    for shard in &shards {
        assert_eq!(shard.len(), 2000);
    }
    for shard in &shards[..6] {
        assert!(shard.iter().all(|&b| b == 0x01));
    }
}

#[test]
fn encode_pads_last_data_shard() {
    // 12 001 bytes of 0x01: shard length becomes 2001 and the last data
    // shard ends in the zero pad; decoding all nine shards gives back the
    // original bytes once trimmed to the known length.
    let codec = codec_6_3();
    let buffer = vec![0x01u8; 12_001];
    let shards = codec.encode(&buffer).unwrap();
    assert_eq!(shards.len(), 9);
    for shard in &shards {
        assert_eq!(shard.len(), 2001);
    }
    assert_eq!(*shards[5].last().unwrap(), 0x00);
    let mut decoded = codec.decode(all_present(shards)).unwrap();
    assert_eq!(decoded.len(), 6 * 2001);
    decoded.truncate(12_001);
    assert_eq!(decoded, buffer);
}

#[test]
fn decode_tolerates_exactly_m_absences() {
    // Drop shards 1, 4 and 7 (two data, one parity): exactly m = 3 of 9.
    let codec = codec_6_3();
    let buffer = vec![0x01u8; 12_000];
    let shards = codec.encode(&buffer).unwrap();
    let mut slots = all_present(shards);
    slots[1] = None;
    slots[4] = None;
    slots[7] = None;
    let decoded = codec.decode(slots).unwrap();
    assert_eq!(decoded, buffer);
}

#[test]
fn decode_fails_beyond_m_absences() {
    // Drop shards 1, 4, 7 and 8: four of 9, one more than m.
    let codec = codec_6_3();
    let buffer = vec![0x01u8; 12_000];
    let shards = codec.encode(&buffer).unwrap();
    let mut slots = all_present(shards);
    slots[1] = None;
    slots[4] = None;
    slots[7] = None;
    slots[8] = None;
    assert_eq!(codec.decode(slots).unwrap_err(), StorageError::Reconstruction);
}

#[test]
fn round_trip_empty_buffer() {
    let codec = codec_6_3();
    let shards = codec.encode(&[]).unwrap();
    assert_eq!(shards.len(), 9);
    for shard in &shards {
        assert!(shard.is_empty());
    }
    let decoded = codec.decode(all_present(shards)).unwrap();
    assert!(decoded.is_empty());
}

#[test]
fn round_trip_buffer_smaller_than_k() {
    let codec = codec_6_3();
    let buffer = vec![0xAB, 0xCD, 0xEF];
    let shards = codec.encode(&buffer).unwrap();
    assert_eq!(shards.len(), 9);
    for shard in &shards {
        assert_eq!(shard.len(), 1);
    }
    let mut decoded = codec.decode(all_present(shards)).unwrap();
    assert_eq!(decoded.len(), 6);
    decoded.truncate(3);
    assert_eq!(decoded, buffer);
}

#[test]
fn round_trip_multi_megabyte_buffer() {
    let codec = codec_6_3();
    let buffer: Vec<u8> = (0..3_000_000u32).map(|i| (i % 251) as u8).collect();
    let shards = codec.encode(&buffer).unwrap();
    let mut slots = all_present(shards);
    slots[0] = None;
    slots[3] = None;
    slots[6] = None;
    let mut decoded = codec.decode(slots).unwrap();
    decoded.truncate(buffer.len());
    assert_eq!(decoded, buffer);
}

#[test]
fn round_trip_every_loss_pattern_of_size_m() {
    // Every subset of 6 of the 9 shards reconstructs the object bit for bit.
    let codec = codec_6_3();
    let buffer: Vec<u8> = (0..996u32).map(|i| (i * 7 % 256) as u8).collect();
    let shards = codec.encode(&buffer).unwrap();
    for a in 0..9 {
        for b in (a + 1)..9 {
            for c in (b + 1)..9 {
                let mut slots = all_present(shards.clone());
                slots[a] = None;
                slots[b] = None;
                slots[c] = None;
                let decoded = codec.decode(slots).unwrap();
                assert_eq!(&decoded[..buffer.len()], &buffer[..]);
            }
        }
    }
}

#[test]
fn decode_rejects_inconsistent_shard_lengths() {
    let codec = codec_6_3();
    let buffer = vec![0x42u8; 600];
    let shards = codec.encode(&buffer).unwrap();
    let mut slots = all_present(shards);
    slots[2].as_mut().unwrap().push(0);
    assert_eq!(codec.decode(slots).unwrap_err(), StorageError::Reconstruction);
}

#[test]
fn decode_rejects_all_absent() {
    let codec = codec_6_3();
    let slots: Vec<Option<Vec<u8>>> = (0..9).map(|_| None).collect();
    assert_eq!(codec.decode(slots).unwrap_err(), StorageError::Reconstruction);
}

#[test]
fn parity_shards_carry_information() {
    // Reconstruction from a mix of data and parity shards must depend on the
    // parity bytes: corrupt one parity shard, drop enough data shards that it
    // is used, and the decoder returns different bytes.
    let codec = codec_6_3();
    let buffer: Vec<u8> = (0..600u32).map(|i| (i % 256) as u8).collect();
    let shards = codec.encode(&buffer).unwrap();
    let mut slots = all_present(shards);
    for byte in slots[6].as_mut().unwrap().iter_mut() {
        *byte ^= 0x55;
    }
    slots[0] = None;
    slots[1] = None;
    slots[2] = None;
    let decoded = codec.decode(slots).unwrap();
    assert_ne!(&decoded[..buffer.len()], &buffer[..]);
}
