use shardstore::placement::PlacementResolver;
use shardstore::store::shard_key;

#[test]
fn resolve_is_deterministic_across_calls() {
    let resolver = PlacementResolver::new(9);
    let id = b"0f8fad5b-d9cb-469f-a165-70867728950e";
    for i in 0..9 {
        let first = resolver.resolve(id, i);
        for _ in 0..100 {
            assert_eq!(resolver.resolve(id, i), first);
        }
    }
}

#[test]
fn resolve_is_deterministic_across_resolvers() {
    let a = PlacementResolver::new(9);
    let b = PlacementResolver::new(9);
    for i in 0..9 {
        assert_eq!(a.resolve(b"some-object", i), b.resolve(b"some-object", i));
    }
}

#[test]
fn resolve_stays_below_location_count() {
    for n in 1..12usize {
        let resolver = PlacementResolver::new(n);
        for i in 0..9 {
            assert!(resolver.resolve(b"bounds", i) < n);
        }
    }
}

#[test]
fn resolve_shows_no_hard_bias() {
    // Over many identifiers and the full index range, every location is hit
    // and no single location swallows the bulk of the shards.
    let resolver = PlacementResolver::new(9);
    let mut hits = [0usize; 9];
    for object in 0..200 {
        let id = format!("object-{object:04}");
        for i in 0..9 {
            hits[resolver.resolve(id.as_bytes(), i)] += 1;
        }
    }
    let total: usize = hits.iter().sum();
    assert_eq!(total, 1800);
    for &h in &hits {
        assert!(h > 0, "a location was never chosen: {hits:?}");
        assert!(h < total / 2, "one location dominates: {hits:?}");
    }
}

#[test]
fn resolve_matches_the_hash_formula() {
    // 64-bit FNV-1a over the identifier followed by the decimal index,
    // reduced modulo the location count, checked against reference values.
    // fnv1a("0") = 0xaf63ad4c86019caf, fnv1a("object-id7") = 0xded0a972a3b3fc65
    let nine = PlacementResolver::new(9);
    assert_eq!(nine.resolve(b"", 0), 5);
    assert_eq!(nine.resolve(b"object-id", 7), 4);
    let prime = PlacementResolver::new(1_000_000_007);
    assert_eq!(prime.resolve(b"", 0), 42_168_034);
}

#[test]
fn resolve_all_matches_single_resolution() {
    let resolver = PlacementResolver::new(7);
    let locations = resolver.resolve_all(b"walk", 9);
    assert_eq!(locations.len(), 9);
    for (i, &loc) in locations.iter().enumerate() {
        assert_eq!(loc, resolver.resolve(b"walk", i));
    }
}

#[test]
fn shard_key_pads_to_two_digits() {
    assert_eq!(shard_key(b"abc", 0), b"abc_00.bin");
    assert_eq!(shard_key(b"abc", 7), b"abc_07.bin");
    assert_eq!(shard_key(b"abc", 42), b"abc_42.bin");
}

#[test]
fn shard_key_grows_past_two_digits() {
    assert_eq!(shard_key(b"id", 100), b"id_100.bin");
    assert_eq!(shard_key(b"id", 255), b"id_255.bin");
}

#[test]
fn shard_keys_distinguish_shards_of_one_object() {
    let keys: Vec<Vec<u8>> = (0..9).map(|i| shard_key(b"same-object", i)).collect();
    for i in 0..9 {
        for j in (i + 1)..9 {
            assert_ne!(keys[i], keys[j]);
        }
    }
}
