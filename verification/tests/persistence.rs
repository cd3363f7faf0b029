use vanity_pool::format::parse_batch;
use vanity_pool::format::render_batch;
use vanity_pool::format::VanityBatch;
use vanity_pool::format::VanityError;
use vanity_pool::format::VanityKeypair;
use vanity_pool::pool::VanityService;

fn sample_batch() -> VanityBatch {
    VanityBatch {
        suffix: "ab".to_string(),
        count: 2,
        generated_at: "2024-01-01T00:00:00+00:00".to_string(),
        keypairs: vec![
            VanityKeypair {
                public_key: "3qK1aaab".to_string(),
                private_key: "5HueCC7ab".to_string(),
            },
            VanityKeypair {
                public_key: "9xQ2bbab".to_string(),
                private_key: "2bqT9yzab".to_string(),
            },
        ],
    }
}

#[test]
fn test_render_empty_batch_exact_text() {
    let batch = VanityBatch {
        suffix: "ab".to_string(),
        count: 0,
        generated_at: "t".to_string(),
        keypairs: Vec::new(),
    };
    let doc = render_batch(&batch);
    assert_eq!(doc, "{\"suffix\":\"ab\",\"count\":0,\"generated_at\":\"t\",\"keypairs\":[]}");
}

#[test]
fn test_render_parse_roundtrip() {
    let batch = sample_batch();
    let doc = render_batch(&batch);
    let parsed = parse_batch(&doc).expect("a rendered document must parse");
    assert_eq!(parsed.suffix, "ab");
    assert_eq!(parsed.count, 2);
    assert_eq!(parsed.generated_at, "2024-01-01T00:00:00+00:00");
    assert_eq!(parsed.keypairs.len(), 2);
    assert_eq!(parsed.keypairs[0].public_key, "3qK1aaab");
    assert_eq!(parsed.keypairs[0].private_key, "5HueCC7ab");
    assert_eq!(parsed.keypairs[1].public_key, "9xQ2bbab");
    assert_eq!(parsed.keypairs[1].private_key, "2bqT9yzab");
}

#[test]
fn test_roundtrip_with_escaped_characters() {
    let batch = VanityBatch {
        suffix: "a\"b\\c".to_string(),
        count: 7,
        generated_at: "no\\w\"".to_string(),
        keypairs: Vec::new(),
    };
    let doc = render_batch(&batch);
    let parsed = parse_batch(&doc).expect("a rendered document must parse");
    assert_eq!(parsed.suffix, "a\"b\\c");
    assert_eq!(parsed.count, 7);
    assert_eq!(parsed.generated_at, "no\\w\"");
    assert_eq!(parsed.keypairs.len(), 0);
}

#[test]
fn test_parse_reads_count_120() {
    let doc = "{\"suffix\":\"pump\",\"count\":120,\"generated_at\":\"t\",\"keypairs\":[]}";
    let parsed = parse_batch(doc).expect("document must parse");
    assert_eq!(parsed.count, 120);
    assert_eq!(parsed.suffix, "pump");
}

#[test]
fn test_parse_malformed_documents() {
    assert_eq!(parse_batch("").unwrap_err(), VanityError::MalformedDocument);
    assert_eq!(parse_batch("not a document").unwrap_err(), VanityError::MalformedDocument);
    // truncated
    assert_eq!(
        parse_batch("{\"suffix\":\"ab\",\"count\":2").unwrap_err(),
        VanityError::MalformedDocument
    );
    // trailing garbage
    assert_eq!(
        parse_batch("{\"suffix\":\"ab\",\"count\":0,\"generated_at\":\"t\",\"keypairs\":[]}x")
            .unwrap_err(),
        VanityError::MalformedDocument
    );
    // missing digits where the count belongs
    assert_eq!(
        parse_batch("{\"suffix\":\"ab\",\"count\":,\"generated_at\":\"t\",\"keypairs\":[]}")
            .unwrap_err(),
        VanityError::MalformedDocument
    );
}

#[test]
fn test_save_load_roundtrip() {
    // a full save/load cycle on really generated keypairs
    let (keys, docs) = VanityService::generate_vanity_live("a", 2, 5);
    assert_eq!(keys.len(), 2);
    assert_eq!(docs.len(), 1);

    let service = VanityService::from_file(&docs[0], "a".to_string(), 10)
        .expect("a saved batch must load back");
    assert_eq!(service.pool_size(), 2);
    assert_eq!(service.pool.len(), 2);
    for (loaded, original) in service.pool.iter().zip(keys.iter()) {
        assert_eq!(loaded.address, original.address);
        assert_eq!(loaded.secret, original.secret);
    }
}

#[test]
fn test_load_with_wrong_suffix_fails_and_loads_nothing() {
    let (_keys, docs) = VanityService::generate_vanity_live("a", 1, 5);
    let result = VanityService::from_file(&docs[0], "zz".to_string(), 10);
    assert_eq!(result.unwrap_err(), VanityError::SuffixMismatch);
}

#[test]
fn test_load_with_undecodable_private_key_fails() {
    let batch = VanityBatch {
        suffix: "a".to_string(),
        count: 1,
        generated_at: "t".to_string(),
        keypairs: vec![VanityKeypair {
            public_key: "aaaa".to_string(),
            private_key: "!!!not-base58!!!".to_string(),
        }],
    };
    let doc = render_batch(&batch);
    let result = VanityService::from_file(&doc, "a".to_string(), 10);
    assert_eq!(result.unwrap_err(), VanityError::InvalidPrivateKey);
}

#[test]
fn test_load_with_inconsistent_keypair_bytes_fails() {
    // 64 zero bytes decode from base58 but do not form a valid keypair:
    // the stored public half does not match the derived one.
    let bogus = bs58::encode(&[0u8; 64]).into_string();
    let batch = VanityBatch {
        suffix: "a".to_string(),
        count: 1,
        generated_at: "t".to_string(),
        keypairs: vec![VanityKeypair { public_key: "aaaa".to_string(), private_key: bogus }],
    };
    let doc = render_batch(&batch);
    let result = VanityService::from_file(&doc, "a".to_string(), 10);
    assert_eq!(result.unwrap_err(), VanityError::InvalidPrivateKey);
}

#[test]
fn test_live_mode_chunking() {
    let (keys, docs) = VanityService::generate_vanity_live("a", 5, 2);
    assert_eq!(keys.len(), 5);
    assert_eq!(docs.len(), 3); // ceil(5 / 2)

    // write the file as the embedding would, then split it back apart
    let mut file = String::new();
    for doc in &docs {
        file.push_str(doc);
        file.push('\n');
        file.push_str("---");
        file.push('\n');
    }
    let documents: Vec<&str> = file
        .split("\n---\n")
        .filter(|part| !part.is_empty())
        .collect();
    assert_eq!(documents.len(), 3);

    let mut total = 0;
    let mut all_addresses: Vec<String> = Vec::new();
    for (d, text) in documents.iter().enumerate() {
        let parsed = parse_batch(text).expect("every chunk document must parse");
        assert_eq!(parsed.suffix, "a");
        assert_eq!(parsed.count, parsed.keypairs.len());
        assert!(parsed.keypairs.len() <= 2);
        if d + 1 < documents.len() {
            assert_eq!(parsed.keypairs.len(), 2);
        }
        total += parsed.keypairs.len();
        for rec in &parsed.keypairs {
            all_addresses.push(rec.public_key.clone());
        }
    }
    assert_eq!(total, 5);
    for (address, key) in all_addresses.iter().zip(keys.iter()) {
        assert_eq!(address, &key.address);
        assert!(address.ends_with("a"));
    }
}

#[test]
fn test_live_mode_zero_total() {
    let (keys, docs) = VanityService::generate_vanity_live("a", 0, 3);
    assert_eq!(keys.len(), 0);
    assert_eq!(docs.len(), 0);
}
