use vanity_pool::ends_with;
use vanity_pool::pool::VanityService;

#[test]
fn test_generate_vanity_batch() {
    let suffix = "a"; // Fast suffix for testing
    let count = 3;
    let keypairs = VanityService::generate_vanity_batch(suffix, count);

    assert_eq!(keypairs.len(), count);

    for (i, keypair) in keypairs.iter().enumerate() {
        let public_key = &keypair.address;
        println!("Generated vanity address {}: {}", i + 1, public_key);
        assert!(
            public_key.ends_with(suffix),
            "Generated address {} should end with {}",
            public_key,
            suffix
        );
    }
}

#[test]
fn test_vanity_service_creation() {
    let service = VanityService::new("test".to_string(), 5);
    assert_eq!(service.suffix, "test");
    assert_eq!(service.pool_size, 5);
}

#[test]
fn test_vanity_service_pool_operations() {
    let mut service = VanityService::new("xyz".to_string(), 2);

    let initial_size = service.pool_size();
    println!("Initial pool size: {}", initial_size);

    // Try to get a vanity keypair
    if let Some(keypair) = service.get_next_vanity() {
        let public_key = &keypair.address;
        assert!(
            public_key.ends_with("xyz"),
            "Retrieved address {} should end with xyz",
            public_key
        );
    }
}

#[test]
fn test_vanity_generation_performance() {
    let suffix = "a";
    let start = std::time::Instant::now();
    let keypair = VanityService::generate_single_vanity(suffix);
    let duration = start.elapsed();

    let public_key = &keypair.address;
    assert!(public_key.ends_with(suffix));

    println!("Generated vanity address '{}' in {:?}", public_key, duration);
    assert!(duration.as_secs() < 10, "Vanity generation should complete within 10 seconds");
}

#[test]
fn test_suffix_matcher() {
    assert!(ends_with("abcpump", "pump"));
    assert!(!ends_with("abcPump", "pump")); // case-sensitive
    assert!(!ends_with("pum", "pump")); // shorter than the suffix
    assert!(ends_with("pump", "pump"));
    assert!(ends_with("anything", "")); // the empty suffix matches everything
    assert!(ends_with("", ""));
}

#[test]
fn test_batch_of_zero_returns_immediately() {
    let keypairs = VanityService::generate_vanity_batch("a", 0);
    assert_eq!(keypairs.len(), 0);
}

#[test]
fn test_batch_of_five_two_char_suffix() {
    let suffix = "ab";
    let keypairs = VanityService::generate_vanity_batch(suffix, 5);
    assert_eq!(keypairs.len(), 5);
    for keypair in &keypairs {
        assert!(keypair.address.ends_with(suffix));
    }
}

#[test]
fn test_empty_suffix_matches_every_address() {
    let keypairs = VanityService::generate_vanity_batch("", 2);
    assert_eq!(keypairs.len(), 2);
}

#[test]
fn test_pool_reaches_target_through_refills() {
    let mut service = VanityService::new("ab".to_string(), 3);
    while service.refill_needed() > 0 {
        let needed = service.refill_needed();
        let found = VanityService::generate_vanity_batch("ab", needed);
        service.add_found(found);
    }
    assert_eq!(service.pool_size(), 3);
    assert_eq!(service.refill_needed(), 0);
}

#[test]
fn test_pop_on_empty_pool_returns_none_immediately() {
    let mut service = VanityService::new("ab".to_string(), 5);
    assert_eq!(service.pool_size(), 0);
    assert!(service.get_next_vanity().is_none());
}

#[test]
fn test_pop_is_lifo_and_never_repeats() {
    let mut service = VanityService::new("a".to_string(), 3);
    let found = VanityService::generate_vanity_batch("a", 3);
    let addresses: Vec<String> = found.iter().map(|k| k.address.clone()).collect();
    service.add_found(found);
    assert_eq!(service.pool_size(), 3);

    let first = service.get_next_vanity().expect("pool should hold three keypairs");
    let second = service.get_next_vanity().expect("pool should hold two keypairs");
    let third = service.get_next_vanity().expect("pool should hold one keypair");
    assert!(service.get_next_vanity().is_none());

    // most recently added comes out first
    assert_eq!(first.address, addresses[2]);
    assert_eq!(second.address, addresses[1]);
    assert_eq!(third.address, addresses[0]);

    // no keypair is handed out twice
    assert_ne!(first.secret, second.secret);
    assert_ne!(second.secret, third.secret);
    assert_ne!(first.secret, third.secret);
}
