use open_gateway::api_key::{weighted_index_for, ApiKeySelector};
use open_gateway::config::{ApiKeyConfig, ApiKeyPool, ApiKeyStrategy};

fn create_test_pool(strategy: ApiKeyStrategy) -> ApiKeyPool {
    ApiKeyPool {
        keys: vec![
            ApiKeyConfig {
                key: "key1".to_string(),
                label: None,
                weight: 1,
                enabled: true,
            },
            ApiKeyConfig {
                key: "key2".to_string(),
                label: None,
                weight: 2,
                enabled: true,
            },
            ApiKeyConfig {
                key: "key3".to_string(),
                label: None,
                weight: 1,
                enabled: false, // disabled
            },
        ],
        strategy,
        header_name: "X-API-Key".to_string(),
        query_param_name: None,
    }
}

#[test]
fn test_round_robin() {
    let pool = create_test_pool(ApiKeyStrategy::RoundRobin);
    let mut selector = ApiKeySelector::new(&pool);

    // Only 2 enabled keys
    assert_eq!(selector.len(), 2);

    // Should cycle through keys
    assert_eq!(selector.get_key().as_deref(), Some("key1"));
    assert_eq!(selector.get_key().as_deref(), Some("key2"));
    assert_eq!(selector.get_key().as_deref(), Some("key1"));
    assert_eq!(selector.get_key().as_deref(), Some("key2"));
}

#[test]
fn test_random() {
    let pool = create_test_pool(ApiKeyStrategy::Random);
    let mut selector = ApiKeySelector::new(&pool);

    // Should return one of the enabled keys
    for _ in 0..10 {
        let key = selector.get_key().unwrap();
        assert!(key == "key1" || key == "key2");
    }
}

#[test]
fn test_weighted() {
    let pool = create_test_pool(ApiKeyStrategy::Weight);
    let mut selector = ApiKeySelector::new(&pool);

    // Run multiple times and check distribution
    let mut key1_count = 0;
    let mut key2_count = 0;
    let iterations = 1000;

    for _ in 0..iterations {
        let key = selector.get_key().unwrap();
        if key == "key1" {
            key1_count += 1;
        } else {
            key2_count += 1;
        }
    }

    // key2 has weight 2, key1 has weight 1
    // key2 should be selected roughly 2x more often
    let ratio = key2_count as f64 / key1_count as f64;
    assert!(ratio > 1.5 && ratio < 2.5, "Weighted ratio: {}", ratio);
}

#[test]
fn test_empty_pool() {
    let pool = ApiKeyPool {
        keys: vec![],
        strategy: ApiKeyStrategy::RoundRobin,
        header_name: "X-API-Key".to_string(),
        query_param_name: None,
    };
    let mut selector = ApiKeySelector::new(&pool);

    assert!(selector.is_empty());
    assert_eq!(selector.get_key(), None);
}

#[test]
fn test_round_robin_even_distribution() {
    // Over a multiple of the key count, every key is picked equally often.
    let pool = create_test_pool(ApiKeyStrategy::RoundRobin);
    let mut selector = ApiKeySelector::new(&pool);
    let mut counts = [0usize; 2];
    for _ in 0..100 {
        let key = selector.get_key().unwrap();
        if key == "key1" {
            counts[0] += 1;
        } else if key == "key2" {
            counts[1] += 1;
        }
    }
    assert_eq!(counts[0], 50);
    assert_eq!(counts[1], 50);
}

#[test]
fn test_pick_only_enabled_keys() {
    // A disabled key never comes out, under any strategy.
    for strategy in [
        ApiKeyStrategy::RoundRobin,
        ApiKeyStrategy::Random,
        ApiKeyStrategy::Weight,
    ] {
        let pool = create_test_pool(strategy);
        let mut selector = ApiKeySelector::new(&pool);
        for _ in 0..50 {
            let key = selector.get_key().unwrap();
            assert_ne!(key, "key3");
        }
    }
}

#[test]
fn test_weighted_ratio_many_draws() {
    // 10,000 picks: each key's share is within 5 percentage points of
    // weight / total_weight.
    let pool = create_test_pool(ApiKeyStrategy::Weight);
    let mut selector = ApiKeySelector::new(&pool);
    let iterations = 10_000usize;
    let mut key2_count = 0usize;
    for _ in 0..iterations {
        if selector.get_key().unwrap() == "key2" {
            key2_count += 1;
        }
    }
    let share = key2_count as f64 / iterations as f64;
    assert!((share - 2.0 / 3.0).abs() < 0.05, "share was {}", share);
}

#[test]
fn test_weighted_index_walk() {
    // The weighted walk returns the first key whose cumulative weight
    // exceeds the draw, and the last key for a draw beyond the total.
    let keys = vec![
        ApiKeyConfig {
            key: "a".to_string(),
            label: None,
            weight: 2,
            enabled: true,
        },
        ApiKeyConfig {
            key: "b".to_string(),
            label: None,
            weight: 0,
            enabled: true,
        },
        ApiKeyConfig {
            key: "c".to_string(),
            label: None,
            weight: 3,
            enabled: true,
        },
    ];
    assert_eq!(weighted_index_for(&keys, 0), 0);
    assert_eq!(weighted_index_for(&keys, 1), 0);
    assert_eq!(weighted_index_for(&keys, 2), 2);
    assert_eq!(weighted_index_for(&keys, 4), 2);
    // Beyond the total weight: the defined fallback is the last key.
    assert_eq!(weighted_index_for(&keys, 99), 2);
}

#[test]
fn test_zero_total_weight_degrades_to_random() {
    let pool = ApiKeyPool {
        keys: vec![
            ApiKeyConfig {
                key: "k1".to_string(),
                label: None,
                weight: 0,
                enabled: true,
            },
            ApiKeyConfig {
                key: "k2".to_string(),
                label: None,
                weight: 0,
                enabled: true,
            },
        ],
        strategy: ApiKeyStrategy::Weight,
        header_name: "X-API-Key".to_string(),
        query_param_name: None,
    };
    let mut selector = ApiKeySelector::new(&pool);
    for _ in 0..20 {
        let key = selector.get_key().unwrap();
        assert!(key == "k1" || key == "k2");
    }
}

#[test]
fn test_strategy_name() {
    let pool = create_test_pool(ApiKeyStrategy::RoundRobin);
    assert_eq!(ApiKeySelector::new(&pool).strategy_name(), "round_robin");
    let pool = create_test_pool(ApiKeyStrategy::Random);
    assert_eq!(ApiKeySelector::new(&pool).strategy_name(), "random");
    let pool = create_test_pool(ApiKeyStrategy::Weight);
    assert_eq!(ApiKeySelector::new(&pool).strategy_name(), "weight");
}
