use pwdgen::add_to_pool;
use pwdgen::contains_char;
use pwdgen::count_matching;
use pwdgen::from_pools;
use pwdgen::ConfigurationError;
use pwdgen::Pool;
use pwdgen::ALPHA;
use pwdgen::LOWER;
use pwdgen::NUMERIC;
use pwdgen::SPECIAL;
use pwdgen::UPPER;

#[test]
fn no_pools() {
    let pools: [Pool; 0] = [];
    let result = from_pools(&mut rand::thread_rng(), 1000, &pools);
    assert_eq!(result, Err(ConfigurationError::NoPools));
}

#[test]
fn single_pool() {
    let pools = [Pool {
        name: Some("special"),
        minimum: 3,
        char_set: SPECIAL,
    }];

    let pwd = from_pools(&mut rand::thread_rng(), 0, &pools).unwrap();
    assert_eq!(pwd.len(), 3);
    assert!(pwd.chars().all(|c| SPECIAL.contains(c)));
}

#[test]
fn minimums_of_zero() {
    let pools = [
        Pool {
            name: Some("alpha"),
            minimum: 1,
            char_set: ALPHA,
        },
        Pool {
            name: Some("numeric"),
            minimum: 0,
            char_set: NUMERIC,
        },
    ];

    let pwd = from_pools(&mut rand::thread_rng(), 10, &pools).unwrap();
    assert_eq!(pwd.len(), 10);
    assert!(pwd.chars().any(|c| ALPHA.contains(c)));
}

#[test]
fn length_of_two() {
    let pools = [
        Pool {
            name: Some("alpha"),
            minimum: 1,
            char_set: ALPHA,
        },
        Pool {
            name: Some("numeric"),
            minimum: 1,
            char_set: NUMERIC,
        },
    ];

    let pwd = from_pools(&mut rand::thread_rng(), 2, &pools).unwrap();
    assert_eq!(pwd.len(), 2);
    assert!(pwd.chars().any(|c| ALPHA.contains(c)));
    assert!(pwd.chars().any(|c| NUMERIC.contains(c)));
}

#[test]
fn minimums_exceed_length() {
    let pools = [
        Pool {
            name: Some("alpha"),
            minimum: 2,
            char_set: ALPHA,
        },
        Pool {
            name: Some("numeric"),
            minimum: 2,
            char_set: NUMERIC,
        },
    ];

    let pwd = from_pools(&mut rand::thread_rng(), 0, &pools).unwrap();
    assert_eq!(pwd.len(), 4);
    assert!(pwd.chars().filter(|c| ALPHA.contains(*c)).count() == 2);
    assert!(pwd.chars().filter(|c| NUMERIC.contains(*c)).count() == 2);
}

#[test]
fn general() {
    let pools = [
        Pool {
            name: Some("alpha"),
            minimum: 3,
            char_set: ALPHA,
        },
        Pool {
            name: Some("numeric"),
            minimum: 3,
            char_set: NUMERIC,
        },
        Pool {
            name: Some("special"),
            minimum: 3,
            char_set: SPECIAL,
        },
    ];

    let pwd = from_pools(&mut rand::thread_rng(), 15, &pools).unwrap();
    assert_eq!(pwd.len(), 15);
    for pool in pools {
        assert!(pwd.chars().filter(|c| pool.char_set.contains(*c)).count() >= pool.minimum);
    }
}

#[test]
fn empty_alphabet() {
    let pools = [Pool {
        name: Some("broken"),
        minimum: 2,
        char_set: "",
    }];
    let result = from_pools(&mut rand::thread_rng(), 8, &pools);
    assert_eq!(result, Err(ConfigurationError::EmptyCharSet));
}

#[test]
fn zero_length() {
    let pools = [Pool {
        name: Some("alpha"),
        minimum: 0,
        char_set: ALPHA,
    }];
    let pwd = from_pools(&mut rand::thread_rng(), 0, &pools).unwrap();
    assert_eq!(pwd.len(), 0);
}

#[test]
fn three_pools_of_two() {
    let pools = [
        Pool {
            name: Some("alpha"),
            minimum: 2,
            char_set: ALPHA,
        },
        Pool {
            name: Some("numeric"),
            minimum: 2,
            char_set: NUMERIC,
        },
        Pool {
            name: Some("special"),
            minimum: 2,
            char_set: SPECIAL,
        },
    ];
    let pwd = from_pools(&mut rand::thread_rng(), 8, &pools).unwrap();
    assert_eq!(pwd.len(), 8);
    assert!(pwd.chars().filter(|c| ALPHA.contains(*c)).count() >= 2);
    assert!(pwd.chars().filter(|c| NUMERIC.contains(*c)).count() >= 2);
    assert!(pwd.chars().filter(|c| SPECIAL.contains(*c)).count() >= 2);
}

#[test]
fn shape_stable_across_draws() {
    let pools = [
        Pool {
            name: Some("alpha"),
            minimum: 2,
            char_set: ALPHA,
        },
        Pool {
            name: Some("numeric"),
            minimum: 2,
            char_set: NUMERIC,
        },
    ];
    let first = from_pools(&mut rand::thread_rng(), 32, &pools).unwrap();
    let second = from_pools(&mut rand::thread_rng(), 32, &pools).unwrap();
    assert_eq!(first.len(), second.len());
    for pwd in [&first, &second] {
        assert!(pwd.chars().filter(|c| ALPHA.contains(*c)).count() >= 2);
        assert!(pwd.chars().filter(|c| NUMERIC.contains(*c)).count() >= 2);
    }
    // Thirty-two uniform draws make a collision astronomically unlikely.
    assert_ne!(first, second);
}

#[test]
fn count_matching_values() {
    assert_eq!(count_matching("ab1", ALPHA), 2);
    assert_eq!(count_matching("ab1", NUMERIC), 1);
    assert_eq!(count_matching("", ALPHA), 0);
    assert_eq!(count_matching("aaa", "a"), 3);
    // Inclusive membership: overlapping alphabets each see the full count.
    assert_eq!(count_matching("Ab", UPPER), 1);
    assert_eq!(count_matching("Ab", LOWER), 1);
    assert_eq!(count_matching("Ab", ALPHA), 2);
}

#[test]
fn contains_char_values() {
    assert!(contains_char("abc", 'b'));
    assert!(!contains_char("abc", 'z'));
    assert!(!contains_char("", 'a'));
}

#[test]
fn error_messages() {
    assert_eq!(
        ConfigurationError::NoPools.message(),
        "no character pools specified"
    );
    assert_eq!(
        ConfigurationError::EmptyCharSet.message(),
        "empty character set in pool"
    );
}

#[test]
fn add_to_pool_flags() {
    let mut pool: Vec<Pool> = Vec::new();
    add_to_pool(&mut pool, "alpha", Some(Some(2)), ALPHA);
    add_to_pool(&mut pool, "numeric", Some(None), NUMERIC);
    add_to_pool(&mut pool, "special", None, SPECIAL);
    assert_eq!(pool.len(), 2);
    assert_eq!(pool[0].name, Some("alpha"));
    assert_eq!(pool[0].minimum, 2);
    assert_eq!(pool[0].char_set, ALPHA);
    assert_eq!(pool[1].name, Some("numeric"));
    assert_eq!(pool[1].minimum, 0);
    assert_eq!(pool[1].char_set, NUMERIC);
}

#[test]
fn alphabet_constants() {
    assert_eq!(ALPHA, format!("{}{}", UPPER, LOWER));
    assert_eq!(UPPER.len(), 26);
    assert_eq!(LOWER.len(), 26);
    assert_eq!(NUMERIC.len(), 10);
    assert!(!SPECIAL.is_empty());
}
