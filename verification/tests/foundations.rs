use kv_router::clock::{Duration, Instant};
use kv_router::environment::{
    env_bool, env_i32, env_optional_u64, env_u64, env_usize, Environment,
};
use kv_router::key_map::{KeyMap, KeySet};
use kv_router::protocols::WorkerWithDpRank;
use kv_router::text::{
    contains, decimal_text, ends_with, eq_ignore_ascii_case, joined, parse_bool, parse_i32,
    parse_u64, parse_usize, precedes, push_hex, replace, split, split_once, trim, white_space,
};

#[test]
fn white_space_is_that_of_the_language() {
    for c in '\0'..=char::MAX {
        assert_eq!(white_space(c), c.is_whitespace());
    }
}

#[test]
fn numbers_are_parsed_as_the_language_does() {
    for text in [
        "", "0", "7", "+7", "-7", "-0", "+", "-", "++1", " 1", "1 ", "00012", "18446744073709551615",
        "18446744073709551616", "99999999999999999999999", "2147483647", "2147483648",
        "-2147483648", "-2147483649", "1_000", "0x10", "١", "1.0",
    ] {
        assert_eq!(parse_u64(text), text.parse::<u64>().ok());
        assert_eq!(parse_usize(text), text.parse::<usize>().ok());
        assert_eq!(parse_i32(text), text.parse::<i32>().ok());
    }
    for text in ["true", "false", "True", "", "1", " true"] {
        assert_eq!(parse_bool(text), text.parse::<bool>().ok());
    }
}

#[test]
fn texts_are_cut_as_the_language_does() {
    for text in ["", " ", " a b\u{2003}", "\u{a0}x", "x\n", "\u{200b}x\u{200b}"] {
        assert_eq!(trim(text), text.trim());
    }
    for text in ["", ",", "a", "a,b", ",a,,b,", "é,ü"] {
        assert_eq!(split(text, ','), text.split(',').collect::<Vec<_>>());
    }
    for text in ["", "=", "a=b", "a:b=c", "a=b:c", "ab", "é:ü"] {
        assert_eq!(split_once(text, '=', ':'), text.split_once(['=', ':']));
    }
}

#[test]
fn texts_are_searched_as_the_language_does() {
    for text in ["", "ab", "abab", "aab", "xabyab", "éabü"] {
        for part in ["ab", "a", "b", "é"] {
            assert_eq!(contains(text, part), text.contains(part));
            assert_eq!(ends_with(text, part), text.ends_with(part));
            assert_eq!(replace(text, part, "<>"), text.replace(part, "<>"));
        }
        assert!(contains(text, "") && ends_with(text, ""));
    }
    assert_eq!(replace("aaa", "aa", "b"), "aaa".replace("aa", "b"));
}

#[test]
fn texts_are_compared_as_the_language_does() {
    let texts = ["", "a", "A", "ab", "b", "é", "É", "\u{10000}", "\u{ffff}", "k\u{212a}"];
    for a in texts {
        for b in texts {
            assert_eq!(precedes(a, b), a < b);
            assert_eq!(eq_ignore_ascii_case(a, b), a.eq_ignore_ascii_case(b));
        }
    }
}

#[test]
fn numbers_are_written_as_the_language_does() {
    for n in [0, 1, 9, 10, 99, 100, 12345678901234567890, u64::MAX] {
        assert_eq!(decimal_text(n), n.to_string());
        let mut text = "x".to_string();
        push_hex(&mut text, n, 16);
        assert_eq!(text, format!("x{n:016x}"));
    }
    assert_eq!(joined("a", "", "c"), "ac");
}

#[test]
fn settings_fall_back_to_their_defaults() {
    let env = Environment {
        vars: vec![
            ("FLAG".to_string(), "true".to_string()),
            ("BAD".to_string(), "yes".to_string()),
            ("N".to_string(), "12".to_string()),
            ("N".to_string(), "13".to_string()),
            ("I".to_string(), "-5".to_string()),
        ],
    };
    assert!(env_bool(&env, "FLAG", false));
    assert!(env_bool(&env, "BAD", true));
    assert!(!env_bool(&env, "NONE", false));
    assert_eq!(env_usize(&env, "N", 1), 12);
    assert_eq!(env_usize(&env, "BAD", 1), 1);
    assert_eq!(env_u64(&env, "NONE", 2), 2);
    assert_eq!(env_optional_u64(&env, "N"), Some(12));
    assert_eq!(env_optional_u64(&env, "BAD"), None);
    assert_eq!(env_i32(&env, "I", 0), -5);
    assert_eq!(env.var("I"), Some("-5".to_string()));
    assert_eq!(env.var("i"), None);
}

#[test]
fn maps_and_sets_replace_equal_keys() {
    let mut map: KeyMap<String, u64> = KeyMap::new();
    assert_eq!(map.insert("a".to_string(), 1), None);
    assert_eq!(map.insert("b".to_string(), 2), None);
    assert_eq!(map.insert("a".to_string(), 3), Some(1));
    assert_eq!(map.len(), 2);
    assert_eq!(map.get(&"a".to_string()), Some(&3));
    assert_eq!(map.remove(&"a".to_string()), Some(3));
    assert_eq!(map.remove(&"a".to_string()), None);
    assert!(!map.is_empty() && !map.contains_key(&"a".to_string()));
    let mut set: KeySet<u64> = KeySet::new();
    assert!(set.insert(4));
    assert!(!set.insert(4));
    assert!(set.contains(&4) && !set.contains(&5));
    assert_eq!(set.len(), 1);
}

#[test]
fn time_never_runs_backwards() {
    let early = Instant { nanos: 5 };
    let late = Instant { nanos: 9 };
    assert_eq!(late.duration_since(early), Duration { nanos: 4 });
    assert_eq!(early.duration_since(late), Duration { nanos: 0 });
    assert_eq!(early.after(Duration { nanos: 4 }), late);
    assert_eq!(Duration::from_secs(2).as_millis_capped(), 2000);
    assert_eq!(Duration::from_micros(1500).as_millis_capped(), 1);
    assert_eq!(Duration { nanos: u128::MAX }.as_millis_capped(), u64::MAX);
    assert!(Duration::from_millis(0).is_zero());
}

#[test]
fn workers_are_ordered_by_id_then_rank() {
    let worker = WorkerWithDpRank::new;
    assert!(worker(1, 9).precedes(&worker(2, 0)));
    assert!(worker(1, 0).precedes(&worker(1, 1)));
    assert!(!worker(1, 1).precedes(&worker(1, 1)));
    assert_eq!(WorkerWithDpRank::from_worker_id(3), worker(3, 0));
}
