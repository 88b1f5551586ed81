use csclib::clock::elapsed;
use csclib::clock::read_clock;
use csclib::clock::reading_of;
use csclib::CSCFCACHE;
use std::cell::Cell;

const SECOND: u128 = 1_000_000_000;

#[test]
fn new_cache_computes_on_first_call() {
    let calls = Cell::new(0u32);
    let mut cache = CSCFCACHE::new(|k: u64| {
        calls.set(calls.get() + 1);
        k * 2
    });
    assert_eq!(cache.call(4), 8);
    assert_eq!(calls.get(), 1);
}

#[test]
fn without_ttl_second_call_is_served() {
    let calls = Cell::new(0u32);
    let mut cache = CSCFCACHE::new(|k: u64| {
        calls.set(calls.get() + 1);
        k + 100
    });
    let first = cache.call(7);
    let second = cache.call(7);
    assert_eq!(first, 107);
    assert_eq!(second, first);
    assert_eq!(calls.get(), 1);
}

#[test]
fn without_ttl_nothing_expires() {
    let calls = Cell::new(0u32);
    let mut cache = CSCFCACHE::new(|k: u64| {
        calls.set(calls.get() + 1);
        k + 1
    });
    assert_eq!(cache.call_at(1, 0), 2);
    assert_eq!(cache.call_at(1, u128::MAX), 2);
    assert_eq!(cache.call_at(1, 5), 2);
    assert_eq!(calls.get(), 1);
}

#[test]
fn without_ttl_each_key_is_computed_once() {
    let calls = Cell::new(0u32);
    let mut cache = CSCFCACHE::new(|k: u64| {
        calls.set(calls.get() + 1);
        k * k
    });
    assert_eq!(cache.call(3), 9);
    assert_eq!(cache.call(4), 16);
    assert_eq!(cache.call(3), 9);
    assert_eq!(cache.call(4), 16);
    assert_eq!(calls.get(), 2);
}

#[test]
fn ten_second_cache_scenario() {
    let calls = Cell::new(0u32);
    let mut cache = CSCFCACHE::new(|core: u64| {
        calls.set(calls.get() + 1);
        core * 2
    })
    .cachetimeout(10 * SECOND);
    assert_eq!(cache.call(4), 8);
    assert_eq!(calls.get(), 1);
    assert_eq!(cache.call(4), 8);
    assert_eq!(calls.get(), 1);
    assert_eq!(cache.call(5), 10);
    assert_eq!(calls.get(), 2);
    assert_eq!(cache.call(4), 8);
    assert_eq!(calls.get(), 2);
}

#[test]
fn expired_entry_is_recomputed() {
    let calls = Cell::new(0u32);
    let mut cache = CSCFCACHE::new(|k: u64| {
        calls.set(calls.get() + 1);
        k * 2 + calls.get() as u64
    })
    .cachetimeout(10 * SECOND);
    assert_eq!(cache.call_at(4, 100 * SECOND), 9);
    assert_eq!(cache.call_at(4, 110 * SECOND + 1), 10);
    assert_eq!(calls.get(), 2);
}

#[test]
fn entry_lives_through_exactly_the_ttl() {
    let calls = Cell::new(0u32);
    let mut cache = CSCFCACHE::new(|k: u64| {
        calls.set(calls.get() + 1);
        k
    })
    .cachetimeout(10);
    assert_eq!(cache.call_at(1, 50), 1);
    assert_eq!(cache.call_at(2, 60), 2);
    assert_eq!(calls.get(), 2);
    assert_eq!(cache.call_at(1, 60), 1);
    assert_eq!(calls.get(), 2);
}

#[test]
fn refresh_extends_life_and_keeps_value() {
    let calls = Cell::new(0u32);
    let mut cache = CSCFCACHE::new(|k: u64| {
        calls.set(calls.get() + 1);
        k * 10 + calls.get() as u64
    })
    .cachetimeout(10);
    assert_eq!(cache.call_at(3, 100), 31);
    assert_eq!(cache.call_at(3, 109), 31);
    // 118 is more than the ttl after the first call, not after the second
    assert_eq!(cache.call_at(3, 118), 31);
    assert_eq!(calls.get(), 1);
    assert_eq!(cache.call_at(3, 129), 32);
    assert_eq!(calls.get(), 2);
}

#[test]
fn call_on_one_key_evicts_expired_other_keys() {
    let calls = Cell::new(0u32);
    let mut cache = CSCFCACHE::new(|k: u64| {
        calls.set(calls.get() + 1);
        k
    })
    .cachetimeout(10);
    cache.call_at(1, 100);
    cache.call_at(2, 105);
    assert_eq!(calls.get(), 2);
    // at 111 key 1 has expired, key 2 has not
    cache.call_at(3, 111);
    assert_eq!(calls.get(), 3);
    cache.call_at(2, 111);
    assert_eq!(calls.get(), 3);
    cache.call_at(1, 111);
    assert_eq!(calls.get(), 4);
}

#[test]
fn clock_that_moved_back_evicts_nothing() {
    let calls = Cell::new(0u32);
    let mut cache = CSCFCACHE::new(|k: u64| {
        calls.set(calls.get() + 1);
        k
    })
    .cachetimeout(10);
    cache.call_at(1, 1000);
    cache.call_at(2, 5);
    assert_eq!(calls.get(), 2);
    cache.call_at(1, 5);
    assert_eq!(calls.get(), 2);
}

#[test]
fn shared_timestamp_loses_the_first_keys_record() {
    let calls = Cell::new(0u32);
    let mut cache = CSCFCACHE::new(|k: u64| {
        calls.set(calls.get() + 1);
        k
    })
    .cachetimeout(10);
    cache.call_at(1, 5);
    cache.call_at(2, 5);
    assert_eq!(calls.get(), 2);
    // only key 2 is still recorded at time 5, so only key 2 is swept
    cache.call_at(2, 100);
    assert_eq!(calls.get(), 3);
    // this call finds key 1 stored and records it again, at 200
    cache.call_at(1, 200);
    assert_eq!(calls.get(), 3);
    cache.call_at(1, 300);
    assert_eq!(calls.get(), 4);
}

#[test]
fn setting_a_ttl_keeps_the_entries() {
    let calls = Cell::new(0u32);
    let mut cache = CSCFCACHE::new(|k: u64| {
        calls.set(calls.get() + 1);
        k + 1
    });
    assert_eq!(cache.call_at(9, 100), 10);
    let mut cache = cache.cachetimeout(10);
    assert_eq!(cache.call_at(9, 1_000), 10);
    assert_eq!(calls.get(), 1);
    // from now on the entry is recorded and expires
    assert_eq!(cache.call_at(9, 1_011), 10);
    assert_eq!(calls.get(), 2);
}

#[test]
fn one_nanosecond_ttl_expires_on_the_real_clock() {
    let calls = Cell::new(0u32);
    let mut cache = CSCFCACHE::new(|k: u64| {
        calls.set(calls.get() + 1);
        k
    })
    .cachetimeout(1);
    cache.call(1);
    let start = read_clock();
    while read_clock() <= start + 1_000 {}
    cache.call(1);
    assert_eq!(calls.get(), 2);
}

#[test]
fn clock_reads_a_time_after_the_epoch_and_moves_on() {
    let a = read_clock();
    // 2020-01-01 in nanoseconds since the epoch
    assert!(a > 1_577_836_800 * SECOND);
    let mut b = read_clock();
    while b == a {
        b = read_clock();
    }
    assert!(b > a);
}

#[test]
fn elapsed_is_the_difference() {
    assert_eq!(elapsed(3, 10), Some(7));
    assert_eq!(elapsed(10, 10), Some(0));
    assert_eq!(elapsed(0, u128::MAX), Some(u128::MAX));
}

#[test]
fn elapsed_fails_when_the_clock_moved_back() {
    assert_eq!(elapsed(11, 10), None);
    assert_eq!(elapsed(u128::MAX, 0), None);
}

#[test]
fn cache_works_with_tuple_keys_and_values() {
    let calls = Cell::new(0u32);
    let mut cache = CSCFCACHE::new(|k: (u8, usize, usize)| {
        calls.set(calls.get() + 1);
        (k.0, k.1 + k.1 * k.1 + k.2 * 12)
    })
    .cachetimeout(10 * SECOND);
    assert_eq!(cache.call((4, 1, 2)), (4, 26));
    assert_eq!(cache.call((4, 1, 2)), (4, 26));
    assert_eq!(cache.call((3, 1, 5)), (3, 62));
    assert_eq!(calls.get(), 2);
}

#[test]
fn reading_is_the_distance_from_the_epoch() {
    assert_eq!(reading_of(Some(5)), 5);
    assert_eq!(reading_of(Some(0)), 0);
    assert_eq!(reading_of(Some(u128::MAX)), u128::MAX);
}

#[test]
fn clock_before_the_epoch_reads_as_the_epoch() {
    assert_eq!(reading_of(None), 0);
}

#[test]
fn time_spent_computing_does_not_age_the_entry() {
    let calls = Cell::new(0u32);
    let mut cache = CSCFCACHE::new(|k: u64| {
        calls.set(calls.get() + 1);
        k
    })
    .cachetimeout(10);
    // the call begins at 100 and the result is there at 103
    assert_eq!(cache.call_between(1, 100, 103), 1);
    // 8 after the result was there, 11 after the call began
    assert_eq!(cache.call_between(1, 111, 111), 1);
    assert_eq!(calls.get(), 1);
    assert_eq!(cache.call_between(1, 122, 122), 1);
    assert_eq!(calls.get(), 2);
}

#[test]
fn function_slower_than_the_ttl_is_still_cached() {
    let calls = Cell::new(0u32);
    let mut cache = CSCFCACHE::new(|k: u64| {
        calls.set(calls.get() + 1);
        k
    })
    .cachetimeout(10);
    assert_eq!(cache.call_between(1, 100, 150), 1);
    assert_eq!(cache.call_between(1, 155, 155), 1);
    assert_eq!(calls.get(), 1);
}

#[test]
fn sweep_uses_the_first_reading_and_stamp_the_second() {
    let calls = Cell::new(0u32);
    let mut cache = CSCFCACHE::new(|k: u64| {
        calls.set(calls.get() + 1);
        k
    })
    .cachetimeout(10);
    cache.call_between(1, 100, 100);
    // at 109 key 1 has not expired, though it has at 200
    cache.call_between(2, 109, 200);
    assert_eq!(calls.get(), 2);
    cache.call_between(1, 110, 110);
    assert_eq!(calls.get(), 2);
    // key 2 was stamped at 200
    cache.call_between(2, 210, 210);
    assert_eq!(calls.get(), 2);
    cache.call_between(2, 221, 221);
    assert_eq!(calls.get(), 3);
}

#[test]
fn slow_function_on_the_real_clock_is_served_right_after() {
    let calls = Cell::new(0u32);
    let mut cache = CSCFCACHE::new(|k: u64| {
        calls.set(calls.get() + 1);
        let begun = read_clock();
        while read_clock() < begun + SECOND {}
        k * 2
    })
    .cachetimeout(SECOND / 2);
    assert_eq!(cache.call(4), 8);
    assert_eq!(cache.call(4), 8);
    assert_eq!(calls.get(), 1);
}

#[test]
fn stamps_ahead_are_those_after_now() {
    let mut cache = CSCFCACHE::new(|k: u64| k).cachetimeout(1_000);
    cache.call_at(1, 100);
    cache.call_at(2, 200);
    cache.call_at(3, 300);
    let mut ahead = cache.stamps_ahead(150);
    ahead.sort();
    assert_eq!(ahead, vec![200, 300]);
    assert_eq!(cache.stamps_ahead(300), Vec::<u128>::new());
    assert_eq!(cache.stamps_ahead(299), vec![300]);
    let mut all = cache.stamps_ahead(0);
    all.sort();
    assert_eq!(all, vec![100, 200, 300]);
}

#[test]
fn stamps_ahead_of_an_empty_cache_are_none() {
    let cache: CSCFCACHE<_, u64, u64> = CSCFCACHE::new(|k: u64| k).cachetimeout(10);
    assert_eq!(cache.stamps_ahead(0), Vec::<u128>::new());
    let mut forever = CSCFCACHE::new(|k: u64| k);
    forever.call_at(1, 100);
    assert_eq!(forever.stamps_ahead(0), Vec::<u128>::new());
}
