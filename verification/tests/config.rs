use tako::config::{
    detect_safe_thread_count, detected_thread_count, detected_under_limits, get_duration_from_env,
    get_i32_from_env, has_limit, kept_thread_count, mip_threads, mip_time_limit, no_limit, soft_limit,
    user_thread_limits,
};

#[test]
fn time_limit_is_what_is_set_or_five_seconds() {
    assert_eq!(mip_time_limit(None), 5000);
    assert_eq!(mip_time_limit(Some("250")), 250);
    assert_eq!(mip_time_limit(Some("0")), 0);
    assert_eq!(mip_time_limit(Some("+18446744073709551615")), u64::MAX);
    assert_eq!(mip_time_limit(Some("18446744073709551616")), 5000);
    assert_eq!(mip_time_limit(Some("-1")), 5000);
    assert_eq!(mip_time_limit(Some("-0")), 5000);
    assert_eq!(mip_time_limit(Some("")), 5000);
    assert_eq!(mip_time_limit(Some(" 1")), 5000);
    assert_eq!(mip_time_limit(Some("1.5")), 5000);
}

#[test]
fn settings_are_parsed_like_numbers() {
    let texts = [
        "", "+", "-", "0", "-0", "+0", "00012", "7", "+7", "-7", "--7", "+-7", "7 ", " 7", "7_0",
        "0x7", "2147483647", "2147483648", "-2147483648", "-2147483649", "999999999999999999999",
        "18446744073709551615", "18446744073709551616", "\u{661}", "1e3",
        "100000000000000000000000000000000000000000000000000x",
    ];
    for text in texts {
        assert_eq!(get_i32_from_env(Some(text)), text.parse::<i32>().ok(), "{text}");
        assert_eq!(
            get_duration_from_env(Some(text)),
            text.parse::<u64>().ok(),
            "{text}"
        );
    }
    assert_eq!(get_i32_from_env(None), None);
    assert_eq!(get_duration_from_env(None), None);
}

#[test]
fn set_threads_override_detection() {
    let mut kept = None;
    assert_eq!(mip_threads(Some("12"), &mut kept, || panic!("asked")), 12);
    assert_eq!(mip_threads(Some("-3"), &mut kept, || panic!("asked")), -3);
    assert_eq!(kept, None);
    assert_eq!(mip_threads(Some("many"), &mut kept, || 7), 7);
    assert_eq!(kept, Some(7));
    assert_eq!(mip_threads(None, &mut None, || 8), 8);
}

#[test]
fn default_threads_are_detected_once() {
    let mut kept = None;
    assert_eq!(mip_threads(None, &mut kept, || 7), 7);
    assert_eq!(mip_threads(None, &mut kept, || panic!("asked again")), 7);
    assert_eq!(mip_threads(Some("12"), &mut kept, || panic!("asked")), 12);
    assert_eq!(mip_threads(Some("x"), &mut kept, || panic!("asked again")), 7);
    assert_eq!(kept, Some(7));
}

#[test]
fn kept_default_is_given_back() {
    let mut kept = None;
    assert_eq!(kept_thread_count(&mut kept, || 5), 5);
    assert_eq!(kept, Some(5));
    assert_eq!(kept_thread_count(&mut kept, || 6), 5);
    assert_eq!(kept, Some(5));
}

#[test]
fn detection_uses_every_core_without_a_limit() {
    assert_eq!(detected_thread_count(Some(8), None, 999, Some(1000)), Some(8));
    assert_eq!(detected_thread_count(Some(8), Some(999), 999, Some(1000)), Some(8));
    assert_eq!(detected_thread_count(None, None, 999, None), Some(1));
    assert_eq!(detected_thread_count(Some(0), None, 999, None), Some(1));
}

#[test]
fn detection_stays_under_the_limit() {
    let detect = |cores, limit, threads| detected_thread_count(cores, Some(limit), u64::MAX, threads);
    assert_eq!(detect(Some(64), 100, Some(50)), Some(34));
    assert_eq!(detect(Some(64), 100, None), Some(64));
    assert_eq!(detect(Some(64), 80, Some(0)), Some(64));
    assert_eq!(detect(Some(64), 79, Some(0)), Some(63));
    assert_eq!(detect(Some(64), 100, Some(83)), Some(1));
    assert_eq!(detect(Some(64), 100, Some(500)), Some(1));
    assert_eq!(detect(Some(1), 100, Some(0)), Some(1));
    assert_eq!(detect(None, 100, Some(0)), Some(1));
}

#[test]
fn soft_limit_is_the_one_in_force() {
    assert_eq!(soft_limit(Some((100, 1000))), Some(100));
    assert_eq!(soft_limit(None), None);
    assert!(has_limit(Some((100, 999)), 999));
    assert!(!has_limit(Some((999, 100)), 999));
    assert!(!has_limit(None, 999));
    let detect = |limits| detected_under_limits(Some(64), limits, u64::MAX, Some(50));
    assert_eq!(detect(Some((100, 1000))), Some(34));
    assert_eq!(detect(Some((1000, 100))), Some(64));
    assert_eq!(detect(Some((100, u64::MAX))), Some(34));
    assert_eq!(detect(Some((u64::MAX, 100))), Some(64));
    assert_eq!(detect(None), Some(64));
}

#[test]
fn detection_gives_a_number_for_any_limit_and_count() {
    // A limit beyond the signed range counts as negative.
    for limit in [0, 1, 1 << 63, u64::MAX - 1, i64::MAX as u64] {
        for threads in [None, Some(0), Some(i64::MIN), Some(i64::MAX)] {
            let n = detected_thread_count(Some(4), Some(limit), u64::MAX, threads).unwrap();
            assert!((1..=4).contains(&n), "expected 1..=4, got {n}");
        }
    }
    assert_eq!(detected_thread_count(Some(4), Some(1 << 63), u64::MAX, Some(0)), Some(1));
}

#[test]
fn detection_without_a_core_gives_nothing_under_a_limit() {
    assert_eq!(detected_thread_count(Some(0), Some(100), u64::MAX, Some(0)), None);
}

#[test]
fn detect_safe_thread_count_stays_within_hardware_bounds() {
    let cores = 8;
    let n = detect_safe_thread_count(Some(8), || Some(3)).unwrap();
    assert!((1..=cores).contains(&n), "expected 1..={cores}, got {n}");
}

#[test]
fn detection_follows_the_limit_of_the_system() {
    let limits = nix::sys::resource::getrlimit(nix::sys::resource::Resource::RLIMIT_NPROC)
        .unwrap();
    let infinity = nix::sys::resource::RLIM_INFINITY;
    assert_eq!(user_thread_limits(), Some(limits));
    assert_eq!(no_limit(), infinity);
    let n = detect_safe_thread_count(Some(1000000), || Some(3));
    assert_eq!(n, detected_under_limits(Some(1000000), Some(limits), infinity, Some(3)));
}
