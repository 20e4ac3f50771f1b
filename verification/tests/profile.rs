use ssimulacra2_vulkan::profile::{Profile, MAX_DURATION_NANOS};

#[test]
fn disabled_profile_is_a_pass_through() {
    let mut p = Profile::enabled(false);
    let v = p.time("decode", || 41 + 1);
    assert_eq!(v, 42);
    p.add("decode", 1_000);
    assert!(!p.is_enabled());
    assert!(p.stages().is_empty());
    assert_eq!(p.total_nanos(), Some(0));
}

#[test]
fn default_profile_is_disabled() {
    let mut p = Profile::default();
    assert!(!p.is_enabled());
    assert_eq!(p.time("x", || "same"), "same");
    assert!(p.stages().is_empty());
}

#[test]
fn enabled_profile_accumulates_per_stage_in_name_order() {
    let mut p = Profile::enabled(true);
    p.add("upload", 10);
    p.add("blur", 5);
    p.add("upload", 7);
    p.add("maps", 1);
    let s = p.stages();
    let names: Vec<&str> = s.iter().map(|e| e.name).collect();
    assert_eq!(names, vec!["blur", "maps", "upload"]);
    assert_eq!((s[2].nanos, s[2].count), (17, 2));
    assert_eq!((s[0].nanos, s[0].count), (5, 1));
    assert_eq!(p.total_nanos(), Some(23));
}

#[test]
fn timed_calls_are_counted_and_return_their_value() {
    let mut p = Profile::enabled(true);
    let a = p.time("xyb", || vec![1, 2, 3]);
    let b = p.time("xyb", || 7u8);
    assert_eq!(a, vec![1, 2, 3]);
    assert_eq!(b, 7);
    let s = p.stages();
    assert_eq!(s.len(), 1);
    assert_eq!(s[0].name, "xyb");
    assert_eq!(s[0].count, 2);
    assert!(s[0].nanos <= MAX_DURATION_NANOS);
}

#[test]
fn byte_order_puts_prefixes_and_upper_case_first() {
    let mut p = Profile::enabled(true);
    p.add("submit-wait", 1);
    p.add("SUM", 1);
    p.add("submit", 1);
    p.add("cpu-path", 1);
    let names: Vec<&str> = p.stages().iter().map(|e| e.name).collect();
    assert_eq!(names, vec!["SUM", "cpu-path", "submit", "submit-wait"]);
}

#[test]
fn total_beyond_a_duration_is_reported_as_none() {
    let mut p = Profile::enabled(true);
    p.add("a", MAX_DURATION_NANOS);
    assert_eq!(p.total_nanos(), Some(MAX_DURATION_NANOS));
    p.add("b", 1);
    assert_eq!(p.total_nanos(), None);
}
