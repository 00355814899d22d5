use orbit::kit::utils::{capitalize, clamp, truncate};

#[test]
fn truncate_keeps_short_strings() {
    assert_eq!(truncate("hello", 5), "hello");
    assert_eq!(truncate("", 0), "");
}

#[test]
fn truncate_cuts_long_strings() {
    assert_eq!(truncate("hello world", 8), "hello...");
    assert_eq!(truncate("abcd", 3), "...");
}

#[test]
fn capitalize_first_letter() {
    assert_eq!(capitalize("hello"), "Hello");
    assert_eq!(capitalize(""), "");
    assert_eq!(capitalize("1abc"), "1abc");
    assert_eq!(capitalize("ßa"), "SSa");
}

#[test]
fn clamp_between_bounds() {
    assert_eq!(clamp(5, 0, 10), 5);
    assert_eq!(clamp(-3, 0, 10), 0);
    assert_eq!(clamp(30, 0, 10), 10);
    assert_eq!(clamp(0.5f64, 0.0, 1.0), 0.5);
}
