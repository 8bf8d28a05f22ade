use ruuvi_exporter::text::append_decimal;

fn render(negative: bool, magnitude: u64, scale: u32) -> String {
    let mut s = String::new();
    append_decimal(&mut s, negative, magnitude, scale);
    s
}

#[test]
fn integers_render_plainly() {
    assert_eq!(render(false, 0, 0), "0");
    assert_eq!(render(false, 1609459200, 0), "1609459200");
    assert_eq!(render(true, 55, 0), "-55");
    assert_eq!(render(false, u64::MAX, 0), "18446744073709551615");
}

#[test]
fn fractions_drop_trailing_zeros() {
    assert_eq!(render(false, 20320, 3), "20.32");
    assert_eq!(render(false, 329500, 6), "0.3295");
    assert_eq!(render(true, 1004, 3), "-1.004");
    assert_eq!(render(false, 2925, 3), "2.925");
    assert_eq!(render(false, 13027000, 3), "13027");
    assert_eq!(render(true, 4, 3), "-0.004");
    assert_eq!(render(false, 100, 3), "0.1");
}

#[test]
fn negative_zero_has_no_sign() {
    assert_eq!(render(true, 0, 3), "0");
}

#[test]
fn appends_to_existing_text() {
    let mut s = "v=".to_string();
    append_decimal(&mut s, false, 7, 1);
    assert_eq!(s, "v=0.7");
}
