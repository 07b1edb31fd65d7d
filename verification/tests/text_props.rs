use sptfydl::textutil::{decimal_width, output_template, padded_decimal, to_decimal};

#[test]
fn decimal_rendering() {
    assert_eq!(to_decimal(0), "0");
    assert_eq!(to_decimal(7), "7");
    assert_eq!(to_decimal(10), "10");
    assert_eq!(to_decimal(90210), "90210");
}

#[test]
fn widths() {
    assert_eq!(decimal_width(0), 1);
    assert_eq!(decimal_width(9), 1);
    assert_eq!(decimal_width(10), 2);
    assert_eq!(decimal_width(99), 2);
    assert_eq!(decimal_width(100), 3);
}

#[test]
fn zero_padding() {
    assert_eq!(padded_decimal(3, 3), "003");
    assert_eq!(padded_decimal(42, 2), "42");
    assert_eq!(padded_decimal(42, 1), "42");
    assert_eq!(padded_decimal(0, 4), "0000");
}

#[test]
fn fetch_output_template() {
    assert_eq!(output_template(3, 2), "03 - %(title)s [%(id)s].%(ext)s");
    assert_eq!(output_template(12, 2), "12 - %(title)s [%(id)s].%(ext)s");
}
