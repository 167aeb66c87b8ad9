use picture_namer::padding::padding_width;

#[test]
fn width_is_five_below_five_digits() {
    assert_eq!(padding_width(0), 5);
    assert_eq!(padding_width(1), 5);
    assert_eq!(padding_width(42), 5);
    assert_eq!(padding_width(999), 5);
    assert_eq!(padding_width(9999), 5);
}

#[test]
fn width_is_seven_from_five_digits_on() {
    assert_eq!(padding_width(10000), 7);
    assert_eq!(padding_width(99999), 7);
    assert_eq!(padding_width(100000), 7);
    assert_eq!(padding_width(1000000), 7);
}
