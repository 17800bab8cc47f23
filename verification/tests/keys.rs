use korrekt::cell_key;
use korrekt::dec_string;

#[test]
fn decimal_rendering_of_small_and_large_numbers() {
    assert_eq!(dec_string(0), "0");
    assert_eq!(dec_string(7), "7");
    assert_eq!(dec_string(10), "10");
    assert_eq!(dec_string(907), "907");
    assert_eq!(dec_string(1000000), "1000000");
}

#[test]
fn cell_keys_are_dash_separated_identities() {
    assert_eq!(cell_key(0, 3), "A-0-3");
    assert_eq!(cell_key(0, 5), "A-0-5");
    assert_eq!(cell_key(12, 345), "A-12-345");
}
