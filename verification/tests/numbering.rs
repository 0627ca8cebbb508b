use epub_tailor::numbering::{alpha, format_token, roman};

#[test]
fn alphabetic_markers_follow_bijective_base_26() {
    assert_eq!(alpha(1, false), "a");
    assert_eq!(alpha(26, false), "z");
    assert_eq!(alpha(27, false), "aa");
    assert_eq!(alpha(52, false), "az");
    assert_eq!(alpha(53, false), "ba");
    assert_eq!(alpha(702, true), "ZZ");
    assert_eq!(alpha(703, true), "AAA");
    assert_eq!(alpha(0, false), "0");
    assert_eq!(alpha(-3, true), "-3");
}

#[test]
fn roman_markers_use_subtractive_pairs() {
    assert_eq!(roman(1, false), "i");
    assert_eq!(roman(4, false), "iv");
    assert_eq!(roman(9, true), "IX");
    assert_eq!(roman(14, false), "xiv");
    assert_eq!(roman(1994, true), "MCMXCIV");
    assert_eq!(roman(3999, false), "mmmcmxcix");
    assert_eq!(roman(4000, false), "4000");
    assert_eq!(roman(0, false), "0");
}

#[test]
fn the_list_type_picks_the_marker_style() {
    assert_eq!(format_token(3, "a"), "c");
    assert_eq!(format_token(3, "A"), "C");
    assert_eq!(format_token(3, "i"), "iii");
    assert_eq!(format_token(3, "I"), "III");
    assert_eq!(format_token(3, "1"), "3");
    assert_eq!(format_token(-2, "disc"), "-2");
    assert_eq!(format_token(i32::MIN, "1"), "-2147483648");
}
