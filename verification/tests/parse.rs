use imagene::action::{Action, Direction, Orientation};
use imagene::cli::{check_decimal, parse_action, parse_i32, parse_u32, split_kv, ParseError};
use imagene::format::OutFormat;

#[test]
fn split_kv_takes_the_one_colon() {
    let (k, v) = split_kv("contrast:1.2").unwrap();
    assert_eq!(k, "contrast");
    assert_eq!(v, "1.2");
}

#[test]
fn split_kv_rejects_plain_words_and_double_colons() {
    assert_eq!(split_kv("contrast").unwrap_err(), ParseError::NotKeyValue);
    assert_eq!(split_kv("a:b:c").unwrap_err(), ParseError::NotKeyValue);
    assert_eq!(split_kv("").unwrap_err(), ParseError::NotKeyValue);
}

#[test]
fn split_kv_allows_empty_sides() {
    let (k, v) = split_kv(":").unwrap();
    assert_eq!(k, "");
    assert_eq!(v, "");
}

#[test]
fn parse_u32_reads_digits() {
    assert_eq!(parse_u32("0"), Some(0));
    assert_eq!(parse_u32("1234"), Some(1234));
    assert_eq!(parse_u32("4294967295"), Some(u32::MAX));
}

#[test]
fn parse_u32_rejects_overflow_signs_and_junk() {
    assert_eq!(parse_u32("4294967296"), None);
    assert_eq!(parse_u32("99999999999999999999"), None);
    assert_eq!(parse_u32(""), None);
    assert_eq!(parse_u32("-1"), None);
    assert_eq!(parse_u32("+1"), None);
    assert_eq!(parse_u32("12a"), None);
}

#[test]
fn parse_i32_reads_both_signs() {
    assert_eq!(parse_i32("42"), Some(42));
    assert_eq!(parse_i32("-42"), Some(-42));
    assert_eq!(parse_i32("2147483647"), Some(i32::MAX));
    assert_eq!(parse_i32("-2147483648"), Some(i32::MIN));
}

#[test]
fn parse_i32_rejects_out_of_range() {
    assert_eq!(parse_i32("2147483648"), None);
    assert_eq!(parse_i32("-2147483649"), None);
    assert_eq!(parse_i32("-"), None);
    assert_eq!(parse_i32(""), None);
}

#[test]
fn check_decimal_accepts_plain_numerals() {
    assert!(check_decimal("5"));
    assert!(check_decimal("1.5"));
    assert!(check_decimal("-0.25"));
    assert!(check_decimal("-12"));
}

#[test]
fn check_decimal_rejects_other_shapes() {
    assert!(!check_decimal(""));
    assert!(!check_decimal("-"));
    assert!(!check_decimal(".5"));
    assert!(!check_decimal("5."));
    assert!(!check_decimal("1.2.3"));
    assert!(!check_decimal("1e5"));
    assert!(!check_decimal("abc"));
}

#[test]
fn parse_contrast_keeps_the_numeral_text() {
    assert_eq!(
        parse_action("contrast", "1.2").unwrap(),
        Action::Contrast("1.2".to_string())
    );
    assert_eq!(
        parse_action("contrast", "x").unwrap_err(),
        ParseError::BadValue
    );
}

#[test]
fn parse_blur_and_brightness() {
    assert_eq!(
        parse_action("blur", "3.5").unwrap(),
        Action::Blur("3.5".to_string())
    );
    assert_eq!(
        parse_action("brightness", "-10").unwrap(),
        Action::Brightness(-10)
    );
    assert_eq!(
        parse_action("brightness", "1.5").unwrap_err(),
        ParseError::BadValue
    );
}

#[test]
fn parse_crop_takes_four_numbers() {
    assert_eq!(
        parse_action("crop", "1,2,30,40").unwrap(),
        Action::Crop(1, 2, 30, 40)
    );
    assert_eq!(
        parse_action("crop", "1,2,3").unwrap_err(),
        ParseError::BadValue
    );
    assert_eq!(
        parse_action("crop", "1,2,3,4,5").unwrap_err(),
        ParseError::BadValue
    );
    assert_eq!(
        parse_action("crop", "1,2,3,x").unwrap_err(),
        ParseError::BadValue
    );
}

#[test]
fn parse_rotate_directions() {
    assert_eq!(
        parse_action("rotate", "down").unwrap(),
        Action::Rotate(Direction::Down)
    );
    assert_eq!(
        parse_action("rotate", "left").unwrap(),
        Action::Rotate(Direction::Left)
    );
    assert_eq!(
        parse_action("rotate", "right").unwrap(),
        Action::Rotate(Direction::Right)
    );
    assert_eq!(
        parse_action("rotate", "up").unwrap_err(),
        ParseError::BadValue
    );
}

#[test]
fn parse_flip_orientations() {
    assert_eq!(
        parse_action("flip", "v").unwrap(),
        Action::Flip(Orientation::Vertical)
    );
    assert_eq!(
        parse_action("flip", "h").unwrap(),
        Action::Flip(Orientation::Horizontal)
    );
    assert_eq!(
        parse_action("flip", "d").unwrap_err(),
        ParseError::BadValue
    );
}

#[test]
fn parse_unsharpen_takes_sigma_and_threshold() {
    assert_eq!(
        parse_action("unsharpen", "1.5,3").unwrap(),
        Action::Unsharpen("1.5".to_string(), 3)
    );
    assert_eq!(
        parse_action("unsharpen", "1.5").unwrap_err(),
        ParseError::BadValue
    );
}

#[test]
fn parse_resize_takes_two_numbers() {
    assert_eq!(
        parse_action("resize", "2000,0").unwrap(),
        Action::Scale(2000, 0)
    );
    assert_eq!(
        parse_action("resize", "10").unwrap_err(),
        ParseError::BadValue
    );
}

#[test]
fn parse_append_takes_path_and_side() {
    assert_eq!(
        parse_action("append", "extra.png,under").unwrap(),
        Action::Append("extra.png".to_string(), Direction::Down)
    );
    assert_eq!(
        parse_action("append", "extra.png,over").unwrap(),
        Action::Append("extra.png".to_string(), Direction::Up)
    );
    assert_eq!(
        parse_action("append", "extra.png,left").unwrap(),
        Action::Append("extra.png".to_string(), Direction::Left)
    );
    assert_eq!(
        parse_action("append", "extra.png,sideways").unwrap_err(),
        ParseError::BadValue
    );
    assert_eq!(
        parse_action("append", "extra.png").unwrap_err(),
        ParseError::BadValue
    );
}

#[test]
fn parse_format_names_and_jpeg_quality() {
    assert_eq!(
        parse_action("format", "png").unwrap(),
        Action::Format(OutFormat::Png)
    );
    assert_eq!(
        parse_action("format", "gif").unwrap(),
        Action::Format(OutFormat::Gif)
    );
    assert_eq!(
        parse_action("format", "jpg,80").unwrap(),
        Action::Format(OutFormat::Jpeg(80))
    );
    assert_eq!(
        parse_action("format", "jpg").unwrap_err(),
        ParseError::BadValue
    );
    assert_eq!(
        parse_action("format", "jpg,300").unwrap_err(),
        ParseError::BadValue
    );
}

#[test]
fn parse_unknown_key_is_told_apart() {
    assert_eq!(
        parse_action("sharpen", "1").unwrap_err(),
        ParseError::UnknownAction
    );
}
