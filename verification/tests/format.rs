use imagene::action::{Flag, FlagMap};
use imagene::format::{format_for_name, OutFormat};
use imagene::misc::flag_is_enabled;

#[test]
fn extension_picks_the_default_encoding() {
    assert_eq!(format_for_name("out.png"), OutFormat::Png);
    assert_eq!(format_for_name("out.jpg"), OutFormat::Jpeg(100));
    assert_eq!(format_for_name("out.jpeg"), OutFormat::Jpeg(100));
    assert_eq!(format_for_name("out.bmp"), OutFormat::Bmp);
    assert_eq!(format_for_name("out.gif"), OutFormat::Gif);
    assert_eq!(format_for_name("out.ico"), OutFormat::Ico);
}

#[test]
fn unknown_or_missing_extension_falls_back_to_png() {
    assert_eq!(format_for_name("stdout"), OutFormat::Png);
    assert_eq!(format_for_name("out.webp"), OutFormat::Png);
    assert_eq!(format_for_name("out."), OutFormat::Png);
    assert_eq!(format_for_name(""), OutFormat::Png);
    assert_eq!(format_for_name("out.PNG"), OutFormat::Png);
}

#[test]
fn last_dot_decides() {
    assert_eq!(format_for_name("a.png.gif"), OutFormat::Gif);
    assert_eq!(format_for_name("dir.d/out"), OutFormat::Png);
}

#[test]
fn flags_default_to_disabled() {
    let flags = FlagMap::empty();
    assert!(!flag_is_enabled(flags.get(Flag::Lanczos3)));
}

#[test]
fn a_set_flag_is_read_back() {
    let mut flags = FlagMap::empty();
    flags.set(Flag::Lanczos3, true);
    assert!(flag_is_enabled(flags.get(Flag::Lanczos3)));
    flags.set(Flag::Lanczos3, false);
    assert!(!flag_is_enabled(flags.get(Flag::Lanczos3)));
}
