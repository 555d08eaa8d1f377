use image::{DynamicImage, GenericImageView, Rgba, RgbaImage};
use imagene::action::{apply_actions, Action, ApplyError, Direction, Flag, FlagMap, Orientation};
use imagene::format::OutFormat;
use imagene::registry::Registry;

fn image_with_pattern(w: u32, h: u32) -> DynamicImage {
    let buf = RgbaImage::from_fn(w, h, |x, y| {
        Rgba([(x % 251) as u8, (y % 241) as u8, ((x + y) % 239) as u8, 255])
    });
    DynamicImage::ImageRgba8(buf)
}

fn registry_with(entries: Vec<(&str, DynamicImage)>) -> Registry {
    let mut reg = Registry::new();
    for (path, img) in entries {
        let (tx, rx) = std::sync::mpsc::channel();
        tx.send(img).unwrap();
        reg.register(path.to_string(), rx);
    }
    reg
}

fn run(
    infile: &str,
    entries: Vec<(&str, DynamicImage)>,
    actions: Vec<Action>,
) -> Result<(DynamicImage, OutFormat), ApplyError> {
    let mut reg = registry_with(entries);
    let flags = FlagMap::empty();
    apply_actions(infile, OutFormat::Png, actions, &flags, &mut reg)
        .map(|(img, fmt)| (img.into_dynamic(), fmt))
}

#[test]
fn scale_auto_height_keeps_aspect() {
    // 100x50, width forced to 400: height must follow the aspect ratio.
    let (img, _) = run(
        "a.png",
        vec![("a.png", image_with_pattern(100, 50))],
        vec![Action::Scale(400, 0)],
    )
    .unwrap();
    assert_eq!(img.dimensions(), (400, 200));
}

#[test]
fn scale_auto_width_keeps_aspect() {
    let (img, _) = run(
        "a.png",
        vec![("a.png", image_with_pattern(100, 50))],
        vec![Action::Scale(0, 200)],
    )
    .unwrap();
    assert_eq!(img.dimensions(), (400, 200));
}

#[test]
fn scale_exact_ignores_aspect() {
    let (img, _) = run(
        "a.png",
        vec![("a.png", image_with_pattern(100, 50))],
        vec![Action::Scale(30, 40)],
    )
    .unwrap();
    assert_eq!(img.dimensions(), (30, 40));
}

#[test]
fn scale_both_zero_is_an_error() {
    let r = run(
        "a.png",
        vec![("a.png", image_with_pattern(100, 50))],
        vec![Action::Scale(0, 0)],
    );
    assert_eq!(r.unwrap_err(), ApplyError::BadScale);
}

#[test]
fn scale_128_0_on_64_square_gives_128_square() {
    // A square stays square when one dimension is computed.
    let (img, _) = run(
        "a.png",
        vec![("a.png", image_with_pattern(64, 64))],
        vec![Action::Scale(128, 0)],
    )
    .unwrap();
    assert_eq!(img.dimensions(), (128, 128));
}

#[test]
fn append_down_equal_width_adds_heights() {
    let (img, _) = run(
        "a.png",
        vec![
            ("a.png", image_with_pattern(100, 50)),
            ("b.png", image_with_pattern(100, 20)),
        ],
        vec![Action::Append("b.png".to_string(), Direction::Down)],
    )
    .unwrap();
    assert_eq!(img.dimensions(), (100, 70));
}

#[test]
fn append_up_equal_width_adds_heights() {
    let (img, _) = run(
        "a.png",
        vec![
            ("a.png", image_with_pattern(100, 50)),
            ("b.png", image_with_pattern(100, 20)),
        ],
        vec![Action::Append("b.png".to_string(), Direction::Up)],
    )
    .unwrap();
    assert_eq!(img.dimensions(), (100, 70));
}

#[test]
fn append_right_equal_height_adds_widths() {
    let (img, _) = run(
        "a.png",
        vec![
            ("a.png", image_with_pattern(100, 50)),
            ("b.png", image_with_pattern(40, 50)),
        ],
        vec![Action::Append("b.png".to_string(), Direction::Right)],
    )
    .unwrap();
    assert_eq!(img.dimensions(), (140, 50));
}

#[test]
fn append_left_equal_height_adds_widths() {
    let (img, _) = run(
        "a.png",
        vec![
            ("a.png", image_with_pattern(100, 50)),
            ("b.png", image_with_pattern(40, 50)),
        ],
        vec![Action::Append("b.png".to_string(), Direction::Left)],
    )
    .unwrap();
    assert_eq!(img.dimensions(), (140, 50));
}

#[test]
fn append_rescales_to_working_width() {
    // 60x30 appended under a 120-wide image is scaled to 120x60 first.
    let (img, _) = run(
        "a.png",
        vec![
            ("a.png", image_with_pattern(120, 50)),
            ("b.png", image_with_pattern(60, 30)),
        ],
        vec![Action::Append("b.png".to_string(), Direction::Down)],
    )
    .unwrap();
    assert_eq!(img.dimensions(), (120, 110));
}

#[test]
fn append_self_uses_transformed_image() {
    // The appended copy of the primary reflects the scale applied before it:
    // 100x50 scaled to 50x25, then doubled sideways by appending itself.
    let (img, _) = run(
        "a.png",
        vec![("a.png", image_with_pattern(100, 50))],
        vec![
            Action::Scale(50, 25),
            Action::Append("a.png".to_string(), Direction::Right),
        ],
    )
    .unwrap();
    assert_eq!(img.dimensions(), (100, 25));
}

#[test]
fn append_self_content_is_transformed_content() {
    // Invert, then append self: both halves must hold the inverted pixels,
    // not the decoded original.
    let primary = image_with_pattern(8, 8);
    let mut inverted = primary.clone();
    inverted.invert();
    let (img, _) = run(
        "a.png",
        vec![("a.png", primary)],
        vec![
            Action::Invert,
            Action::Append("a.png".to_string(), Direction::Right),
        ],
    )
    .unwrap();
    assert_eq!(img.dimensions(), (16, 8));
    let out = img.to_rgba8();
    let want = inverted.to_rgba8();
    for y in 0..8 {
        for x in 0..8 {
            assert_eq!(out.get_pixel(x, y), want.get_pixel(x, y));
            assert_eq!(out.get_pixel(x + 8, y), want.get_pixel(x, y));
        }
    }
}

#[test]
fn contrast_then_append_right_scenario() {
    // 100x50 primary, contrast 1.2, then a 40x50 image on the right: the
    // output is 140x50, the left 100 columns the adjusted primary, the right
    // 40 columns the appended image unshifted.
    let primary = image_with_pattern(100, 50);
    let extra = image_with_pattern(40, 50);
    let adjusted = primary.adjust_contrast(1.2).to_rgba8();
    let extra_px = extra.to_rgba8();
    let (img, fmt) = run(
        "a.png",
        vec![("a.png", primary), ("b.png", extra)],
        vec![
            Action::Contrast("1.2".to_string()),
            Action::Append("b.png".to_string(), Direction::Right),
        ],
    )
    .unwrap();
    assert_eq!(fmt, OutFormat::Png);
    assert_eq!(img.dimensions(), (140, 50));
    let out = img.to_rgba8();
    for y in 0..50 {
        for x in 0..100 {
            assert_eq!(out.get_pixel(x, y), adjusted.get_pixel(x, y));
        }
        for x in 0..40 {
            assert_eq!(out.get_pixel(100 + x, y), extra_px.get_pixel(x, y));
        }
    }
}

#[test]
fn rotate_up_is_byte_for_byte_identity() {
    let primary = image_with_pattern(31, 17);
    let copy = primary.clone();
    let (img, _) = run(
        "a.png",
        vec![("a.png", primary)],
        vec![Action::Rotate(Direction::Up)],
    )
    .unwrap();
    assert_eq!(img, copy);
}

#[test]
fn rotate_down_twice_restores_dimensions_and_pixels() {
    let primary = image_with_pattern(31, 17);
    let copy = primary.clone();
    let (img, _) = run(
        "a.png",
        vec![("a.png", primary)],
        vec![
            Action::Rotate(Direction::Down),
            Action::Rotate(Direction::Down),
        ],
    )
    .unwrap();
    assert_eq!(img.dimensions(), (31, 17));
    assert_eq!(img.to_rgba8(), copy.to_rgba8());
}

#[test]
fn four_quarter_turns_restore_dimensions() {
    let (img, _) = run(
        "a.png",
        vec![("a.png", image_with_pattern(31, 17))],
        vec![
            Action::Rotate(Direction::Right),
            Action::Rotate(Direction::Right),
            Action::Rotate(Direction::Right),
            Action::Rotate(Direction::Right),
        ],
    )
    .unwrap();
    assert_eq!(img.dimensions(), (31, 17));
}

#[test]
fn rotate_quarter_turn_swaps_dimensions() {
    let (img, _) = run(
        "a.png",
        vec![("a.png", image_with_pattern(31, 17))],
        vec![Action::Rotate(Direction::Left)],
    )
    .unwrap();
    assert_eq!(img.dimensions(), (17, 31));
}

#[test]
fn format_last_action_wins_over_default_and_earlier() {
    let (_, fmt) = run(
        "a.png",
        vec![("a.png", image_with_pattern(10, 10))],
        vec![
            Action::Format(OutFormat::Png),
            Action::Format(OutFormat::Jpeg(42)),
        ],
    )
    .unwrap();
    assert_eq!(fmt, OutFormat::Jpeg(42));
}

#[test]
fn crop_inside_bounds_gives_rectangle() {
    let (img, _) = run(
        "a.png",
        vec![("a.png", image_with_pattern(64, 64))],
        vec![Action::Crop(10, 10, 20, 30)],
    )
    .unwrap();
    assert_eq!(img.dimensions(), (20, 30));
}

#[test]
fn crop_out_of_bounds_is_fatal() {
    let r = run(
        "a.png",
        vec![("a.png", image_with_pattern(64, 64))],
        vec![Action::Crop(10, 10, 1000, 1000)],
    );
    assert_eq!(r.unwrap_err(), ApplyError::CropOutOfBounds);
}

#[test]
fn crop_empty_rectangle_is_fatal() {
    let r = run(
        "a.png",
        vec![("a.png", image_with_pattern(64, 64))],
        vec![Action::Crop(0, 0, 0, 5)],
    );
    assert_eq!(r.unwrap_err(), ApplyError::CropOutOfBounds);
}

#[test]
fn filters_keep_dimensions() {
    let (img, _) = run(
        "a.png",
        vec![("a.png", image_with_pattern(33, 21))],
        vec![
            Action::Invert,
            Action::Blur("1.5".to_string()),
            Action::Brightness(-10),
            Action::Contrast("-3.5".to_string()),
            Action::Unsharpen("2.0".to_string(), 3),
            Action::Flip(Orientation::Vertical),
            Action::Flip(Orientation::Horizontal),
        ],
    )
    .unwrap();
    assert_eq!(img.dimensions(), (33, 21));
}

#[test]
fn append_unknown_path_is_fatal() {
    let r = run(
        "a.png",
        vec![("a.png", image_with_pattern(10, 10))],
        vec![Action::Append("missing.png".to_string(), Direction::Down)],
    );
    assert_eq!(r.unwrap_err(), ApplyError::UnknownPath);
}

#[test]
fn lanczos_flag_changes_resampling_but_not_dimensions() {
    let mut reg = registry_with(vec![("a.png", image_with_pattern(100, 50))]);
    let mut flags = FlagMap::empty();
    flags.set(Flag::Lanczos3, true);
    let (img, _) = apply_actions(
        "a.png",
        OutFormat::Png,
        vec![Action::Scale(0, 200)],
        &flags,
        &mut reg,
    )
    .unwrap();
    assert_eq!(img.width(), 400);
    assert_eq!(img.height(), 200);
}

#[test]
fn scale_rounds_half_up() {
    // 3x2 forced to height 3: the exact width 4.5 rounds up to 5.
    let (img, _) = run(
        "a.png",
        vec![("a.png", image_with_pattern(3, 2))],
        vec![Action::Scale(0, 3)],
    )
    .unwrap();
    assert_eq!(img.dimensions(), (5, 3));
}

#[test]
fn scale_rounds_to_nearest() {
    // 99x50 forced to height 33: the exact width 65.34 rounds down to 65.
    let (img, _) = run(
        "a.png",
        vec![("a.png", image_with_pattern(99, 50))],
        vec![Action::Scale(0, 33)],
    )
    .unwrap();
    assert_eq!(img.dimensions(), (65, 33));
}

#[test]
fn scale_beyond_the_size_bound_is_fatal() {
    let r = run(
        "a.png",
        vec![("a.png", image_with_pattern(10, 10))],
        vec![Action::Scale(0x20_0000, 0x20_0000)],
    );
    assert_eq!(r.unwrap_err(), ApplyError::TooLarge);
}

#[test]
fn a_loader_that_gave_up_aborts_the_run() {
    let mut reg = Registry::new();
    let (tx, rx) = std::sync::mpsc::channel::<DynamicImage>();
    drop(tx);
    reg.register("a.png".to_string(), rx);
    let flags = FlagMap::empty();
    let r = apply_actions("a.png", OutFormat::Png, vec![], &flags, &mut reg);
    assert_eq!(r.unwrap_err(), ApplyError::LoadFailed);
}

#[test]
fn an_empty_primary_aborts_the_run() {
    let r = run("a.png", vec![("a.png", DynamicImage::new_rgba8(0, 0))], vec![]);
    assert_eq!(r.unwrap_err(), ApplyError::UnusableImage);
}
