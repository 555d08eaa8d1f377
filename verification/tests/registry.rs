use image::{DynamicImage, GenericImageView};
use imagene::img::Img;
use imagene::registry::{LoadError, Registry};

fn send_one(img: DynamicImage) -> std::sync::mpsc::Receiver<DynamicImage> {
    let (tx, rx) = std::sync::mpsc::channel();
    tx.send(img).unwrap();
    rx
}

fn dims(img: &Img) -> (u32, u32) {
    (img.width(), img.height())
}

#[test]
fn deliver_caches_and_never_rereads() {
    // Exactly one image is ever sent and the sender is gone; a second read
    // from the channel would fail, so two successful deliveries show that
    // the first result was cached.
    let mut reg = Registry::new();
    reg.register("a.png".to_string(), send_one(DynamicImage::new_rgba8(7, 9)));
    let first = reg.deliver("a.png").unwrap();
    let second = reg.deliver("a.png").unwrap();
    assert_eq!(dims(&first), (7, 9));
    assert_eq!(dims(&second), (7, 9));
}

#[test]
fn deliver_unknown_path_fails() {
    let mut reg = Registry::new();
    assert_eq!(reg.deliver("a.png").unwrap_err(), LoadError::UnknownPath);
}

#[test]
fn deliver_reports_a_loader_that_gave_up() {
    let mut reg = Registry::new();
    let (tx, rx) = std::sync::mpsc::channel::<DynamicImage>();
    drop(tx);
    reg.register("a.png".to_string(), rx);
    assert_eq!(reg.deliver("a.png").unwrap_err(), LoadError::Failed);
}

#[test]
fn deliver_refuses_an_empty_image() {
    let mut reg = Registry::new();
    reg.register("a.png".to_string(), send_one(DynamicImage::new_rgba8(0, 0)));
    assert_eq!(reg.deliver("a.png").unwrap_err(), LoadError::Unusable);
}

#[test]
fn contains_tracks_registration() {
    let mut reg = Registry::new();
    assert!(!reg.contains("a.png"));
    reg.register("a.png".to_string(), send_one(DynamicImage::new_rgba8(3, 3)));
    assert!(reg.contains("a.png"));
    assert!(!reg.contains("b.png"));
}

#[test]
fn each_caller_owns_its_copy() {
    // Mutating one delivered copy must not leak into the cache.
    let mut reg = Registry::new();
    reg.register("a.png".to_string(), send_one(DynamicImage::new_rgba8(4, 4)));
    let first = reg.deliver("a.png").unwrap();
    let mut owned = first.into_dynamic();
    owned.invert();
    let second = reg.deliver("a.png").unwrap().into_dynamic();
    assert_eq!(second.dimensions(), (4, 4));
    assert_eq!(second, DynamicImage::new_rgba8(4, 4));
}
