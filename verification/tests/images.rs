use deskctrl::images::ImageUses;
use deskctrl::notification::EwwNotification;
use std::path::PathBuf;

fn with_image(path: Option<&str>, tmp_image: bool) -> EwwNotification {
    EwwNotification {
        id: 1,
        timestamp: 0,
        app_name: "App".to_string(),
        app_class: "app".to_string(),
        summary: String::new(),
        body: String::new(),
        app_icon: None,
        image_path: path.map(PathBuf::from),
        tmp_image,
    }
}

#[test]
fn an_image_is_given_up_by_its_last_user() {
    let mut uses = ImageUses::new();
    let notification = with_image(Some("/a.png"), true);
    uses.acquire(&notification);
    uses.acquire(&notification);
    assert_eq!(uses.release(&notification), None);
    assert_eq!(uses.release(&notification), Some(PathBuf::from("/a.png")));
    assert_eq!(uses.release(&notification), None);
}

#[test]
fn images_are_counted_apart() {
    let mut uses = ImageUses::new();
    let a = with_image(Some("/a.png"), true);
    let b = with_image(Some("/b.png"), true);
    uses.acquire(&a);
    uses.acquire(&b);
    assert_eq!(uses.release(&a), Some(PathBuf::from("/a.png")));
    assert_eq!(uses.release(&b), Some(PathBuf::from("/b.png")));
}

#[test]
fn only_temporary_images_are_counted() {
    let mut uses = ImageUses::new();
    for notification in [
        with_image(Some("/a.png"), false),
        with_image(None, true),
        with_image(None, false),
    ] {
        assert!(uses.can_acquire(&notification));
        uses.acquire(&notification);
        assert_eq!(uses.release(&notification), None);
    }
}

#[test]
fn images_are_counted_by_the_names_in_their_paths() {
    let mut uses = ImageUses::new();
    uses.acquire(&with_image(Some("/a//b.png"), true));
    uses.acquire(&with_image(Some("/a/./b.png"), true));
    assert_eq!(uses.release(&with_image(Some("/a/b.png"), true)), None);
    assert_eq!(
        uses.release(&with_image(Some("/a/b.png/"), true)),
        Some(PathBuf::from("/a/b.png"))
    );
    uses.acquire(&with_image(Some("./b.png"), true));
    assert_eq!(uses.release(&with_image(Some("b.png"), true)), None);
    assert_eq!(uses.release(&with_image(Some("/b.png"), true)), None);
    assert_eq!(
        uses.release(&with_image(Some("./b.png"), true)),
        Some(PathBuf::from("./b.png"))
    );
}

#[test]
fn notifications_with_like_paths_are_equal() {
    assert_eq!(with_image(Some("/a//b"), true), with_image(Some("/a/b"), true));
    assert_ne!(with_image(Some("/a/b"), true), with_image(Some("/a/../b"), true));
}
