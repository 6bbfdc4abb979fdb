use deskctrl::notification::{
    assemble, get_digest, image_file_path, image_of, make_eww, notifications_path, try_make_eww,
    DBusNotification, HintError, HintValue, ImageData, ImagePlan, LINE_LENGTH, NOTIFICATION_LIMIT,
};
use deskctrl::table::Table;
use std::path::Path;

fn received(app_name: &str, hints: Vec<(&str, HintValue)>) -> DBusNotification {
    let mut table = Table::new();
    for (name, value) in hints {
        table.insert(name.to_string(), value);
    }
    DBusNotification {
        app_name: app_name.to_string(),
        replaces_id: 7,
        app_icon: String::new(),
        summary: "Summary".to_string(),
        body: "Body".to_string(),
        actions: vec![],
        hints: table,
        expire_timeout: -1,
    }
}

fn pixels(width: i32) -> HintValue {
    HintValue::Image(ImageData {
        width,
        height: 1,
        row_stride: 3 * width,
        has_alpha: false,
        bits_per_sample: 8,
        channels: 3,
        data: vec![1, 2, 3],
    })
}

fn other() -> HintValue {
    HintValue::Other("<true>".to_string())
}

fn text(path: &str) -> HintValue {
    HintValue::Text(path.to_string())
}

#[test]
fn limits_of_notifications() {
    assert_eq!(NOTIFICATION_LIMIT, 32);
    assert_eq!(LINE_LENGTH, 36);
    assert_eq!(notifications_path(), "/tmp/deskctrl/data/notifications.json");
}

#[test]
fn digests_are_those_of_sha256() {
    assert_eq!(
        get_digest(b"abc"),
        "ba7816bf8f01cfea414140de5dae2223b00361a396177a9cb410ff61f20015ad"
    );
    assert_eq!(
        get_digest(b""),
        "e3b0c44298fc1c149afbf4c8996fb92427ae41e4649b934ca495991b7852b855"
    );
}

#[test]
fn images_are_kept_by_digest() {
    assert_eq!(
        image_file_path(b"abc"),
        "/tmp/deskctrl/images/ba7816bf8f01cfea414140de5dae2223b00361a396177a9cb410ff61f20015ad.png"
    );
    assert_eq!(image_file_path(b"abc"), image_file_path(b"abc"));
    assert_ne!(image_file_path(b"abc"), image_file_path(b"abd"));
}

#[test]
fn no_hint_gives_no_image() {
    let mut dbus = received("app", vec![("urgency", other())]);
    assert!(matches!(dbus.take_image(), Ok(ImagePlan::Nothing)));
    assert!(dbus.hints.get(&"urgency".to_string()).is_some());
}

#[test]
fn image_hints_are_looked_for_in_order() {
    let mut dbus = received(
        "app",
        vec![
            ("image_path", text("/e")),
            ("image_data", pixels(4)),
            ("icon_data", pixels(3)),
            ("image-path", text("/b")),
            ("image-data", pixels(1)),
        ],
    );
    match dbus.take_image() {
        Ok(ImagePlan::Pixels(config, data)) => {
            assert_eq!((config.width, config.height, config.row_stride), (1, 1, 3));
            assert!(!config.has_alpha);
            assert_eq!(data, vec![1, 2, 3]);
        }
        other => panic!("{other:?}"),
    }
    assert!(matches!(dbus.take_image(), Ok(ImagePlan::File(path)) if path == "/b"));
    assert!(
        matches!(dbus.take_image(), Ok(ImagePlan::Pixels(config, _)) if config.width == 3)
    );
    assert!(
        matches!(dbus.take_image(), Ok(ImagePlan::Pixels(config, _)) if config.width == 4)
    );
    assert!(matches!(dbus.take_image(), Ok(ImagePlan::File(path)) if path == "/e"));
    assert!(matches!(dbus.take_image(), Ok(ImagePlan::Nothing)));
}

#[test]
fn a_hint_of_the_wrong_kind_is_an_error() {
    for name in ["image-data", "icon_data", "image_data"] {
        for value in [text("/a"), other()] {
            let mut dbus = received("app", vec![(name, value)]);
            assert!(matches!(dbus.take_image(), Err(HintError::ImageData)));
        }
    }
    for name in ["image-path", "image_path"] {
        for value in [pixels(1), other()] {
            let mut dbus = received("app", vec![(name, value)]);
            assert!(matches!(dbus.take_image(), Err(HintError::ImagePath)));
        }
    }
    assert_eq!(
        HintError::ImageData.message(),
        "Failed to deserialize image data to tuple (iiibiiay)"
    );
    assert_eq!(
        HintError::ImagePath.message(),
        "Failed to convert image path to String (s)"
    );
}

#[test]
fn notifications_are_made_for_showing() {
    let mut dbus = received("notify-Send", vec![]);
    dbus.app_icon = "/icon.png".to_string();
    dbus.body = "word ".repeat(12).trim().to_string();
    let shown = make_eww(dbus, 1234, Some(("/image.png".to_string(), true))).unwrap();
    assert_eq!(shown.id, 7);
    assert_eq!(shown.timestamp, 1234);
    assert_eq!(shown.app_name, "Notify-Send");
    assert_eq!(shown.app_class, "notify-send");
    assert_eq!(shown.summary, "Summary");
    assert_eq!(
        shown.body.split('\n').collect::<Vec<_>>().join(" "),
        "word ".repeat(12).trim()
    );
    assert!(shown.body.lines().all(|line| line.len() <= 36));
    assert_eq!(shown.app_icon.as_deref(), Some(Path::new("/icon.png")));
    assert_eq!(shown.image_path.as_deref(), Some(Path::new("/image.png")));
    assert!(shown.tmp_image);
}

#[test]
fn an_empty_icon_is_none() {
    let shown = make_eww(received("app", vec![]), 0, None).unwrap();
    assert_eq!(shown.app_icon, None);
    assert_eq!(shown.image_path, None);
    assert!(!shown.tmp_image);
}

#[test]
fn an_image_of_another_program_is_not_temporary() {
    let shown = make_eww(
        received("app", vec![]),
        0,
        Some(("/usr/share/a.png".to_string(), false)),
    )
    .unwrap();
    assert_eq!(shown.image_path.as_deref(), Some(Path::new("/usr/share/a.png")));
    assert!(!shown.tmp_image);
}

#[test]
fn texts_that_cannot_be_wrapped_are_given_back() {
    let mut dbus = received("app", vec![]);
    dbus.body = "hyphen\u{212a}ation ".repeat(4);
    match try_make_eww(dbus, 0, None) {
        Err(unchanged) => assert_eq!(unchanged.body, "hyphen\u{212a}ation ".repeat(4)),
        Ok(_) => unreachable!(),
    }
    assert!(try_make_eww(received("app", vec![]), 0, None).unwrap().is_ok());
}

#[test]
fn texts_are_taken_as_they_are_wrapped() {
    let shown = assemble(
        received("ÉCOLE", vec![]),
        9,
        None,
        "one\ntwo".to_string(),
        "three".to_string(),
    );
    assert_eq!(shown.summary, "one\ntwo");
    assert_eq!(shown.body, "three");
    assert_eq!(shown.app_class, "école");
    assert_eq!(shown.app_name, "ÉCOLE");
}

#[test]
fn an_empty_notification_is_the_default() {
    let mut dbus = DBusNotification::default();
    assert!(matches!(dbus.take_image(), Ok(ImagePlan::Nothing)));
    let shown = make_eww(dbus, 1, None).unwrap();
    assert_eq!((shown.id, shown.app_name.as_str()), (0, ""));
    assert_eq!((shown.summary.as_str(), shown.body.as_str()), ("", ""));
}

#[test]
fn images_are_found_by_plan() {
    let mut dbus = received("app", vec![("image-data", pixels(1))]);
    let plan = dbus.take_image().unwrap();
    assert_eq!(image_of(ImagePlan::Nothing, b"abc"), None);
    assert_eq!(
        image_of(ImagePlan::File("/a.png".to_string()), b"abc"),
        Some(("/a.png".to_string(), false))
    );
    assert_eq!(image_of(plan, b"abc"), Some((image_file_path(b"abc"), true)));
}

#[test]
fn later_hints_do_not_matter() {
    let make = |hints: Vec<(&str, HintValue)>| {
        let mut dbus = received("app", hints);
        let image = image_of(dbus.take_image().unwrap(), b"abc");
        make_eww(dbus, 1, image).unwrap()
    };
    let alone = make(vec![("image-path", text("/a.png"))]);
    let more = make(vec![
        ("image-path", text("/a.png")),
        ("icon_data", other()),
        ("image_data", pixels(2)),
        ("image_path", text("/b.png")),
        ("urgency", other()),
    ]);
    assert_eq!(alone, more);
    assert_eq!(alone.image_path.as_deref(), Some(Path::new("/a.png")));
    assert!(!alone.tmp_image);
    let first = make(vec![("image-path", text("/a.png")), ("image-data", pixels(1))]);
    assert!(first.tmp_image);
    assert_eq!(first.image_path, Some(image_file_path(b"abc").into()));
}

#[test]
fn received_notifications_compare_by_what_they_hold() {
    assert_eq!(
        received("app", vec![("a", other()), ("b", pixels(1))]),
        received("app", vec![("b", pixels(1)), ("a", other())])
    );
    assert_ne!(
        received("app", vec![("a", other())]),
        received("app", vec![("a", HintValue::Other("<false>".to_string()))])
    );
    assert_ne!(received("app", vec![("b", pixels(1))]), received("app", vec![("b", pixels(2))]));
}
