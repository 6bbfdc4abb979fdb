use deskctrl::notification::EwwNotification;
use deskctrl::notification_data::NotificationData;
use std::path::PathBuf;

fn notification(app_name: &str, id: u32, image: Option<&str>) -> EwwNotification {
    EwwNotification {
        id,
        timestamp: 0,
        app_name: app_name.to_string(),
        app_class: app_name.to_lowercase(),
        summary: format!("{app_name} {id}"),
        body: String::new(),
        app_icon: None,
        image_path: image.map(PathBuf::from),
        tmp_image: image.is_some(),
    }
}

fn kept(data: &NotificationData) -> Vec<(String, Vec<u32>)> {
    data.groups()
        .into_iter()
        .map(|group| {
            (
                group.app_name.clone(),
                group.notifications.iter().map(|n| n.id).collect(),
            )
        })
        .collect()
}

fn group(app_name: &str, ids: &[u32]) -> (String, Vec<u32>) {
    (app_name.to_string(), ids.to_vec())
}

#[test]
fn the_newest_notification_comes_first() {
    let mut data = NotificationData::new();
    assert_eq!(kept(&data), vec![]);
    data.insert_or_replace(notification("Mail", 1, None), 10);
    data.insert_or_replace(notification("Mail", 2, None), 20);
    data.insert_or_replace(notification("Chat", 1, None), 15);
    assert_eq!(kept(&data), vec![group("Mail", &[2, 1]), group("Chat", &[1])]);
    data.insert_or_replace(notification("Chat", 5, None), 30);
    assert_eq!(kept(&data), vec![group("Chat", &[5, 1]), group("Mail", &[2, 1])]);
}

#[test]
fn groups_of_one_time_come_in_the_order_of_their_names() {
    let mut data = NotificationData::new();
    data.insert_or_replace(notification("Mail", 1, None), 10);
    data.insert_or_replace(notification("Chat", 1, None), 10);
    data.insert_or_replace(notification("Zoo", 1, None), 11);
    assert_eq!(
        kept(&data),
        vec![group("Zoo", &[1]), group("Chat", &[1]), group("Mail", &[1])]
    );
}

#[test]
fn a_notification_replaces_the_one_with_its_id() {
    let mut data = NotificationData::new();
    data.insert_or_replace(notification("Music", 1, Some("/one.png")), 1);
    data.insert_or_replace(notification("Music", 2, None), 2);
    assert_eq!(
        data.insert_or_replace(notification("Music", 1, Some("/two.png")), 3),
        Some(PathBuf::from("/one.png"))
    );
    assert_eq!(kept(&data), vec![group("Music", &[1, 2])]);
}

#[test]
fn a_replacement_with_the_same_image_keeps_the_file() {
    let mut data = NotificationData::new();
    data.insert_or_replace(notification("Music", 1, Some("/one.png")), 1);
    assert_eq!(
        data.insert_or_replace(notification("Music", 1, Some("/one.png")), 2),
        None
    );
    assert_eq!(data.remove(1), Some(Some(PathBuf::from("/one.png"))));
}

#[test]
fn an_id_of_another_application_is_not_replaced() {
    let mut data = NotificationData::new();
    data.insert_or_replace(notification("Mail", 1, None), 1);
    data.insert_or_replace(notification("Chat", 1, None), 2);
    assert_eq!(kept(&data), vec![group("Chat", &[1]), group("Mail", &[1])]);
}

#[test]
fn the_oldest_of_too_many_goes() {
    let mut data = NotificationData::new();
    for id in 1..=40 {
        data.insert_or_replace(notification("Mail", id, None), u128::from(id));
    }
    let ids: Vec<u32> = (9..=40).rev().collect();
    assert_eq!(kept(&data), vec![group("Mail", &ids)]);
    data.insert_or_replace(notification("Mail", 20, None), 41);
    let groups = kept(&data);
    assert_eq!(groups[0].1.len(), 32);
    assert_eq!(groups[0].1[0], 20);
    assert!(groups[0].1.contains(&9));
}

#[test]
fn a_removed_notification_is_gone() {
    let mut data = NotificationData::new();
    data.insert_or_replace(notification("Mail", 1, None), 1);
    data.insert_or_replace(notification("Mail", 2, Some("/m.png")), 2);
    data.insert_or_replace(notification("Chat", 3, Some("/m.png")), 3);
    assert_eq!(data.remove(9), None);
    assert_eq!(data.remove(2), Some(None));
    assert_eq!(data.remove(2), None);
    assert_eq!(data.remove(3), Some(Some(PathBuf::from("/m.png"))));
    assert_eq!(kept(&data), vec![group("Chat", &[]), group("Mail", &[1])]);
}

#[test]
fn removal_undoes_an_insertion() {
    let mut data = NotificationData::new();
    data.insert_or_replace(notification("Mail", 1, Some("/a.png")), 1);
    data.insert_or_replace(notification("Mail", 2, Some("/a.png")), 2);
    assert_eq!(data.remove(2), Some(None));
    assert_eq!(kept(&data), vec![group("Mail", &[1])]);
    assert_eq!(data.remove(1), Some(Some(PathBuf::from("/a.png"))));
}

#[test]
fn a_class_is_cleared_whatever_its_case() {
    let mut data = NotificationData::new();
    data.insert_or_replace(notification("Mail", 1, Some("/a.png")), 1);
    data.insert_or_replace(notification("Mail", 2, Some("/b.png")), 2);
    data.insert_or_replace(notification("Chat", 3, Some("/a.png")), 3);
    assert_eq!(data.clear_class("none"), Vec::<PathBuf>::new());
    assert_eq!(data.clear_class("MAIL"), vec![PathBuf::from("/b.png")]);
    assert_eq!(kept(&data), vec![group("Chat", &[3]), group("Mail", &[])]);
    assert_eq!(data.clear_class("chat"), vec![PathBuf::from("/a.png")]);
}

#[test]
fn classes_are_found_in_all_groups() {
    let mut data = NotificationData::new();
    let mut other = notification("Mail", 4, Some("/c.png"));
    other.app_class = "chat".to_string();
    data.insert_or_replace(other, 1);
    data.insert_or_replace(notification("Chat", 3, Some("/a.png")), 2);
    assert_eq!(
        data.clear_class("Chat"),
        vec![PathBuf::from("/c.png"), PathBuf::from("/a.png")]
    );
    assert_eq!(kept(&data), vec![group("Chat", &[]), group("Mail", &[])]);
}

#[test]
fn all_images_are_given_up_in_the_end() {
    let mut data = NotificationData::new();
    data.insert_or_replace(notification("Mail", 1, Some("/a.png")), 1);
    data.insert_or_replace(notification("Mail", 2, Some("/b.png")), 2);
    data.insert_or_replace(notification("Chat", 3, Some("/a.png")), 3);
    data.insert_or_replace(notification("Chat", 4, None), 4);
    assert_eq!(
        data.cleanup(),
        vec![PathBuf::from("/b.png"), PathBuf::from("/a.png")]
    );
}

#[test]
fn there_is_room_for_an_image() {
    let data = NotificationData::new();
    assert!(data.can_insert(&notification("Mail", 1, Some("/a.png"))));
    assert!(data.can_insert(&notification("Mail", 1, None)));
}
