use aria_shell::dbus::{image_pixels, notification_of, Ids, NotifyCall};
use aria_shell::notifications::{IconSource, Timeout, Urgency};

#[test]
fn image_data_rgb_and_rgba() {
    // 2x1 RGB with a padded stride.
    let rgb = vec![1u8, 2, 3, 4, 5, 6, 0, 0];
    let img = image_pixels(2, 1, 8, false, 8, 3, &rgb).unwrap();
    assert_eq!((img.width, img.height), (2, 1));
    assert_eq!(img.rgba, [1, 2, 3, 255, 4, 5, 6, 255]);
    let rgba = vec![1u8, 2, 3, 4, 5, 6, 7, 8];
    let img = image_pixels(2, 1, 8, true, 8, 4, &rgba).unwrap();
    assert_eq!(img.rgba, rgba);
    // Short data, wrong depth: dropped.
    assert!(image_pixels(2, 2, 8, true, 8, 4, &[0u8; 8]).is_none());
    assert!(image_pixels(1, 1, 8, true, 16, 4, &[0u8; 8]).is_none());
}

#[test]
fn image_rows_follow_the_stride() {
    // 1x2 RGB, rows 4 bytes apart.
    let data = [10u8, 11, 12, 0, 20, 21, 22];
    let img = image_pixels(1, 2, 4, false, 8, 3, &data).unwrap();
    assert_eq!(img.rgba, [10, 11, 12, 255, 20, 21, 22, 255]);
    assert!(image_pixels(2, 1, 5, false, 8, 3, &[0u8; 6]).is_none(), "stride shorter than a row");
    assert!(image_pixels(2, 1, 8, true, 8, 3, &[0u8; 8]).is_none(), "alpha with 3 channels");
    assert!(image_pixels(0, 1, 8, false, 8, 3, &[0u8; 8]).is_none());
    assert!(image_pixels(1025, 1, 4100, true, 8, 4, &[]).is_none(), "too large");
    assert_eq!(image_pixels(1, 1, -1, true, 8, 4, &[1, 2, 3, 4]).unwrap().rgba, [1, 2, 3, 4]);
}

#[test]
fn ids_and_serials() {
    let mut ids = Ids::new();
    assert_eq!(ids.assign(0), (1, 1));
    assert_eq!(ids.assign(0), (2, 2));
    assert_eq!(ids.assign(1), (1, 3), "a replacement keeps its id");
    assert_eq!(ids.assign(0), (3, 4));
}

#[test]
fn notify_arguments() {
    let call = NotifyCall {
        app_name: "mail".into(),
        replaces_id: 0,
        app_icon: "mail-unread".into(),
        summary: "New mail".into(),
        body: "<b>Ada</b> &amp; Bob".into(),
        actions: vec!["default".into(), "Open".into(), "dismiss".into()],
        image_path: Some("file:///tmp/a.png".into()),
        urgency: Some(2),
        expire_timeout: 5000,
    };
    let n = notification_of(&call, 7, 9);
    assert_eq!((n.id, n.serial), (7, 9));
    assert_eq!(n.body, "Ada & Bob");
    assert_eq!(n.icon, Some(IconSource::Path("/tmp/a.png".into())));
    assert_eq!(n.urgency, Urgency::Critical);
    assert_eq!(
        n.actions,
        [("default".to_string(), "Open".to_string()), ("dismiss".to_string(), String::new())]
    );
    assert_eq!(n.timeout, Timeout::After(5000));
    let call = NotifyCall {
        image_path: None,
        urgency: Some(7),
        expire_timeout: -1,
        actions: vec![],
        ..call
    };
    let n = notification_of(&call, 1, 1);
    assert_eq!(n.icon, Some(IconSource::Name("mail-unread".into())));
    assert_eq!(n.urgency, Urgency::Normal);
    assert_eq!(n.timeout, Timeout::Default);
    assert!(n.actions.is_empty());
}
