use aria_shell::config::RawSection;
use aria_shell::desktop::{parse, DesktopDb};
use aria_shell::icons::{class_overrides, gtk_icon_theme, icon_candidates, icon_kind, IconKind};

#[test]
fn names_to_try_for_a_class() {
    let mut db = DesktopDb::new();
    db.insert(parse("[Desktop Entry]\nType=Application\nName=Fox\nIcon=fox-icon\nExec=firefox\n", "org.mozilla.firefox".into(), "/x".into()).unwrap());
    let raw = RawSection::from_pairs(vec![("Steam_App".into(), "org.mozilla.firefox".into())]);
    let overrides = class_overrides(&raw);
    assert_eq!(overrides, [("steam_app".to_owned(), "org.mozilla.firefox".to_owned())]);
    assert_eq!(
        icon_candidates(&db, &overrides, "firefox"),
        ["fox-icon", "firefox", "firefox", "application-x-executable"]
    );
    assert_eq!(
        icon_candidates(&db, &overrides, "Steam_App"),
        ["fox-icon", "org.mozilla.firefox", "Steam_App", "steam_app", "application-x-executable"]
    );
}

#[test]
fn icon_kinds_by_file_name() {
    assert_eq!(icon_kind("/a/b/app.svg"), IconKind::Svg { symbolic: false });
    assert_eq!(icon_kind("/a/audio-volume-high-symbolic.svg"), IconKind::Svg { symbolic: true });
    assert_eq!(icon_kind("/a/app.png"), IconKind::Raster);
    assert_eq!(icon_kind("/a/.svg"), IconKind::Raster);
}

#[test]
fn gtk_settings_theme() {
    assert_eq!(
        gtk_icon_theme("[Settings]\ngtk-theme-name=Adwaita\n gtk-icon-theme-name = Papirus \n").as_deref(),
        Some("Papirus")
    );
    assert_eq!(gtk_icon_theme("[Settings]\n"), None);
}
