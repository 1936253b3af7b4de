use aria_shell::theme::{parse_index, DirKind, Ext, IconTheme, ThemeChain};

const INDEX: &str = "[Icon Theme]\nName=T\nInherits=parent\n\
    Directories=16x16/apps,32x32/apps,scalable/apps,48x48@2x/apps\n\
    ScaledDirectories=48x48@2x/apps\n\n\
    [16x16/apps]\nSize=16\nContext=Applications\nType=Fixed\n\n\
    [32x32/apps]\nSize=32\nType=Threshold\nThreshold=4\n\n\
    [scalable/apps]\nSize=48\nType=Scalable\nMinSize=8\nMaxSize=256\n\n\
    [48x48@2x/apps]\nSize=48\nScale=2\nType=Fixed\n";

#[test]
fn index_parsing() {
    let (inherits, dirs) = parse_index(INDEX);
    assert_eq!(inherits, ["parent"]);
    assert_eq!(dirs.len(), 4, "a dir listed twice is parsed once");
    assert_eq!(dirs[0].kind, DirKind::Fixed);
    assert_eq!(dirs[1].kind, DirKind::Threshold(4));
    assert_eq!(dirs[2].kind, DirKind::Scalable { min: 8, max: 256 });
    assert_eq!(dirs[3].scale, 2);
    assert!(dirs[0].matches(16) && !dirs[0].matches(17));
    assert!(dirs[1].matches(28) && !dirs[1].matches(27));
    assert!(dirs[2].matches(200) && !dirs[2].matches(300));
    assert_eq!(dirs[0].distance(24), 8);
    assert_eq!(dirs[1].distance(24), 4);
    assert_eq!(dirs[2].distance(300), 44);
}

#[test]
fn extensions_of_icon_files() {
    assert_eq!(Ext::of("a.svg"), Some(("a".to_owned(), Ext::Svg)));
    assert_eq!(Ext::of("a.b.png"), Some(("a.b".to_owned(), Ext::Png)));
    assert_eq!(Ext::of("a.xpm"), None);
    assert_eq!(Ext::of("noext"), None);
}

#[test]
fn theme_lookup_prefers_exact_svg_then_closest() {
    let mut t = IconTheme::new("T", INDEX, vec!["/icons/T".into()]);
    t.add_file(0, 0, "both.png");
    t.add_file(0, 2, "both.svg");
    t.add_file(0, 0, "small.png");
    t.add_file(0, 3, "hidpi.png");
    t.add_file(0, 0, "weird.xpm");
    assert_eq!(t.icon_count(), 3);
    assert_eq!(t.lookup("both", 16).as_deref(), Some("/icons/T/scalable/apps/both.svg"));
    assert_eq!(t.lookup("small", 16).as_deref(), Some("/icons/T/16x16/apps/small.png"));
    assert_eq!(t.lookup("small", 64).as_deref(), Some("/icons/T/16x16/apps/small.png"));
    assert_eq!(t.lookup("hidpi", 48), None);
    assert_eq!(t.lookup("weird", 16), None);
    assert_eq!(t.lookup("nope", 16), None);
}

#[test]
fn chain_tries_parents_then_hicolor_once_each() {
    let mut chain = ThemeChain::new("T");
    assert_eq!(chain.next().as_deref(), Some("T"));
    chain.loaded(Some(IconTheme::new("T", INDEX, vec!["/i/T".into()])));
    assert_eq!(chain.next().as_deref(), Some("parent"));
    chain.loaded(Some(IconTheme::new(
        "parent",
        "[Icon Theme]\nDirectories=16x16/apps\n[16x16/apps]\nSize=16\nType=Fixed\n",
        vec!["/i/parent".into()],
    )));
    assert_eq!(chain.next().as_deref(), Some("hicolor"));
    chain.loaded(None);
    assert_eq!(chain.next(), None);
    let index = chain.finish(vec!["/pixmaps".into()]);
    assert_eq!(index.theme_names(), ["T", "parent"]);
    assert_eq!(index.pixmap_candidates("legacy.png"), ["/pixmaps/legacy.svg", "/pixmaps/legacy.png"]);
}

#[test]
fn a_name_is_handed_out_once() {
    let mut chain = ThemeChain::new("hicolor");
    assert_eq!(chain.next().as_deref(), Some("hicolor"));
    chain.loaded(Some(IconTheme::new("hicolor", "[Icon Theme]\nInherits=hicolor\n", Vec::new())));
    // Its own parent is skipped, and hicolor was tried already.
    assert_eq!(chain.next(), None);
}

#[test]
fn index_theme_lookup_strips_the_extension() {
    let mut t = IconTheme::new("T", INDEX, vec!["/icons/T".into()]);
    t.add_file(0, 1, "app.png");
    let mut chain = ThemeChain::new("T");
    let _ = chain.next();
    chain.loaded(Some(t));
    let index = chain.finish(Vec::new());
    assert_eq!(index.theme_lookup("app.png", 32).as_deref(), Some("/icons/T/32x32/apps/app.png"));
    assert_eq!(index.icon_count(), 1);
    assert_eq!(index.watch_candidates().len(), 5);
}

#[test]
fn png_svg_and_bare_names_look_up_alike() {
    let mut t = IconTheme::new("T", INDEX, vec!["/icons/T".into()]);
    t.add_file(0, 1, "app.png");
    let mut chain = ThemeChain::new("T");
    let _ = chain.next();
    chain.loaded(Some(t));
    let index = chain.finish(vec!["/pixmaps".into()]);
    let bare = index.theme_lookup("app", 32);
    assert_eq!(bare.as_deref(), Some("/icons/T/32x32/apps/app.png"));
    assert_eq!(index.theme_lookup("app.png", 32), bare);
    assert_eq!(index.theme_lookup("app.svg", 32), bare);
    let files = index.pixmap_candidates("legacy");
    assert_eq!(files, ["/pixmaps/legacy.svg", "/pixmaps/legacy.png"]);
    assert_eq!(index.pixmap_candidates("legacy.svg"), files);
    assert_eq!(index.pixmap_candidates("legacy.png"), files);
    // Another extension is part of the name.
    assert_eq!(index.pixmap_candidates("legacy.xpm"), ["/pixmaps/legacy.xpm.svg", "/pixmaps/legacy.xpm.png"]);
}
