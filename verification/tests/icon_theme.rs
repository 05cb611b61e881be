use zskins::icon_theme::{
    icon_stem, image_kind_for, parse_gtk_icon_theme, parse_inherits, scan_candidates,
    theme_listed, IconCache, IconFile, ImageKind,
};

fn file(name: &str, path: &str, priority: usize) -> IconFile {
    IconFile { name: name.to_string(), path: path.to_string(), priority }
}

#[test]
fn cache_keeps_lowest_priority_first_among_equals() {
    let found = vec![
        file("firefox", "/b/firefox.png", 10002),
        file("firefox", "/a/firefox.svg", 2),
        file("term", "/a/term.svg", 5),
        file("firefox", "/c/firefox.png", 2),
        file("term", "/z/term.png", usize::MAX),
    ];
    let c = IconCache::from_found(&found);
    assert_eq!(c.lookup("firefox"), Some("/a/firefox.svg"));
    assert_eq!(c.lookup("term"), Some("/a/term.svg"));
    assert_eq!(c.lookup("missing"), None);
    assert_eq!(c.len(), 2);
    assert!(!c.is_empty());
    let empty = IconCache::from_found(&Vec::new());
    assert!(empty.is_empty());
    assert_eq!(empty.len(), 0);
}

#[test]
fn resolve_icon_path_absolute_or_cached() {
    let c = IconCache::from_found(&vec![file("kitty", "/usr/share/icons/hicolor/48x48/apps/kitty.png", 1)]);
    assert_eq!(c.resolve_icon_path("/opt/app/icon.png", true), Some("/opt/app/icon.png".to_string()));
    assert_eq!(c.resolve_icon_path("/opt/app/icon.png", false), None);
    assert_eq!(
        c.resolve_icon_path("kitty", false),
        Some("/usr/share/icons/hicolor/48x48/apps/kitty.png".to_string())
    );
    assert_eq!(c.resolve_icon_path("nope", true), None);
}

#[test]
fn icon_stem_accepts_icon_extensions_in_any_case() {
    assert_eq!(icon_stem("firefox.svg"), Some("firefox".to_string()));
    assert_eq!(icon_stem("org.gnome.Nautilus.PNG"), Some("org.gnome.Nautilus".to_string()));
    assert_eq!(icon_stem("logo.SvgZ"), Some("logo".to_string()));
    assert_eq!(icon_stem("readme.txt"), None);
    assert_eq!(icon_stem("noext"), None);
    assert_eq!(icon_stem(".svg"), None);
    assert_eq!(icon_stem("a.svg.bak"), None);
}

#[test]
fn image_kind_by_exact_extension() {
    assert_eq!(image_kind_for("a.svg"), Some(ImageKind::Svg));
    assert_eq!(image_kind_for("a.svgz"), Some(ImageKind::Svg));
    assert_eq!(image_kind_for("a.png"), Some(ImageKind::Png));
    assert_eq!(image_kind_for("a.jpg"), Some(ImageKind::Jpeg));
    assert_eq!(image_kind_for("a.jpeg"), Some(ImageKind::Jpeg));
    assert_eq!(image_kind_for("a.PNG"), None);
    assert_eq!(image_kind_for("png"), None);
    assert_eq!(image_kind_for(".png"), None);
}

#[test]
fn scan_candidates_order_and_priorities() {
    let themes = vec!["Papirus".to_string(), "hicolor".to_string()];
    let cats = vec!["apps".to_string(), "status".to_string()];
    let ds = scan_candidates(&themes, &cats);
    assert_eq!(ds.len(), 2 * 2 * 16 + 1);
    assert_eq!(ds[0].priority, 0);
    assert_eq!(ds[0].path, "/usr/share/icons/Papirus/scalable/apps");
    assert_eq!(ds[1].path, "/usr/share/icons/Papirus/48x48/apps");
    assert_eq!(ds[10].path, "/usr/share/icons/Papirus/512x512/apps");
    assert_eq!(ds[10].priority, 10);
    assert_eq!(ds[11].path, "/usr/share/icons/Papirus/apps/48");
    assert_eq!(ds[11].priority, 50);
    assert_eq!(ds[15].path, "/usr/share/icons/Papirus/apps/16");
    assert_eq!(ds[15].priority, 54);
    assert_eq!(ds[16].path, "/usr/share/icons/Papirus/scalable/status");
    assert_eq!(ds[16].priority, 100);
    assert_eq!(ds[32].path, "/usr/share/icons/hicolor/scalable/apps");
    assert_eq!(ds[32].priority, 10000);
    let last = ds.last().unwrap();
    assert_eq!(last.path, "/usr/share/pixmaps");
    assert_eq!(last.priority, usize::MAX);
}

#[test]
fn scan_candidates_without_themes_is_pixmaps_only() {
    let ds = scan_candidates(&Vec::new(), &vec!["apps".to_string()]);
    assert_eq!(ds.len(), 1);
    assert_eq!(ds[0].path, "/usr/share/pixmaps");
}

#[test]
fn parse_inherits_reads_first_inherits_line() {
    let index = "[Icon Theme]\nName=Papirus\nInherits=breeze, hicolor ,,\nInherits=other\n";
    assert_eq!(parse_inherits(index), vec!["breeze", "hicolor"]);
    assert!(parse_inherits("[Icon Theme]\nName=x\n").is_empty());
    assert!(parse_inherits("Inherits=\n").is_empty());
}

#[test]
fn parse_gtk_icon_theme_takes_first_nonempty_value() {
    let ini = "[Settings]\ngtk-theme-name=Adwaita\ngtk-icon-theme-name = Papirus-Dark \n";
    assert_eq!(parse_gtk_icon_theme(ini), Some("Papirus-Dark".to_string()));
    let ini = "gtk-icon-theme-name=\ngtk-icon-theme-name=Breeze\n";
    assert_eq!(parse_gtk_icon_theme(ini), Some("Breeze".to_string()));
    assert_eq!(parse_gtk_icon_theme("[Settings]\n"), None);
}

#[test]
fn theme_listed_finds_names() {
    let themes = vec!["Adwaita".to_string(), "hicolor".to_string()];
    assert!(theme_listed(&themes, "hicolor"));
    assert!(!theme_listed(&themes, "gnome"));
}

#[test]
fn scan_candidates_priorities_increase() {
    let themes = vec!["A".to_string(), "B".to_string(), "C".to_string()];
    let cats = vec!["apps".to_string(), "status".to_string(), "devices".to_string()];
    let ds = scan_candidates(&themes, &cats);
    assert!(ds.windows(2).all(|w| w[0].priority < w[1].priority));
}
