use swayautonames::config::SwayNameManagerConfig;
use swayautonames::naming::{label, push_decimal, Window, Workspace};

fn window(app: &str) -> Window {
    Window { app_id: app.to_string(), fullscreen: false }
}

fn workspace(id: i32, apps: &[&str], name: &str) -> Workspace {
    Workspace { id, windows: apps.iter().map(|a| window(a)).collect(), name: name.to_string() }
}

#[test]
fn reversed_order_without_mappings() {
    let cfg = SwayNameManagerConfig::new();
    let ws = workspace(3, &["firefox", "kitty"], "");
    assert_eq!(label(&ws, &cfg), "3: kitty|firefox");
}

#[test]
fn empty_workspace_is_bare_number() {
    let cfg = SwayNameManagerConfig::new();
    let ws = workspace(5, &[], "");
    assert_eq!(label(&ws, &cfg), "5");
}

#[test]
fn mapped_symbol_replaces_identifier() {
    let mut cfg = SwayNameManagerConfig::new();
    cfg.set_symbol("firefox".to_string(), "🌐".to_string());
    let ws = workspace(1, &["kitty", "firefox"], "");
    assert_eq!(label(&ws, &cfg), "1: 🌐|kitty");
}

#[test]
fn unmapped_identifier_passes_through() {
    let mut cfg = SwayNameManagerConfig::new();
    cfg.set_symbol("firefox".to_string(), "F".to_string());
    assert_eq!(cfg.get_symbol("org.gnome.Nautilus"), "org.gnome.Nautilus");
    assert_eq!(cfg.get_symbol("firefox"), "F");
    assert_eq!(cfg.get_symbol(""), "");
}

#[test]
fn set_symbol_replaces_earlier_symbol() {
    let mut cfg = SwayNameManagerConfig::new();
    cfg.set_symbol("kitty".to_string(), "K".to_string());
    cfg.set_symbol("firefox".to_string(), "F".to_string());
    cfg.set_symbol("kitty".to_string(), "T".to_string());
    assert_eq!(cfg.app_symbols.len(), 2);
    assert_eq!(cfg.get_symbol("kitty"), "T");
    assert_eq!(cfg.get_symbol("firefox"), "F");
}

#[test]
fn label_is_deterministic() {
    let mut cfg = SwayNameManagerConfig::new();
    cfg.set_symbol("kitty".to_string(), "K".to_string());
    let a = workspace(2, &["kitty", "mpv", "kitty"], "old");
    let b = workspace(2, &["kitty", "mpv", "kitty"], "2: something else");
    let first = label(&a, &cfg);
    let _other = label(&workspace(9, &["x"], ""), &cfg);
    assert_eq!(first, "2: K|mpv|K");
    assert_eq!(label(&a, &cfg), first);
    assert_eq!(label(&b, &cfg), first);
}

#[test]
fn fullscreen_window_wrapped_in_color_span() {
    let mut cfg = SwayNameManagerConfig::new();
    cfg.set_symbol("mpv".to_string(), "M".to_string());
    cfg.set_fullscreen_color(Some("#ff0000".to_string()));
    let ws = Workspace {
        id: 4,
        windows: vec![Window { app_id: "mpv".to_string(), fullscreen: true }, window("kitty")],
        name: String::new(),
    };
    assert_eq!(label(&ws, &cfg), "4: kitty|<span foreground=\"#ff0000\">M</span>");
}

#[test]
fn fullscreen_without_color_is_plain() {
    let cfg = SwayNameManagerConfig::new();
    let ws = Workspace {
        id: 4,
        windows: vec![Window { app_id: "mpv".to_string(), fullscreen: true }],
        name: String::new(),
    };
    assert_eq!(label(&ws, &cfg), "4: mpv");
}

#[test]
fn decimal_text_of_extremes() {
    let mut s = String::from("x");
    push_decimal(&mut s, 0);
    assert_eq!(s, "x0");
    let mut s = String::new();
    push_decimal(&mut s, -1);
    assert_eq!(s, "-1");
    let mut s = String::new();
    push_decimal(&mut s, i32::MAX);
    assert_eq!(s, "2147483647");
    let mut s = String::new();
    push_decimal(&mut s, i32::MIN);
    assert_eq!(s, "-2147483648");
    let mut s = String::new();
    push_decimal(&mut s, 10);
    assert_eq!(s, "10");
}

#[test]
fn negative_workspace_number_label() {
    let cfg = SwayNameManagerConfig::new();
    let ws = workspace(-1, &["kitty"], "");
    assert_eq!(label(&ws, &cfg), "-1: kitty");
}
