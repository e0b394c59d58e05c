use swayautonames::config::{
    config_paths_in, get_config, get_config_paths, reload, startup_config, ConfigLoad, ReloadOutcome,
    SwayNameManagerConfig,
};

fn good() -> SwayNameManagerConfig {
    let mut cfg = SwayNameManagerConfig::new();
    cfg.set_symbol("firefox".to_string(), "🌐".to_string());
    cfg
}

#[test]
fn startup_falls_back_to_empty() {
    assert!(startup_config(ConfigLoad::OpenFailed).app_symbols.is_empty());
    assert!(startup_config(ConfigLoad::ParseFailed).app_symbols.is_empty());
    let cfg = startup_config(ConfigLoad::Loaded(good()));
    assert_eq!(cfg.get_symbol("firefox"), "🌐");
}

#[test]
fn broken_reload_keeps_previous_config() {
    let mut current = SwayNameManagerConfig::new();
    assert!(matches!(reload(&mut current, ConfigLoad::Loaded(good())), ReloadOutcome::Replaced));
    assert_eq!(current.get_symbol("firefox"), "🌐");
    assert!(matches!(
        reload(&mut current, ConfigLoad::ParseFailed),
        ReloadOutcome::KeptAfterParseError
    ));
    assert_eq!(current.get_symbol("firefox"), "🌐");
    assert_eq!(current.app_symbols.len(), 1);
    assert!(matches!(
        reload(&mut current, ConfigLoad::OpenFailed),
        ReloadOutcome::KeptAfterOpenError
    ));
    assert_eq!(current.get_symbol("firefox"), "🌐");
}

#[test]
fn reload_replaces_on_success() {
    let mut current = good();
    let mut next = SwayNameManagerConfig::new();
    next.set_symbol("kitty".to_string(), "K".to_string());
    next.set_fullscreen_color(Some("blue".to_string()));
    reload(&mut current, ConfigLoad::Loaded(next));
    assert_eq!(current.get_symbol("firefox"), "firefox");
    assert_eq!(current.get_symbol("kitty"), "K");
    assert_eq!(current.fullscreen_color.as_deref(), Some("blue"));
}

#[test]
fn search_paths_in_order() {
    let paths = config_paths_in(
        &Some("/tmp/my.yaml".to_string()),
        &Some("/home/u/.config".to_string()),
    );
    assert_eq!(
        paths,
        vec![
            "/tmp/my.yaml",
            "./config.json",
            "/home/u/.config/swayautonames/config.json",
            "/etc/swayautonames/config.json"
        ]
    );
    let paths = config_paths_in(&None, &Some("/cfg/".to_string()));
    assert_eq!(
        paths,
        vec!["./config.json", "/cfg/swayautonames/config.json", "/etc/swayautonames/config.json"]
    );
    let paths = config_paths_in(&None, &None);
    assert_eq!(
        paths,
        vec!["./config.json", "swayautonames/config.json", "/etc/swayautonames/config.json"]
    );
}

#[test]
fn search_paths_from_environment() {
    let paths = get_config_paths(&Some("given".to_string()));
    assert_eq!(paths.len(), 4);
    assert_eq!(paths[0], "given");
    assert_eq!(paths[1], "./config.json");
    assert!(paths[2].ends_with("swayautonames/config.json"));
    assert_eq!(paths[3], "/etc/swayautonames/config.json");
}

#[test]
fn explicit_path_wins_else_first_existing() {
    let cands = vec!["a".to_string(), "b".to_string(), "c".to_string()];
    assert_eq!(
        get_config(Some("x".to_string()), &cands, &vec![true, true, true]),
        Some("x".to_string())
    );
    assert_eq!(get_config(None, &cands, &vec![false, true, true]), Some("b".to_string()));
    assert_eq!(get_config(None, &cands, &vec![false, false, false]), None);
}
