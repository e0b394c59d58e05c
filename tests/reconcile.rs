use swayautonames::config::SwayNameManagerConfig;
use swayautonames::flat::{flat_inventory, Client, FlatWorkspace};
use swayautonames::manager::HyprlandManager;
use swayautonames::naming::{label, Window, Workspace};
use swayautonames::reconcile::{plan_renames, RenameCommand};

fn workspace(id: i32, apps: &[&str], name: &str) -> Workspace {
    Workspace {
        id,
        windows: apps.iter().map(|a| Window { app_id: a.to_string(), fullscreen: false }).collect(),
        name: name.to_string(),
    }
}

fn globe_config() -> SwayNameManagerConfig {
    let mut cfg = SwayNameManagerConfig::new();
    cfg.set_symbol("firefox".to_string(), "🌐".to_string());
    cfg
}

#[test]
fn end_to_end_label_and_rename() {
    let cfg = globe_config();
    let ws = workspace(1, &["kitty", "firefox"], "1");
    assert_eq!(label(&ws, &cfg), "1: 🌐|kitty");

    let cmds = plan_renames(&vec![ws], &cfg);
    assert_eq!(cmds.len(), 1);
    assert_eq!(cmds[0].id, 1);
    assert_eq!(cmds[0].old_name, "1");
    assert_eq!(cmds[0].new_name, "1: 🌐|kitty");

    let current = workspace(1, &["kitty", "firefox"], "1: 🌐|kitty");
    assert!(plan_renames(&vec![current], &cfg).is_empty());
}

#[test]
fn second_pass_issues_nothing() {
    let cfg = globe_config();
    let mut inv = vec![
        workspace(1, &["kitty", "firefox"], "1"),
        workspace(2, &[], "2"),
        workspace(3, &["mpv"], "old"),
    ];
    let first = plan_renames(&inv, &cfg);
    assert_eq!(first.len(), 2);
    for cmd in &first {
        for ws in inv.iter_mut() {
            if ws.id == cmd.id {
                ws.name = cmd.new_name.clone();
            }
        }
    }
    assert!(plan_renames(&inv, &cfg).is_empty());
}

#[test]
fn renames_only_changed_workspaces_in_order() {
    let cfg = SwayNameManagerConfig::new();
    let inv = vec![
        workspace(4, &["a"], "4"),
        workspace(5, &[], "5"),
        workspace(6, &["b", "c"], ""),
    ];
    let cmds = plan_renames(&inv, &cfg);
    let got: Vec<(i32, String)> = cmds.iter().map(|c| (c.id, c.new_name.clone())).collect();
    assert_eq!(got, vec![(4, "4: a".to_string()), (6, "6: c|b".to_string())]);
}

#[test]
fn command_text_quotes_both_names() {
    let cmd = RenameCommand {
        id: 1,
        old_name: "1".to_string(),
        new_name: "1: 🌐|kitty".to_string(),
    };
    assert_eq!(cmd.command_text(), "rename workspace \"1\" to \"1: 🌐|kitty\"");
}

fn client(class: &str, workspace_id: i32, fullscreen: bool) -> Client {
    Client { class: class.to_string(), workspace_id, fullscreen }
}

#[test]
fn flat_listing_grouped_by_workspace() {
    let wss = vec![
        FlatWorkspace { id: 2, name: "2".to_string() },
        FlatWorkspace { id: 1, name: "1".to_string() },
        FlatWorkspace { id: 7, name: "7".to_string() },
    ];
    let clients = vec![client("kitty", 1, false), client("mpv", 2, true), client("firefox", 1, false)];
    let inv = flat_inventory(&wss, &clients);
    let ids: Vec<i32> = inv.iter().map(|w| w.id).collect();
    assert_eq!(ids, vec![2, 1, 7]);
    let apps: Vec<Vec<&str>> =
        inv.iter().map(|w| w.windows.iter().map(|c| c.app_id.as_str()).collect()).collect();
    assert_eq!(apps, vec![vec!["mpv"], vec!["kitty", "firefox"], vec![]]);
    assert!(inv[0].windows[0].fullscreen);
}

#[test]
fn flat_manager_renames_changed_workspaces() {
    let mut cfg = globe_config();
    cfg.set_fullscreen_color(Some("red".to_string()));
    let manager = HyprlandManager::new(cfg);
    let wss = vec![
        FlatWorkspace { id: 1, name: "1".to_string() },
        FlatWorkspace { id: 2, name: "2: <span foreground=\"red\">mpv</span>".to_string() },
    ];
    let clients = vec![client("kitty", 1, false), client("firefox", 1, false), client("mpv", 2, true)];
    let cmds = manager.update(&wss, &clients);
    assert_eq!(cmds.len(), 1);
    assert_eq!(cmds[0].id, 1);
    assert_eq!(cmds[0].new_name, "1: 🌐|kitty");
}
