//! Command-mode detection and the ranking pipeline, run against the real
//! fuzzy matcher.

use skoll::config::Config;
use skoll::entry::{AppDef, Entry, LaunchSpec, NiriWindow, NiriWorkspace};
use skoll::history::History;
use skoll::launcher::Launcher;
use skoll::ranking::compare;

fn app(name: &str, id: &str) -> AppDef {
    AppDef {
        name: name.to_string(),
        keywords: String::new(),
        exec_command: name.to_lowercase(),
        terminal_required: false,
        id: id.to_string(),
    }
}

fn plain_config() -> Config {
    Config {
        command_prefix: ":".to_string(),
        term_command: None,
        cgroups: false,
        prune_history: false,
    }
}

fn launcher_with(apps: Vec<AppDef>) -> Launcher {
    Launcher::new(&apps, &Vec::new(), &Vec::new(), History::new(), plain_config())
}

#[test]
fn command_mode_prefix_detection() {
    assert!(skoll::command::is_cmd(":ls -la", ":"));
    assert!(!skoll::command::is_cmd("ls -la", ":"));
    assert!(!skoll::command::is_cmd("fire", ":"));
    // An empty prefix disables command mode entirely.
    assert!(!skoll::command::is_cmd(":ls", ""));
    assert!(!skoll::command::is_cmd("", ":"));
}

#[test]
fn command_mode_hides_every_entry() {
    let mut l = launcher_with(vec![app("Firefox", "firefox.desktop"), app("Files", "files.desktop")]);
    l.on_query_changed(":anything at all");
    for e in &l.entries {
        assert!(e.hidden);
    }
    // Even a command-mode query that would match every name hides all.
    l.on_query_changed(":fi");
    for e in &l.entries {
        assert!(e.hidden);
    }
}

#[test]
fn fuzzy_query_filters_and_scores() {
    // With entries "Firefox" and "Files" and the query "fire", only
    // "Firefox" stays visible, with a positive score.
    let mut l = launcher_with(vec![app("Firefox", "firefox.desktop"), app("Files", "files.desktop")]);
    l.on_query_changed("fire");
    let firefox = &l.entries[0];
    let files = &l.entries[1];
    assert!(!firefox.hidden);
    assert!(firefox.match_score > 0);
    assert!(files.hidden);
}

#[test]
fn empty_query_shows_everything() {
    let mut l = launcher_with(vec![app("Firefox", "firefox.desktop"), app("Files", "files.desktop")]);
    l.on_query_changed("");
    assert!(l.entries.iter().all(|e| !e.hidden));
}

#[test]
fn ranking_is_idempotent() {
    let mut l = launcher_with(vec![app("Firefox", "firefox.desktop"), app("Files", "files.desktop")]);
    l.on_query_changed("fire");
    let first: Vec<(bool, i64)> = l.entries.iter().map(|e| (e.hidden, e.match_score)).collect();
    l.on_query_changed("fire");
    let second: Vec<(bool, i64)> = l.entries.iter().map(|e| (e.hidden, e.match_score)).collect();
    assert_eq!(first, second);
}

fn bare_entry(name: &str, display: bool, score: i64, history: u64) -> Entry {
    Entry {
        identity: 0,
        display_name: name.to_string(),
        search_keywords: String::new(),
        launch_spec: LaunchSpec::Window {
            custom_command: "true".to_string(),
        },
        display_flag: display,
        hidden: false,
        match_score: score,
        history_weight: history,
    }
}

#[test]
fn history_breaks_score_ties() {
    // Identical score and display class: the higher usage count wins.
    let often = bare_entry("b-often", false, 40, 9);
    let rarely = bare_entry("a-rarely", false, 40, 2);
    assert_eq!(compare(&often, &rarely), -1);
    assert_eq!(compare(&rarely, &often), 1);
}

#[test]
fn score_outranks_history() {
    // A strong match beats a frequently used weak match.
    let strong = bare_entry("strong", false, 80, 0);
    let weak_but_used = bare_entry("weak", false, 10, 1000);
    assert_eq!(compare(&strong, &weak_but_used), -1);
}

#[test]
fn displayed_entries_sort_first() {
    let window = bare_entry("w", true, 0, 0);
    let application = bare_entry("a", false, 99, 99);
    assert_eq!(compare(&window, &application), -1);
    assert_eq!(compare(&application, &window), 1);
}

#[test]
fn names_break_remaining_ties() {
    let alpha = bare_entry("alpha", false, 5, 5);
    let beta = bare_entry("beta", false, 5, 5);
    let alpha_again = bare_entry("alpha", false, 5, 5);
    assert_eq!(compare(&alpha, &beta), -1);
    assert_eq!(compare(&beta, &alpha), 1);
    assert_eq!(compare(&alpha, &alpha_again), 0);
}

#[test]
fn top_row_is_a_best_visible_entry() {
    let window = bare_entry("w", true, 0, 0);
    let strong = bare_entry("strong", false, 80, 0);
    let weak = bare_entry("weak", false, 10, 1000);
    let entries = vec![strong, window, weak];
    assert_eq!(skoll::ranking::top_index(&entries), Some(1));
    let mut hidden_all = entries;
    for e in &mut hidden_all {
        e.hidden = true;
    }
    assert_eq!(skoll::ranking::top_index(&hidden_all), None);
}

#[test]
fn window_and_application_rows_coexist() {
    // A running window and its also-installed application both appear,
    // as separate and independently launchable rows.
    let apps = vec![app("Firefox", "firefox.desktop")];
    let windows = vec![NiriWindow {
        id: 7,
        title: Some("Firefox - home".to_string()),
        app_id: "firefox".to_string(),
        workspace_id: 1,
        is_focused: true,
    }];
    let workspaces = vec![NiriWorkspace {
        id: 1,
        idx: 1,
        name: Some("web".to_string()),
        output: "eDP-1".to_string(),
        is_active: true,
        is_focused: true,
        active_window_id: Some(7),
    }];
    let l = Launcher::new(&apps, &windows, &workspaces, History::new(), plain_config());
    assert_eq!(l.entries.len(), 2);
    let app_row = &l.entries[0];
    let win_row = &l.entries[1];
    assert!(!app_row.display_flag);
    assert!(win_row.display_flag);
    assert_eq!(win_row.display_name, "Firefox - home");
    assert_eq!(win_row.search_keywords, "firefox web");
    assert_ne!(app_row.identity, win_row.identity);
    match &win_row.launch_spec {
        LaunchSpec::Window { custom_command } => {
            assert_eq!(custom_command, "niri msg action focus-window --id 7");
        }
        LaunchSpec::App(_) => panic!("window row carries an application spec"),
    }
    match &app_row.launch_spec {
        LaunchSpec::App(s) => assert_eq!(s.id, "firefox.desktop"),
        LaunchSpec::Window { .. } => panic!("application row carries a window spec"),
    }
}

#[test]
fn untitled_window_shows_its_app_id() {
    let windows = vec![NiriWindow {
        id: 3,
        title: None,
        app_id: "kitty".to_string(),
        workspace_id: 9,
        is_focused: false,
    }];
    let l = Launcher::new(&Vec::new(), &windows, &Vec::new(), History::new(), plain_config());
    assert_eq!(l.entries[0].display_name, "kitty");
    assert_eq!(l.entries[0].search_keywords, "kitty");
}

#[test]
fn history_seeds_initial_order() {
    let mut h = History::new();
    h.record_launch("files.desktop");
    h.record_launch("files.desktop");
    let l = launcher_with_history(
        vec![app("Firefox", "firefox.desktop"), app("Files", "files.desktop")],
        h,
    );
    // Before any keystroke, the more-used application sorts first.
    assert_eq!(compare(&l.entries[1], &l.entries[0]), -1);
}

fn launcher_with_history(apps: Vec<AppDef>, h: History) -> Launcher {
    Launcher::new(&apps, &Vec::new(), &Vec::new(), h, plain_config())
}

#[test]
fn ranked_rows_orders_all_visible_entries() {
    let mut hidden = bare_entry("hidden", false, 999, 999);
    hidden.hidden = true;
    let entries = vec![
        bare_entry("weak", false, 10, 1000),
        hidden,
        bare_entry("w", true, 0, 0),
        bare_entry("strong", false, 80, 0),
    ];
    assert_eq!(skoll::ranking::ranked_rows(&entries), vec![2, 3, 0]);
}
