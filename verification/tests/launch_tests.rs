//! The launch planner: command-mode activation, placeholder stripping,
//! terminal wrapping, cgroup scoping, and the failure taxonomy, run
//! against the real shell-word splitter.

use skoll::config::Config;
use skoll::entry::{AppDef, AppLaunchSpec};
use skoll::history::History;
use skoll::launch::{plan_app_launch, plan_command, unit_base_name, LaunchError};
use skoll::launcher::Launcher;

fn cfg(prefix: &str, term: Option<&str>, cgroups: bool) -> Config {
    Config {
        command_prefix: prefix.to_string(),
        term_command: term.map(|t| t.to_string()),
        cgroups,
        prune_history: false,
    }
}

fn app_spec(exec: &str, terminal: bool) -> AppLaunchSpec {
    AppLaunchSpec {
        exec_template: exec.to_string(),
        id: "demo.desktop".to_string(),
        terminal_required: terminal,
    }
}

#[test]
fn command_mode_activation_spawns_parsed_command() {
    // Under the prefix ":", the query ":ls -la" is a command: the plan
    // spawns `ls` with argument `-la`, and no history id is carried.
    assert!(skoll::command::is_cmd(":ls -la", ":"));
    let l = Launcher::new(
        &Vec::new(),
        &Vec::new(),
        &Vec::new(),
        History::new(),
        cfg(":", None, false),
    );
    let before = l.history.serialize();
    let plan = l
        .on_activate(":ls -la", None, &None, "", 1)
        .expect("command mode always plans")
        .expect("a plain command parses");
    assert_eq!(plan.argv, vec!["ls".to_string(), "-la".to_string()]);
    assert!(plan.history_id.is_none());
    assert_eq!(l.history.serialize(), before);
}

#[test]
fn command_mode_honors_shell_quoting() {
    let out = plan_command(":echo 'a b'  c", ":").expect("well-quoted command parses");
    assert_eq!(out, vec!["echo".to_string(), "a b".to_string(), "c".to_string()]);
}

#[test]
fn malformed_quoting_is_a_parse_error() {
    assert_eq!(plan_command(":echo 'oops", ":"), Err(LaunchError::ParseError));
    assert_eq!(plan_command(":   ", ":"), Err(LaunchError::ParseError));
}

#[test]
fn placeholders_are_stripped() {
    let r = plan_app_launch(
        &app_spec("firefox %U", false),
        &cfg(":", None, false),
        &None,
        "",
        1,
    );
    assert_eq!(r, Ok(vec!["firefox".to_string()]));
    let r2 = plan_app_launch(
        &app_spec("viewer %F %u %f --flag", false),
        &cfg(":", None, false),
        &None,
        "",
        1,
    );
    assert_eq!(r2, Ok(vec!["viewer".to_string(), "--flag".to_string()]));
}

#[test]
fn empty_command_is_a_parse_error() {
    let r = plan_app_launch(&app_spec("%U", false), &cfg(":", None, false), &None, "", 1);
    assert_eq!(r, Err(LaunchError::ParseError));
}

#[test]
fn terminal_template_wraps_the_command() {
    let r = plan_app_launch(
        &app_spec("htop", true),
        &cfg(":", Some("alacritty -e {}"), false),
        &None,
        "",
        1,
    );
    assert_eq!(
        r,
        Ok(vec!["alacritty".to_string(), "-e".to_string(), "htop".to_string()])
    );
}

#[test]
fn environment_terminal_is_the_fallback() {
    let r = plan_app_launch(
        &app_spec("htop --tree", true),
        &cfg(":", None, false),
        &Some("foot".to_string()),
        "",
        1,
    );
    assert_eq!(
        r,
        Ok(vec![
            "foot".to_string(),
            "-e".to_string(),
            "htop".to_string(),
            "--tree".to_string()
        ])
    );
}

#[test]
fn no_terminal_aborts_the_launch() {
    // A terminal-required application, no configured terminal template,
    // no terminal in the environment: the launch fails.
    let r = plan_app_launch(&app_spec("htop", true), &cfg(":", None, false), &None, "", 1);
    assert_eq!(r, Err(LaunchError::NoTerminalAvailable));
    // A non-terminal application with the same configuration launches.
    let ok = plan_app_launch(&app_spec("htop", false), &cfg(":", None, false), &None, "", 1);
    assert!(ok.is_ok());
}

#[test]
fn cgroup_launches_are_unit_scoped() {
    let r = plan_app_launch(
        &app_spec("firefox %U", false),
        &cfg(":", None, true),
        &None,
        "firefox",
        4242,
    );
    assert_eq!(
        r,
        Ok(vec![
            "systemd-run".to_string(),
            "--scope".to_string(),
            "--user".to_string(),
            "--unit=app-skoll-firefox-4242".to_string(),
            "firefox".to_string(),
        ])
    );
}

#[test]
fn unit_base_name_strips_the_extension() {
    assert_eq!(unit_base_name("firefox.desktop"), "firefox");
    assert_eq!(unit_base_name("org.gnome.Nautilus.desktop"), "org.gnome.Nautilus");
    assert_eq!(unit_base_name("bash"), "bash");
    assert_eq!(unit_base_name(".desktop"), "");
    assert_eq!(unit_base_name("desk"), "desk");
}

#[test]
fn activation_plans_through_the_launcher() {
    let apps = vec![AppDef {
        name: "Firefox".to_string(),
        keywords: String::new(),
        exec_command: "firefox %U".to_string(),
        terminal_required: false,
        id: "firefox.desktop".to_string(),
    }];
    let mut l = Launcher::new(
        &apps,
        &Vec::new(),
        &Vec::new(),
        History::new(),
        cfg(":", None, false),
    );
    l.on_query_changed("fire");
    let ident = l.entries[0].identity;
    let plan = l
        .on_activate("fire", Some(ident), &None, "", 1)
        .expect("a visible selection plans")
        .expect("the command parses");
    assert_eq!(plan.argv, vec!["firefox".to_string()]);
    assert_eq!(plan.history_id.as_deref(), Some("firefox.desktop"));
    // Recording the launch updates the history by exactly one.
    l.on_launched("firefox.desktop");
    assert_eq!(l.history.lookup("firefox.desktop"), 1);
}

#[test]
fn hidden_selections_plan_nothing() {
    let apps = vec![AppDef {
        name: "Firefox".to_string(),
        keywords: String::new(),
        exec_command: "firefox".to_string(),
        terminal_required: false,
        id: "firefox.desktop".to_string(),
    }];
    let mut l = Launcher::new(
        &apps,
        &Vec::new(),
        &Vec::new(),
        History::new(),
        cfg(":", None, false),
    );
    l.on_query_changed("zzzz");
    assert!(l.entries[0].hidden);
    let ident = l.entries[0].identity;
    assert!(l.on_activate("zzzz", Some(ident), &None, "", 1).is_none());
    assert!(l.on_activate("zzzz", None, &None, "", 1).is_none());
    assert!(l.on_activate("zzzz", Some(999), &None, "", 1).is_none());
}

#[test]
fn error_messages_name_the_failure() {
    assert_eq!(LaunchError::SourceUnavailable.message(), "window source unavailable");
    assert_eq!(LaunchError::ParseError.message(), "cannot parse command line");
    assert_eq!(LaunchError::NoTerminalAvailable.message(), "no usable terminal");
    assert_eq!(LaunchError::SpawnFailed.message(), "failed to spawn process");
    assert_eq!(LaunchError::PersistenceFailed.message(), "failed to save history");
}
