use tms::cli::{Cli, SubCommandGiven};
use tms::configs::Config;
use tms::tmux::{derive_session_name, SwitchPlan, Tmux};

fn words(args: &Vec<String>) -> Vec<&str> {
    args.iter().map(|a| a.as_str()).collect()
}

#[test]
fn session_name_replaces_every_dot() {
    assert_eq!(derive_session_name("my.repo"), "my_repo");
    assert_eq!(derive_session_name("a.b.c"), "a_b_c");
    assert_eq!(derive_session_name("plain"), "plain");
    assert_eq!(derive_session_name(""), "");
}

#[test]
fn session_exists_matches_quoted_lines() {
    let t = Tmux::new("default".to_string(), false);
    let listing = "'proj'\n'other'\n";
    assert!(t.session_exists("proj", listing));
    assert!(t.session_exists("other", listing));
    assert!(!t.session_exists("pro", listing));
    assert!(!t.session_exists("missing", listing));
    assert!(!t.session_exists("proj", ""));
}

#[test]
fn session_exists_accepts_carriage_returns() {
    let t = Tmux::new("default".to_string(), false);
    assert!(t.session_exists("proj", "'proj'\r\n'other'\r\n"));
    assert!(!t.session_exists("projother", "'proj'\r\n'other'\r\n"));
}

#[test]
fn session_name_of_only_dots() {
    assert_eq!(derive_session_name("..."), "___");
}

#[test]
fn session_exists_needs_exact_cleaned_match() {
    let t = Tmux::new("default".to_string(), false);
    // No trailing newline on the last line; quotes stripped before comparing.
    assert!(t.session_exists("work", "'scratch'\n'work'"));
    assert!(!t.session_exists("'work'", "'scratch'\n'work'"));
}

#[test]
fn list_sessions_command_words() {
    let t = Tmux::new("default".to_string(), false);
    let c = t.list_sessions("'#S'");
    assert_eq!(
        words(&c.args),
        vec!["-L", "default", "list-sessions", "-F", "'#S'"]
    );
}

#[test]
fn capture_pane_command_words() {
    let t = Tmux::new("default".to_string(), false);
    let c = t.capture_pane("%1");
    assert_eq!(
        words(&c.args),
        vec!["-L", "default", "capture-pane", "-ep", "-t", "%1"]
    );
}

#[test]
fn new_session_command_words() {
    let t = Tmux::new("default".to_string(), false);
    let c = t.new_session(Some("proj"), Some("/r/proj"));
    assert_eq!(
        words(&c.args),
        vec!["-L", "default", "new-session", "-d", "-s", "proj", "-c", "/r/proj"]
    );
    let bare = t.new_session(None, None);
    assert_eq!(words(&bare.args), vec!["-L", "default", "new-session", "-d"]);
}

#[test]
fn attach_and_switch_command_words() {
    let t = Tmux::new("dev".to_string(), true);
    let a = t.attach_session(Some("proj"), None);
    assert_eq!(words(&a.args), vec!["-L", "dev", "attach-session", "-t", "proj"]);
    let s = t.switch_client("proj");
    assert_eq!(words(&s.args), vec!["-L", "dev", "switch-client", "-t", "proj"]);
}

#[test]
fn new_session_then_attach_when_outside_multiplexer() {
    // Session `proj` does not exist and the caller is not inside a session:
    // `new-session -d -s proj -c <path>` first, then `attach-session -t proj`.
    let t = Tmux::new("default".to_string(), false);
    let plan = t.session_start_plan("proj", "/r/proj", false);
    let create = plan.create.expect("a create command");
    assert_eq!(
        words(&create.args),
        vec!["-L", "default", "new-session", "-d", "-s", "proj", "-c", "/r/proj"]
    );
    match plan.switch {
        SwitchPlan::Attach(c) => {
            assert_eq!(
                words(&c.args),
                vec!["-L", "default", "attach-session", "-t", "proj"]
            );
        }
        SwitchPlan::SwitchThenAttachOnFailure { .. } => {
            panic!("outside a session the plan must attach directly")
        }
    }
}

#[test]
fn switch_falls_back_to_attach_when_inside_multiplexer() {
    // Session `proj` exists and the caller is inside a session: switch the
    // client, and should the switch fail, attach instead.
    let t = Tmux::new("default".to_string(), true);
    let plan = t.session_start_plan("proj", "/r/proj", true);
    assert!(plan.create.is_none());
    match plan.switch {
        SwitchPlan::SwitchThenAttachOnFailure { switch, fallback } => {
            assert_eq!(
                words(&switch.args),
                vec!["-L", "default", "switch-client", "-t", "proj"]
            );
            assert_eq!(
                words(&fallback.args),
                vec!["-L", "default", "attach-session", "-t", "proj"]
            );
        }
        SwitchPlan::Attach(_) => panic!("inside a session the plan must switch first"),
    }
}

#[test]
fn no_subcommand_hands_the_configuration_back() {
    let cli = Cli { command: None };
    let tmux = Tmux::new("default".to_string(), false);
    let config = Config { search_dirs: None };
    match cli.handle_sub_commands(&tmux, config) {
        Ok(SubCommandGiven::No(c)) => assert!(c.search_dirs.is_none()),
        _ => panic!("the main flow must continue"),
    }
}
