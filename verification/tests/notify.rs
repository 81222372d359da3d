use crop_hypr::config::Notifications;
use crop_hypr::notify::{
    action_command, action_command_from_words, error_notification, success_notification,
    ActionCommand,
};

fn run_parts(c: ActionCommand) -> (String, Vec<String>) {
    match c {
        ActionCommand::Run { program, args } => (program, args),
        other => panic!("unexpected: {:?}", other),
    }
}

#[test]
fn success_text_fills_in_the_path() {
    let n = Notifications::default();
    let s = success_notification(&n, "/tmp/shot.png").unwrap();
    assert_eq!(s.text.summary, "Screenshot saved");
    assert_eq!(s.text.body, "/tmp/shot.png");
    assert!(s.offer_action);
}

#[test]
fn success_with_custom_templates() {
    let mut n = Notifications::default();
    n.success_summary = "Saved {path}!".to_string();
    n.success_body = "{path} and {path}".to_string();
    n.success_timeout = 0;
    let s = success_notification(&n, "a.png").unwrap();
    assert_eq!(s.text.summary, "Saved a.png!");
    assert_eq!(s.text.body, "a.png and a.png");
    assert!(!s.offer_action);
}

#[test]
fn error_text_fills_in_the_message() {
    let mut n = Notifications::default();
    n.error_body = "Reason: {error}".to_string();
    let e = error_notification(&n, "slurp failed").unwrap();
    assert_eq!(e.summary, "Screenshot failed");
    assert_eq!(e.body, "Reason: slurp failed");
}

#[test]
fn disabled_notifications_show_nothing() {
    let mut n = Notifications::default();
    n.enabled = false;
    assert!(success_notification(&n, "a.png").is_none());
    assert!(error_notification(&n, "x").is_none());
}

#[test]
fn action_appends_the_path() {
    let (p, a) = run_parts(action_command("xdg-open", "/tmp/a b.png"));
    assert_eq!(p, "xdg-open");
    assert_eq!(a, vec!["/tmp/a b.png".to_string()]);
}

#[test]
fn action_fills_in_the_placeholder() {
    let (p, a) = run_parts(action_command("swappy -f '{path}' --quiet", "/tmp/s.png"));
    assert_eq!(p, "swappy");
    assert_eq!(a, vec!["-f".to_string(), "/tmp/s.png".to_string(), "--quiet".to_string()]);
}

#[test]
fn action_with_open_quote_is_unparsable() {
    assert!(matches!(action_command("gimp 'oops", "/a.png"), ActionCommand::Unparsable));
}

#[test]
fn empty_action_runs_nothing() {
    assert!(matches!(action_command("   ", "/a.png"), ActionCommand::Empty));
    assert!(matches!(action_command_from_words(&Vec::new(), "/a.png"), ActionCommand::Empty));
}

#[test]
fn action_from_words() {
    let words = vec!["viewer".to_string(), "--file={path}".to_string()];
    let (p, a) = run_parts(action_command_from_words(&words, "x.png"));
    assert_eq!(p, "viewer");
    assert_eq!(a, vec!["--file=x.png".to_string()]);
}
