use ssh_tui::app_state::{App, AppState, FormField};
use ssh_tui::ssh_config::HostEntry;
use ssh_tui::text::{join_lines, split_lines};

fn host(name: &str) -> HostEntry {
    HostEntry {
        host: name.to_string(),
        hostname: "example.com".to_string(),
        user: "user".to_string(),
        port: String::new(),
        identity_file: String::new(),
        proxy_command: String::new(),
        extra: Vec::new(),
    }
}

fn test_app() -> App {
    App::test_with_hosts(vec![host("a"), host("b"), host("c")])
}

#[test]
fn next_wraps() {
    let mut app = test_app();
    app.selected = 2;
    app.next();
    assert_eq!(app.selected, 0);
}

#[test]
fn previous_wraps() {
    let mut app = test_app();
    app.previous();
    assert_eq!(app.selected, 2);
}

#[test]
fn selected_host_returns_entry() {
    let app = test_app();
    assert_eq!(app.selected_host_name(), Some("a"));
}

#[test]
fn focus_navigation_cycles_fields() {
    let mut app = test_app();
    app.enter_new_mode();
    app.focus_next_field();
    assert_eq!(app.form_field, FormField::HostName);
    app.focus_previous_field();
    assert_eq!(app.form_field, FormField::Host);
}

#[test]
fn handle_form_input_updates_field() {
    let mut app = test_app();
    app.enter_new_mode();
    app.handle_form_input('s');
    app.handle_form_input('1');
    assert_eq!(app.form_entry.host, "s1");
    app.handle_form_backspace();
    assert_eq!(app.form_entry.host, "s");
}

#[test]
fn field_ring_wraps_both_ways() {
    assert_eq!(FormField::IdentityFile.next(), FormField::Host);
    assert_eq!(FormField::Host.previous(), FormField::IdentityFile);
    let mut f = FormField::Host;
    for _ in 0..5 {
        f = f.next();
    }
    assert_eq!(f, FormField::Host);
}

#[test]
fn navigation_on_empty_list_does_nothing() {
    let mut app = App::new(Vec::new());
    app.next();
    app.previous();
    assert_eq!(app.selected, 0);
    assert!(app.selected_host().is_none());
    app.enter_edit_mode();
    assert_eq!(app.state, AppState::Normal);
}

#[test]
fn input_is_ignored_outside_the_form_and_for_control_chars() {
    let mut app = test_app();
    app.handle_form_input('x');
    assert_eq!(app.form_entry.host, "");
    app.enter_new_mode();
    app.handle_form_input('\u{7}');
    assert_eq!(app.form_entry.host, "");
    app.handle_form_backspace();
    assert_eq!(app.form_entry.host, "");
}

#[test]
fn edit_mode_copies_selected_host() {
    let mut app = test_app();
    app.next();
    app.enter_edit_mode();
    assert_eq!(app.state, AppState::Edit);
    assert_eq!(app.form_entry.host, "b");
    assert_eq!(app.original_host_name, Some("b".to_string()));
    app.cancel_form();
    assert_eq!(app.state, AppState::Normal);
    assert_eq!(app.original_host_name, None);
}

#[test]
fn status_shows_errors_with_prefix() {
    let mut app = test_app();
    app.set_status(Err("boom".to_string()));
    assert_eq!(app.status, Some("Error: boom".to_string()));
    app.set_status(Ok("fine".to_string()));
    assert_eq!(app.status, Some("fine".to_string()));
}

#[test]
fn save_form_refuses_invalid_record() {
    let mut app = test_app();
    app.enter_new_mode();
    let mut lines: Vec<String> = Vec::new();
    assert!(!app.save_form(&mut lines));
    assert_eq!(app.form_error, Some("Host cannot be empty".to_string()));
    assert!(lines.is_empty());
    assert_eq!(app.state, AppState::New);
}

#[test]
fn save_form_renames_edited_block() {
    let text = "Host a\n  HostName example.com\n\nHost b\n  HostName example.com\n";
    let mut lines = split_lines(text);
    let mut app = App::new(ssh_tui::ssh_config::load_host_entries(&lines));
    app.enter_edit_mode();
    app.handle_form_backspace();
    app.handle_form_input('z');
    assert!(app.save_form(&mut lines));
    assert_eq!(
        join_lines(&lines),
        "Host z\n  HostName example.com\n\nHost b\n  HostName example.com\n"
    );
    app.complete_save(&lines);
    assert_eq!(app.state, AppState::Normal);
    assert_eq!(app.hosts.len(), 2);
    assert_eq!(app.selected, 0);
    assert_eq!(app.status, Some("Host 'z' updated successfully".to_string()));
}

#[test]
fn save_form_creates_new_block_and_selects_it() {
    let mut lines = split_lines("Host a\n  HostName h\n");
    let mut app = App::new(ssh_tui::ssh_config::load_host_entries(&lines));
    app.enter_new_mode();
    for c in "n".chars() {
        app.handle_form_input(c);
    }
    app.focus_next_field();
    for c in "hn".chars() {
        app.handle_form_input(c);
    }
    assert!(app.save_form(&mut lines));
    app.complete_save(&lines);
    assert_eq!(app.selected, 1);
    assert_eq!(app.selected_host_name(), Some("n"));
    assert_eq!(app.status, Some("Host 'n' created successfully".to_string()));
}

#[test]
fn check_form_reports_the_first_broken_rule() {
    let mut app = test_app();
    assert!(!app.check_form());
    assert_eq!(app.form_error, None);
    app.enter_new_mode();
    app.handle_form_input('x');
    assert!(!app.check_form());
    assert_eq!(app.form_error, Some("HostName cannot be empty".to_string()));
    app.focus_next_field();
    app.handle_form_input('h');
    assert!(app.check_form());
}
