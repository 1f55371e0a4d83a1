use ssh_tui::config::Config;
use ssh_tui::ssh_config::{
    add_host_entry, delete_host_entry, find_host_block, host_name_from_line, list_entries,
    load_host_entries, parse_ssh_hosts, render_host_entry_lines, update_host_entry,
    upsert_host_entry, EditError, HostEntry, ValidationError,
};
use ssh_tui::text::{join_lines, split_lines};

const SAMPLE_CONFIG: &str = "# Sample SSH configuration
Host app-server
  HostName app.example.com
  User deploy
  Port 2222
  IdentityFile ~/.ssh/app_rsa
  ProxyCommand ssh -W %h:%p bastion
  LocalForward 8080 localhost:80 # inline comment
  ForwardAgent yes

Host db-server
  HostName db.example.com
  User admin

Host *
  ServerAliveInterval 60
";

fn entry(host: &str, hostname: &str) -> HostEntry {
    let mut e = HostEntry::default();
    e.host = host.to_string();
    e.hostname = hostname.to_string();
    e
}

fn file_of(lines: &Vec<String>) -> String {
    join_lines(lines)
}

#[test]
fn test_parse_ssh_hosts() {
    let text = "Host server1\n  HostName example.com\n  User admin\n\nHost server2\n  HostName 192.168.1.1\n\nHost *\n  ServerAliveInterval 60\n";
    let hosts = parse_ssh_hosts(text);
    assert_eq!(hosts, vec!["server1", "server2"]);
}

#[test]
fn test_parse_ssh_hosts_empty() {
    let hosts = parse_ssh_hosts("");
    assert_eq!(hosts, Vec::<String>::new());
}

#[test]
fn test_default_config() {
    let config = Config::default();
    assert_eq!(config.ssh_binary, "ssh");
    assert_eq!(config.timeout, 30);
}

#[test]
fn test_load_host_entries_from_path() {
    let text = "Host server1\n  HostName example.com\n  User admin\n  Port 2222\n  IdentityFile ~/.ssh/id_rsa\n\nHost server2\n  HostName 192.168.1.1\n";
    let entries = list_entries(text);
    assert_eq!(entries.len(), 2);
    assert_eq!(entries[0].host, "server1");
    assert_eq!(entries[0].hostname, "example.com");
    assert_eq!(entries[0].user, "admin");
    assert_eq!(entries[0].port, "2222");
    assert_eq!(entries[0].identity_file, "~/.ssh/id_rsa");
}

#[test]
fn test_upsert_host_entry_at_path_creates_new_block() {
    let mut lines: Vec<String> = Vec::new();
    let mut e = entry("newserver", "example.com");
    e.user = "admin".to_string();
    e.port = "2222".to_string();
    e.identity_file = "~/.ssh/id_rsa".to_string();
    upsert_host_entry(&mut lines, &e).unwrap();
    let contents = file_of(&lines);
    assert!(contents.contains("Host newserver"));
    assert!(contents.contains("HostName example.com"));
    assert!(contents.contains("User admin"));
}

#[test]
fn test_update_host_entry_at_path_replaces_existing_block() {
    let mut lines = split_lines(
        "Host server1\n  HostName old.example.com\n  User olduser\n\nHost server2\n  HostName 192.168.1.1\n",
    );
    let mut e = entry("server1", "new.example.com");
    e.user = "newuser".to_string();
    e.port = "2222".to_string();
    update_host_entry(&mut lines, "server1", &e).unwrap();
    let contents = file_of(&lines);
    assert!(contents.contains("Host server1"));
    assert!(contents.contains("HostName new.example.com"));
    assert!(contents.contains("User newuser"));
    assert!(contents.contains("Port 2222"));
    assert!(!contents.contains("old.example.com"));
}

#[test]
fn test_update_preserves_extra_lines() {
    let mut lines = split_lines(
        "Host server1\n  HostName old.example.com\n  ProxyCommand ssh jump\n  User admin\n",
    );
    let mut entries = load_host_entries(&lines);
    let mut e = entries.remove(0);
    e.hostname = "new.example.com".to_string();
    update_host_entry(&mut lines, "server1", &e).unwrap();
    let contents = file_of(&lines);
    assert!(contents.contains("ProxyCommand ssh jump"));
    assert!(contents.contains("HostName new.example.com"));
}

#[test]
fn config_test_host_entry_validation() {
    let mut e = HostEntry::default();
    e.host = String::new();
    e.hostname = "example.com".to_string();
    assert!(e.validate().is_err());

    e.host = "valid".to_string();
    e.hostname.clear();
    assert!(e.validate().is_err());

    e.hostname = "example.com".to_string();
    e.port = "abc".to_string();
    assert!(e.validate().is_err());

    e.port = "2222".to_string();
    assert!(e.validate().is_ok());
}

#[test]
fn test_load_host_entries_from_fixture() {
    let entries = list_entries(SAMPLE_CONFIG);
    assert_eq!(entries.len(), 2);
    let app = entries.iter().find(|e| e.host == "app-server").unwrap();
    assert_eq!(app.hostname, "app.example.com");
    assert_eq!(app.user, "deploy");
    assert_eq!(app.port, "2222");
    assert_eq!(app.identity_file, "~/.ssh/app_rsa");
    assert_eq!(app.proxy_command, "ssh -W %h:%p bastion");
    assert!(app.extra.iter().any(|line| line.contains("LocalForward")));
    assert!(app.extra.iter().any(|line| line.contains("# inline comment")));
    assert!(app.extra.iter().any(|line| line.contains("ForwardAgent")));
}

#[test]
fn test_missing_config_returns_empty_list() {
    let entries = list_entries("");
    assert!(entries.is_empty());
}

#[test]
fn test_upsert_preserves_unknown_directives() {
    let mut lines = split_lines(SAMPLE_CONFIG);
    let entries = load_host_entries(&lines);
    let mut e = entries.into_iter().find(|e| e.host == "app-server").unwrap();
    e.hostname = "new.example.com".to_string();
    update_host_entry(&mut lines, "app-server", &e).unwrap();
    let contents = file_of(&lines);
    assert!(contents.contains("LocalForward 8080 localhost:80"));
    assert!(contents.contains("# inline comment"));
    assert!(contents.contains("HostName new.example.com"));
}

#[test]
fn test_add_and_delete_host_entry() {
    let mut lines = split_lines(SAMPLE_CONFIG);
    let e = HostEntry {
        host: "web".to_string(),
        hostname: "web.example.com".to_string(),
        user: "www".to_string(),
        port: "22".to_string(),
        identity_file: "~/.ssh/web_rsa".to_string(),
        proxy_command: String::new(),
        extra: vec!["  ForwardAgent yes".to_string()],
    };
    add_host_entry(&mut lines, &e).unwrap();
    let contents = file_of(&lines);
    assert!(contents.contains("Host web"));
    assert!(contents.contains("ForwardAgent yes"));

    delete_host_entry(&mut lines, "web").unwrap();
    let contents = file_of(&lines);
    assert!(!contents.contains("Host web"));
}

#[test]
fn test_add_duplicate_host_fails() {
    let mut lines = split_lines(SAMPLE_CONFIG);
    let e = HostEntry {
        host: "app-server".to_string(),
        hostname: "example.com".to_string(),
        user: "user".to_string(),
        port: "22".to_string(),
        identity_file: String::new(),
        proxy_command: String::new(),
        extra: vec![],
    };
    assert!(add_host_entry(&mut lines, &e).is_err());
}

#[test]
fn test_delete_unknown_host_fails() {
    let mut lines: Vec<String> = Vec::new();
    delete_host_entry(&mut lines, "missing").unwrap_err();
}

#[test]
fn ssh_config_test_host_entry_validation() {
    let mut e = HostEntry::default();
    e.host = "".to_string();
    e.hostname = "example.com".to_string();
    assert!(e.validate().is_err());

    e.host = "valid".to_string();
    e.hostname.clear();
    assert!(e.validate().is_err());

    e.hostname = "example.com".to_string();
    e.port = "abc".to_string();
    assert!(e.validate().is_err());

    e.port = "22".to_string();
    assert!(e.validate().is_ok());
}

// Cases of the parser and the block editor.

const TWO_HOSTS: &str = "Host a\n  HostName 1.1.1.1\n\nHost b\n  HostName 2.2.2.2\n";

#[test]
fn parses_two_blocks_in_order() {
    let entries = list_entries(TWO_HOSTS);
    assert_eq!(entries.len(), 2);
    assert_eq!(entries[0].host, "a");
    assert_eq!(entries[0].hostname, "1.1.1.1");
    assert_eq!(entries[1].host, "b");
    assert_eq!(entries[1].hostname, "2.2.2.2");
    assert_eq!(entries[0].extra, vec![String::new()]);
}

#[test]
fn upsert_into_empty_file() {
    let mut lines: Vec<String> = Vec::new();
    upsert_host_entry(&mut lines, &entry("x", "h")).unwrap();
    assert_eq!(file_of(&lines), "Host x\n  HostName h\n\n");
}

#[test]
fn update_keeps_extra_and_other_block() {
    let mut lines = split_lines(TWO_HOSTS);
    let mut e = entry("a", "new");
    e.extra = vec!["  ProxyCommand ssh jump".to_string()];
    update_host_entry(&mut lines, "a", &e).unwrap();
    assert_eq!(
        file_of(&lines),
        "Host a\n  HostName new\n  ProxyCommand ssh jump\n\nHost b\n  HostName 2.2.2.2\n"
    );
}

#[test]
fn delete_missing_host_leaves_lines() {
    let mut lines = split_lines(TWO_HOSTS);
    let before = lines.clone();
    assert_eq!(delete_host_entry(&mut lines, "missing"), Err(EditError::NotFound));
    assert_eq!(lines, before);
}

#[test]
fn upsert_wildcard_name_is_refused() {
    let mut lines = split_lines(TWO_HOSTS);
    let before = lines.clone();
    let r = upsert_host_entry(&mut lines, &entry("bad*name", "h"));
    assert_eq!(r, Err(EditError::Invalid(ValidationError::WildcardHost)));
    assert_eq!(lines, before);
}

#[test]
fn upsert_port_out_of_range_is_refused() {
    let mut lines = split_lines(TWO_HOSTS);
    let before = lines.clone();
    let mut e = entry("x", "h");
    e.port = "70000".to_string();
    let r = upsert_host_entry(&mut lines, &e);
    assert_eq!(r, Err(EditError::Invalid(ValidationError::InvalidPort)));
    assert_eq!(
        ValidationError::InvalidPort.message(),
        "Port must be a number between 1 and 65535"
    );
    assert_eq!(lines, before);
}

#[test]
fn validation_reports_each_rule() {
    assert_eq!(entry("  ", "h").validate(), Err(ValidationError::EmptyHost));
    assert_eq!(entry("a?b", "h").validate(), Err(ValidationError::WildcardHost));
    assert_eq!(entry("a", " ").validate(), Err(ValidationError::EmptyHostName));
    let mut e = entry("a", "h");
    e.port = "0".to_string();
    assert_eq!(e.validate(), Err(ValidationError::ZeroPort));
    e.port = "65536".to_string();
    assert_eq!(e.validate(), Err(ValidationError::InvalidPort));
    e.port = "-1".to_string();
    assert_eq!(e.validate(), Err(ValidationError::InvalidPort));
    e.port = " 65535 ".to_string();
    assert_eq!(e.validate(), Ok(()));
    e.port = "+22".to_string();
    assert_eq!(e.validate(), Ok(()));
    e.port = "1".to_string();
    assert_eq!(e.validate(), Ok(()));
}

#[test]
fn add_existing_host_is_refused() {
    let mut lines = split_lines(TWO_HOSTS);
    let before = lines.clone();
    assert_eq!(add_host_entry(&mut lines, &entry("b", "h")), Err(EditError::AlreadyExists));
    assert_eq!(lines, before);
    assert_eq!(EditError::AlreadyExists.message("b"), "Host 'b' already exists");
    assert_eq!(EditError::NotFound.message("z"), "Host 'z' not found");
}

#[test]
fn wildcard_block_gives_no_record_and_is_not_matched() {
    let text = "Host *\n  User root\n\nHost real\n  HostName r\n";
    let entries = list_entries(text);
    assert_eq!(entries.len(), 1);
    assert_eq!(entries[0].host, "real");
    let lines = split_lines(text);
    assert_eq!(find_host_block(&lines, "real"), Some((3, 5)));
    assert_eq!(find_host_block(&lines, "root"), None);
}

#[test]
fn leading_global_lines_are_dropped_by_parser() {
    let entries = list_entries("ServerAliveInterval 60\nHost a\n  HostName h\n");
    assert_eq!(entries.len(), 1);
    assert_eq!(entries[0].extra, Vec::<String>::new());
}

#[test]
fn keywords_are_case_insensitive_and_last_wins() {
    let entries = list_entries("hOsT a\n  HOSTNAME one\n  hostname   two   words # note\n  port 22\n");
    assert_eq!(entries.len(), 1);
    assert_eq!(entries[0].hostname, "two words");
    assert_eq!(entries[0].port, "22");
}

#[test]
fn comment_and_unknown_lines_are_kept_verbatim() {
    let entries = list_entries("Host a\n  # note  \n\tForwardAgent yes\r\n");
    assert_eq!(entries[0].extra, vec!["  # note".to_string(), "\tForwardAgent yes".to_string()]);
}

#[test]
fn host_line_without_name_closes_block() {
    let entries = list_entries("Host a\n  User u\nHost\n  User v\n");
    assert_eq!(entries.len(), 1);
    assert_eq!(entries[0].user, "u");
}

#[test]
fn duplicate_names_give_two_records_and_first_block_is_edited() {
    let mut lines = split_lines("Host a\n  User one\nHost a\n  User two\n");
    assert_eq!(load_host_entries(&lines).len(), 2);
    assert_eq!(find_host_block(&lines, "a"), Some((0, 2)));
    update_host_entry(&mut lines, "a", &entry("a", "h")).unwrap();
    assert_eq!(file_of(&lines), "Host a\n  HostName h\n\nHost a\n  User two\n");
}

#[test]
fn name_lookup_is_case_sensitive() {
    let lines = split_lines("HOST Alpha\n  HostName h\n");
    assert_eq!(find_host_block(&lines, "alpha"), None);
    assert_eq!(find_host_block(&lines, "Alpha"), Some((0, 2)));
}

#[test]
fn update_of_vanished_name_appends() {
    let mut lines = split_lines("Host a\n  HostName h");
    update_host_entry(&mut lines, "gone", &entry("c", "hc")).unwrap();
    assert_eq!(file_of(&lines), "Host a\n  HostName h\n\nHost c\n  HostName hc\n\n");
}

#[test]
fn delete_collapses_blank_lines() {
    let mut lines = split_lines("Host a\n  HostName 1\n\nHost b\n  HostName 2\n\n");
    delete_host_entry(&mut lines, "b").unwrap();
    assert_eq!(file_of(&lines), "Host a\n  HostName 1\n");
    let mut lines = split_lines("Host a\n  HostName 1\n\nHost b\n  HostName 2\n");
    delete_host_entry(&mut lines, "a").unwrap();
    assert_eq!(file_of(&lines), "Host b\n  HostName 2\n");
}

#[test]
fn render_trims_fields_and_keeps_order() {
    let e = HostEntry {
        host: " h ".to_string(),
        hostname: " addr ".to_string(),
        user: "u".to_string(),
        port: "22".to_string(),
        identity_file: "~/.ssh/k".to_string(),
        proxy_command: "ssh -W %h:%p j".to_string(),
        extra: vec!["  Compression yes".to_string(), String::new()],
    };
    assert_eq!(
        render_host_entry_lines(&e),
        vec![
            "Host h",
            "  HostName addr",
            "  User u",
            "  Port 22",
            "  IdentityFile ~/.ssh/k",
            "  ProxyCommand ssh -W %h:%p j",
            "  Compression yes",
            "",
        ]
    );
}

#[test]
fn header_names_are_read_outside_comments() {
    assert_eq!(host_name_from_line("  host x # c"), Some("x".to_string()));
    assert_eq!(host_name_from_line("# Host x"), None);
    assert_eq!(host_name_from_line("Hostname x"), None);
    assert_eq!(host_name_from_line("Host"), None);
}

#[test]
fn lines_split_like_str_lines() {
    assert_eq!(split_lines("a\r\nb\n\nc"), vec!["a", "b", "", "c"]);
    assert_eq!(split_lines("a\n"), vec!["a"]);
    assert_eq!(split_lines(""), Vec::<String>::new());
    assert_eq!(join_lines(&split_lines("a\nb")), "a\nb\n");
}

// Laws of the editor, on concrete files.

#[test]
fn round_trip_of_rendered_file() {
    let text = "Host a\n  HostName 1.1.1.1\n  User me\n  ForwardAgent yes\n\nHost b\n  HostName 2.2.2.2\n  Port 2200\n\n";
    let lines = split_lines(text);
    let entries = load_host_entries(&lines);
    let mut out: Vec<String> = Vec::new();
    for e in &entries {
        out.extend(render_host_entry_lines(e));
    }
    assert_eq!(file_of(&out), text);
}

#[test]
fn upsert_twice_equals_once() {
    let mut once = split_lines(TWO_HOSTS);
    let mut e = entry("a", "z");
    e.extra = vec!["  # kept".to_string()];
    upsert_host_entry(&mut once, &e).unwrap();
    let mut twice = once.clone();
    upsert_host_entry(&mut twice, &e).unwrap();
    assert_eq!(once, twice);
    let mut fresh = split_lines(TWO_HOSTS);
    upsert_host_entry(&mut fresh, &entry("c", "y")).unwrap();
    let mut again = fresh.clone();
    upsert_host_entry(&mut again, &entry("c", "y")).unwrap();
    assert_eq!(fresh, again);
}

#[test]
fn update_keeps_unrecognized_lines_in_order() {
    let mut lines = split_lines("Host a\n  # one\n  Compression yes\n  HostName h\n  # two\n");
    let mut e = load_host_entries(&lines).remove(0);
    e.hostname = "k".to_string();
    update_host_entry(&mut lines, "a", &e).unwrap();
    assert_eq!(
        lines,
        vec!["Host a", "  HostName k", "  # one", "  Compression yes", "  # two", ""]
    );
}

#[test]
fn editing_one_block_leaves_the_others() {
    let text = "# top\nHost a\n  HostName 1\n# between\nHost b\n  HostName 2\nHost c\n  HostName 3\n";
    let mut lines = split_lines(text);
    update_host_entry(&mut lines, "b", &entry("b", "two")).unwrap();
    assert_eq!(&lines[..4], &split_lines(text)[..4]);
    assert_eq!(&lines[lines.len() - 2..], &split_lines(text)[6..]);
    let mut lines = split_lines(text);
    delete_host_entry(&mut lines, "b").unwrap();
    assert_eq!(
        file_of(&lines),
        "# top\nHost a\n  HostName 1\n# between\nHost c\n  HostName 3\n"
    );
}

#[test]
fn pattern_blocks_are_never_edited() {
    let text = "Host *\n  User root\n\nHost a\n  HostName h\n";
    let mut lines = split_lines(text);
    assert_eq!(find_host_block(&lines, "*"), None);
    assert_eq!(find_host_block(&lines, "a?"), None);
    assert_eq!(delete_host_entry(&mut lines, "*"), Err(EditError::NotFound));
    assert_eq!(file_of(&lines), text);
    update_host_entry(&mut lines, "*", &entry("c", "hc")).unwrap();
    assert_eq!(
        file_of(&lines),
        "Host *\n  User root\n\nHost a\n  HostName h\n\nHost c\n  HostName hc\n\n"
    );
}

#[test]
fn pattern_block_lines_reach_no_record() {
    let with_body = list_entries("Host a\n  User u\nHost *\n  User root\n  Port 1\nHost b\n  User v\n");
    let without = list_entries("Host a\n  User u\nHost *\nHost b\n  User v\n");
    assert_eq!(with_body, without);
    assert_eq!(with_body.len(), 2);
    assert_eq!(with_body[0].user, "u");
    assert_eq!(with_body[1].user, "v");
}

#[test]
fn edit_error_messages_name_the_host() {
    let mut lines: Vec<String> = Vec::new();
    let err = delete_host_entry(&mut lines, "missing").unwrap_err();
    assert_eq!(err.message("missing"), "Host 'missing' not found");
    assert_eq!(
        EditError::Invalid(ValidationError::EmptyHostName).message("x"),
        "HostName cannot be empty"
    );
}
