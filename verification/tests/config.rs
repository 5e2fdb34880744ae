use etr::config::{
    client_key_blocks, contains_key_line, merge_defaults, server_key_blocks, Config, DEFAULT_CONFIG,
};

fn all_keys() -> Vec<&'static str> {
    client_key_blocks().iter().chain(server_key_blocks().iter()).map(|b| b.key).collect()
}

fn client_table(text: &str) -> toml::Table {
    let table: toml::Table = text.parse().unwrap();
    table["client"].as_table().unwrap().clone()
}

#[test]
fn test_merge_defaults_empty_produces_all_keys() {
    let (merged, additions) = merge_defaults("");
    for key in &all_keys() {
        assert!(
            additions.contains(key),
            "expected {key} in additions for empty input"
        );
        assert!(
            merged.contains(key),
            "expected {key} in merged output for empty input"
        );
    }
}

#[test]
fn test_merge_defaults_all_present_no_additions() {
    // Active (uncommented) keys — all recognised, nothing added.
    let existing = "\
[client]\n\
ssh_port = 22\n\
server_path = \"etrs\"\n\
log_path = \"~/.local/state/etr/etr.log\"\n\
server_log_path = \"~/.local/state/etr/etrs.log\"\n\
gateway_ports = false\n\
forward = []\n\
reverse_forward = []\n\
env = []\n\
x11 = false\n\
x11_trusted = false\n\
[server]\n\
reconnect_timeout = 1800\n";
    let (merged, additions) = merge_defaults(existing);
    assert!(additions.is_empty(), "unexpected additions: {additions:?}");
    assert_eq!(merged.trim(), existing.trim());
}

#[test]
fn test_merge_defaults_commented_keys_count_as_present() {
    // Commented-out keys must not be re-added (idempotency).
    let existing = "\
[client]\n\
# ssh_port = 22\n\
# server_path = \"etrs\"\n\
# log_path = \"~/.local/state/etr/etr.log\"\n\
# server_log_path = \"~/.local/state/etr/etrs.log\"\n\
# gateway_ports = false\n\
# forward = []\n\
# reverse_forward = []\n\
# env = []\n\
# x11 = false\n\
# x11_trusted = false\n\
[server]\n\
# reconnect_timeout = 1800\n";
    let (_, additions) = merge_defaults(existing);
    assert!(additions.is_empty(), "unexpected additions: {additions:?}");
}

#[test]
fn test_merge_defaults_adds_missing_keys() {
    let existing = "[client]\nssh_port = 2222\n";
    let (merged, additions) = merge_defaults(existing);
    // ssh_port is present → should not appear in additions
    assert!(
        !additions.contains(&"ssh_port"),
        "ssh_port should not be re-added"
    );
    // All other client keys + server keys should be added
    for key in &all_keys() {
        if *key != "ssh_port" {
            assert!(additions.contains(key), "{key} should be in additions");
            assert!(merged.contains(key), "{key} should appear in merged output");
        }
    }
    // What was there is preserved
    assert!(merged.contains("ssh_port = 2222"));
}

#[test]
fn test_merge_defaults_is_idempotent() {
    let existing = "[client]\nssh_port = 22\n";
    let (first, _) = merge_defaults(existing);
    let (second, additions) = merge_defaults(&first);
    assert!(additions.is_empty(), "second merge should add nothing");
    assert_eq!(first.trim(), second.trim());
}

#[test]
fn test_default_config_is_empty() {
    let cfg = Config::default();
    assert!(cfg.client.ssh_port.is_none());
    assert!(cfg.client.server_path.is_none());
}

#[test]
fn test_default_config_is_valid_toml() {
    // With every setting commented out the text still parses, and sets nothing.
    let table: toml::Table = DEFAULT_CONFIG.parse().unwrap();
    assert!(!table["client"].as_table().unwrap().contains_key("ssh_port"));
    assert!(!table["server"].as_table().unwrap().contains_key("reconnect_timeout"));
}

#[test]
fn test_merge_defaults_output_is_valid_toml() {
    let existing = "[client]\nssh_port = 2222\n";
    let (merged, _) = merge_defaults(existing);
    assert_eq!(client_table(&merged)["ssh_port"].as_integer(), Some(2222));
}

#[test]
fn merging_into_nothing_is_equivalent_to_the_default() {
    let (merged, _) = merge_defaults("");
    let merged: toml::Table = merged.parse().unwrap();
    let default: toml::Table = DEFAULT_CONFIG.parse().unwrap();
    assert_eq!(merged, default);
    let (_, additions) = merge_defaults(DEFAULT_CONFIG);
    assert!(additions.is_empty());
}

#[test]
fn a_section_that_stands_last_is_still_found() {
    // The server section comes first, and no header may be doubled.
    let existing = "[server]\nreconnect_timeout = 60\n[client]\nssh_port = 2222\n";
    let (merged, additions) = merge_defaults(existing);
    assert_eq!(merged.matches("[client]").count(), 1);
    assert_eq!(merged.matches("[server]").count(), 1);
    assert!(additions.contains(&"env"));
    assert!(!additions.contains(&"reconnect_timeout"));
    assert_eq!(client_table(&merged)["ssh_port"].as_integer(), Some(2222));
}

#[test]
fn a_missing_section_is_appended() {
    let existing = "[server]\nreconnect_timeout = 60\n";
    let (merged, additions) = merge_defaults(existing);
    assert!(merged.starts_with("[server]\nreconnect_timeout = 60\n\n[client]\n# SSH port"));
    assert_eq!(additions.len(), 10);
    let (again, none) = merge_defaults(&merged);
    assert!(none.is_empty());
    assert_eq!(again, merged);
}

#[test]
fn blocks_go_right_behind_their_header() {
    let existing = "# mine\n[client]\nssh_port = 22\n";
    let (merged, _) = merge_defaults(existing);
    assert!(merged.starts_with("# mine\n[client]\n# Path to the etrs binary"));
    assert!(merged.contains("\nssh_port = 22\n"));
}

#[test]
fn a_complete_file_is_only_tidied() {
    let (merged, additions) = merge_defaults(&format!("{DEFAULT_CONFIG}\n\n  \n"));
    assert!(additions.is_empty());
    assert_eq!(merged, DEFAULT_CONFIG);
}

#[test]
fn key_lines_are_recognised() {
    assert!(contains_key_line("  # x11   = false", "x11"));
    assert!(contains_key_line("x11=true\r\n", "x11"));
    assert!(!contains_key_line("x11_trusted = true", "x11"));
    assert!(!contains_key_line("## x11 = true", "x11"));
    assert!(!contains_key_line("", "x11"));
}

#[test]
fn a_complete_file_keeps_its_headers_and_lines() {
    let text = format!("[client]\r\n{DEFAULT_CONFIG}x = 1 \t\n\r\n");
    let (merged, additions) = merge_defaults(&text);
    assert!(additions.is_empty());
    let count = |s: &str, h: &str| s.lines().filter(|l| l.trim() == h).count();
    assert_eq!(count(&merged, "[client]"), count(&text, "[client]"));
    assert_eq!(count(&merged, "[server]"), count(&text, "[server]"));
    let kept: Vec<&str> = text.trim_end().lines().collect();
    assert_eq!(merged.lines().collect::<Vec<_>>(), kept);
}

#[test]
fn what_is_added_sets_nothing() {
    let text = "[server]\nssh_port = 2222\n[other]\nx = 1\n";
    let (merged, additions) = merge_defaults(text);
    assert!(!additions.is_empty());
    let mut own = text.lines().peekable();
    for line in merged.lines() {
        if own.peek() == Some(&line) {
            own.next();
        } else {
            assert!(
                line.is_empty() || line.starts_with('#') || line == "[client]",
                "unexpected line {line:?}"
            );
        }
    }
    assert_eq!(own.next(), None);
}
