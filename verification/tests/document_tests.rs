use ssh_picker::ssh_config::{parse_hosts_from_text, render_host_block, SshConfigFile, SshHostEntry};

fn entry(
    pattern: &str,
    hostname: Option<&str>,
    user: Option<&str>,
    port: Option<u16>,
) -> SshHostEntry {
    SshHostEntry {
        pattern: pattern.to_string(),
        hostname: hostname.map(|s| s.to_string()),
        user: user.map(|s| s.to_string()),
        port,
        other: Vec::new(),
    }
}

#[test]
fn load_keeps_text_verbatim() {
    let text = "# only comments\n\n# and blank lines\n";
    let cfg = SshConfigFile::new("/tmp/config".to_string(), text.to_string());
    assert_eq!(cfg.text, text);
    assert_eq!(cfg.path, "/tmp/config");
    assert!(cfg.list_hosts().is_empty());
}

#[test]
fn upsert_replaces_exactly_the_block() {
    let text = "Host a\n    HostName 1.2.3.4\n\nHost b\n    User root\n";
    let mut cfg = SshConfigFile::new("p".to_string(), text.to_string());
    cfg.upsert_host(&entry("a", Some("5.6.7.8"), None, None));
    assert_eq!(cfg.text, "Host a\n    HostName 5.6.7.8\n\nHost b\n    User root\n");
}

#[test]
fn upsert_into_empty_document() {
    let mut cfg = SshConfigFile::new("p".to_string(), String::new());
    cfg.upsert_host(&entry("x", None, None, Some(22)));
    assert_eq!(cfg.text, "Host x\n    Port 22\n\n");
}

#[test]
fn upsert_absent_appends_and_keeps_lines() {
    let text = "# comment\nHost a\n    User alice\n";
    let mut cfg = SshConfigFile::new("p".to_string(), text.to_string());
    cfg.upsert_host(&entry("b", Some("example.org"), None, None));
    assert_eq!(
        cfg.text,
        "# comment\nHost a\n    User alice\nHost b\n    HostName example.org\n\n"
    );
    assert_eq!(cfg.list_hosts().len(), 2);
}

#[test]
fn upsert_adds_missing_trailing_newline_before_appending() {
    let text = "Host a\n    User alice";
    let mut cfg = SshConfigFile::new("p".to_string(), text.to_string());
    cfg.upsert_host(&entry("b", None, None, None));
    assert_eq!(cfg.text, "Host a\n    User alice\nHost b\n\n");
}

#[test]
fn upsert_keeps_comments_and_blanks_outside_the_block() {
    let text = "# top\n\nHost a\n    Port 1\n# inside b\nHost b\n    User u\n# tail\n";
    let mut cfg = SshConfigFile::new("p".to_string(), text.to_string());
    cfg.upsert_host(&entry("b", None, Some("v"), None));
    assert_eq!(
        cfg.text,
        "# top\n\nHost a\n    Port 1\n# inside b\nHost b\n    User v\n\n"
    );
}

#[test]
fn upsert_matches_keyword_case_insensitively() {
    let text = "host a\n    User alice\nHost b\n";
    let mut cfg = SshConfigFile::new("p".to_string(), text.to_string());
    cfg.upsert_host(&entry("a", None, Some("bob"), None));
    assert_eq!(cfg.text, "Host a\n    User bob\n\nHost b\n");
}

#[test]
fn delete_removes_exactly_the_block() {
    let text = "Host a\n    Port 1\n\nHost b\n    Port 2\n\nHost c\n    Port 3\n";
    let mut cfg = SshConfigFile::new("p".to_string(), text.to_string());
    cfg.delete_host("b");
    assert_eq!(cfg.text, "Host a\n    Port 1\n\nHost c\n    Port 3\n");
}

#[test]
fn delete_absent_is_a_byte_identical_no_op() {
    let text = "Host a\n    Port 1";
    let mut cfg = SshConfigFile::new("p".to_string(), text.to_string());
    cfg.delete_host("zzz");
    assert_eq!(cfg.text, "Host a\n    Port 1");
}

#[test]
fn delete_first_of_two_equal_patterns() {
    let text = "Host a\n    Port 1\nHost a\n    Port 2\n";
    let mut cfg = SshConfigFile::new("p".to_string(), text.to_string());
    cfg.delete_host("a");
    assert_eq!(cfg.text, "Host a\n    Port 2\n");
}

#[test]
fn render_block_orders_fields() {
    let mut e = entry("web", Some("web.example.com"), Some("deploy"), Some(2222));
    e.other.push(("IdentityFile".to_string(), "~/.ssh/id_ed25519".to_string()));
    assert_eq!(
        render_host_block(&e),
        "Host web\n    HostName web.example.com\n    User deploy\n    Port 2222\n    IdentityFile ~/.ssh/id_ed25519\n\n"
    );
}

#[test]
fn parse_projects_blocks_in_order() {
    let text = "# comment\nHost a\n    HostName 1.2.3.4\n    User alice\n    Port 22\n\nhost b\n    IdentityFile ~/.ssh/k\n";
    let hosts = parse_hosts_from_text(text);
    assert_eq!(hosts.len(), 2);
    assert_eq!(hosts[0].pattern, "a");
    assert_eq!(hosts[0].hostname.as_deref(), Some("1.2.3.4"));
    assert_eq!(hosts[0].user.as_deref(), Some("alice"));
    assert_eq!(hosts[0].port, Some(22));
    assert_eq!(hosts[1].pattern, "b");
    assert_eq!(hosts[1].other, vec![("IdentityFile".to_string(), "~/.ssh/k".to_string())]);
}

#[test]
fn parse_keeps_directive_key_casing() {
    let hosts = parse_hosts_from_text("Host a\n    hostname h\n    USER u\n    Other V\n");
    assert_eq!(hosts[0].hostname.as_deref(), Some("h"));
    assert_eq!(hosts[0].user.as_deref(), Some("u"));
    assert_eq!(hosts[0].other, vec![("Other".to_string(), "V".to_string())]);
}

#[test]
fn parse_leaves_bad_ports_absent() {
    let hosts = parse_hosts_from_text(
        "Host a\n    Port zap\nHost b\n    Port 70000\nHost c\n    Port 0\nHost d\n    Port +443\n",
    );
    assert_eq!(hosts[0].port, None);
    assert_eq!(hosts[1].port, None);
    assert_eq!(hosts[2].port, None);
    assert_eq!(hosts[3].port, Some(443));
}

#[test]
fn parse_ignores_directives_before_any_block() {
    let hosts = parse_hosts_from_text("User stray\nHost a\n    User alice\n");
    assert_eq!(hosts.len(), 1);
    assert_eq!(hosts[0].user.as_deref(), Some("alice"));
}

#[test]
fn listing_is_recomputed_after_mutation() {
    let mut cfg = SshConfigFile::new("p".to_string(), String::new());
    cfg.upsert_host(&entry("a", None, None, Some(1)));
    cfg.upsert_host(&entry("b", None, None, Some(2)));
    cfg.delete_host("a");
    let hosts = cfg.list_hosts();
    assert_eq!(hosts.len(), 1);
    assert_eq!(hosts[0].pattern, "b");
    assert_eq!(hosts[0].port, Some(2));
}

#[test]
fn upsert_replaces_the_first_of_two_equal_patterns() {
    let text = "Host a\n    Port 1\nHost a\n    Port 2\n";
    let mut cfg = SshConfigFile::new("p".to_string(), text.to_string());
    cfg.upsert_host(&entry("a", None, None, Some(3)));
    assert_eq!(cfg.text, "Host a\n    Port 3\n\nHost a\n    Port 2\n");
}

#[test]
fn upsert_block_runs_to_end_of_file() {
    let text = "Host a\n    Port 1\n    User u\n# trailing comment inside block";
    let mut cfg = SshConfigFile::new("p".to_string(), text.to_string());
    cfg.upsert_host(&entry("a", None, None, Some(9)));
    assert_eq!(cfg.text, "Host a\n    Port 9\n\n");
}

#[test]
fn pattern_comparison_is_exact() {
    let text = "Host ab\n    Port 1\n";
    let mut cfg = SshConfigFile::new("p".to_string(), text.to_string());
    cfg.delete_host("a");
    assert_eq!(cfg.text, "Host ab\n    Port 1\n");
    cfg.upsert_host(&entry("a", None, None, None));
    assert_eq!(cfg.text, "Host ab\n    Port 1\nHost a\n\n");
}
