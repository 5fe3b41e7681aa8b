use sshx::access::{authorize, compute_links, default_name, Permission};

#[test]
fn no_write_protection_grants_write() {
    assert_eq!(authorize(&None, &None), Permission::Write);
    assert_eq!(authorize(&Some("anything".to_string()), &None), Permission::Write);
}

#[test]
fn write_needs_the_password() {
    let pw = Some("hunter2".to_string());
    assert_eq!(authorize(&None, &pw), Permission::ReadOnly);
    assert_eq!(authorize(&Some("hunter".to_string()), &pw), Permission::ReadOnly);
    assert_eq!(authorize(&Some(String::new()), &pw), Permission::ReadOnly);
    assert_eq!(authorize(&Some("hunter2".to_string()), &pw), Permission::Write);
}

#[test]
fn links_with_write_protection() {
    let l = compute_links("https://sshx.io", "", "abc123", "KEY", &Some("PW".to_string()));
    assert_eq!(l.link, "https://sshx.io/s/abc123");
    assert_eq!(l.url, "https://sshx.io/s/abc123#KEY");
    assert_eq!(l.write_url.as_deref(), Some("https://sshx.io/s/abc123#KEY,PW"));
    assert_eq!(l.manual_url.as_deref(), Some("https://sshx.io/s/abc123#KEY,manually"));
    assert!(!l.link.contains("KEY"));
}

#[test]
fn links_without_write_protection() {
    let l = compute_links("http://relay", "team", "s1", "k", &None);
    assert_eq!(l.link, "http://relay/team/s/s1");
    assert_eq!(l.url, "http://relay/team/s/s1#k");
    assert!(l.write_url.is_none());
    assert!(l.manual_url.is_none());
}

#[test]
fn default_name_trims_domain() {
    assert_eq!(default_name("alice", Some("box.lan")), "alice@box");
    assert_eq!(default_name("alice", Some("box")), "alice@box");
    assert_eq!(default_name("bob", Some(".x")), "bob@");
    assert_eq!(default_name("bob", None), "bob");
}
