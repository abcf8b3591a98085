use std::collections::BTreeMap;
use std::collections::BTreeSet;

use git_identity::config_key::ConfigKey;
use git_identity::identity::Identity;
use git_identity::keys::{key_for, profile_tag};
use git_identity::profiles::{entries_for, list_identities};

fn identity(id: &str, signing_key: Option<&str>, ssh_key: Option<&str>) -> Identity {
    Identity {
        id: id.to_string(),
        name: format!("{} name", id),
        email: format!("{}@example.com", id),
        signing_key: signing_key.map(|s| s.to_string()),
        ssh_key: ssh_key.map(|s| s.to_string()),
    }
}

fn add(store: &mut BTreeMap<String, String>, i: &Identity) {
    for (k, v) in entries_for(i) {
        store.insert(k, v);
    }
}

fn listed(store: &BTreeMap<String, String>) -> Vec<String> {
    let names: Vec<String> = store.keys().cloned().collect();
    list_identities(&names)
}

fn as_set(v: &[String]) -> BTreeSet<String> {
    v.iter().cloned().collect()
}

fn strings(v: &[&str]) -> Vec<String> {
    v.iter().map(|s| s.to_string()).collect()
}

#[test]
fn field_segments_parse_exactly() {
    assert_eq!(ConfigKey::from_str("name"), Some(ConfigKey::Name));
    assert_eq!(ConfigKey::from_str("email"), Some(ConfigKey::Email));
    assert_eq!(ConfigKey::from_str("signingkey"), Some(ConfigKey::SigningKey));
    assert_eq!(ConfigKey::from_str("sshkey"), Some(ConfigKey::SshKey));
    assert_eq!(ConfigKey::from_str("Name"), None);
    assert_eq!(ConfigKey::from_str("names"), None);
    assert_eq!(ConfigKey::from_str(""), None);
    assert_eq!(ConfigKey::from_str("bar"), None);
}

#[test]
fn field_segments_as_text() {
    assert_eq!(ConfigKey::Name.as_str(), "name");
    assert_eq!(ConfigKey::Email.as_str(), "email");
    assert_eq!(ConfigKey::SigningKey.as_str(), "signingkey");
    assert_eq!(ConfigKey::SshKey.as_str(), "sshkey");
}

#[test]
fn keys_are_built_under_user() {
    assert_eq!(key_for("alice", ConfigKey::Name), "user.alice.name");
    assert_eq!(key_for("alice", ConfigKey::Email), "user.alice.email");
    assert_eq!(key_for("team.infra", ConfigKey::SigningKey), "user.team.infra.signingkey");
    assert_eq!(key_for("bob", ConfigKey::SshKey), "user.bob.sshkey");
}

#[test]
fn tag_of_stored_keys() {
    assert_eq!(profile_tag("user.alice.name"), Some("alice".to_string()));
    assert_eq!(profile_tag("user.team.infra.sshkey"), Some("team.infra".to_string()));
    assert_eq!(profile_tag("user..email"), Some("".to_string()));
    assert_eq!(profile_tag("user.foo.bar"), None);
    assert_eq!(profile_tag("user.name"), None);
    assert_eq!(profile_tag("user.email"), None);
    assert_eq!(profile_tag("username.x.name"), None);
    assert_eq!(profile_tag("core.alice.name"), None);
    assert_eq!(profile_tag(""), None);
    assert_eq!(profile_tag("user.alice.name.extra"), None);
}

#[test]
fn entries_for_required_fields_only() {
    let i = identity("alice", None, None);
    let e = entries_for(&i);
    assert_eq!(
        e,
        vec![
            ("user.alice.name".to_string(), "alice name".to_string()),
            ("user.alice.email".to_string(), "alice@example.com".to_string()),
        ]
    );
}

#[test]
fn entries_for_all_fields() {
    let i = identity("work", Some("ABCD1234"), Some("/home/u/.ssh/id_work"));
    let e = entries_for(&i);
    assert_eq!(
        e,
        vec![
            ("user.work.name".to_string(), "work name".to_string()),
            ("user.work.email".to_string(), "work@example.com".to_string()),
            ("user.work.signingkey".to_string(), "ABCD1234".to_string()),
            ("user.work.sshkey".to_string(), "/home/u/.ssh/id_work".to_string()),
        ]
    );
}

#[test]
fn entries_for_ssh_key_without_signing_key() {
    let i = identity("home", None, Some("/k"));
    let e = entries_for(&i);
    assert_eq!(e.len(), 3);
    assert_eq!(e[2], ("user.home.sshkey".to_string(), "/k".to_string()));
}

#[test]
fn two_distinct_profiles_are_both_listed() {
    let mut store = BTreeMap::new();
    add(&mut store, &identity("alice", None, None));
    add(&mut store, &identity("bob", Some("K"), None));
    let tags = listed(&store);
    assert_eq!(tags.len(), 2);
    assert_eq!(as_set(&tags), as_set(&strings(&["alice", "bob"])));
}

#[test]
fn adding_twice_stores_the_same_as_once() {
    let i = identity("alice", Some("K1"), Some("/k"));
    let mut once = BTreeMap::new();
    add(&mut once, &i);
    let mut twice = BTreeMap::new();
    add(&mut twice, &i);
    add(&mut twice, &i);
    assert_eq!(once, twice);
    assert_eq!(listed(&twice), strings(&["alice"]));
}

#[test]
fn absent_signing_key_keeps_earlier_one() {
    let mut store = BTreeMap::new();
    add(&mut store, &identity("alice", Some("OLDKEY"), None));
    let mut later = identity("alice", None, None);
    later.name = "Alice Renamed".to_string();
    add(&mut store, &later);
    assert_eq!(store.get("user.alice.signingkey").map(|s| s.as_str()), Some("OLDKEY"));
    assert_eq!(store.get("user.alice.name").map(|s| s.as_str()), Some("Alice Renamed"));
}

#[test]
fn dotted_id_round_trips_whole() {
    let mut store = BTreeMap::new();
    add(&mut store, &identity("team.infra", Some("K"), Some("/k")));
    assert_eq!(listed(&store), strings(&["team.infra"]));
}

#[test]
fn foreign_user_keys_are_ignored() {
    let mut store = BTreeMap::new();
    add(&mut store, &identity("alice", None, None));
    store.insert("user.foo.bar".to_string(), "x".to_string());
    store.insert("user.name".to_string(), "Plain".to_string());
    store.insert("user.alice.color".to_string(), "blue".to_string());
    assert_eq!(listed(&store), strings(&["alice"]));
}

#[test]
fn no_user_entries_lists_nothing() {
    assert!(list_identities(&Vec::new()).is_empty());
    let names = strings(&["core.editor", "core.pager", "alias.co"]);
    assert!(list_identities(&names).is_empty());
}

#[test]
fn scenario_alice_and_bob() {
    let names = strings(&["user.alice.name", "user.alice.email", "user.bob.name"]);
    let tags = list_identities(&names);
    assert_eq!(tags.len(), 2);
    assert_eq!(as_set(&tags), as_set(&strings(&["alice", "bob"])));
}

#[test]
fn duplicate_tags_collapse() {
    let names = strings(&[
        "user.a.name",
        "user.b.email",
        "user.a.email",
        "user.a.signingkey",
        "user.b.sshkey",
    ]);
    assert_eq!(as_set(&list_identities(&names)), as_set(&strings(&["a", "b"])));
    assert_eq!(list_identities(&names).len(), 2);
}

#[test]
fn tags_come_in_order_of_first_key() {
    let names = strings(&[
        "user.zed.email",
        "core.editor",
        "user.amy.name",
        "user.zed.name",
        "user.mid.dle.sshkey",
        "user.amy.signingkey",
    ]);
    assert_eq!(list_identities(&names), strings(&["zed", "amy", "mid.dle"]));
}
