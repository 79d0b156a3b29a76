use aws_profiles::{get_profile_list, ConfigError, Profile, Table};

fn profile(order: isize, source: Option<&str>, role: Option<&str>) -> Profile {
    let mut profile = Profile::new(order);
    profile.source_profile = source.map(String::from);
    profile.role_arn = role.map(String::from);
    profile
}

fn table(entries: Vec<(&str, Profile)>) -> Table<Profile> {
    let mut table = Table::new();
    for (name, profile) in entries {
        table.insert(name.to_string(), profile);
    }
    table
}

fn names(chain: &[&str]) -> Vec<String> {
    chain.iter().map(|name| name.to_string()).collect()
}

#[test]
fn profile_without_source_is_its_own_chain() {
    let profiles = table(vec![
        ("solo", profile(0, None, None)),
        ("role", profile(1, None, Some("arn:aws:iam::1:role/R"))),
    ]);
    assert_eq!(get_profile_list(&profiles, &"solo".to_string()).unwrap(), names(&["solo"]));
    assert_eq!(get_profile_list(&profiles, &"role".to_string()).unwrap(), names(&["role"]));
}

#[test]
fn chain_that_ends_at_credential_profile_lists_it_first() {
    let profiles = table(vec![
        ("base", profile(0, None, None)),
        ("mid", profile(1, Some("base"), Some("arn:aws:iam::1:role/Mid"))),
        ("top", profile(2, Some("mid"), Some("arn:aws:iam::1:role/Top"))),
    ]);
    assert_eq!(
        get_profile_list(&profiles, &"top".to_string()).unwrap(),
        names(&["base", "mid", "top"])
    );
    assert_eq!(get_profile_list(&profiles, &"mid".to_string()).unwrap(), names(&["base", "mid"]));
    assert_eq!(get_profile_list(&profiles, &"base".to_string()).unwrap(), names(&["base"]));
}

#[test]
fn chain_that_ends_at_role_profile_lists_start_first() {
    let profiles = table(vec![
        ("a", profile(0, Some("b"), Some("arn:a"))),
        ("b", profile(1, Some("c"), Some("arn:b"))),
        ("c", profile(2, None, Some("arn:c"))),
    ]);
    assert_eq!(get_profile_list(&profiles, &"a".to_string()).unwrap(), names(&["a", "b", "c"]));
}

#[test]
fn missing_source_ends_the_chain_without_error() {
    let profiles = table(vec![("x", profile(0, Some("y"), Some("arn:x")))]);
    assert_eq!(get_profile_list(&profiles, &"x".to_string()).unwrap(), names(&["x", "y"]));
}

#[test]
fn missing_source_further_down_ends_the_chain_start_first() {
    let profiles = table(vec![
        ("a", profile(0, Some("b"), None)),
        ("b", profile(1, Some("gone"), Some("arn:b"))),
    ]);
    assert_eq!(get_profile_list(&profiles, &"a".to_string()).unwrap(), names(&["a", "b", "gone"]));
}

#[test]
fn two_profile_cycle_is_reported_with_both_names() {
    let profiles = table(vec![
        ("a", profile(0, Some("b"), Some("arn:a"))),
        ("b", profile(1, Some("a"), Some("arn:b"))),
    ]);
    match get_profile_list(&profiles, &"a".to_string()) {
        Err(ConfigError::CyclicProfileChain { chain }) => {
            assert_eq!(chain, names(&["a", "b", "a"]));
            assert!(chain.contains(&"a".to_string()));
            assert!(chain.contains(&"b".to_string()));
        }
        other => panic!("expected a cycle, got {:?}", other),
    }
    match get_profile_list(&profiles, &"b".to_string()) {
        Err(ConfigError::CyclicProfileChain { chain }) => {
            assert_eq!(chain, names(&["b", "a", "b"]));
        }
        other => panic!("expected a cycle, got {:?}", other),
    }
}

#[test]
fn profile_that_names_itself_is_a_cycle() {
    let profiles = table(vec![("a", profile(0, Some("a"), None))]);
    match get_profile_list(&profiles, &"a".to_string()) {
        Err(ConfigError::CyclicProfileChain { chain }) => {
            assert_eq!(chain, names(&["a", "a"]));
        }
        other => panic!("expected a cycle, got {:?}", other),
    }
}

#[test]
fn longer_cycle_is_reported_with_every_name_visited() {
    let profiles = table(vec![
        ("start", profile(0, Some("a"), None)),
        ("a", profile(1, Some("b"), Some("arn:a"))),
        ("b", profile(2, Some("c"), Some("arn:b"))),
        ("c", profile(3, Some("a"), Some("arn:c"))),
    ]);
    match get_profile_list(&profiles, &"start".to_string()) {
        Err(ConfigError::CyclicProfileChain { chain }) => {
            assert_eq!(chain, names(&["start", "a", "b", "c", "a"]));
        }
        other => panic!("expected a cycle, got {:?}", other),
    }
}

#[test]
fn credential_profile_ends_the_chain_before_its_link_is_followed() {
    let profiles = table(vec![
        ("a", profile(0, Some("b"), Some("arn:a"))),
        ("b", profile(1, Some("a"), None)),
    ]);
    assert_eq!(get_profile_list(&profiles, &"a".to_string()).unwrap(), names(&["b", "a"]));
}

#[test]
fn start_needs_no_role_to_have_a_chain() {
    let profiles = table(vec![
        ("base", profile(0, None, None)),
        ("plain", profile(1, Some("base"), None)),
    ]);
    assert_eq!(
        get_profile_list(&profiles, &"plain".to_string()).unwrap(),
        names(&["base", "plain"])
    );
}
