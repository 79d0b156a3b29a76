use aws_profiles::{
    get_cachable_profiles, get_usable_profiles, is_multi_stage_role_assuming_profile,
    is_single_role_assuming_profile, Profile, Table,
};

fn profile(order: isize, source: Option<&str>, role: Option<&str>, mfa: Option<&str>) -> Profile {
    let mut profile = Profile::new(order);
    profile.source_profile = source.map(String::from);
    profile.role_arn = role.map(String::from);
    profile.mfa_serial = mfa.map(String::from);
    profile
}

fn table(entries: Vec<(&str, Profile)>) -> Table<Profile> {
    let mut table = Table::new();
    for (name, profile) in entries {
        table.insert(name.to_string(), profile);
    }
    table
}

fn names(list: &[&str]) -> Vec<String> {
    list.iter().map(|name| name.to_string()).collect()
}

fn table_names(table: &Table<Profile>) -> Vec<String> {
    (0..table.len()).map(|i| table.name(i).clone()).collect()
}

fn three_stage() -> Table<Profile> {
    table(vec![
        ("base", profile(0, None, None, None)),
        ("mid", profile(1, Some("base"), Some("arn:aws:iam::1:role/Mid"), None)),
        ("top", profile(2, Some("mid"), Some("arn:aws:iam::1:role/Top"), None)),
    ])
}

#[test]
fn single_hop_needs_role_and_backing_credentials() {
    let credentials = names(&["base"]);
    let with_role = profile(1, Some("base"), Some("arn:r"), None);
    let without_role = profile(1, Some("base"), None, None);
    let other_source = profile(1, Some("elsewhere"), Some("arn:r"), None);
    let name = "mid".to_string();
    assert!(is_single_role_assuming_profile(&with_role, &name, &credentials));
    assert!(!is_single_role_assuming_profile(&without_role, &name, &credentials));
    assert!(!is_single_role_assuming_profile(&other_source, &name, &credentials));
    assert!(!is_single_role_assuming_profile(&with_role, &name, &Vec::new()));
}

#[test]
fn single_hop_profile_without_source_is_backed_by_itself() {
    let own = profile(0, None, Some("arn:r"), None);
    assert!(is_single_role_assuming_profile(&own, &"own".to_string(), &names(&["own"])));
    assert!(!is_single_role_assuming_profile(&own, &"own".to_string(), &names(&["other"])));
    let no_role = profile(0, None, None, None);
    assert!(!is_single_role_assuming_profile(&no_role, &"own".to_string(), &names(&["own"])));
}

#[test]
fn three_stage_scenario_is_classified() {
    let profiles = three_stage();
    let credentials = names(&["base"]);
    let mid = profiles.get(&"mid".to_string()).unwrap();
    assert!(is_single_role_assuming_profile(mid, &"mid".to_string(), &credentials));
    assert!(is_multi_stage_role_assuming_profile(&profiles, &"top".to_string()));
    assert!(!is_multi_stage_role_assuming_profile(&profiles, &"base".to_string()));
    assert_eq!(get_usable_profiles(&profiles, &credentials), names(&["mid", "top"]));
}

#[test]
fn multi_hop_is_false_for_unresolved_source() {
    let profiles = table(vec![("x", profile(0, Some("y"), Some("arn:x"), None))]);
    assert!(!is_multi_stage_role_assuming_profile(&profiles, &"x".to_string()));
    assert_eq!(get_usable_profiles(&profiles, &Vec::new()), Vec::<String>::new());
}

#[test]
fn multi_hop_is_false_when_start_has_no_role() {
    let profiles = table(vec![
        ("base", profile(0, None, None, None)),
        ("mid", profile(1, Some("base"), Some("arn:mid"), None)),
        ("plain", profile(2, Some("mid"), None, None)),
    ]);
    assert!(!is_multi_stage_role_assuming_profile(&profiles, &"plain".to_string()));
    assert!(is_multi_stage_role_assuming_profile(&profiles, &"mid".to_string()));
}

#[test]
fn multi_hop_is_true_for_chain_of_role_profiles() {
    let profiles = table(vec![
        ("a", profile(0, Some("b"), Some("arn:a"), None)),
        ("b", profile(1, None, Some("arn:b"), None)),
    ]);
    assert!(is_multi_stage_role_assuming_profile(&profiles, &"a".to_string()));
    assert!(!is_multi_stage_role_assuming_profile(&profiles, &"b".to_string()));
}

#[test]
fn cyclic_chain_does_not_stop_the_classification_of_others() {
    let profiles = table(vec![
        ("loop-a", profile(0, Some("loop-b"), Some("arn:a"), None)),
        ("loop-b", profile(1, Some("loop-a"), Some("arn:b"), None)),
        ("base", profile(2, None, None, None)),
        ("mid", profile(3, Some("base"), Some("arn:mid"), None)),
    ]);
    assert!(!is_multi_stage_role_assuming_profile(&profiles, &"loop-a".to_string()));
    assert!(!is_multi_stage_role_assuming_profile(&profiles, &"loop-b".to_string()));
    assert_eq!(get_usable_profiles(&profiles, &names(&["base"])), names(&["mid"]));
}

#[test]
fn usable_profiles_come_in_table_order() {
    let profiles = table(vec![
        ("z", profile(0, Some("keys"), Some("arn:z"), None)),
        ("keys", profile(1, None, None, None)),
        ("a", profile(2, Some("keys"), Some("arn:a"), None)),
        ("lonely", profile(3, Some("nowhere"), None, None)),
    ]);
    assert_eq!(get_usable_profiles(&profiles, &names(&["keys"])), names(&["z", "a"]));
    assert_eq!(get_usable_profiles(&profiles, &Vec::new()), names(&["z", "a"]));
}

#[test]
fn mfa_profile_with_long_term_credentials_is_cacheable() {
    let profiles = table(vec![("mfa1", profile(0, None, None, Some("arn:aws:iam::1:mfa/me")))]);
    let cacheable = get_cachable_profiles(&profiles, &names(&["mfa1"]));
    assert_eq!(table_names(&cacheable), names(&["mfa1"]));
    let kept = cacheable.get(&"mfa1".to_string()).unwrap();
    assert_eq!(kept.mfa_serial, Some("arn:aws:iam::1:mfa/me".to_string()));
    assert_eq!(kept.order, 0);
    assert_eq!(get_cachable_profiles(&profiles, &Vec::new()).len(), 0);
}

#[test]
fn profile_with_role_is_never_cacheable() {
    let profiles = table(vec![
        ("both", profile(0, None, Some("arn:role"), Some("arn:mfa"))),
        ("sourced", profile(1, Some("keys"), Some("arn:role"), Some("arn:mfa"))),
        ("keys", profile(2, None, None, Some("arn:mfa"))),
    ]);
    let cacheable = get_cachable_profiles(&profiles, &names(&["both", "sourced", "keys"]));
    assert_eq!(table_names(&cacheable), names(&["keys"]));
    for i in 0..cacheable.len() {
        assert!(cacheable.value(i).role_arn.is_none());
    }
}

#[test]
fn cacheable_goes_by_the_backing_profile() {
    let mut extra = profile(1, Some("keys"), None, Some("arn:mfa"));
    extra.additional_properties.insert("region".to_string(), "eu-west-1".to_string());
    let profiles = table(vec![
        ("no-mfa", profile(0, None, None, None)),
        ("session", extra),
        ("own", profile(2, None, None, Some("arn:mfa"))),
    ]);
    let cacheable = get_cachable_profiles(&profiles, &names(&["keys", "no-mfa"]));
    assert_eq!(table_names(&cacheable), names(&["session"]));
    let kept = cacheable.get(&"session".to_string()).unwrap();
    assert_eq!(kept.source_profile, Some("keys".to_string()));
    assert_eq!(
        kept.additional_properties.get(&"region".to_string()),
        Some(&"eu-west-1".to_string())
    );
}

#[test]
fn cacheable_accepts_the_source_profile_suffix() {
    let profiles = table(vec![
        ("own", profile(0, None, None, Some("arn:mfa"))),
        ("session", profile(1, Some("keys"), None, Some("arn:mfa"))),
        ("other", profile(2, None, None, Some("arn:mfa"))),
    ]);
    let long_term = names(&["own::source-profile", "keys::source-profile", "other::source"]);
    let cacheable = get_cachable_profiles(&profiles, &long_term);
    assert_eq!(table_names(&cacheable), names(&["own", "session"]));
}
