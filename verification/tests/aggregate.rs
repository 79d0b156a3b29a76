use aws_profiles::{
    assemble_config, default_long_term_key_prefix, get_aws_config, get_cachable_profiles,
    get_usable_profiles, has_prefix, load_config, load_credentials, ConfigError, SourceFile,
};

const CONFIG: &str = "[default]\n\
                      region = eu-west-1\n\
                      [profile base]\n\
                      mfa_serial = arn:aws:iam::1:mfa/me\n\
                      [profile mid]\n\
                      source_profile = base\n\
                      role_arn = arn:aws:iam::1:role/Mid\n\
                      [profile top]\n\
                      source_profile = mid\n\
                      role_arn = arn:aws:iam::1:role/Top\n";

const CREDENTIALS: &str = "[base]\n\
                           aws_access_key_id = AKIABASE\n\
                           aws_secret_access_key = secret\n\
                           [session]\n\
                           aws_access_key_id = ASIASESSION\n\
                           aws_secret_access_key = secret\n\
                           aws_session_token = token\n";

fn names(list: &[&str]) -> Vec<String> {
    list.iter().map(|name| name.to_string()).collect()
}

#[test]
fn two_files_resolve_into_one_config() {
    let config = get_aws_config(Some(CONFIG), Some(CREDENTIALS)).unwrap();
    assert_eq!(config.config.len(), 4);
    assert_eq!(config.credentials_profiles, names(&["base", "session"]));
    assert_eq!(config.long_term_credentials_profiles, names(&["base"]));
    let top = config.config.get(&"top".to_string()).unwrap();
    assert_eq!(top.source_profile, Some("mid".to_string()));
    assert_eq!(top.order, 4);
}

#[test]
fn resolved_config_is_classified() {
    let config = get_aws_config(Some(CONFIG), Some(CREDENTIALS)).unwrap();
    assert_eq!(
        get_usable_profiles(&config.config, &config.credentials_profiles),
        names(&["mid", "top"])
    );
    let cacheable =
        get_cachable_profiles(&config.config, &config.long_term_credentials_profiles);
    assert_eq!(cacheable.len(), 1);
    assert_eq!(cacheable.name(0), "base");
}

#[test]
fn config_file_is_looked_at_first() {
    match get_aws_config(None, None) {
        Err(ConfigError::FileUnreadable { file }) => assert_eq!(file, SourceFile::Config),
        other => panic!("expected an unreadable file, got {:?}", other.map(|_| ())),
    }
    match get_aws_config(Some("[broken"), None) {
        Err(ConfigError::MalformedSection { file, .. }) => assert_eq!(file, SourceFile::Config),
        other => panic!("expected a malformed file, got {:?}", other.map(|_| ())),
    }
}

#[test]
fn credentials_file_can_fail_the_resolution() {
    match get_aws_config(Some(CONFIG), None) {
        Err(ConfigError::FileUnreadable { file }) => assert_eq!(file, SourceFile::Credentials),
        other => panic!("expected an unreadable file, got {:?}", other.map(|_| ())),
    }
    match get_aws_config(Some(CONFIG), Some("[broken")) {
        Err(ConfigError::MalformedSection { file, .. }) => {
            assert_eq!(file, SourceFile::Credentials)
        }
        other => panic!("expected a malformed file, got {:?}", other.map(|_| ())),
    }
}

#[test]
fn long_term_prefix_is_akia() {
    assert_eq!(default_long_term_key_prefix(), "AKIA");
}

#[test]
fn prefix_is_compared_character_by_character() {
    assert!(has_prefix("AKIAEXAMPLE", "AKIA"));
    assert!(has_prefix("AKIA", "AKIA"));
    assert!(has_prefix("anything", ""));
    assert!(!has_prefix("AKI", "AKIA"));
    assert!(!has_prefix("ASIAEXAMPLE", "AKIA"));
    assert!(!has_prefix("akiaexample", "AKIA"));
    assert!(!has_prefix("", "AKIA"));
    assert!(has_prefix("été", "ét"));
}

#[test]
fn long_term_prefix_can_be_overridden() {
    let profiles = load_config(Some(CONFIG)).unwrap();
    let credentials = load_credentials(Some(CREDENTIALS)).unwrap();
    let config = assemble_config(profiles, &credentials, "ASIA");
    assert_eq!(config.credentials_profiles, names(&["base", "session"]));
    assert_eq!(config.long_term_credentials_profiles, names(&["session"]));
    assert_eq!(config.config.len(), 4);
}

#[test]
fn credential_without_key_id_is_not_long_term() {
    let config = get_aws_config(Some(""), Some("[empty]\n[key]\naws_access_key_id=AKIAX\n"))
        .unwrap();
    assert_eq!(config.config.len(), 0);
    assert_eq!(config.credentials_profiles, names(&["empty", "key"]));
    assert_eq!(config.long_term_credentials_profiles, names(&["key"]));
}

#[test]
fn every_resolution_is_built_afresh() {
    let first = get_aws_config(Some(CONFIG), Some(CREDENTIALS)).unwrap();
    let second = get_aws_config(Some("[only]\n"), Some("")).unwrap();
    assert_eq!(first.config.len(), 4);
    assert_eq!(second.config.len(), 1);
    assert_eq!(second.credentials_profiles, Vec::<String>::new());
    let copy = first.clone();
    assert_eq!(copy.credentials_profiles, first.credentials_profiles);
    assert_eq!(copy.config.len(), 4);
}
