use aws_sso_navigator::profile::{
    load_profiles, lookup_prop, parse_profile, profile_section_name, profiles_from_sections,
    session_section_name, ConfigSection,
};

fn pairs(kv: &[(&str, &str)]) -> Vec<(String, String)> {
    kv.iter().map(|(k, v)| (k.to_string(), v.to_string())).collect()
}

fn section(name: &str, kv: &[(&str, &str)]) -> ConfigSection {
    ConfigSection { name: Some(name.to_string()), props: pairs(kv) }
}

#[test]
fn test_load_profiles_empty_file() {
    let profiles = load_profiles("");
    assert!(profiles.is_empty());
}

#[test]
fn test_load_profiles_valid_format() {
    let text = "[sso-session example]\n\
                sso_start_url=https://example.com\n\
                [profile client1-dev-admin]\n\
                sso_session=example\n\
                sso_account_id=123456789012\n\
                sso_role_name=AdministratorAccess\n\
                [profile client2-prod-readonly]\n\
                sso_session=example\n\
                sso_account_id=987654321098\n\
                sso_role_name=ReadOnlyAccess\n";

    let profiles = load_profiles(text);
    assert_eq!(profiles.len(), 2);

    assert_eq!(profiles[0].client, "client1");
    assert_eq!(profiles[0].account, "dev");
    assert_eq!(profiles[0].role, "admin");
    assert_eq!(profiles[0].name, "client1-dev-admin");

    assert_eq!(profiles[1].client, "client2");
    assert_eq!(profiles[1].account, "prod");
    assert_eq!(profiles[1].role, "readonly");
}

#[test]
fn test_load_profiles_invalid_format() {
    let text = "[sso-session example]\n\
                sso_start_url=https://example.com\n\
                [profile invalid]\n\
                sso_session=example\n\
                [profile client-dev]\n\
                sso_session=example\n\
                [profile valid-dev-admin]\n\
                sso_session=example\n\
                sso_account_id=123456789012\n\
                sso_role_name=AdministratorAccess\n";

    let profiles = load_profiles(text);
    assert_eq!(profiles.len(), 1);
    assert_eq!(profiles[0].name, "valid-dev-admin");
}

#[test]
fn test_load_profiles_multi_part_role() {
    let text = "[sso-session example]\n\
                sso_start_url=https://example.com\n\
                [profile client-dev-power-user-access]\n\
                sso_session=example\n\
                sso_account_id=123456789012\n\
                sso_role_name=PowerUserAccess\n";

    let profiles = load_profiles(text);
    assert_eq!(profiles.len(), 1);
    assert_eq!(profiles[0].role, "power-user-access");
}

#[test]
fn test_profile_fields_resolved_from_session() {
    let text = "[sso-session acme-sso]\n\
                sso_start_url=https://acme.awsapps.com/start\n\
                [profile acme-dev-admin]\n\
                sso_session=acme-sso\n\
                sso_account_id=111111111111\n\
                sso_role_name=AdministratorAccess\n";
    let profiles = load_profiles(text);
    assert_eq!(profiles.len(), 1);
    assert_eq!(profiles[0].sso_account_id, "111111111111");
    assert_eq!(profiles[0].sso_role_name, "AdministratorAccess");
    assert_eq!(profiles[0].sso_start_url, "https://acme.awsapps.com/start");
}

#[test]
fn test_profile_missing_session_section_dropped() {
    let text = "[profile acme-dev-admin]\n\
                sso_session=missing\n\
                sso_account_id=111111111111\n\
                sso_role_name=Admin\n";
    let profiles = load_profiles(text);
    assert!(profiles.is_empty());
}

#[test]
fn test_session_without_start_url_dropped() {
    let text = "[sso-session acme-sso]\n\
                sso_region=eu-west-1\n\
                [profile acme-dev-admin]\n\
                sso_session=acme-sso\n\
                sso_account_id=111111111111\n\
                sso_role_name=Admin\n";
    let profiles = load_profiles(text);
    assert!(profiles.is_empty());
}

#[test]
fn test_parse_profile_decomposes_name() {
    let sections = vec![section("sso-session s", &[("sso_start_url", "https://x")])];
    let props = pairs(&[
        ("sso_session", "s"),
        ("sso_account_id", "1"),
        ("sso_role_name", "r"),
    ]);
    let p = parse_profile("alpha-beta-gamma-delta", &props, &sections).unwrap();
    assert_eq!(p.client, "alpha");
    assert_eq!(p.account, "beta");
    assert_eq!(p.role, "gamma-delta");

    assert!(parse_profile("alpha-beta", &props, &sections).is_none());
}

#[test]
fn test_profiles_from_sections_skips_non_profile_sections() {
    let sections = vec![
        section("sso-session s", &[("sso_start_url", "https://x")]),
        section("default", &[("region", "eu-west-1")]),
        section(
            "profile a-b-c",
            &[("sso_session", "s"), ("sso_account_id", "1"), ("sso_role_name", "c")],
        ),
    ];
    let profiles = profiles_from_sections(&sections);
    assert_eq!(profiles.len(), 1);
    assert_eq!(profiles[0].name, "a-b-c");
}

#[test]
fn test_lookup_prop_first_value_wins() {
    let props = pairs(&[("k", "first"), ("k", "second"), ("other", "x")]);
    assert_eq!(lookup_prop(&props, "k"), Some("first".to_string()));
    assert_eq!(lookup_prop(&props, "absent"), None);
}

#[test]
fn test_section_name_builders() {
    assert_eq!(profile_section_name("a-b-c"), "profile a-b-c");
    assert_eq!(session_section_name("acme-sso"), "sso-session acme-sso");
}
