use aws_sso_navigator::import::{
    make_import_profile_name, render_profile_section, sanitize_account_name, sanitize_role_name,
    section_exists,
};
use aws_sso_navigator::profile::ConfigSection;

#[test]
fn test_sanitize_account_name_strips_spaces_and_dashes() {
    assert_eq!(sanitize_account_name("My Account-Name"), "MyAccount_Name");
    assert_eq!(sanitize_account_name("plain"), "plain");
    assert_eq!(sanitize_account_name(""), "");
}

#[test]
fn test_sanitize_role_name_replaces_dashes() {
    assert_eq!(sanitize_role_name("Power-User-Access"), "Power_User_Access");
    assert_eq!(sanitize_role_name("Admin"), "Admin");
}

#[test]
fn test_make_import_profile_name() {
    assert_eq!(
        make_import_profile_name("acme-sso", "Dev Account-1", "Read-Only"),
        "acme-sso-DevAccount_1-Read_Only"
    );
}

#[test]
fn test_render_profile_section() {
    let text = render_profile_section("acme-dev-admin", "acme-sso", "111", "Admin", "eu-west-1");
    assert_eq!(
        text,
        "\n[profile acme-dev-admin]\nsso_session = acme-sso\nsso_account_id = 111\nsso_role_name = Admin\nregion = eu-west-1\noutput = json\n"
    );
}

#[test]
fn test_section_exists() {
    let sections = vec![
        ConfigSection { name: Some("profile a-b-c".to_string()), props: vec![] },
        ConfigSection { name: None, props: vec![] },
    ];
    assert!(section_exists(&sections, "profile a-b-c"));
    assert!(!section_exists(&sections, "profile x-y-z"));
}
