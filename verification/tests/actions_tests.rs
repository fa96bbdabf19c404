use aws_sso_navigator::actions::{
    build_console_url, find_profile_by_name, normalize_sso_start_url, plan_action,
    post_action_steps, should_attempt_login, PrimaryAction,
};
use aws_sso_navigator::profile::Profile;

fn profile(name: &str) -> Profile {
    Profile {
        name: name.to_string(),
        client: "acme".to_string(),
        account: "dev".to_string(),
        role: "admin".to_string(),
        sso_account_id: "111111111111".to_string(),
        sso_role_name: "AdministratorAccess".to_string(),
        sso_start_url: "https://acme.awsapps.com/start/#/".to_string(),
    }
}

#[test]
fn test_normalize_sso_start_url() {
    assert_eq!(
        normalize_sso_start_url("https://account-1.awsapps.com/start"),
        "https://account-1.awsapps.com/start"
    );
    assert_eq!(
        normalize_sso_start_url("https://account-2.awsapps.com/start/"),
        "https://account-2.awsapps.com/start"
    );
    assert_eq!(
        normalize_sso_start_url("https://account-3.awsapps.com/start/#"),
        "https://account-3.awsapps.com/start"
    );
    assert_eq!(
        normalize_sso_start_url("https://account-4.awsapps.com/start/#/"),
        "https://account-4.awsapps.com/start"
    );
}

#[test]
fn test_build_console_url() {
    assert_eq!(
        build_console_url("https://acme.awsapps.com/start/#/", "111111111111", "AdminRole"),
        "https://acme.awsapps.com/start/#/console?account_id=111111111111&role_name=AdminRole"
    );
}

#[test]
fn test_should_attempt_login() {
    // A valid session is reused only when checking is on and no force.
    assert!(!should_attempt_login(true, false, true));
    assert!(should_attempt_login(true, true, true));
    assert!(should_attempt_login(false, false, true));
    assert!(should_attempt_login(true, false, false));
}

#[test]
fn test_plan_action_console_or_login() {
    let p = profile("acme-dev-admin");
    match plan_action(true, &p) {
        PrimaryAction::OpenConsole { url } => assert_eq!(
            url,
            "https://acme.awsapps.com/start/#/console?account_id=111111111111&role_name=AdministratorAccess"
        ),
        _ => panic!("console flag must open the console"),
    }
    match plan_action(false, &p) {
        PrimaryAction::Login { profile_name } => assert_eq!(profile_name, "acme-dev-admin"),
        _ => panic!("without the console flag the action is a login"),
    }
}

#[test]
fn test_post_action_steps_gate_on_success() {
    assert_eq!(post_action_steps(true, true), (true, true));
    assert_eq!(post_action_steps(true, false), (true, false));
    assert_eq!(post_action_steps(false, true), (false, false));
    assert_eq!(post_action_steps(false, false), (false, false));
}

#[test]
fn test_find_profile_by_name() {
    let profiles = vec![profile("one"), profile("two")];
    assert_eq!(find_profile_by_name(&profiles, "two").unwrap().name, "two");
    assert!(find_profile_by_name(&profiles, "three").is_none());
}
