use aws_sso_navigator::candidates::{
    select_filtered_values, select_unique_values, unique_accounts, unique_clients, unique_roles,
    ProfileField, SelectionFilter,
};
use aws_sso_navigator::profile::Profile;

fn profile(name: &str, client: &str, account: &str, role: &str) -> Profile {
    Profile {
        name: name.to_string(),
        client: client.to_string(),
        account: account.to_string(),
        role: role.to_string(),
        sso_account_id: "1".to_string(),
        sso_role_name: "R".to_string(),
        sso_start_url: "https://x".to_string(),
    }
}

fn sample() -> Vec<Profile> {
    vec![
        profile("zeta-prod-admin", "zeta", "prod", "admin"),
        profile("acme-dev-admin", "acme", "dev", "admin"),
        profile("acme-prod-readonly", "acme", "prod", "readonly"),
        profile("acme-dev-readonly", "acme", "dev", "readonly"),
        profile("zeta-prod-admin2", "zeta", "prod", "admin2"),
    ]
}

#[test]
fn test_unique_clients_sorted_and_distinct() {
    let profiles = sample();
    assert_eq!(unique_clients(&profiles), vec!["acme".to_string(), "zeta".to_string()]);
    assert_eq!(
        select_unique_values(&profiles, ProfileField::Client),
        vec!["acme".to_string(), "zeta".to_string()]
    );
}

#[test]
fn test_unique_accounts_filtered_by_client() {
    let profiles = sample();
    assert_eq!(
        unique_accounts(&profiles, &"acme".to_string()),
        vec!["dev".to_string(), "prod".to_string()]
    );
    assert_eq!(unique_accounts(&profiles, &"zeta".to_string()), vec!["prod".to_string()]);
    assert!(unique_accounts(&profiles, &"ghost".to_string()).is_empty());
}

#[test]
fn test_unique_roles_filtered_by_client_and_account() {
    let profiles = sample();
    assert_eq!(
        unique_roles(&profiles, &"acme".to_string(), &"dev".to_string()),
        vec!["admin".to_string(), "readonly".to_string()]
    );
    assert_eq!(
        unique_roles(&profiles, &"zeta".to_string(), &"prod".to_string()),
        vec!["admin".to_string(), "admin2".to_string()]
    );
}

#[test]
fn test_select_filtered_values_matches_both_slots() {
    let profiles = sample();
    let filter = SelectionFilter {
        client: Some("acme".to_string()),
        account: Some("prod".to_string()),
    };
    assert_eq!(
        select_filtered_values(&profiles, &filter, ProfileField::Role),
        vec!["readonly".to_string()]
    );
    let open = SelectionFilter { client: None, account: None };
    assert_eq!(
        select_filtered_values(&profiles, &open, ProfileField::Account),
        vec!["dev".to_string(), "prod".to_string()]
    );
}

#[test]
fn test_duplicates_collapse_once() {
    let profiles = vec![
        profile("a-x-r1", "a", "x", "r1"),
        profile("a-x-r2", "a", "x", "r2"),
        profile("a-x-r3", "a", "x", "r3"),
    ];
    assert_eq!(unique_clients(&profiles), vec!["a".to_string()]);
    assert_eq!(unique_accounts(&profiles, &"a".to_string()), vec!["x".to_string()]);
}
