use aws_sso_navigator::profile::Profile;
use aws_sso_navigator::tree::{
    build_tree_items, is_expanded, toggle_expanded, tree_next, tree_previous, tree_select_action,
    TreeAction,
};

fn profile(name: &str, client: &str, account: &str, role: &str) -> Profile {
    Profile {
        name: name.to_string(),
        client: client.to_string(),
        account: account.to_string(),
        role: role.to_string(),
        sso_account_id: "1".to_string(),
        sso_role_name: "R".to_string(),
        sso_start_url: "https://x".to_string(),
    }
}

fn sample() -> Vec<Profile> {
    vec![
        profile("zeta-prod-admin", "zeta", "prod", "admin"),
        profile("acme-dev-admin", "acme", "dev", "admin"),
        profile("acme-prod-readonly", "acme", "prod", "readonly"),
    ]
}

#[test]
fn test_collapsed_tree_shows_sorted_clients() {
    let items = build_tree_items(&sample(), &vec![]);
    let rows: Vec<(&str, usize)> =
        items.iter().map(|it| (it.client.as_str(), it.level)).collect();
    assert_eq!(rows, vec![("acme", 0), ("zeta", 0)]);
}

#[test]
fn test_expanded_client_shows_accounts() {
    let expanded = vec!["acme".to_string()];
    let items = build_tree_items(&sample(), &expanded);
    let rows: Vec<(String, String, usize)> = items
        .iter()
        .map(|it| (it.client.clone(), it.account.clone(), it.level))
        .collect();
    assert_eq!(
        rows,
        vec![
            ("acme".to_string(), "".to_string(), 0),
            ("acme".to_string(), "dev".to_string(), 1),
            ("acme".to_string(), "prod".to_string(), 1),
            ("zeta".to_string(), "".to_string(), 0),
        ]
    );
}

#[test]
fn test_expanded_account_shows_roles() {
    let expanded = vec!["acme".to_string(), "acme-dev".to_string()];
    let items = build_tree_items(&sample(), &expanded);
    let roles: Vec<&str> = items
        .iter()
        .filter(|it| it.level == 2)
        .map(|it| it.role.as_str())
        .collect();
    assert_eq!(roles, vec!["admin"]);
}

#[test]
fn test_tree_navigation_wraps() {
    assert_eq!(tree_next(None, 3), Some(0));
    assert_eq!(tree_next(Some(0), 3), Some(1));
    assert_eq!(tree_next(Some(2), 3), Some(0));
    assert_eq!(tree_next(Some(0), 0), None);

    assert_eq!(tree_previous(None, 3), Some(0));
    assert_eq!(tree_previous(Some(0), 3), Some(2));
    assert_eq!(tree_previous(Some(2), 3), Some(1));
    assert_eq!(tree_previous(Some(0), 0), None);
}

#[test]
fn test_toggle_expanded_flips_membership() {
    let mut expanded: Vec<String> = vec![];
    toggle_expanded(&mut expanded, "acme".to_string());
    assert!(is_expanded(&expanded, "acme"));
    toggle_expanded(&mut expanded, "acme".to_string());
    assert!(!is_expanded(&expanded, "acme"));
}

#[test]
fn test_select_action_by_level() {
    let expanded = vec!["acme".to_string(), "acme-dev".to_string()];
    let items = build_tree_items(&sample(), &expanded);
    // Row 0 is the acme client row.
    match tree_select_action(&items, Some(0)) {
        TreeAction::Toggle { key } => assert_eq!(key, "acme"),
        _ => panic!("a client row toggles"),
    }
    // Row 1 is the dev account row.
    match tree_select_action(&items, Some(1)) {
        TreeAction::Toggle { key } => assert_eq!(key, "acme-dev"),
        _ => panic!("an account row toggles"),
    }
    // Row 2 is the admin role leaf.
    match tree_select_action(&items, Some(2)) {
        TreeAction::Choose { client, account, role } => {
            assert_eq!(client, "acme");
            assert_eq!(account, "dev");
            assert_eq!(role, "admin");
        }
        _ => panic!("a role leaf chooses"),
    }
    assert!(matches!(tree_select_action(&items, None), TreeAction::Ignore));
    assert!(matches!(tree_select_action(&items, Some(99)), TreeAction::Ignore));
}
