use aws_sso_navigator::profile::load_profiles;
use aws_sso_navigator::profile::Profile;
use aws_sso_navigator::selection::{
    list_names, next_pick, parse_unified_choice, resolve_triple, run_cascade, select_profile,
    unified_rows, SelectionError, SelectionState,
};

fn scenario_config() -> &'static str {
    "[sso-session acme-sso]\n\
     sso_start_url=https://acme.awsapps.com/start\n\
     [profile acme-dev-admin]\n\
     sso_session=acme-sso\n\
     sso_account_id=111111111111\n\
     sso_role_name=AdministratorAccess\n\
     [profile acme-prod-readonly]\n\
     sso_session=acme-sso\n\
     sso_account_id=222222222222\n\
     sso_role_name=ReadOnlyAccess\n"
}

fn empty_state() -> SelectionState {
    SelectionState { client: None, account: None, role: None }
}

fn picks(choices: &[Option<&str>]) -> Vec<Option<String>> {
    choices.iter().map(|c| c.map(|s| s.to_string())).collect()
}

#[test]
fn test_cascade_scenario_step_by_step() {
    let profiles = load_profiles(scenario_config());
    assert_eq!(profiles.len(), 2);

    // Step 1: the client picker offers exactly ["acme"].
    let (prompt, options) = next_pick(&profiles, &empty_state()).unwrap();
    assert_eq!(prompt, "Select Client");
    assert_eq!(options, vec!["acme".to_string()]);

    // Step 2: with the client picked, the account picker offers dev and prod.
    let st = SelectionState { client: Some("acme".to_string()), account: None, role: None };
    let (prompt, options) = next_pick(&profiles, &st).unwrap();
    assert_eq!(prompt, "Select Account");
    assert_eq!(options, vec!["dev".to_string(), "prod".to_string()]);

    // Step 3: with dev picked, the role picker offers admin alone.
    let st = SelectionState {
        client: Some("acme".to_string()),
        account: Some("dev".to_string()),
        role: None,
    };
    let (prompt, options) = next_pick(&profiles, &st).unwrap();
    assert_eq!(prompt, "Select Role");
    assert_eq!(options, vec!["admin".to_string()]);

    // The whole flow resolves to acme-dev-admin.
    let chosen = select_profile(
        &profiles,
        empty_state(),
        false,
        &picks(&[Some("acme"), Some("dev"), Some("admin")]),
    )
    .unwrap();
    assert_eq!(chosen.name, "acme-dev-admin");
}

#[test]
fn test_unified_scenario_row_and_resolution() {
    let profiles = load_profiles(scenario_config());
    let rows = unified_rows(&profiles);
    assert_eq!(rows[0], "acme | dev | admin | acme-dev-admin");

    let chosen = select_profile(
        &profiles,
        empty_state(),
        true,
        &picks(&[Some("acme | dev | admin | acme-dev-admin")]),
    )
    .unwrap();
    assert_eq!(chosen.name, "acme-dev-admin");
}

#[test]
fn test_explicit_triple_needs_no_picker() {
    let profiles = load_profiles(scenario_config());
    let presets = SelectionState {
        client: Some("acme".to_string()),
        account: Some("prod".to_string()),
        role: Some("readonly".to_string()),
    };
    // No scripted picks at all: nothing may be asked.
    let chosen = select_profile(&profiles, presets, false, &picks(&[])).unwrap();
    assert_eq!(chosen.name, "acme-prod-readonly");
}

#[test]
fn test_empty_configuration_fails_first() {
    let profiles = load_profiles("");
    let r = select_profile(&profiles, empty_state(), false, &picks(&[Some("x")]));
    assert!(matches!(r, Err(SelectionError::ConfigurationEmpty)));

    let r = select_profile(&profiles, empty_state(), true, &picks(&[Some("x")]));
    assert!(matches!(r, Err(SelectionError::ConfigurationEmpty)));
}

#[test]
fn test_cancellation_is_cancelled_not_incomplete() {
    let profiles = load_profiles(scenario_config());

    // Cancel at the first step.
    let r = select_profile(&profiles, empty_state(), false, &picks(&[None]));
    assert!(matches!(r, Err(SelectionError::SelectionCancelled)));

    // Cancel at the second step.
    let r = select_profile(&profiles, empty_state(), false, &picks(&[Some("acme"), None]));
    assert!(matches!(r, Err(SelectionError::SelectionCancelled)));

    // Cancel at the third step.
    let r = select_profile(
        &profiles,
        empty_state(),
        false,
        &picks(&[Some("acme"), Some("dev"), None]),
    );
    assert!(matches!(r, Err(SelectionError::SelectionCancelled)));

    // Cancelled unified pick too.
    let r = select_profile(&profiles, empty_state(), true, &picks(&[None]));
    assert!(matches!(r, Err(SelectionError::SelectionCancelled)));
}

#[test]
fn test_exhausted_picks_are_incomplete() {
    let profiles = load_profiles(scenario_config());
    let r = run_cascade(&profiles, empty_state(), &picks(&[Some("acme")]));
    assert!(matches!(r, Err(SelectionError::SelectionIncomplete)));
}

#[test]
fn test_empty_candidate_set_is_incomplete() {
    let profiles = load_profiles(scenario_config());
    // A preset client no profile carries leaves the account picker empty.
    let presets = SelectionState { client: Some("ghost".to_string()), account: None, role: None };
    let r = select_profile(&profiles, presets, false, &picks(&[Some("dev"), Some("admin")]));
    assert!(matches!(r, Err(SelectionError::SelectionIncomplete)));
}

#[test]
fn test_no_matching_profile() {
    let profiles = load_profiles(scenario_config());
    let r = resolve_triple(&profiles, "acme", "dev", "readonly");
    assert!(matches!(r, Err(SelectionError::NoMatchingProfile)));

    let presets = SelectionState {
        client: Some("acme".to_string()),
        account: Some("dev".to_string()),
        role: Some("readonly".to_string()),
    };
    let r = select_profile(&profiles, presets, false, &picks(&[]));
    assert!(matches!(r, Err(SelectionError::NoMatchingProfile)));
}

#[test]
fn test_resolution_is_repeatable() {
    let profiles = load_profiles(scenario_config());
    let first = resolve_triple(&profiles, "acme", "prod", "readonly").unwrap();
    let second = resolve_triple(&profiles, "acme", "prod", "readonly").unwrap();
    assert_eq!(first.name, second.name);
    assert_eq!(first.sso_account_id, second.sso_account_id);
    assert_eq!(first.sso_start_url, second.sso_start_url);
}

#[test]
fn test_parse_unified_choice_trims_parts() {
    let t = parse_unified_choice("acme | dev | admin | acme-dev-admin").unwrap();
    assert_eq!(t.0, "acme");
    assert_eq!(t.1, "dev");
    assert_eq!(t.2, "admin");

    assert!(parse_unified_choice("no pipes here").is_none());
    assert!(parse_unified_choice("one | two").is_none());
}

#[test]
fn test_every_unified_row_parses_back() {
    let profiles = load_profiles(scenario_config());
    let rows = unified_rows(&profiles);
    assert_eq!(rows.len(), profiles.len());
    for (row, p) in rows.iter().zip(profiles.iter()) {
        let (client, account, role) = parse_unified_choice(row).unwrap();
        assert_eq!(client, p.client);
        assert_eq!(account, p.account);
        assert_eq!(role, p.role);
    }
}

#[test]
fn test_list_names_keeps_store_order() {
    let profiles = load_profiles(scenario_config());
    let names = list_names(&profiles);
    assert_eq!(names, vec!["acme-dev-admin".to_string(), "acme-prod-readonly".to_string()]);
}

#[test]
fn test_resolve_triple_prefers_first_match() {
    let make = |name: &str| Profile {
        name: name.to_string(),
        client: "c".to_string(),
        account: "a".to_string(),
        role: "r".to_string(),
        sso_account_id: "1".to_string(),
        sso_role_name: "R".to_string(),
        sso_start_url: "https://x".to_string(),
    };
    let profiles = vec![make("first"), make("second")];
    let chosen = resolve_triple(&profiles, "c", "a", "r").unwrap();
    assert_eq!(chosen.name, "first");
}
