use aws_sso_navigator::settings::{merge_settings, AuthRequest, Settings};

fn no_args() -> AuthRequest {
    AuthRequest {
        client: None,
        account: None,
        role: None,
        unified: false,
        step_by_step: false,
        set_default: false,
        list: false,
        recent: false,
        force_reauth: false,
        console: false,
    }
}

#[test]
fn test_builtin_defaults() {
    let eff = merge_settings(&no_args(), &Settings::default());
    assert_eq!(eff.client, None);
    assert_eq!(eff.account, None);
    assert_eq!(eff.role, None);
    assert!(!eff.unified_mode);
    assert!(!eff.set_default);
    assert!(!eff.list);
    assert!(!eff.recent);
    assert!(!eff.force_reauth);
    assert!(eff.check_session);
    assert_eq!(eff.max_recent_profiles, 100);
    assert_eq!(eff.browser, None);
}

#[test]
fn test_explicit_input_beats_settings() {
    let mut settings = Settings::default();
    settings.default_client = Some("fallback".to_string());
    settings.default_account = Some("acct".to_string());
    let mut args = no_args();
    args.client = Some("explicit".to_string());
    let eff = merge_settings(&args, &settings);
    assert_eq!(eff.client, Some("explicit".to_string()));
    assert_eq!(eff.account, Some("acct".to_string()));
}

#[test]
fn test_settings_fill_missing_values() {
    let mut settings = Settings::default();
    settings.unified_mode = Some(true);
    settings.recent = Some(true);
    settings.max_recent_profiles = Some(7);
    settings.check_session = Some(false);
    settings.browser = Some("firefox".to_string());
    let eff = merge_settings(&no_args(), &settings);
    assert!(eff.unified_mode);
    assert!(eff.recent);
    assert_eq!(eff.max_recent_profiles, 7);
    assert!(!eff.check_session);
    assert_eq!(eff.browser, Some("firefox".to_string()));
}

#[test]
fn test_step_by_step_overrides_unified() {
    let mut settings = Settings::default();
    settings.unified_mode = Some(true);
    let mut args = no_args();
    args.step_by_step = true;
    args.unified = true;
    let eff = merge_settings(&args, &settings);
    assert!(!eff.unified_mode);
}
