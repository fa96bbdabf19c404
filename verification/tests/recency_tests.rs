use aws_sso_navigator::profile::Profile;
use aws_sso_navigator::recency::{sort_by_recency, RecentProfiles};

fn ledger(entries: &[(&str, u64)]) -> RecentProfiles {
    RecentProfiles {
        profiles: entries.iter().map(|(n, t)| (n.to_string(), *t)).collect(),
    }
}

fn profile(name: &str) -> Profile {
    Profile {
        name: name.to_string(),
        client: "c".to_string(),
        account: "a".to_string(),
        role: "r".to_string(),
        sso_account_id: "1".to_string(),
        sso_role_name: "R".to_string(),
        sso_start_url: "https://x".to_string(),
    }
}

#[test]
fn test_record_prunes_to_cap_keeping_largest() {
    let mut recent = ledger(&[("acme-dev-admin", 200), ("acme-prod-readonly", 100)]);
    recent.record("acme-prod-readonly", 300, 1);
    assert_eq!(recent.profiles, vec![("acme-prod-readonly".to_string(), 300u64)]);
}

#[test]
fn test_record_overwrites_existing_entry() {
    let mut recent = ledger(&[("a", 10), ("b", 20)]);
    recent.record("a", 30, 10);
    assert_eq!(recent.lookup("a"), 30);
    assert_eq!(recent.lookup("b"), 20);
    assert_eq!(recent.profiles.len(), 2);
}

#[test]
fn test_record_never_exceeds_cap() {
    let mut recent = ledger(&[]);
    for (i, name) in ["a", "b", "c", "d", "e"].iter().enumerate() {
        recent.record(name, 100 + i as u64, 3);
        assert!(recent.profiles.len() <= 3);
    }
    // The three largest timestamps survive.
    assert_eq!(recent.lookup("c"), 102);
    assert_eq!(recent.lookup("d"), 103);
    assert_eq!(recent.lookup("e"), 104);
    assert_eq!(recent.lookup("a"), 0);
    assert_eq!(recent.lookup("b"), 0);
}

#[test]
fn test_lookup_absent_is_zero() {
    let recent = ledger(&[("known", 7)]);
    assert_eq!(recent.lookup("known"), 7);
    assert_eq!(recent.lookup("unknown"), 0);
}

#[test]
fn test_sort_by_recency_descending_with_absent_last() {
    let recent = ledger(&[("beta", 200), ("alpha", 100)]);
    let profiles = vec![profile("alpha"), profile("gamma"), profile("beta")];
    let sorted = sort_by_recency(profiles, &recent);
    let names: Vec<&str> = sorted.iter().map(|p| p.name.as_str()).collect();
    assert_eq!(names, vec!["beta", "alpha", "gamma"]);
}

#[test]
fn test_sort_by_recency_keeps_tied_order() {
    let recent = ledger(&[]);
    let profiles = vec![profile("one"), profile("two"), profile("three")];
    let sorted = sort_by_recency(profiles, &recent);
    let names: Vec<&str> = sorted.iter().map(|p| p.name.as_str()).collect();
    assert_eq!(names, vec!["one", "two", "three"]);
}
