//! Post-resolution dispatch: what the run does with the resolved profile —
//! authenticate or open the console — and what follows on success.
use vstd::prelude::*;

use crate::profile::{profile_views, Profile, ProfileV};
use crate::text::{spec_strip_trailing, str_eq, strip_trailing};

verus! {

/// A start URL with its trailing `/`, `#` and `/` runs removed, in that
/// order, ready for the console path to be appended.
pub open spec fn spec_normalize_url(url: Seq<char>) -> Seq<char> {
    spec_strip_trailing(spec_strip_trailing(spec_strip_trailing(url, '/'), '#'), '/')
}

/// Strips trailing `/`, `#` and `/` runs from an SSO start URL.
pub fn normalize_sso_start_url<'a>(url: &'a str) -> (r: &'a str)
    ensures
        r@ == spec_normalize_url(url@),
{
    strip_trailing(strip_trailing(strip_trailing(url, '/'), '#'), '/')
}

/// The console URL for an account and role under a start URL.
pub open spec fn spec_console_url(
    url: Seq<char>,
    account_id: Seq<char>,
    role_name: Seq<char>,
) -> Seq<char> {
    spec_normalize_url(url) + "/#/console?account_id="@ + account_id + "&role_name="@ + role_name
}

/// Builds the console URL the browser is pointed at.
pub fn build_console_url(sso_start_url: &str, sso_account_id: &str, sso_role_name: &str) -> (r:
    String)
    ensures
        r@ == spec_console_url(sso_start_url@, sso_account_id@, sso_role_name@),
{
    let base = normalize_sso_start_url(sso_start_url);
    let mut url = String::from_str(base);
    url.append("/#/console?account_id=");
    url.append(sso_account_id);
    url.append("&role_name=");
    url.append(sso_role_name);
    url
}

/// Whether a login must actually be performed: a valid session is reused
/// only when session checking is on and reauthentication was not forced.
pub fn should_attempt_login(check_session: bool, force_reauth: bool, session_valid: bool) -> (r:
    bool)
    ensures
        r == !(check_session && !force_reauth && session_valid),
{
    !(check_session && !force_reauth && session_valid)
}

/// The one primary action a resolved profile leads to.
#[derive(Debug)]
pub enum PrimaryAction {
    /// Log in through the profile, by name.
    Login { profile_name: String },
    /// Open the console in a browser at the given URL.
    OpenConsole { url: String },
}

/// Picks the primary action: the console flag selects console opening,
/// otherwise authentication; the two are mutually exclusive.
pub fn plan_action(console: bool, profile: &Profile) -> (r: PrimaryAction)
    ensures
        console ==> (r matches PrimaryAction::OpenConsole { url } && url@ == spec_console_url(
            profile.sso_start_url@,
            profile.sso_account_id@,
            profile.sso_role_name@,
        )),
        !console ==> (r matches PrimaryAction::Login { profile_name } && profile_name@
            == profile.name@),
{
    if console {
        PrimaryAction::OpenConsole {
            url: build_console_url(
                profile.sso_start_url.as_str(),
                profile.sso_account_id.as_str(),
                profile.sso_role_name.as_str(),
            ),
        }
    } else {
        PrimaryAction::Login { profile_name: profile.name.clone() }
    }
}

/// What follows the primary action: recency is recorded exactly when it
/// succeeded, and the default is set only then and only if asked for.
pub fn post_action_steps(action_succeeded: bool, set_default: bool) -> (r: (bool, bool))
    ensures
        r.0 == action_succeeded,
        r.1 == (action_succeeded && set_default),
{
    (action_succeeded, action_succeeded && set_default)
}

/// The profile with the given name, first in store order, if any.
pub open spec fn spec_find_by_name(ps: Seq<ProfileV>, name: Seq<char>) -> Option<ProfileV>
    decreases ps.len(),
{
    if ps.len() == 0 {
        None
    } else if ps[0].name == name {
        Some(ps[0])
    } else {
        spec_find_by_name(ps.drop_first(), name)
    }
}

proof fn lemma_find_by_name_skip(ps: Seq<ProfileV>, name: Seq<char>, i: int)
    requires
        0 <= i <= ps.len(),
        forall|j: int| 0 <= j < i ==> (#[trigger] ps[j]).name != name,
    ensures
        spec_find_by_name(ps, name) == spec_find_by_name(ps.skip(i), name),
    decreases i,
{
    if i > 0 {
        lemma_find_by_name_skip(ps.drop_first(), name, i - 1);
        assert(ps.drop_first().skip(i - 1) =~= ps.skip(i));
    } else {
        assert(ps.skip(0) =~= ps);
    }
}

/// Looks a profile up by its full name, as setting the default requires.
pub fn find_profile_by_name(profiles: &Vec<Profile>, name: &str) -> (r: Option<Profile>)
    ensures
        match r {
            Some(p) => spec_find_by_name(profile_views(profiles@), name@) == Some(p@),
            None => spec_find_by_name(profile_views(profiles@), name@) is None,
        },
{
    let ghost ps = profile_views(profiles@);
    let mut i: usize = 0;
    while i < profiles.len()
        invariant
            ps == profile_views(profiles@),
            0 <= i <= profiles.len(),
            forall|j: int| 0 <= j < i ==> (#[trigger] ps[j]).name != name@,
        decreases profiles.len() - i,
    {
        if str_eq(profiles[i].name.as_str(), name) {
            proof {
                lemma_find_by_name_skip(ps, name@, i as int);
                assert(ps.skip(i as int)[0] == ps[i as int]);
            }
            return Some(profiles[i].clone());
        }
        i = i + 1;
    }
    proof {
        lemma_find_by_name_skip(ps, name@, profiles.len() as int);
        assert(ps.skip(profiles.len() as int) =~= Seq::<ProfileV>::empty());
    }
    None
}

} // verus!
