//! The pure side of profile importing: naming imported profiles and
//! rendering the configuration sections that are appended for them.
use vstd::prelude::*;

use crate::profile::{sections_view, spec_find_section, ConfigSection};
use crate::text::{
    join_from, lemma_join_split_remove, lemma_join_split_replace, spec_remove, spec_replace,
    split_on,
};

verus! {

/// An account name as it may appear in a profile name: spaces removed,
/// then every `-` turned into `_`.
pub open spec fn spec_sanitized_account(s: Seq<char>) -> Seq<char> {
    spec_replace(spec_remove(s, ' '), '-', '_')
}

/// A role name as it may appear in a profile name: every `-` turned into
/// `_`.
pub open spec fn spec_sanitized_role(s: Seq<char>) -> Seq<char> {
    spec_replace(s, '-', '_')
}

/// Removes spaces, then turns `-` into `_`, so the account name cannot
/// break the profile name's component structure.
pub fn sanitize_account_name(s: &str) -> (r: String)
    ensures
        r@ == spec_sanitized_account(s@),
{
    let parts = split_on(s, ' ');
    let no_spaces = join_from(&parts, 0, "");
    proof {
        reveal_strlit("");
        assert(""@ =~= Seq::<char>::empty());
        assert(crate::text::str_views(parts@).skip(0) =~~= crate::text::str_views(parts@));
        lemma_join_split_remove(s@, ' ');
    }
    let parts2 = split_on(no_spaces.as_str(), '-');
    let r = join_from(&parts2, 0, "_");
    proof {
        reveal_strlit("_");
        assert("_"@ =~= seq!['_']);
        assert(crate::text::str_views(parts2@).skip(0) =~~= crate::text::str_views(parts2@));
        lemma_join_split_replace(no_spaces@, '-', '_');
    }
    r
}

/// Turns `-` into `_`, so the role stays one component of the name.
pub fn sanitize_role_name(s: &str) -> (r: String)
    ensures
        r@ == spec_sanitized_role(s@),
{
    let parts = split_on(s, '-');
    let r = join_from(&parts, 0, "_");
    proof {
        reveal_strlit("_");
        assert("_"@ =~= seq!['_']);
        assert(crate::text::str_views(parts@).skip(0) =~~= crate::text::str_views(parts@));
        lemma_join_split_replace(s@, '-', '_');
    }
    r
}

/// The structured name an imported profile gets:
/// `{session}-{sanitized account}-{sanitized role}`.
pub fn make_import_profile_name(sso_session: &str, account_name: &str, role_name: &str) -> (r:
    String)
    ensures
        r@ == sso_session@ + "-"@ + spec_sanitized_account(account_name@) + "-"@
            + spec_sanitized_role(role_name@),
{
    let mut name = String::from_str(sso_session);
    name.append("-");
    name.append(sanitize_account_name(account_name).as_str());
    name.append("-");
    name.append(sanitize_role_name(role_name).as_str());
    name
}

/// The configuration text appended for one imported profile.
pub open spec fn spec_profile_section_text(
    name: Seq<char>,
    sso_session: Seq<char>,
    account_id: Seq<char>,
    role_name: Seq<char>,
    region: Seq<char>,
) -> Seq<char> {
    "\n[profile "@ + name + "]\nsso_session = "@ + sso_session + "\nsso_account_id = "@
        + account_id + "\nsso_role_name = "@ + role_name + "\nregion = "@ + region
        + "\noutput = json\n"@
}

/// Renders the section that is appended to the configuration for one
/// imported profile.
pub fn render_profile_section(
    name: &str,
    sso_session: &str,
    account_id: &str,
    role_name: &str,
    region: &str,
) -> (r: String)
    ensures
        r@ == spec_profile_section_text(name@, sso_session@, account_id@, role_name@, region@),
{
    let mut out = String::from_str("\n[profile ");
    out.append(name);
    out.append("]\nsso_session = ");
    out.append(sso_session);
    out.append("\nsso_account_id = ");
    out.append(account_id);
    out.append("\nsso_role_name = ");
    out.append(role_name);
    out.append("\nregion = ");
    out.append(region);
    out.append("\noutput = json\n");
    out
}

/// Whether the store already holds a section of the given name, so an
/// import must skip it.
pub fn section_exists(sections: &Vec<ConfigSection>, name: &str) -> (r: bool)
    ensures
        r == (spec_find_section(sections_view(sections@), name@) is Some),
{
    match crate::profile::find_section(sections, name) {
        Some(_) => true,
        None => false,
    }
}

} // verus!
