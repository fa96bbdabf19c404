//! The profile store: parses a structured configuration (ini-shaped sections
//! of key/value properties) into typed `Profile` records.
//!
//! A section whose identifier starts with `"profile "` qualifies; its name
//! must split on `'-'` into at least three components (client, account, and
//! the rest rejoined as role), and its properties must carry an `sso_session`
//! reference to a session section holding `sso_start_url`, together with
//! `sso_account_id` and `sso_role_name`. Sections failing any of this are
//! skipped; the load never fails as a whole.
use vstd::prelude::*;

use crate::text::{
    lemma_split_nonempty, spec_has_prefix, spec_join, spec_split, split_on, str_eq,
    strip_prefix_str,
};

verus! {

/// One resolvable identity, decomposed from its structured name.
#[derive(Debug)]
pub struct Profile {
    pub name: String,
    pub client: String,
    pub account: String,
    pub role: String,
    pub sso_account_id: String,
    pub sso_role_name: String,
    pub sso_start_url: String,
}

/// The mathematical value of a `Profile`: its fields as character sequences.
pub ghost struct ProfileV {
    pub name: Seq<char>,
    pub client: Seq<char>,
    pub account: Seq<char>,
    pub role: Seq<char>,
    pub sso_account_id: Seq<char>,
    pub sso_role_name: Seq<char>,
    pub sso_start_url: Seq<char>,
}

impl View for Profile {
    type V = ProfileV;

    open spec fn view(&self) -> ProfileV {
        ProfileV {
            name: self.name@,
            client: self.client@,
            account: self.account@,
            role: self.role@,
            sso_account_id: self.sso_account_id@,
            sso_role_name: self.sso_role_name@,
            sso_start_url: self.sso_start_url@,
        }
    }
}

impl Clone for Profile {
    fn clone(&self) -> (res: Self)
        ensures
            res == *self,
    {
        Profile {
            name: self.name.clone(),
            client: self.client.clone(),
            account: self.account.clone(),
            role: self.role.clone(),
            sso_account_id: self.sso_account_id.clone(),
            sso_role_name: self.sso_role_name.clone(),
            sso_start_url: self.sso_start_url.clone(),
        }
    }
}

/// One section of the configuration store: an optional identifier and its
/// key/value properties in file order (duplicate keys are kept; a lookup
/// takes the first).
#[derive(Debug)]
pub struct ConfigSection {
    pub name: Option<String>,
    pub props: Vec<(String, String)>,
}

/// The views of a property list.
pub open spec fn pairs_views(props: Seq<(String, String)>) -> Seq<(Seq<char>, Seq<char>)> {
    props.map_values(|p: (String, String)| (p.0@, p.1@))
}

pub open spec fn section_view(s: ConfigSection) -> (Option<Seq<char>>, Seq<(Seq<char>, Seq<char>)>) {
    (
        match s.name {
            Some(n) => Some(n@),
            None => None,
        },
        pairs_views(s.props@),
    )
}

pub open spec fn sections_view(ss: Seq<ConfigSection>) -> Seq<
    (Option<Seq<char>>, Seq<(Seq<char>, Seq<char>)>),
> {
    ss.map_values(|s: ConfigSection| section_view(s))
}

/// The first value bound to `key`, as the store's own lookup returns it.
pub open spec fn spec_lookup(props: Seq<(Seq<char>, Seq<char>)>, key: Seq<char>) -> Option<
    Seq<char>,
>
    decreases props.len(),
{
    if props.len() == 0 {
        None
    } else if props[0].0 == key {
        Some(props[0].1)
    } else {
        spec_lookup(props.drop_first(), key)
    }
}

proof fn lemma_lookup_skip(props: Seq<(Seq<char>, Seq<char>)>, key: Seq<char>, i: int)
    requires
        0 <= i <= props.len(),
        forall|j: int| 0 <= j < i ==> props[j].0 != key,
    ensures
        spec_lookup(props, key) == spec_lookup(props.skip(i), key),
    decreases i,
{
    if i > 0 {
        lemma_lookup_skip(props.drop_first(), key, i - 1);
        assert(props.drop_first().skip(i - 1) =~= props.skip(i));
    } else {
        assert(props.skip(0) =~= props);
    }
}

/// The first value bound to `key` among the pairs, if any.
pub fn lookup_prop(props: &Vec<(String, String)>, key: &str) -> (r: Option<String>)
    ensures
        match r {
            Some(v) => spec_lookup(pairs_views(props@), key@) == Some(v@),
            None => spec_lookup(pairs_views(props@), key@) is None,
        },
{
    let ghost pv = pairs_views(props@);
    let mut i: usize = 0;
    while i < props.len()
        invariant
            pv == pairs_views(props@),
            0 <= i <= props.len(),
            forall|j: int| 0 <= j < i ==> pv[j].0 != key@,
        decreases props.len() - i,
    {
        if str_eq(props[i].0.as_str(), key) {
            proof {
                lemma_lookup_skip(pv, key@, i as int);
                assert(pv.skip(i as int)[0] == pv[i as int]);
            }
            return Some(props[i].1.clone());
        }
        i = i + 1;
    }
    proof {
        lemma_lookup_skip(pv, key@, props.len() as int);
        assert(pv.skip(props.len() as int) =~= Seq::<(Seq<char>, Seq<char>)>::empty());
    }
    None
}

/// The properties of the first section whose identifier is `name`.
pub open spec fn spec_find_section(
    ss: Seq<(Option<Seq<char>>, Seq<(Seq<char>, Seq<char>)>)>,
    name: Seq<char>,
) -> Option<Seq<(Seq<char>, Seq<char>)>>
    decreases ss.len(),
{
    if ss.len() == 0 {
        None
    } else if ss[0].0 == Some(name) {
        Some(ss[0].1)
    } else {
        spec_find_section(ss.drop_first(), name)
    }
}

proof fn lemma_find_section_skip(
    ss: Seq<(Option<Seq<char>>, Seq<(Seq<char>, Seq<char>)>)>,
    name: Seq<char>,
    i: int,
)
    requires
        0 <= i <= ss.len(),
        forall|j: int| 0 <= j < i ==> ss[j].0 != Some(name),
    ensures
        spec_find_section(ss, name) == spec_find_section(ss.skip(i), name),
    decreases i,
{
    if i > 0 {
        lemma_find_section_skip(ss.drop_first(), name, i - 1);
        assert(ss.drop_first().skip(i - 1) =~= ss.skip(i));
    } else {
        assert(ss.skip(0) =~= ss);
    }
}

/// Index of the first section named `name`, if any.
pub fn find_section(sections: &Vec<ConfigSection>, name: &str) -> (r: Option<usize>)
    ensures
        match r {
            Some(i) => i < sections.len() && spec_find_section(sections_view(sections@), name@)
                == Some(pairs_views(sections@[i as int].props@)),
            None => spec_find_section(sections_view(sections@), name@) is None,
        },
{
    let ghost sv = sections_view(sections@);
    let mut i: usize = 0;
    while i < sections.len()
        invariant
            sv == sections_view(sections@),
            0 <= i <= sections.len(),
            forall|j: int| 0 <= j < i ==> sv[j].0 != Some(name@),
        decreases sections.len() - i,
    {
        let matched = match &sections[i].name {
            Some(n) => str_eq(n.as_str(), name),
            None => false,
        };
        if matched {
            proof {
                lemma_find_section_skip(sv, name@, i as int);
                assert(sv.skip(i as int)[0] == sv[i as int]);
            }
            return Some(i);
        }
        i = i + 1;
    }
    proof {
        lemma_find_section_skip(sv, name@, sections.len() as int);
        assert(sv.skip(sections.len() as int) =~= Seq::<
            (Option<Seq<char>>, Seq<(Seq<char>, Seq<char>)>),
        >::empty());
    }
    None
}

/// What a well-formed profile record is made from: name components, the
/// three profile properties, and the referenced session's start URL.
pub open spec fn spec_parse_profile(
    name: Seq<char>,
    props: Seq<(Seq<char>, Seq<char>)>,
    all: Seq<(Option<Seq<char>>, Seq<(Seq<char>, Seq<char>)>)>,
) -> Option<ProfileV> {
    let parts = spec_split(name, '-');
    if parts.len() < 3 {
        None
    } else {
        match (
            spec_lookup(props, "sso_session"@),
            spec_lookup(props, "sso_account_id"@),
            spec_lookup(props, "sso_role_name"@),
        ) {
            (Some(sess), Some(acct), Some(role_name)) => match spec_find_section(
                all,
                "sso-session "@ + sess,
            ) {
                Some(sess_props) => match spec_lookup(sess_props, "sso_start_url"@) {
                    Some(url) => Some(
                        ProfileV {
                            name: name,
                            client: parts[0],
                            account: parts[1],
                            role: spec_join(parts.skip(2), seq!['-']),
                            sso_account_id: acct,
                            sso_role_name: role_name,
                            sso_start_url: url,
                        },
                    ),
                    None => None,
                },
                None => None,
            },
            _ => None,
        }
    }
}

/// Builds one profile record from a qualifying section's name and
/// properties, or nothing if any required piece is missing.
pub fn parse_profile(name: &str, props: &Vec<(String, String)>, sections: &Vec<ConfigSection>) -> (r:
    Option<Profile>)
    ensures
        match r {
            Some(p) => spec_parse_profile(
                name@,
                pairs_views(props@),
                sections_view(sections@),
            ) == Some(p@),
            None => spec_parse_profile(name@, pairs_views(props@), sections_view(sections@))
                is None,
        },
{
    let parts = split_on(name, '-');
    proof {
        lemma_split_nonempty(name@, '-');
    }
    if parts.len() < 3 {
        return None;
    }
    let sess = match lookup_prop(props, "sso_session") {
        Some(s) => s,
        None => {
            return None;
        },
    };
    let acct = match lookup_prop(props, "sso_account_id") {
        Some(s) => s,
        None => {
            return None;
        },
    };
    let role_name = match lookup_prop(props, "sso_role_name") {
        Some(s) => s,
        None => {
            return None;
        },
    };
    let mut sess_section_name = String::from_str("sso-session ");
    sess_section_name.append(sess.as_str());
    let sess_idx = match find_section(sections, sess_section_name.as_str()) {
        Some(i) => i,
        None => {
            return None;
        },
    };
    let url = match lookup_prop(&sections[sess_idx].props, "sso_start_url") {
        Some(s) => s,
        None => {
            return None;
        },
    };
    let client = parts[0].clone();
    let account = parts[1].clone();
    let role = crate::text::join_from(&parts, 2, "-");
    proof {
        assert(crate::text::str_views(parts@).skip(2) =~~= spec_split(name@, '-').skip(2));
        reveal_strlit("-");
        assert("-"@ =~= seq!['-']);
    }
    Some(
        Profile {
            name: String::from_str(name),
            client,
            account,
            role,
            sso_account_id: acct,
            sso_role_name: role_name,
            sso_start_url: url,
        },
    )
}

/// Law: a structured name with at least three `-`-separated components
/// decomposes into client (the first), account (the second) and role (the
/// remaining components rejoined with `-`); a name with fewer components
/// never produces a profile.
pub proof fn lemma_name_decomposition(
    name: Seq<char>,
    props: Seq<(Seq<char>, Seq<char>)>,
    all: Seq<(Option<Seq<char>>, Seq<(Seq<char>, Seq<char>)>)>,
)
    ensures
        ({
            let parts = spec_split(name, '-');
            match spec_parse_profile(name, props, all) {
                Some(p) => parts.len() >= 3 && p.name == name && p.client == parts[0] && p.account
                    == parts[1] && p.role == spec_join(parts.skip(2), seq!['-']),
                None => true,
            }
        }),
        spec_split(name, '-').len() < 3 ==> spec_parse_profile(name, props, all) is None,
{
}

/// The views of a vector of profiles.
pub open spec fn profile_views(ps: Seq<Profile>) -> Seq<ProfileV> {
    ps.map_values(|p: Profile| p@)
}

/// The profile a section contributes: its identifier must carry the
/// `"profile "` prefix and the rest must parse.
pub open spec fn spec_section_profile(
    all: Seq<(Option<Seq<char>>, Seq<(Seq<char>, Seq<char>)>)>,
    sec: (Option<Seq<char>>, Seq<(Seq<char>, Seq<char>)>),
) -> Option<ProfileV> {
    match sec.0 {
        Some(n) => if spec_has_prefix(n, "profile "@) {
            spec_parse_profile(n.skip("profile "@.len() as int), sec.1, all)
        } else {
            None
        },
        None => None,
    }
}

/// The profiles contributed by the first `i` sections, in order.
pub open spec fn spec_profiles_upto(
    all: Seq<(Option<Seq<char>>, Seq<(Seq<char>, Seq<char>)>)>,
    i: int,
) -> Seq<ProfileV>
    decreases i,
{
    if i <= 0 {
        Seq::empty()
    } else {
        spec_profiles_upto(all, i - 1) + match spec_section_profile(all, all[i - 1]) {
            Some(p) => seq![p],
            None => Seq::empty(),
        }
    }
}

/// All profiles of the store, in section order.
pub open spec fn spec_profiles_from(
    all: Seq<(Option<Seq<char>>, Seq<(Seq<char>, Seq<char>)>)>,
) -> Seq<ProfileV> {
    spec_profiles_upto(all, all.len() as int)
}

/// Every well-formed profile of the given sections, in section order;
/// malformed sections are skipped, never fatal.
pub fn profiles_from_sections(sections: &Vec<ConfigSection>) -> (r: Vec<Profile>)
    ensures
        profile_views(r@) == spec_profiles_from(sections_view(sections@)),
{
    let ghost sv = sections_view(sections@);
    let mut out: Vec<Profile> = Vec::new();
    let mut i: usize = 0;
    while i < sections.len()
        invariant
            sv == sections_view(sections@),
            0 <= i <= sections.len(),
            profile_views(out@) =~~= spec_profiles_upto(sv, i as int),
        decreases sections.len() - i,
    {
        let ghost prev = out@;
        let sec = &sections[i];
        match &sec.name {
            Some(n) => {
                match strip_prefix_str(n.as_str(), "profile ") {
                    Some(profile_name) => {
                        match parse_profile(profile_name, &sec.props, sections) {
                            Some(p) => {
                                out.push(p);
                                proof {
                                    assert(profile_views(out@) =~~= profile_views(prev).push(
                                        out@.last()@,
                                    ));
                                }
                            },
                            None => {},
                        }
                    },
                    None => {},
                }
            },
            None => {},
        }
        proof {
            assert(profile_views(out@) =~~= spec_profiles_upto(sv, i as int + 1));
        }
        i = i + 1;
    }
    out
}

/// The store identifier of the section holding a profile's properties.
pub fn profile_section_name(name: &str) -> (r: String)
    ensures
        r@ == "profile "@ + name@,
{
    let mut s = String::from_str("profile ");
    s.append(name);
    s
}

/// The store identifier of the section holding a session's properties.
pub fn session_section_name(name: &str) -> (r: String)
    ensures
        r@ == "sso-session "@ + name@,
{
    let mut s = String::from_str("sso-session ");
    s.append(name);
    s
}

/// What the configuration parser makes of a text: the sections in file
/// order, each an optional identifier with its key/value pairs in file
/// order, or nothing when the text is not well-formed ini.
pub uninterp spec fn parsed_config(text: Seq<char>) -> Option<
    Seq<(Option<Seq<char>>, Seq<(Seq<char>, Seq<char>)>)>,
>;

/// Relies on ini's `Ini::load_from_str` to parse the text, and on
/// `Ini::iter` and `Properties::iter` to hand the sections back in file
/// order, each with its key/value pairs in file order, duplicates kept.
#[verifier::external_body]
fn parse_config_text(text: &str) -> (r: Option<Vec<ConfigSection>>)
    ensures
        match r {
            Some(v) => parsed_config(text@) == Some(sections_view(v@)),
            None => parsed_config(text@) is None,
        },
{
    match ini::Ini::load_from_str(text) {
        Ok(conf) => Some(
            conf.iter().map(
                |entry: (Option<&str>, &ini::Properties)| ConfigSection {
                    name: entry.0.map(|n| n.to_string()),
                    props: entry.1.iter().map(|kv| (kv.0.to_string(), kv.1.to_string())).collect(),
                },
            ).collect(),
        ),
        Err(_) => None,
    }
}

/// Every well-formed profile of the configuration text, in section order;
/// a text that does not parse yields no profiles rather than an error.
pub fn load_profiles(config_text: &str) -> (r: Vec<Profile>)
    ensures
        profile_views(r@) == match parsed_config(config_text@) {
            Some(ss) => spec_profiles_from(ss),
            None => Seq::<ProfileV>::empty(),
        },
{
    match parse_config_text(config_text) {
        Some(sections) => profiles_from_sections(&sections),
        None => Vec::new(),
    }
}

} // verus!
