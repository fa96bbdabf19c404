//! The selection resolver: fills the three-slot partial selection
//! (client, account, role) from presets and interactive picks, in either
//! cascading or unified mode, and maps the completed triple back to the
//! unique matching profile.
use vstd::prelude::*;

use crate::candidates::{
    select_filtered_values, select_unique_values, spec_extracted, spec_filter_matches,
    spec_sorted_uniq, ProfileField, SelectionFilter,
};
use crate::profile::{profile_views, Profile, ProfileV};
use crate::text::{spec_split, spec_trim, split_on, str_eq, str_views, trim_str};

verus! {

/// The three-slot partial selection being filled in.
#[derive(Debug)]
pub struct SelectionState {
    pub client: Option<String>,
    pub account: Option<String>,
    pub role: Option<String>,
}

pub ghost struct StateV {
    pub client: Option<Seq<char>>,
    pub account: Option<Seq<char>>,
    pub role: Option<Seq<char>>,
}

pub open spec fn opt_str_view(o: Option<String>) -> Option<Seq<char>> {
    match o {
        Some(s) => Some(s@),
        None => None,
    }
}

impl View for SelectionState {
    type V = StateV;

    open spec fn view(&self) -> StateV {
        StateV {
            client: opt_str_view(self.client),
            account: opt_str_view(self.account),
            role: opt_str_view(self.role),
        }
    }
}

/// How a run ends without a resolved profile.
#[derive(Debug)]
pub enum SelectionError {
    /// No well-formed profiles were found at all.
    ConfigurationEmpty,
    /// The operator aborted an interactive pick; a clean ending.
    SelectionCancelled,
    /// The flow ended with an empty slot and no explicit cancellation.
    SelectionIncomplete,
    /// A fully-specified triple matches no known profile.
    NoMatchingProfile,
    /// An external action reported failure, with its reason.
    ExternalActionFailure(String),
}

/// The first slot still empty, in the fixed fill order.
pub open spec fn spec_pending_field(st: StateV) -> Option<ProfileField> {
    if st.client is None {
        Some(ProfileField::Client)
    } else if st.account is None {
        Some(ProfileField::Account)
    } else if st.role is None {
        Some(ProfileField::Role)
    } else {
        None
    }
}

/// The candidate set the picker would offer for the given slot.
pub open spec fn spec_options_for(ps: Seq<ProfileV>, st: StateV, f: ProfileField) -> Seq<
    Seq<char>,
> {
    match f {
        ProfileField::Client => spec_sorted_uniq(spec_extracted(ps, ProfileField::Client)),
        ProfileField::Account => spec_sorted_uniq(
            spec_extracted(
                ps.filter(|p: ProfileV| spec_filter_matches(p, st.client, None)),
                ProfileField::Account,
            ),
        ),
        ProfileField::Role => spec_sorted_uniq(
            spec_extracted(
                ps.filter(|p: ProfileV| spec_filter_matches(p, st.client, st.account)),
                ProfileField::Role,
            ),
        ),
    }
}

pub open spec fn spec_fill(st: StateV, f: ProfileField, v: Seq<char>) -> StateV {
    match f {
        ProfileField::Client => StateV { client: Some(v), ..st },
        ProfileField::Account => StateV { account: Some(v), ..st },
        ProfileField::Role => StateV { role: Some(v), ..st },
    }
}

pub open spec fn spec_empty_slots(st: StateV) -> nat {
    (if st.client is None {
        1nat
    } else {
        0nat
    }) + (if st.account is None {
        1nat
    } else {
        0nat
    }) + (if st.role is None {
        1nat
    } else {
        0nat
    })
}

/// The cascading flow over scripted picks: each empty slot, in order, is
/// filled from the next pick; an empty candidate set or an exhausted
/// script ends the flow incomplete; a cancelled pick ends it cancelled.
pub open spec fn spec_cascade(
    ps: Seq<ProfileV>,
    st: StateV,
    picks: Seq<Option<Seq<char>>>,
) -> Result<StateV, SelectionError>
    decreases spec_empty_slots(st),
{
    match spec_pending_field(st) {
        None => Ok(st),
        Some(f) => if spec_options_for(ps, st, f).len() == 0 {
            Err(SelectionError::SelectionIncomplete)
        } else if picks.len() == 0 {
            Err(SelectionError::SelectionIncomplete)
        } else {
            match picks[0] {
                None => Err(SelectionError::SelectionCancelled),
                Some(v) => spec_cascade(ps, spec_fill(st, f, v), picks.drop_first()),
            }
        },
    }
}

/// How many scripted picks the cascading flow consumes.
pub open spec fn spec_cascade_consumed(
    ps: Seq<ProfileV>,
    st: StateV,
    picks: Seq<Option<Seq<char>>>,
) -> int
    decreases spec_empty_slots(st),
{
    match spec_pending_field(st) {
        None => 0,
        Some(f) => if spec_options_for(ps, st, f).len() == 0 || picks.len() == 0 {
            0
        } else {
            match picks[0] {
                None => 1,
                Some(v) => 1 + spec_cascade_consumed(ps, spec_fill(st, f, v), picks.drop_first()),
            }
        },
    }
}

/// The flow never consumes more picks than the script holds.
pub proof fn lemma_consumed_bound(ps: Seq<ProfileV>, st: StateV, picks: Seq<Option<Seq<char>>>)
    ensures
        0 <= spec_cascade_consumed(ps, st, picks) <= picks.len(),
    decreases spec_empty_slots(st),
{
    match spec_pending_field(st) {
        None => {},
        Some(f) => {
            if spec_options_for(ps, st, f).len() == 0 || picks.len() == 0 {
            } else {
                match picks[0] {
                    None => {},
                    Some(v) => {
                        lemma_consumed_bound(ps, spec_fill(st, f, v), picks.drop_first());
                    },
                }
            }
        },
    }
}

/// Law: the flow ends cancelled exactly when the operator cancelled one of
/// the picks it consumed — never incomplete, and with no resolution.
pub proof fn lemma_cancellation_is_clean(
    ps: Seq<ProfileV>,
    st: StateV,
    picks: Seq<Option<Seq<char>>>,
)
    ensures
        (exists|k: int| 0 <= k < spec_cascade_consumed(ps, st, picks) && picks[k] is None)
            <==> spec_cascade(ps, st, picks) == Err::<StateV, SelectionError>(
            SelectionError::SelectionCancelled,
        ),
    decreases spec_empty_slots(st),
{
    match spec_pending_field(st) {
        None => {},
        Some(f) => {
            if spec_options_for(ps, st, f).len() == 0 || picks.len() == 0 {
            } else {
                match picks[0] {
                    None => {
                        assert(picks[0] is None && 0 < spec_cascade_consumed(ps, st, picks));
                    },
                    Some(v) => {
                        let st2 = spec_fill(st, f, v);
                        let rest = picks.drop_first();
                        lemma_cancellation_is_clean(ps, st2, rest);
                        lemma_consumed_bound(ps, st2, rest);
                        let n2 = spec_cascade_consumed(ps, st2, rest);
                        assert forall|k: int|
                            0 <= k < spec_cascade_consumed(ps, st, picks) && picks[k]
                                is None implies spec_cascade(ps, st, picks) == Err::<
                            StateV,
                            SelectionError,
                        >(SelectionError::SelectionCancelled) by {
                            assert(k >= 1);
                            assert(rest[k - 1] == picks[k]);
                            assert(exists|k2: int| 0 <= k2 < n2 && rest[k2] is None);
                        }
                        if spec_cascade(ps, st, picks) == Err::<StateV, SelectionError>(
                            SelectionError::SelectionCancelled,
                        ) {
                            let k2 = choose|k2: int| 0 <= k2 < n2 && rest[k2] is None;
                            assert(picks[k2 + 1] == rest[k2]);
                            assert(0 <= k2 + 1 < spec_cascade_consumed(ps, st, picks) && picks[k2
                                + 1] is None);
                        }
                    },
                }
            }
        },
    }
}

/// The prompt and candidate set for the next picker step, or nothing when
/// the selection is already complete.
pub fn next_pick(profiles: &Vec<Profile>, st: &SelectionState) -> (r: Option<(String, Vec<String>)>)
    ensures
        match r {
            Some(p) => {
                &&& spec_pending_field(st@) is Some
                &&& str_views(p.1@) == spec_options_for(
                    profile_views(profiles@),
                    st@,
                    spec_pending_field(st@)->Some_0,
                )
                &&& p.0@ == match spec_pending_field(st@)->Some_0 {
                    ProfileField::Client => "Select Client"@,
                    ProfileField::Account => "Select Account"@,
                    ProfileField::Role => "Select Role"@,
                }
            },
            None => spec_pending_field(st@) is None,
        },
{
    if st.client.is_none() {
        let options = select_unique_values(profiles, ProfileField::Client);
        Some((String::from_str("Select Client"), options))
    } else if st.account.is_none() {
        let filter = SelectionFilter { client: clone_opt(&st.client), account: None };
        let options = select_filtered_values(profiles, &filter, ProfileField::Account);
        proof {
            let p1 = |p: ProfileV|
                spec_filter_matches(
                    p,
                    crate::candidates::opt_view(filter.client),
                    crate::candidates::opt_view(filter.account),
                );
            let p2 = |p: ProfileV| spec_filter_matches(p, st@.client, None);
            assert(p1 =~= p2);
        }
        Some((String::from_str("Select Account"), options))
    } else if st.role.is_none() {
        let filter = SelectionFilter { client: clone_opt(&st.client), account: clone_opt(
            &st.account,
        ) };
        let options = select_filtered_values(profiles, &filter, ProfileField::Role);
        proof {
            let p1 = |p: ProfileV|
                spec_filter_matches(
                    p,
                    crate::candidates::opt_view(filter.client),
                    crate::candidates::opt_view(filter.account),
                );
            let p2 = |p: ProfileV| spec_filter_matches(p, st@.client, st@.account);
            assert(p1 =~= p2);
        }
        Some((String::from_str("Select Role"), options))
    } else {
        None
    }
}

fn clone_opt(o: &Option<String>) -> (r: Option<String>)
    ensures
        r == *o,
{
    match o {
        Some(s) => Some(s.clone()),
        None => None,
    }
}

/// Stores a picked value into the first empty slot; a complete state is
/// left unchanged.
pub fn apply_pick(st: &mut SelectionState, choice: String)
    ensures
        final(st)@ == match spec_pending_field(old(st)@) {
            Some(f) => spec_fill(old(st)@, f, choice@),
            None => old(st)@,
        },
{
    if st.client.is_none() {
        st.client = Some(choice);
    } else if st.account.is_none() {
        st.account = Some(choice);
    } else if st.role.is_none() {
        st.role = Some(choice);
    }
}

/// The views of scripted picks.
pub open spec fn picks_views(picks: Seq<Option<String>>) -> Seq<Option<Seq<char>>> {
    picks.map_values(|o: Option<String>| opt_str_view(o))
}

/// Runs the cascading flow against scripted picks, one consumed per step.
pub fn run_cascade(profiles: &Vec<Profile>, st: SelectionState, picks: &Vec<Option<String>>) -> (r:
    Result<SelectionState, SelectionError>)
    ensures
        match r {
            Ok(out) => spec_cascade(profile_views(profiles@), st@, picks_views(picks@)) == Ok::<
                StateV,
                SelectionError,
            >(out@) && spec_pending_field(out@) is None,
            Err(e) => spec_cascade(profile_views(profiles@), st@, picks_views(picks@)) == Err::<
                StateV,
                SelectionError,
            >(e),
        },
{
    let ghost ps = profile_views(profiles@);
    let ghost st0 = st@;
    let mut cur = st;
    let mut k: usize = 0;
    proof {
        assert(picks_views(picks@).skip(0) =~= picks_views(picks@));
    }
    loop
        invariant
            ps == profile_views(profiles@),
            st0 == st@,
            0 <= k <= picks.len(),
            spec_cascade(ps, st0, picks_views(picks@)) == spec_cascade(
                ps,
                cur@,
                picks_views(picks@).skip(k as int),
            ),
        decreases spec_empty_slots(cur@),
    {
        let ghost tail = picks_views(picks@).skip(k as int);
        match next_pick(profiles, &cur) {
            None => {
                proof {
                    assert(spec_pending_field(cur@) is None);
                    assert(spec_cascade(ps, cur@, tail) == Ok::<StateV, SelectionError>(cur@));
                    assert(spec_cascade(ps, st0, picks_views(picks@)) == Ok::<
                        StateV,
                        SelectionError,
                    >(cur@));
                }
                return Ok(cur);
            },
            Some(po) => {
                let (_prompt, options) = po;
                if options.len() == 0 {
                    proof {
                        assert(str_views(options@).len() == 0);
                    }
                    return Err(SelectionError::SelectionIncomplete);
                }
                if k >= picks.len() {
                    proof {
                        assert(tail.len() == 0);
                    }
                    return Err(SelectionError::SelectionIncomplete);
                }
                proof {
                    assert(tail[0] == picks_views(picks@)[k as int]);
                }
                match &picks[k] {
                    None => {
                        return Err(SelectionError::SelectionCancelled);
                    },
                    Some(v) => {
                        let ghost prev = cur@;
                        let ghost f = spec_pending_field(cur@)->Some_0;
                        apply_pick(&mut cur, v.clone());
                        k = k + 1;
                        proof {
                            assert(cur@ == spec_fill(prev, f, v@));
                            assert(tail.drop_first() =~= picks_views(picks@).skip(k as int));
                            assert(spec_cascade(ps, prev, tail) == spec_cascade(
                                ps,
                                cur@,
                                tail.drop_first(),
                            ));
                        }
                    },
                }
            },
        }
    }
}

/// The profile whose client, account and role all match, first in store
/// order, if any.
pub open spec fn spec_find_matching(
    ps: Seq<ProfileV>,
    c: Seq<char>,
    a: Seq<char>,
    ro: Seq<char>,
) -> Option<ProfileV>
    decreases ps.len(),
{
    if ps.len() == 0 {
        None
    } else if ps[0].client == c && ps[0].account == a && ps[0].role == ro {
        Some(ps[0])
    } else {
        spec_find_matching(ps.drop_first(), c, a, ro)
    }
}

/// Resolution of a fully-specified triple: the matching profile, or the
/// no-matching-profile failure.
pub open spec fn spec_resolve(ps: Seq<ProfileV>, c: Seq<char>, a: Seq<char>, ro: Seq<char>) -> Result<
    ProfileV,
    SelectionError,
> {
    match spec_find_matching(ps, c, a, ro) {
        Some(p) => Ok(p),
        None => Err(SelectionError::NoMatchingProfile),
    }
}

/// Law: resolving the same fully-specified triple twice against an
/// unchanged profile set yields the same outcome, profile or failure.
pub proof fn lemma_resolution_idempotent(
    ps: Seq<ProfileV>,
    c: Seq<char>,
    a: Seq<char>,
    ro: Seq<char>,
    r1: Result<ProfileV, SelectionError>,
    r2: Result<ProfileV, SelectionError>,
)
    requires
        r1 == spec_resolve(ps, c, a, ro),
        r2 == spec_resolve(ps, c, a, ro),
    ensures
        r1 == r2,
{
}

proof fn lemma_find_matching_skip(
    ps: Seq<ProfileV>,
    c: Seq<char>,
    a: Seq<char>,
    ro: Seq<char>,
    i: int,
)
    requires
        0 <= i <= ps.len(),
        forall|j: int|
            0 <= j < i ==> !((#[trigger] ps[j]).client == c && ps[j].account == a && ps[j].role
                == ro),
    ensures
        spec_find_matching(ps, c, a, ro) == spec_find_matching(ps.skip(i), c, a, ro),
    decreases i,
{
    if i > 0 {
        lemma_find_matching_skip(ps.drop_first(), c, a, ro, i - 1);
        assert(ps.drop_first().skip(i - 1) =~= ps.skip(i));
    } else {
        assert(ps.skip(0) =~= ps);
    }
}

/// Looks up the unique profile matching the completed triple.
pub fn resolve_triple(profiles: &Vec<Profile>, client: &str, account: &str, role: &str) -> (r:
    Result<Profile, SelectionError>)
    ensures
        match r {
            Ok(p) => spec_resolve(profile_views(profiles@), client@, account@, role@) == Ok::<
                ProfileV,
                SelectionError,
            >(p@),
            Err(e) => spec_resolve(profile_views(profiles@), client@, account@, role@) == Err::<
                ProfileV,
                SelectionError,
            >(e),
        },
{
    let ghost ps = profile_views(profiles@);
    let mut i: usize = 0;
    while i < profiles.len()
        invariant
            ps == profile_views(profiles@),
            0 <= i <= profiles.len(),
            forall|j: int|
                0 <= j < i ==> !((#[trigger] ps[j]).client == client@ && ps[j].account == account@
                    && ps[j].role == role@),
        decreases profiles.len() - i,
    {
        let p = &profiles[i];
        if str_eq(p.client.as_str(), client) && str_eq(p.account.as_str(), account) && str_eq(
            p.role.as_str(),
            role,
        ) {
            proof {
                lemma_find_matching_skip(ps, client@, account@, role@, i as int);
                assert(ps.skip(i as int)[0] == ps[i as int]);
            }
            return Ok(p.clone());
        }
        i = i + 1;
    }
    proof {
        lemma_find_matching_skip(ps, client@, account@, role@, profiles.len() as int);
        assert(ps.skip(profiles.len() as int) =~= Seq::<ProfileV>::empty());
    }
    Err(SelectionError::NoMatchingProfile)
}

/// One flat descriptive row per profile: client, account, role and name
/// joined by `" | "`.
pub open spec fn spec_row_of(p: ProfileV) -> Seq<char> {
    p.client + " | "@ + p.account + " | "@ + p.role + " | "@ + p.name
}

/// The unified picker's rows, one per profile, in profile order.
pub fn unified_rows(profiles: &Vec<Profile>) -> (r: Vec<String>)
    ensures
        str_views(r@) =~~= profile_views(profiles@).map_values(|p: ProfileV| spec_row_of(p)),
{
    let mut rows: Vec<String> = Vec::new();
    let mut i: usize = 0;
    while i < profiles.len()
        invariant
            0 <= i <= profiles.len(),
            str_views(rows@) =~~= profile_views(profiles@).take(i as int).map_values(
                |p: ProfileV| spec_row_of(p),
            ),
        decreases profiles.len() - i,
    {
        let ghost prev = rows@;
        let p = &profiles[i];
        let mut row = p.client.clone();
        row.append(" | ");
        row.append(p.account.as_str());
        row.append(" | ");
        row.append(p.role.as_str());
        row.append(" | ");
        row.append(p.name.as_str());
        proof {
            assert(row@ == spec_row_of(profile_views(profiles@)[i as int]));
        }
        rows.push(row);
        proof {
            let pv = profile_views(profiles@);
            assert(str_views(rows@) =~~= str_views(prev).push(rows@.last()@));
            assert(pv.take(i as int + 1) =~= pv.take(i as int).push(pv[i as int]));
            assert(pv.take(i as int + 1).map_values(|p2: ProfileV| spec_row_of(p2)) =~~= pv.take(
                i as int,
            ).map_values(|p2: ProfileV| spec_row_of(p2)).push(spec_row_of(pv[i as int])));
        }
        i = i + 1;
    }
    proof {
        assert(profile_views(profiles@).take(profiles.len() as int) =~= profile_views(profiles@));
    }
    rows
}

/// A picked row decomposed back into the three slots: split on `'|'`,
/// each of the first three parts trimmed; rows with fewer parts carry no
/// triple.
pub open spec fn spec_parse_unified(row: Seq<char>) -> Option<(Seq<char>, Seq<char>, Seq<char>)> {
    let parts = spec_split(row, '|');
    if parts.len() < 3 {
        None
    } else {
        Some((spec_trim(parts[0]), spec_trim(parts[1]), spec_trim(parts[2])))
    }
}

/// Decomposes a unified-mode choice into its client, account and role.
pub fn parse_unified_choice(choice: &str) -> (r: Option<(String, String, String)>)
    ensures
        match r {
            Some(t) => spec_parse_unified(choice@) == Some((t.0@, t.1@, t.2@)),
            None => spec_parse_unified(choice@) is None,
        },
{
    let parts = split_on(choice, '|');
    if parts.len() < 3 {
        return None;
    }
    let c = trim_str(parts[0].as_str());
    let a = trim_str(parts[1].as_str());
    let ro = trim_str(parts[2].as_str());
    Some((c, a, ro))
}

/// Whether a string holds no occurrence of the given character.
pub open spec fn free_of(s: Seq<char>, c: char) -> bool {
    forall|i: int| 0 <= i < s.len() ==> s[i] != c
}

/// Whether a string starts and ends with non-whitespace, so trimming
/// leaves it unchanged.
pub open spec fn edge_clean(s: Seq<char>) -> bool {
    s.len() > 0 ==> !crate::text::is_space_char(s[0]) && !crate::text::is_space_char(s.last())
}

/// Law: the unified row built for a profile decomposes back into exactly
/// that profile's client, account and role, whenever those three fields
/// hold no `|` and no whitespace at their edges.
#[verifier::rlimit(60)]
pub proof fn lemma_unified_row_round_trip(p: ProfileV)
    requires
        free_of(p.client, '|'),
        free_of(p.account, '|'),
        free_of(p.role, '|'),
        edge_clean(p.client),
        edge_clean(p.account),
        edge_clean(p.role),
    ensures
        spec_parse_unified(spec_row_of(p)) == Some((p.client, p.account, p.role)),
{
    reveal_strlit(" | ");
    assert(" | "@ =~= seq![' ', '|', ' ']);
    let c1 = p.client + seq![' '];
    let a1 = seq![' '] + p.account + seq![' '];
    let r1 = seq![' '] + p.role + seq![' '];
    let n1 = seq![' '] + p.name;
    let row = spec_row_of(p);
    assert(row =~= c1 + seq!['|'] + (a1 + seq!['|'] + (r1 + seq!['|'] + n1)));
    assert(forall|i: int| 0 <= i < c1.len() ==> c1[i] != '|');
    assert(forall|i: int| 0 <= i < a1.len() ==> a1[i] != '|');
    assert(forall|i: int| 0 <= i < r1.len() ==> r1[i] != '|');
    crate::text::lemma_split_concat(c1, a1 + seq!['|'] + (r1 + seq!['|'] + n1), '|');
    crate::text::lemma_split_concat(a1, r1 + seq!['|'] + n1, '|');
    crate::text::lemma_split_concat(r1, n1, '|');
    crate::text::lemma_split_nonempty(n1, '|');
    let parts = spec_split(row, '|');
    assert(parts =~~= seq![c1] + (seq![a1] + (seq![r1] + spec_split(n1, '|'))));
    assert(parts.len() >= 3);
    assert(parts[0] == c1 && parts[1] == a1 && parts[2] == r1);
    crate::text::lemma_trim_padded(p.client);
    crate::text::lemma_trim_padded(p.account);
    crate::text::lemma_trim_padded(p.role);
    assert(spec_trim(c1) == p.client);
    assert(spec_trim(a1) == p.account);
    assert(spec_trim(r1) == p.role);
}

/// What one whole run of the resolver yields, for a given mode, presets
/// and scripted picks.
pub open spec fn spec_select(
    ps: Seq<ProfileV>,
    st: StateV,
    unified: bool,
    picks: Seq<Option<Seq<char>>>,
) -> Result<ProfileV, SelectionError> {
    if ps.len() == 0 {
        Err(SelectionError::ConfigurationEmpty)
    } else if unified {
        if picks.len() == 0 {
            Err(SelectionError::SelectionIncomplete)
        } else {
            match picks[0] {
                None => Err(SelectionError::SelectionCancelled),
                Some(row) => match spec_parse_unified(row) {
                    Some(t) => spec_resolve(ps, t.0, t.1, t.2),
                    None => Err(SelectionError::SelectionIncomplete),
                },
            }
        }
    } else {
        match spec_cascade(ps, st, picks) {
            Ok(done) => spec_resolve(
                ps,
                done.client->Some_0,
                done.account->Some_0,
                done.role->Some_0,
            ),
            Err(e) => Err(e),
        }
    }
}

/// Runs a whole selection against scripted picks: empty stores fail at
/// once; unified mode decomposes the one pick; cascading mode fills the
/// slots in order; the completed triple is resolved to its profile.
pub fn select_profile(
    profiles: &Vec<Profile>,
    presets: SelectionState,
    unified: bool,
    picks: &Vec<Option<String>>,
) -> (r: Result<Profile, SelectionError>)
    ensures
        match r {
            Ok(p) => spec_select(profile_views(profiles@), presets@, unified, picks_views(picks@))
                == Ok::<ProfileV, SelectionError>(p@),
            Err(e) => spec_select(profile_views(profiles@), presets@, unified, picks_views(picks@))
                == Err::<ProfileV, SelectionError>(e),
        },
{
    if profiles.len() == 0 {
        return Err(SelectionError::ConfigurationEmpty);
    }
    if unified {
        if picks.len() == 0 {
            return Err(SelectionError::SelectionIncomplete);
        }
        match &picks[0] {
            None => Err(SelectionError::SelectionCancelled),
            Some(row) => match parse_unified_choice(row.as_str()) {
                Some(t) => resolve_triple(profiles, t.0.as_str(), t.1.as_str(), t.2.as_str()),
                None => Err(SelectionError::SelectionIncomplete),
            },
        }
    } else {
        match run_cascade(profiles, presets, picks) {
            Ok(done) => {
                let c = match &done.client {
                    Some(c) => c.clone(),
                    None => String::new(),
                };
                let a = match &done.account {
                    Some(a) => a.clone(),
                    None => String::new(),
                };
                let ro = match &done.role {
                    Some(x) => x.clone(),
                    None => String::new(),
                };
                resolve_triple(profiles, c.as_str(), a.as_str(), ro.as_str())
            },
            Err(e) => Err(e),
        }
    }
}

/// Every profile name, in the order the store yields them.
pub fn list_names(profiles: &Vec<Profile>) -> (r: Vec<String>)
    ensures
        str_views(r@) =~~= profile_views(profiles@).map_values(|p: ProfileV| p.name),
{
    let mut names: Vec<String> = Vec::new();
    let mut i: usize = 0;
    while i < profiles.len()
        invariant
            0 <= i <= profiles.len(),
            str_views(names@) =~~= profile_views(profiles@).take(i as int).map_values(
                |p: ProfileV| p.name,
            ),
        decreases profiles.len() - i,
    {
        let ghost prev = names@;
        names.push(profiles[i].name.clone());
        proof {
            let pv = profile_views(profiles@);
            assert(str_views(names@) =~~= str_views(prev).push(names@.last()@));
            assert(pv.take(i as int + 1) =~= pv.take(i as int).push(pv[i as int]));
            assert(pv.take(i as int + 1).map_values(|p2: ProfileV| p2.name) =~~= pv.take(
                i as int,
            ).map_values(|p2: ProfileV| p2.name).push(pv[i as int].name));
        }
        i = i + 1;
    }
    proof {
        assert(profile_views(profiles@).take(profiles.len() as int) =~= profile_views(profiles@));
    }
    names
}

} // verus!
