//! The candidate index: derives the sorted, duplicate-free value sets that
//! drive each step of the hierarchical pickers.
use vstd::prelude::*;

use crate::profile::{profile_views, Profile, ProfileV};
use crate::text::{
    lemma_lex_lt_connected, lemma_lex_lt_irrefl, lemma_lex_lt_trans, lex_lt, str_eq, str_lt,
    str_views, strictly_sorted,
};

verus! {

/// Which component of a profile a candidate set is drawn from.
#[derive(Clone, Copy, Debug)]
pub enum ProfileField {
    Client,
    Account,
    Role,
}

pub open spec fn spec_field(p: ProfileV, f: ProfileField) -> Seq<char> {
    match f {
        ProfileField::Client => p.client,
        ProfileField::Account => p.account,
        ProfileField::Role => p.role,
    }
}

pub open spec fn spec_extracted(ps: Seq<ProfileV>, f: ProfileField) -> Seq<Seq<char>> {
    ps.map_values(|p: ProfileV| spec_field(p, f))
}

/// Restricts candidates to profiles whose fixed slots match.
pub struct SelectionFilter {
    pub client: Option<String>,
    pub account: Option<String>,
}

pub open spec fn opt_view(o: Option<String>) -> Option<Seq<char>> {
    match o {
        Some(s) => Some(s@),
        None => None,
    }
}

/// Whether a profile passes the filter: every fixed slot must match.
pub open spec fn spec_filter_matches(
    p: ProfileV,
    client: Option<Seq<char>>,
    account: Option<Seq<char>>,
) -> bool {
    &&& match client {
        Some(c) => p.client == c,
        None => true,
    }
    &&& match account {
        Some(a) => p.account == a,
        None => true,
    }
}

/// Where a new value lands in a sorted, duplicate-free sequence: after the
/// values before it, once, and before the rest.
pub open spec fn spec_insert_sorted(s: Seq<Seq<char>>, x: Seq<char>) -> Seq<Seq<char>>
    decreases s.len(),
{
    if s.len() == 0 {
        seq![x]
    } else if lex_lt(s[0], x) {
        seq![s[0]] + spec_insert_sorted(s.drop_first(), x)
    } else if s[0] == x {
        s
    } else {
        seq![x] + s
    }
}

/// The sorted, duplicate-free sequence holding exactly the values of `s`.
pub open spec fn spec_sorted_uniq(s: Seq<Seq<char>>) -> Seq<Seq<char>>
    decreases s.len(),
{
    if s.len() == 0 {
        Seq::empty()
    } else {
        spec_insert_sorted(spec_sorted_uniq(s.drop_last()), s.last())
    }
}

/// Inserting into a sorted sequence keeps it sorted and adds exactly the
/// new value to its contents.
pub proof fn lemma_insert_sorted_props(s: Seq<Seq<char>>, x: Seq<char>)
    requires
        strictly_sorted(s),
    ensures
        strictly_sorted(spec_insert_sorted(s, x)),
        forall|y: Seq<char>|
            #[trigger] spec_insert_sorted(s, x).contains(y) <==> (s.contains(y) || y == x),
        spec_insert_sorted(s, x).len() <= s.len() + 1,
    decreases s.len(),
{
    let ins = spec_insert_sorted(s, x);
    if s.len() == 0 {
        assert(ins =~~= seq![x]);
        assert(ins[0] == x);
        assert(forall|y: Seq<char>| #[trigger] ins.contains(y) <==> (s.contains(y) || y == x));
    } else if lex_lt(s[0], x) {
        assert(strictly_sorted(s.drop_first())) by {
            assert(forall|i: int, j: int|
                0 <= i < j < s.drop_first().len() ==> lex_lt(
                    #[trigger] s.drop_first()[i],
                    #[trigger] s.drop_first()[j],
                ));
        }
        lemma_insert_sorted_props(s.drop_first(), x);
        let t = spec_insert_sorted(s.drop_first(), x);
        assert(ins =~~= seq![s[0]] + t);
        assert forall|i: int, j: int| 0 <= i < j < ins.len() implies lex_lt(ins[i], ins[j]) by {
            if i == 0 {
                let y = t[j - 1];
                assert(t.contains(y));
                if y == x {
                    assert(lex_lt(s[0], y));
                } else {
                    let k = choose|k: int|
                        0 <= k < s.drop_first().len() && s.drop_first()[k] == y;
                    assert(s[k + 1] == y);
                    assert(lex_lt(s[0], y));
                }
            } else {
                assert(lex_lt(t[i - 1], t[j - 1]));
            }
        }
        assert forall|y: Seq<char>| #[trigger] ins.contains(y) <==> (s.contains(y) || y == x) by {
            if ins.contains(y) {
                let k = choose|k: int| 0 <= k < ins.len() && ins[k] == y;
                if k == 0 {
                    assert(s[0] == y);
                } else {
                    assert(t.contains(y));
                    if y != x {
                        let m = choose|m: int|
                            0 <= m < s.drop_first().len() && s.drop_first()[m] == y;
                        assert(s[m + 1] == y);
                    }
                }
            }
            if s.contains(y) {
                let k = choose|k: int| 0 <= k < s.len() && s[k] == y;
                if k == 0 {
                    assert(ins[0] == y);
                } else {
                    assert(s.drop_first()[k - 1] == y);
                    assert(t.contains(y));
                    let m = choose|m: int| 0 <= m < t.len() && t[m] == y;
                    assert(ins[m + 1] == y);
                }
            }
            if y == x {
                assert(t.contains(x));
                let m = choose|m: int| 0 <= m < t.len() && t[m] == x;
                assert(ins[m + 1] == x);
            }
        }
    } else if s[0] == x {
        assert(ins == s);
        assert(s[0] == x && s.contains(x));
    } else {
        if !lex_lt(x, s[0]) {
            lemma_lex_lt_connected(s[0], x);
        }
        assert(lex_lt(x, s[0]));
        assert(ins =~~= seq![x] + s);
        assert forall|i: int, j: int| 0 <= i < j < ins.len() implies lex_lt(ins[i], ins[j]) by {
            if i == 0 {
                if j == 1 {
                    assert(lex_lt(x, s[0]));
                } else {
                    lemma_lex_lt_trans(x, s[0], s[j - 1]);
                }
            }
        }
        assert forall|y: Seq<char>| #[trigger] ins.contains(y) <==> (s.contains(y) || y == x) by {
            if ins.contains(y) {
                let k = choose|k: int| 0 <= k < ins.len() && ins[k] == y;
                if k > 0 {
                    assert(s[k - 1] == y);
                }
            }
            if s.contains(y) {
                let k = choose|k: int| 0 <= k < s.len() && s[k] == y;
                assert(ins[k + 1] == y);
            }
            if y == x {
                assert(ins[0] == y);
            }
        }
    }
}

/// The sorted-unique image of any sequence is strictly sorted,
/// duplicate-free, and holds exactly the values of the input.
pub proof fn lemma_sorted_uniq_props(s: Seq<Seq<char>>)
    ensures
        strictly_sorted(spec_sorted_uniq(s)),
        forall|y: Seq<char>| #[trigger] spec_sorted_uniq(s).contains(y) <==> s.contains(y),
        forall|i: int, j: int|
            0 <= i < j < spec_sorted_uniq(s).len() ==> spec_sorted_uniq(s)[i] != spec_sorted_uniq(
                s,
            )[j],
    decreases s.len(),
{
    let u = spec_sorted_uniq(s);
    if s.len() == 0 {
        assert(forall|y: Seq<char>| #[trigger] u.contains(y) <==> s.contains(y));
    } else {
        lemma_sorted_uniq_props(s.drop_last());
        lemma_insert_sorted_props(spec_sorted_uniq(s.drop_last()), s.last());
        assert forall|y: Seq<char>| #[trigger] u.contains(y) <==> s.contains(y) by {
            if u.contains(y) {
                if s.drop_last().contains(y) {
                    let k = choose|k: int| 0 <= k < s.drop_last().len() && s.drop_last()[k] == y;
                    assert(s[k] == y);
                } else {
                    assert(s[s.len() - 1] == y);
                }
            }
            if s.contains(y) {
                let k = choose|k: int| 0 <= k < s.len() && s[k] == y;
                if k < s.len() - 1 {
                    assert(s.drop_last()[k] == y);
                }
            }
        }
        assert forall|i: int, j: int| 0 <= i < j < u.len() implies u[i] != u[j] by {
            if u[i] == u[j] {
                lemma_lex_lt_irrefl(u[i]);
            }
        }
    }
}

/// Relates a left-to-right scan point to the recursive insertion spec.
proof fn lemma_insert_sorted_scan(s: Seq<Seq<char>>, x: Seq<char>, k: int)
    requires
        0 <= k <= s.len(),
        forall|j: int| 0 <= j < k ==> lex_lt(#[trigger] s[j], x),
        k < s.len() ==> !lex_lt(s[k], x),
    ensures
        k < s.len() && s[k] == x ==> spec_insert_sorted(s, x) == s,
        !(k < s.len() && s[k] == x) ==> spec_insert_sorted(s, x) =~~= s.take(k) + seq![x] + s.skip(
            k,
        ),
    decreases k,
{
    if s.len() == 0 {
        assert(spec_insert_sorted(s, x) =~~= s.take(0) + seq![x] + s.skip(0));
    } else if k == 0 {
        if s[0] == x {
        } else {
            assert(spec_insert_sorted(s, x) =~~= s.take(0) + seq![x] + s.skip(0));
        }
    } else {
        lemma_insert_sorted_scan(s.drop_first(), x, k - 1);
        assert(lex_lt(s[0], x));
        if k < s.len() && s[k] == x {
            assert(s.drop_first()[k - 1] == x);
            assert(spec_insert_sorted(s, x) =~~= seq![s[0]] + spec_insert_sorted(
                s.drop_first(),
                x,
            ));
            assert(spec_insert_sorted(s, x) =~~= s);
        } else {
            assert(seq![s[0]] + (s.drop_first().take(k - 1) + seq![x] + s.drop_first().skip(k - 1))
                =~~= s.take(k) + seq![x] + s.skip(k));
        }
    }
}

/// Inserts `x` into a sorted, duplicate-free vector, keeping it so; a value
/// already present is not added again.
pub fn insert_sorted_distinct(v: &mut Vec<String>, x: String)
    ensures
        str_views(final(v)@) =~~= spec_insert_sorted(str_views(old(v)@), x@),
{
    let ghost sv = str_views(v@);
    let mut idx: usize = 0;
    while idx < v.len() && str_lt(v[idx].as_str(), x.as_str())
        invariant
            sv == str_views(v@),
            0 <= idx <= v.len(),
            forall|j: int| 0 <= j < idx ==> lex_lt(#[trigger] sv[j], x@),
        decreases v.len() - idx,
    {
        idx = idx + 1;
    }
    proof {
        lemma_insert_sorted_scan(sv, x@, idx as int);
    }
    if idx < v.len() && str_eq(v[idx].as_str(), x.as_str()) {
        return ;
    }
    v.insert(idx, x);
    proof {
        assert(str_views(v@) =~~= sv.take(idx as int) + seq![x@] + sv.skip(idx as int));
    }
}

/// The sorted distinct values of the chosen component over all profiles.
pub fn select_unique_values(profiles: &Vec<Profile>, field: ProfileField) -> (r: Vec<String>)
    ensures
        str_views(r@) =~~= spec_sorted_uniq(spec_extracted(profile_views(profiles@), field)),
{
    let ghost pv = profile_views(profiles@);
    let mut out: Vec<String> = Vec::new();
    let mut i: usize = 0;
    while i < profiles.len()
        invariant
            pv == profile_views(profiles@),
            0 <= i <= profiles.len(),
            str_views(out@) =~~= spec_sorted_uniq(spec_extracted(pv.take(i as int), field)),
        decreases profiles.len() - i,
    {
        let ghost before = str_views(out@);
        let value = match field {
            ProfileField::Client => profiles[i].client.clone(),
            ProfileField::Account => profiles[i].account.clone(),
            ProfileField::Role => profiles[i].role.clone(),
        };
        insert_sorted_distinct(&mut out, value);
        proof {
            let e = spec_extracted(pv.take(i as int + 1), field);
            assert(e.drop_last() =~~= spec_extracted(pv.take(i as int), field));
            assert(e.last() == spec_field(pv[i as int], field));
            assert(str_views(out@) =~~= spec_sorted_uniq(e));
        }
        i = i + 1;
    }
    proof {
        assert(pv.take(profiles.len() as int) =~~= pv);
    }
    out
}

/// The sorted distinct values of the chosen component among the profiles
/// that pass the filter.
pub fn select_filtered_values(profiles: &Vec<Profile>, filter: &SelectionFilter, field:
    ProfileField) -> (r: Vec<String>)
    ensures
        str_views(r@) =~~= spec_sorted_uniq(
            spec_extracted(
                profile_views(profiles@).filter(
                    |p: ProfileV|
                        spec_filter_matches(p, opt_view(filter.client), opt_view(filter.account)),
                ),
                field,
            ),
        ),
{
    let ghost pv = profile_views(profiles@);
    let ghost pred = |p: ProfileV|
        spec_filter_matches(p, opt_view(filter.client), opt_view(filter.account));
    let mut out: Vec<String> = Vec::new();
    let mut i: usize = 0;
    while i < profiles.len()
        invariant
            pv == profile_views(profiles@),
            pred == (|p: ProfileV|
                spec_filter_matches(p, opt_view(filter.client), opt_view(filter.account))),
            0 <= i <= profiles.len(),
            str_views(out@) =~~= spec_sorted_uniq(
                spec_extracted(pv.take(i as int).filter(pred), field),
            ),
        decreases profiles.len() - i,
    {
        let p = &profiles[i];
        let client_ok = match &filter.client {
            Some(c) => p.client.eq(c),
            None => true,
        };
        let account_ok = match &filter.account {
            Some(a) => p.account.eq(a),
            None => true,
        };
        proof {
            reveal(Seq::filter);
            assert(pv.take(i as int + 1) =~= pv.take(i as int).push(pv[i as int]));
            assert(pv.take(i as int).push(pv[i as int]).drop_last() =~= pv.take(i as int));
            assert((client_ok && account_ok) == pred(pv[i as int]));
        }
        if client_ok && account_ok {
            let value = match field {
                ProfileField::Client => p.client.clone(),
                ProfileField::Account => p.account.clone(),
                ProfileField::Role => p.role.clone(),
            };
            insert_sorted_distinct(&mut out, value);
            proof {
                reveal(Seq::filter);
                let f = pv.take(i as int + 1).filter(pred);
                assert(f =~~= pv.take(i as int).filter(pred).push(pv[i as int]));
                let e = spec_extracted(f, field);
                assert(e.drop_last() =~~= spec_extracted(pv.take(i as int).filter(pred), field));
                assert(e.last() == spec_field(pv[i as int], field));
                assert(str_views(out@) =~~= spec_sorted_uniq(e));
            }
        } else {
            proof {
                reveal(Seq::filter);
                assert(pv.take(i as int + 1).filter(pred) =~~= pv.take(i as int).filter(pred));
            }
        }
        i = i + 1;
    }
    proof {
        assert(pv.take(profiles.len() as int) =~~= pv);
    }
    out
}

/// A value kept by `filter` is a value of the input that passes the
/// predicate.
proof fn lemma_filter_member<A>(s: Seq<A>, pred: spec_fn(A) -> bool, y: A)
    requires
        s.filter(pred).contains(y),
    ensures
        s.contains(y),
        pred(y),
    decreases s.len(),
{
    reveal(Seq::filter);
    if s.len() > 0 {
        if pred(s.last()) && y == s.last() {
            assert(s[s.len() - 1] == y);
        } else {
            lemma_filter_member(s.drop_last(), pred, y);
            let k = choose|k: int| 0 <= k < s.drop_last().len() && s.drop_last()[k] == y;
            assert(s[k] == y);
        }
    }
}

/// The sorted distinct clients over all profiles.
pub fn unique_clients(profiles: &Vec<Profile>) -> (r: Vec<String>)
    ensures
        str_views(r@) =~~= spec_sorted_uniq(
            spec_extracted(profile_views(profiles@), ProfileField::Client),
        ),
{
    select_unique_values(profiles, ProfileField::Client)
}

/// The sorted distinct accounts among profiles of the given client.
pub fn unique_accounts(profiles: &Vec<Profile>, client: &String) -> (r: Vec<String>)
    ensures
        str_views(r@) =~~= spec_sorted_uniq(
            spec_extracted(
                profile_views(profiles@).filter(
                    |p: ProfileV| spec_filter_matches(p, Some(client@), None),
                ),
                ProfileField::Account,
            ),
        ),
{
    let filter = SelectionFilter { client: Some(client.clone()), account: None };
    let r = select_filtered_values(profiles, &filter, ProfileField::Account);
    proof {
        let p1 = |p: ProfileV|
            spec_filter_matches(p, opt_view(filter.client), opt_view(filter.account));
        let p2 = |p: ProfileV| spec_filter_matches(p, Some(client@), None);
        assert(p1 =~= p2);
    }
    r
}

/// The sorted distinct roles among profiles of the given client and account.
pub fn unique_roles(profiles: &Vec<Profile>, client: &String, account: &String) -> (r: Vec<String>)
    ensures
        str_views(r@) =~~= spec_sorted_uniq(
            spec_extracted(
                profile_views(profiles@).filter(
                    |p: ProfileV| spec_filter_matches(p, Some(client@), Some(account@)),
                ),
                ProfileField::Role,
            ),
        ),
{
    let filter = SelectionFilter { client: Some(client.clone()), account: Some(account.clone()) };
    let r = select_filtered_values(profiles, &filter, ProfileField::Role);
    proof {
        let p1 = |p: ProfileV|
            spec_filter_matches(p, opt_view(filter.client), opt_view(filter.account));
        let p2 = |p: ProfileV| spec_filter_matches(p, Some(client@), Some(account@));
        assert(p1 =~= p2);
    }
    r
}

/// Law: for every profile set, the unique-client sequence is strictly
/// sorted, duplicate-free, and holds exactly the distinct client components
/// of the set.
pub proof fn lemma_unique_clients_law(ps: Seq<ProfileV>)
    ensures
        strictly_sorted(spec_sorted_uniq(spec_extracted(ps, ProfileField::Client))),
        forall|i: int, j: int|
            0 <= i < j < spec_sorted_uniq(spec_extracted(ps, ProfileField::Client)).len()
                ==> spec_sorted_uniq(spec_extracted(ps, ProfileField::Client))[i]
                != spec_sorted_uniq(spec_extracted(ps, ProfileField::Client))[j],
        forall|y: Seq<char>|
            #[trigger] spec_sorted_uniq(spec_extracted(ps, ProfileField::Client)).contains(y)
                <==> exists|i: int| 0 <= i < ps.len() && ps[i].client == y,
{
    let e = spec_extracted(ps, ProfileField::Client);
    lemma_sorted_uniq_props(e);
    assert forall|y: Seq<char>| #[trigger] spec_sorted_uniq(e).contains(y) <==> exists|i: int|
        0 <= i < ps.len() && ps[i].client == y by {
        if spec_sorted_uniq(e).contains(y) {
            let k = choose|k: int| 0 <= k < e.len() && e[k] == y;
            assert(ps[k].client == y);
        }
        if exists|i: int| 0 <= i < ps.len() && ps[i].client == y {
            let i = choose|i: int| 0 <= i < ps.len() && ps[i].client == y;
            assert(e[i] == y);
            assert(e.contains(y));
        }
    }
}

/// Law: every role the picker offers for a fixed client and account belongs
/// to at least one profile with exactly that client and account.
pub proof fn lemma_unique_roles_witness(ps: Seq<ProfileV>, c: Seq<char>, a: Seq<char>, y: Seq<char>)
    requires
        spec_sorted_uniq(
            spec_extracted(
                ps.filter(|p: ProfileV| spec_filter_matches(p, Some(c), Some(a))),
                ProfileField::Role,
            ),
        ).contains(y),
    ensures
        exists|i: int|
            0 <= i < ps.len() && ps[i].client == c && ps[i].account == a && ps[i].role == y,
{
    let pred = |p: ProfileV| spec_filter_matches(p, Some(c), Some(a));
    let f = ps.filter(pred);
    let e = spec_extracted(f, ProfileField::Role);
    lemma_sorted_uniq_props(e);
    let k = choose|k: int| 0 <= k < e.len() && e[k] == y;
    let p = f[k];
    assert(f.contains(p));
    lemma_filter_member(ps, pred, p);
    let i = choose|i: int| 0 <= i < ps.len() && ps[i] == p;
    assert(ps[i].client == c && ps[i].account == a && ps[i].role == y);
}

} // verus!
