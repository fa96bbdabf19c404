//! The tree browser's pure logic: the visible rows derived from the
//! profile set and the expansion state, and the navigation/selection
//! transitions. Rendering and key handling stay outside.
use vstd::prelude::*;

use crate::candidates::{
    spec_extracted, spec_filter_matches, spec_sorted_uniq, unique_accounts, unique_clients,
    unique_roles, ProfileField,
};
use crate::profile::{profile_views, Profile, ProfileV};
use crate::text::{str_eq, str_views};

verus! {

/// One visible row of the tree: a client (level 0), an account under it
/// (level 1), or a role leaf (level 2).
#[derive(Debug)]
pub struct TreeItem {
    pub client: String,
    pub account: String,
    pub role: String,
    pub level: usize,
}

pub ghost struct TreeItemV {
    pub client: Seq<char>,
    pub account: Seq<char>,
    pub role: Seq<char>,
    pub level: int,
}

impl View for TreeItem {
    type V = TreeItemV;

    open spec fn view(&self) -> TreeItemV {
        TreeItemV {
            client: self.client@,
            account: self.account@,
            role: self.role@,
            level: self.level as int,
        }
    }
}

pub open spec fn item_views(items: Seq<TreeItem>) -> Seq<TreeItemV> {
    items.map_values(|it: TreeItem| it@)
}

pub open spec fn spec_clients_of(ps: Seq<ProfileV>) -> Seq<Seq<char>> {
    spec_sorted_uniq(spec_extracted(ps, ProfileField::Client))
}

pub open spec fn spec_accounts_of(ps: Seq<ProfileV>, c: Seq<char>) -> Seq<Seq<char>> {
    spec_sorted_uniq(
        spec_extracted(
            ps.filter(|p: ProfileV| spec_filter_matches(p, Some(c), None)),
            ProfileField::Account,
        ),
    )
}

pub open spec fn spec_roles_of(ps: Seq<ProfileV>, c: Seq<char>, a: Seq<char>) -> Seq<Seq<char>> {
    spec_sorted_uniq(
        spec_extracted(
            ps.filter(|p: ProfileV| spec_filter_matches(p, Some(c), Some(a))),
            ProfileField::Role,
        ),
    )
}

/// The expansion key of an account under a client.
pub open spec fn spec_account_key(c: Seq<char>, a: Seq<char>) -> Seq<char> {
    c + "-"@ + a
}

pub open spec fn spec_role_rows(c: Seq<char>, a: Seq<char>, roles: Seq<Seq<char>>) -> Seq<
    TreeItemV,
>
    decreases roles.len(),
{
    if roles.len() == 0 {
        Seq::empty()
    } else {
        seq![TreeItemV { client: c, account: a, role: roles[0], level: 2 }] + spec_role_rows(
            c,
            a,
            roles.drop_first(),
        )
    }
}

pub open spec fn spec_account_rows(
    ps: Seq<ProfileV>,
    expanded: Seq<Seq<char>>,
    c: Seq<char>,
    accounts: Seq<Seq<char>>,
) -> Seq<TreeItemV>
    decreases accounts.len(),
{
    if accounts.len() == 0 {
        Seq::empty()
    } else {
        seq![TreeItemV { client: c, account: accounts[0], role: Seq::empty(), level: 1 }] + (
        if expanded.contains(spec_account_key(c, accounts[0])) {
            spec_role_rows(c, accounts[0], spec_roles_of(ps, c, accounts[0]))
        } else {
            Seq::empty()
        }) + spec_account_rows(ps, expanded, c, accounts.drop_first())
    }
}

pub open spec fn spec_client_rows(
    ps: Seq<ProfileV>,
    expanded: Seq<Seq<char>>,
    clients: Seq<Seq<char>>,
) -> Seq<TreeItemV>
    decreases clients.len(),
{
    if clients.len() == 0 {
        Seq::empty()
    } else {
        seq![
            TreeItemV {
                client: clients[0],
                account: Seq::empty(),
                role: Seq::empty(),
                level: 0,
            },
        ] + (if expanded.contains(clients[0]) {
            spec_account_rows(ps, expanded, clients[0], spec_accounts_of(ps, clients[0]))
        } else {
            Seq::empty()
        }) + spec_client_rows(ps, expanded, clients.drop_first())
    }
}

/// Every visible tree row, in display order: sorted clients, each expanded
/// client's sorted accounts, each expanded account's sorted roles.
pub open spec fn spec_tree_items(ps: Seq<ProfileV>, expanded: Seq<Seq<char>>) -> Seq<TreeItemV> {
    spec_client_rows(ps, expanded, spec_clients_of(ps))
}

proof fn lemma_role_rows_push(c: Seq<char>, a: Seq<char>, roles: Seq<Seq<char>>, r: Seq<char>)
    ensures
        spec_role_rows(c, a, roles.push(r)) =~~= spec_role_rows(c, a, roles) + seq![
            TreeItemV { client: c, account: a, role: r, level: 2 },
        ],
    decreases roles.len(),
{
    if roles.len() == 0 {
        assert(roles.push(r) =~~= seq![r]);
        assert(roles.push(r).drop_first() =~~= Seq::<Seq<char>>::empty());
        assert(spec_role_rows(c, a, Seq::<Seq<char>>::empty()) =~~= Seq::<TreeItemV>::empty());
    } else {
        lemma_role_rows_push(c, a, roles.drop_first(), r);
        let rd = roles.drop_first();
        let it0 = TreeItemV { client: c, account: a, role: roles[0], level: 2 };
        let itn = TreeItemV { client: c, account: a, role: r, level: 2 };
        assert(roles.push(r).drop_first() =~~= rd.push(r));
        assert(roles.push(r)[0] == roles[0]);
        assert(spec_role_rows(c, a, roles.push(r)) =~~= seq![it0] + spec_role_rows(
            c,
            a,
            rd.push(r),
        ));
        assert(seq![it0] + (spec_role_rows(c, a, rd) + seq![itn]) =~~= (seq![it0]
            + spec_role_rows(c, a, rd)) + seq![itn]);
    }
}

proof fn lemma_account_rows_push(
    ps: Seq<ProfileV>,
    expanded: Seq<Seq<char>>,
    c: Seq<char>,
    accounts: Seq<Seq<char>>,
    a: Seq<char>,
)
    ensures
        spec_account_rows(ps, expanded, c, accounts.push(a)) =~~= spec_account_rows(
            ps,
            expanded,
            c,
            accounts,
        ) + (seq![TreeItemV { client: c, account: a, role: Seq::empty(), level: 1 }] + (
        if expanded.contains(spec_account_key(c, a)) {
            spec_role_rows(c, a, spec_roles_of(ps, c, a))
        } else {
            Seq::empty()
        })),
    decreases accounts.len(),
{
    if accounts.len() == 0 {
        assert(accounts.push(a) =~~= seq![a]);
        assert(accounts.push(a).drop_first() =~~= Seq::<Seq<char>>::empty());
        assert(spec_account_rows(ps, expanded, c, Seq::<Seq<char>>::empty()) =~~= Seq::<
            TreeItemV,
        >::empty());
    } else {
        lemma_account_rows_push(ps, expanded, c, accounts.drop_first(), a);
        let ad = accounts.drop_first();
        let hd = seq![
            TreeItemV { client: c, account: accounts[0], role: Seq::empty(), level: 1 },
        ] + (if expanded.contains(spec_account_key(c, accounts[0])) {
            spec_role_rows(c, accounts[0], spec_roles_of(ps, c, accounts[0]))
        } else {
            Seq::empty()
        });
        let blk = seq![TreeItemV { client: c, account: a, role: Seq::empty(), level: 1 }] + (
        if expanded.contains(spec_account_key(c, a)) {
            spec_role_rows(c, a, spec_roles_of(ps, c, a))
        } else {
            Seq::empty()
        });
        assert(accounts.push(a).drop_first() =~~= ad.push(a));
        assert(accounts.push(a)[0] == accounts[0]);
        assert(spec_account_rows(ps, expanded, c, accounts.push(a)) =~~= hd + spec_account_rows(
            ps,
            expanded,
            c,
            ad.push(a),
        ));
        assert(hd + (spec_account_rows(ps, expanded, c, ad) + blk) =~~= (hd + spec_account_rows(
            ps,
            expanded,
            c,
            ad,
        )) + blk);
    }
}

proof fn lemma_client_rows_push(
    ps: Seq<ProfileV>,
    expanded: Seq<Seq<char>>,
    clients: Seq<Seq<char>>,
    c: Seq<char>,
)
    ensures
        spec_client_rows(ps, expanded, clients.push(c)) =~~= spec_client_rows(
            ps,
            expanded,
            clients,
        ) + (seq![TreeItemV { client: c, account: Seq::empty(), role: Seq::empty(), level: 0 }] + (
        if expanded.contains(c) {
            spec_account_rows(ps, expanded, c, spec_accounts_of(ps, c))
        } else {
            Seq::empty()
        })),
    decreases clients.len(),
{
    if clients.len() == 0 {
        assert(clients.push(c) =~~= seq![c]);
        assert(clients.push(c).drop_first() =~~= Seq::<Seq<char>>::empty());
        assert(spec_client_rows(ps, expanded, Seq::<Seq<char>>::empty()) =~~= Seq::<
            TreeItemV,
        >::empty());
    } else {
        lemma_client_rows_push(ps, expanded, clients.drop_first(), c);
        let cd = clients.drop_first();
        let hd = seq![
            TreeItemV {
                client: clients[0],
                account: Seq::empty(),
                role: Seq::empty(),
                level: 0,
            },
        ] + (if expanded.contains(clients[0]) {
            spec_account_rows(ps, expanded, clients[0], spec_accounts_of(ps, clients[0]))
        } else {
            Seq::empty()
        });
        let blk = seq![
            TreeItemV { client: c, account: Seq::empty(), role: Seq::empty(), level: 0 },
        ] + (if expanded.contains(c) {
            spec_account_rows(ps, expanded, c, spec_accounts_of(ps, c))
        } else {
            Seq::empty()
        });
        assert(clients.push(c).drop_first() =~~= cd.push(c));
        assert(clients.push(c)[0] == clients[0]);
        assert(spec_client_rows(ps, expanded, clients.push(c)) =~~= hd + spec_client_rows(
            ps,
            expanded,
            cd.push(c),
        ));
        assert(hd + (spec_client_rows(ps, expanded, cd) + blk) =~~= (hd + spec_client_rows(
            ps,
            expanded,
            cd,
        )) + blk);
    }
}

/// Whether the expansion state holds a key.
pub fn is_expanded(expanded: &Vec<String>, key: &str) -> (r: bool)
    ensures
        r == str_views(expanded@).contains(key@),
{
    let ghost ev = str_views(expanded@);
    let mut i: usize = 0;
    while i < expanded.len()
        invariant
            ev == str_views(expanded@),
            0 <= i <= expanded.len(),
            forall|j: int| 0 <= j < i ==> ev[j] != key@,
        decreases expanded.len() - i,
    {
        if str_eq(expanded[i].as_str(), key) {
            assert(ev[i as int] == key@);
            return true;
        }
        i = i + 1;
    }
    false
}

/// Flips one expansion key: present becomes absent, absent present.
pub fn toggle_expanded(expanded: &mut Vec<String>, key: String)
    requires
        forall|i: int, j: int|
            0 <= i < j < str_views(old(expanded)@).len() ==> str_views(old(expanded)@)[i]
                != str_views(old(expanded)@)[j],
    ensures
        forall|i: int, j: int|
            0 <= i < j < str_views(final(expanded)@).len() ==> str_views(final(expanded)@)[i]
                != str_views(final(expanded)@)[j],
        forall|s: Seq<char>|
            #[trigger] str_views(final(expanded)@).contains(s) <==> (str_views(
                old(expanded)@,
            ).contains(s) != (s == key@)),
{
    let ghost ev = str_views(expanded@);
    let mut i: usize = 0;
    while i < expanded.len()
        invariant
            ev == str_views(expanded@),
            ev == str_views(old(expanded)@),
            forall|i2: int, j2: int| 0 <= i2 < j2 < ev.len() ==> ev[i2] != ev[j2],
            0 <= i <= expanded.len(),
            forall|j: int| 0 <= j < i ==> ev[j] != key@,
        decreases expanded.len() - i,
    {
        if str_eq(expanded[i].as_str(), key.as_str()) {
            expanded.remove(i);
            proof {
                let nv = str_views(expanded@);
                assert(nv =~~= ev.take(i as int) + ev.skip(i as int + 1));
                assert forall|s: Seq<char>| #[trigger] nv.contains(s) <==> (ev.contains(s) != (s
                    == key@)) by {
                    if nv.contains(s) {
                        let k = choose|k: int| 0 <= k < nv.len() && nv[k] == s;
                        if k < i {
                            assert(ev[k] == s);
                        } else {
                            assert(ev[k + 1] == s);
                            assert(ev[i as int] == key@);
                        }
                    }
                    if ev.contains(s) && s != key@ {
                        let k = choose|k: int| 0 <= k < ev.len() && ev[k] == s;
                        if k < i {
                            assert(nv[k] == s);
                        } else {
                            assert(k != i);
                            assert(nv[k - 1] == s);
                        }
                    }
                    if s == key@ && nv.contains(s) {
                        let k = choose|k: int| 0 <= k < nv.len() && nv[k] == s;
                        let kc = if k < i {
                            k
                        } else {
                            k + 1
                        };
                        assert(ev[kc] == key@ && ev[i as int] == key@);
                    }
                }
                assert forall|i2: int, j2: int| 0 <= i2 < j2 < nv.len() implies nv[i2]
                    != nv[j2] by {
                    let a = if i2 < i {
                        i2
                    } else {
                        i2 + 1
                    };
                    let b = if j2 < i {
                        j2
                    } else {
                        j2 + 1
                    };
                    assert(nv[i2] == ev[a] && nv[j2] == ev[b]);
                }
            }
            return ;
        }
        i = i + 1;
    }
    expanded.push(key);
    proof {
        let nv = str_views(expanded@);
        assert(nv =~~= ev.push(key@));
        assert forall|s: Seq<char>| #[trigger] nv.contains(s) <==> (ev.contains(s) != (s
            == key@)) by {
            if nv.contains(s) {
                let k = choose|k: int| 0 <= k < nv.len() && nv[k] == s;
                if k < nv.len() - 1 {
                    assert(ev[k] == s);
                }
            }
            if ev.contains(s) {
                let k = choose|k: int| 0 <= k < ev.len() && ev[k] == s;
                assert(nv[k] == s);
            }
            if s == key@ {
                assert(nv[nv.len() - 1] == s);
            }
        }
    }
}

/// The visible rows for the current profiles and expansion state.
pub fn build_tree_items(profiles: &Vec<Profile>, expanded: &Vec<String>) -> (r: Vec<TreeItem>)
    ensures
        item_views(r@) =~~= spec_tree_items(profile_views(profiles@), str_views(expanded@)),
{
    let ghost ps = profile_views(profiles@);
    let ghost ev = str_views(expanded@);
    let clients = unique_clients(profiles);
    let ghost cv = str_views(clients@);
    let mut out: Vec<TreeItem> = Vec::new();
    let mut i: usize = 0;
    proof {
        assert(cv.take(0) =~~= Seq::<Seq<char>>::empty());
        assert(item_views(out@) =~~= spec_client_rows(ps, ev, cv.take(0)));
    }
    while i < clients.len()
        invariant
            ps == profile_views(profiles@),
            ev == str_views(expanded@),
            cv == str_views(clients@),
            0 <= i <= clients.len(),
            item_views(out@) =~~= spec_client_rows(ps, ev, cv.take(i as int)),
        decreases clients.len() - i,
    {
        let client = &clients[i];
        let ghost before = item_views(out@);
        out.push(
            TreeItem {
                client: client.clone(),
                account: String::new(),
                role: String::new(),
                level: 0,
            },
        );
        let ghost after_client = item_views(out@);
        proof {
            assert(after_client =~~= before + seq![
                TreeItemV {
                    client: cv[i as int],
                    account: Seq::empty(),
                    role: Seq::empty(),
                    level: 0,
                },
            ]);
        }
        let ghost block_start = item_views(out@);
        if is_expanded(expanded, client.as_str()) {
            push_account_rows(&mut out, profiles, expanded, client);
            proof {
                assert(item_views(out@) =~~= block_start + spec_account_rows(
                    ps,
                    ev,
                    cv[i as int],
                    spec_accounts_of(ps, cv[i as int]),
                ));
            }
        }
        proof {
            lemma_client_rows_push(ps, ev, cv.take(i as int), cv[i as int]);
            assert(cv.take(i as int + 1) =~~= cv.take(i as int).push(cv[i as int]));
            assert(item_views(out@) =~~= spec_client_rows(ps, ev, cv.take(i as int + 1)));
        }
        i = i + 1;
    }
    proof {
        assert(cv.take(clients.len() as int) =~~= cv);
    }
    out
}

/// Appends the rows of one expanded client: its accounts, each with its
/// roles when that account is expanded too.
fn push_account_rows(
    out: &mut Vec<TreeItem>,
    profiles: &Vec<Profile>,
    expanded: &Vec<String>,
    client: &String,
)
    ensures
        item_views(final(out)@) =~~= item_views(old(out)@) + spec_account_rows(
            profile_views(profiles@),
            str_views(expanded@),
            client@,
            spec_accounts_of(profile_views(profiles@), client@),
        ),
{
    let ghost ps = profile_views(profiles@);
    let ghost ev = str_views(expanded@);
    let ghost base = item_views(out@);
    let accounts = unique_accounts(profiles, client);
    let ghost av = str_views(accounts@);
    let mut i: usize = 0;
    proof {
        assert(av.take(0) =~~= Seq::<Seq<char>>::empty());
        assert(item_views(out@) =~~= base + spec_account_rows(ps, ev, client@, av.take(0)));
    }
    while i < accounts.len()
        invariant
            ps == profile_views(profiles@),
            ev == str_views(expanded@),
            av == str_views(accounts@),
            base == item_views(old(out)@),
            0 <= i <= accounts.len(),
            item_views(out@) =~~= base + spec_account_rows(ps, ev, client@, av.take(i as int)),
        decreases accounts.len() - i,
    {
        let account = &accounts[i];
        let ghost before = item_views(out@);
        out.push(
            TreeItem {
                client: client.clone(),
                account: account.clone(),
                role: String::new(),
                level: 1,
            },
        );
        proof {
            assert(item_views(out@) =~~= before + seq![
                TreeItemV {
                    client: client@,
                    account: av[i as int],
                    role: Seq::empty(),
                    level: 1,
                },
            ]);
        }
        let ghost block_start = item_views(out@);
        let mut key = client.clone();
        key.append("-");
        key.append(account.as_str());
        proof {
            assert(key@ == spec_account_key(client@, av[i as int]));
        }
        if is_expanded(expanded, key.as_str()) {
            let roles = unique_roles(profiles, client, account);
            let ghost rv = str_views(roles@);
            let mut j: usize = 0;
            proof {
                assert(rv.take(0) =~~= Seq::<Seq<char>>::empty());
                assert(item_views(out@) =~~= block_start + spec_role_rows(
                    client@,
                    av[i as int],
                    rv.take(0),
                ));
            }
            while j < roles.len()
                invariant
                    rv == str_views(roles@),
                    0 <= j <= roles.len(),
                    item_views(out@) =~~= block_start + spec_role_rows(
                        client@,
                        av[i as int],
                        rv.take(j as int),
                    ),
                    av == str_views(accounts@),
                    0 <= i < accounts.len(),
                    account@ == av[i as int],
                decreases roles.len() - j,
            {
                let ghost rbefore = item_views(out@);
                out.push(
                    TreeItem {
                        client: client.clone(),
                        account: account.clone(),
                        role: roles[j].clone(),
                        level: 2,
                    },
                );
                proof {
                    lemma_role_rows_push(client@, av[i as int], rv.take(j as int), rv[j as int]);
                    assert(rv.take(j as int + 1) =~~= rv.take(j as int).push(rv[j as int]));
                    assert(item_views(out@) =~~= rbefore + seq![
                        TreeItemV {
                            client: client@,
                            account: av[i as int],
                            role: rv[j as int],
                            level: 2,
                        },
                    ]);
                }
                j = j + 1;
            }
            proof {
                assert(rv.take(roles.len() as int) =~~= rv);
                assert(rv =~~= spec_roles_of(ps, client@, av[i as int]));
            }
        }
        proof {
            lemma_account_rows_push(ps, ev, client@, av.take(i as int), av[i as int]);
            assert(av.take(i as int + 1) =~~= av.take(i as int).push(av[i as int]));
            assert(item_views(out@) =~~= base + spec_account_rows(
                ps,
                ev,
                client@,
                av.take(i as int + 1),
            ));
        }
        i = i + 1;
    }
    proof {
        assert(av.take(accounts.len() as int) =~~= av);
    }
}

/// The row selected after a move down: the next row, wrapping at the end;
/// nothing is selectable in an empty tree.
pub fn tree_next(selected: Option<usize>, len: usize) -> (r: Option<usize>)
    ensures
        len == 0 ==> r is None,
        len > 0 ==> r == Some(
            match selected {
                Some(i) => if i >= len - 1 {
                    0usize
                } else {
                    (i + 1) as usize
                },
                None => 0usize,
            },
        ),
{
    if len == 0 {
        return None;
    }
    match selected {
        Some(i) => if i >= len - 1 {
            Some(0)
        } else {
            Some(i + 1)
        },
        None => Some(0),
    }
}

/// The row selected after a move up: the previous row, wrapping at the
/// start; nothing is selectable in an empty tree.
pub fn tree_previous(selected: Option<usize>, len: usize) -> (r: Option<usize>)
    ensures
        len == 0 ==> r is None,
        len > 0 ==> r == Some(
            match selected {
                Some(i) => if i == 0 {
                    (len - 1) as usize
                } else {
                    (i - 1) as usize
                },
                None => 0usize,
            },
        ),
{
    if len == 0 {
        return None;
    }
    match selected {
        Some(i) => if i == 0 {
            Some(len - 1)
        } else {
            Some(i - 1)
        },
        None => Some(0),
    }
}

/// What pressing enter on a row does.
#[derive(Debug)]
pub enum TreeAction {
    /// A role leaf was chosen: the selection is this triple.
    Choose { client: String, account: String, role: String },
    /// A client or account row was chosen: flip this expansion key.
    Toggle { key: String },
    /// Nothing was selected, or the row carries no action.
    Ignore,
}

/// Decides what a selection on the given row means: a role leaf resolves
/// to its triple; a client or account row toggles its expansion.
pub fn tree_select_action(items: &Vec<TreeItem>, selected: Option<usize>) -> (r: TreeAction)
    ensures
        match selected {
            Some(i) => {
                if i < items.len() {
                    let it = items@[i as int]@;
                    if it.level == 2 && it.role.len() > 0 {
                        r matches TreeAction::Choose { client, account, role } && client@
                            == it.client && account@ == it.account && role@ == it.role
                    } else if it.level == 0 {
                        r matches TreeAction::Toggle { key } && key@ == it.client
                    } else if it.level == 1 {
                        r matches TreeAction::Toggle { key } && key@ == spec_account_key(
                            it.client,
                            it.account,
                        )
                    } else {
                        r is Ignore
                    }
                } else {
                    r is Ignore
                }
            },
            None => r is Ignore,
        },
{
    match selected {
        Some(i) => {
            if i >= items.len() {
                return TreeAction::Ignore;
            }
            let it = &items[i];
            if it.level == 2 && it.role.unicode_len() > 0 {
                TreeAction::Choose {
                    client: it.client.clone(),
                    account: it.account.clone(),
                    role: it.role.clone(),
                }
            } else if it.level == 0 {
                TreeAction::Toggle { key: it.client.clone() }
            } else if it.level == 1 {
                let mut key = it.client.clone();
                key.append("-");
                key.append(it.account.as_str());
                TreeAction::Toggle { key }
            } else {
                TreeAction::Ignore
            }
        },
        None => TreeAction::Ignore,
    }
}

} // verus!
