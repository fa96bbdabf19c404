//! The recency ledger: profile name to last-used timestamp, with bounded
//! retention, and the recency reordering of profile sequences.
use vstd::prelude::*;

use crate::profile::{profile_views, Profile};
use crate::text::str_eq;

verus! {

broadcast use vstd::seq_lib::group_to_multiset_ensures;

/// Mapping from profile name to last-used Unix timestamp (seconds).
/// Entries carry distinct names; `record` keeps at most `cap` of them,
/// preferring the largest timestamps.
#[derive(Debug)]
pub struct RecentProfiles {
    pub profiles: Vec<(String, u64)>,
}

impl RecentProfiles {
    /// The entries as character sequences with their timestamps.
    pub open spec fn entries(self) -> Seq<(Seq<char>, u64)> {
        self.profiles@.map_values(|e: (String, u64)| (e.0@, e.1))
    }

    /// Well-formed: no name occurs twice.
    pub open spec fn wf(self) -> bool {
        forall|i: int, j: int|
            0 <= i < j < self.entries().len() ==> (#[trigger] self.entries()[i]).0 != (
            #[trigger] self.entries()[j]).0
    }
}

impl Default for RecentProfiles {
    fn default() -> (r: Self)
        ensures
            r.entries() == Seq::<(Seq<char>, u64)>::empty(),
            r.wf(),
    {
        let r = RecentProfiles { profiles: Vec::new() };
        proof {
            assert(r.entries() =~= Seq::<(Seq<char>, u64)>::empty());
        }
        r
    }
}

/// The timestamp recorded for `name`; a name not present counts as 0,
/// the least recent possible.
pub open spec fn spec_ledger_lookup(es: Seq<(Seq<char>, u64)>, name: Seq<char>) -> u64
    decreases es.len(),
{
    if es.len() == 0 {
        0
    } else if es[0].0 == name {
        es[0].1
    } else {
        spec_ledger_lookup(es.drop_first(), name)
    }
}

proof fn lemma_ledger_lookup_skip(es: Seq<(Seq<char>, u64)>, name: Seq<char>, i: int)
    requires
        0 <= i <= es.len(),
        forall|j: int| 0 <= j < i ==> (#[trigger] es[j]).0 != name,
    ensures
        spec_ledger_lookup(es, name) == spec_ledger_lookup(es.skip(i), name),
    decreases i,
{
    if i > 0 {
        lemma_ledger_lookup_skip(es.drop_first(), name, i - 1);
        assert(es.drop_first().skip(i - 1) =~= es.skip(i));
    } else {
        assert(es.skip(0) =~= es);
    }
}

/// The ledger without the entry for `name` (the first, if names repeat).
pub open spec fn spec_remove_key(es: Seq<(Seq<char>, u64)>, name: Seq<char>) -> Seq<
    (Seq<char>, u64),
>
    decreases es.len(),
{
    if es.len() == 0 {
        es
    } else if es[0].0 == name {
        es.drop_first()
    } else {
        seq![es[0]] + spec_remove_key(es.drop_first(), name)
    }
}

proof fn lemma_remove_key_scan(es: Seq<(Seq<char>, u64)>, name: Seq<char>, i: int)
    requires
        0 <= i <= es.len(),
        forall|j: int| 0 <= j < i ==> (#[trigger] es[j]).0 != name,
        i < es.len() ==> es[i].0 == name,
    ensures
        i < es.len() ==> spec_remove_key(es, name) =~= es.take(i) + es.skip(i + 1),
        i == es.len() ==> spec_remove_key(es, name) =~= es,
    decreases i,
{
    if i == 0 {
        if i < es.len() {
            assert(es.take(0) + es.skip(1) =~= es.drop_first());
        }
    } else {
        lemma_remove_key_scan(es.drop_first(), name, i - 1);
        if i < es.len() {
            assert(seq![es[0]] + (es.drop_first().take(i - 1) + es.drop_first().skip(i)) =~= es.take(
                i,
            ) + es.skip(i + 1));
        } else {
            assert(seq![es[0]] + es.drop_first() =~= es);
        }
    }
}

/// What the ledger holds after a `record`: the upserted entry list before
/// the cap is enforced.
pub open spec fn spec_upserted(
    es: Seq<(Seq<char>, u64)>,
    name: Seq<char>,
    timestamp: u64,
) -> Seq<(Seq<char>, u64)> {
    spec_remove_key(es, name).push((name, timestamp))
}

/// The retention contract: as many entries as fit under the cap remain,
/// every survivor comes from the upserted entries, and every survivor's
/// timestamp is at least every dropped entry's.
pub open spec fn spec_record_post(
    old_es: Seq<(Seq<char>, u64)>,
    new_es: Seq<(Seq<char>, u64)>,
    name: Seq<char>,
    timestamp: u64,
    cap: usize,
) -> bool {
    let up = spec_upserted(old_es, name, timestamp);
    &&& new_es.len() == if up.len() <= cap {
        up.len() as int
    } else {
        cap as int
    }
    &&& forall|p: (Seq<char>, u64)| #[trigger] new_es.contains(p) ==> up.contains(p)
    &&& forall|p: (Seq<char>, u64), q: (Seq<char>, u64)|
        new_es.contains(p) && up.contains(q) && !new_es.contains(q) ==> p.1 >= q.1
}

impl RecentProfiles {
    /// The timestamp recorded for `name`, or 0 when absent.
    pub fn lookup(&self, name: &str) -> (r: u64)
        ensures
            r == spec_ledger_lookup(self.entries(), name@),
    {
        let ghost es = self.entries();
        let mut i: usize = 0;
        while i < self.profiles.len()
            invariant
                es == self.entries(),
                0 <= i <= self.profiles.len(),
                forall|j: int| 0 <= j < i ==> (#[trigger] es[j]).0 != name@,
            decreases self.profiles.len() - i,
        {
            if str_eq(self.profiles[i].0.as_str(), name) {
                proof {
                    lemma_ledger_lookup_skip(es, name@, i as int);
                    assert(es.skip(i as int)[0] == es[i as int]);
                }
                return self.profiles[i].1;
            }
            i = i + 1;
        }
        proof {
            lemma_ledger_lookup_skip(es, name@, self.profiles.len() as int);
            assert(es.skip(self.profiles.len() as int) =~= Seq::<(Seq<char>, u64)>::empty());
        }
        0
    }

    /// Inserts or overwrites the entry for `name` with `timestamp`, then
    /// enforces the cap: only the entries with the largest timestamps stay.
    pub fn record(&mut self, name: &str, timestamp: u64, cap: usize)
        requires
            old(self).wf(),
        ensures
            final(self).wf(),
            spec_record_post(old(self).entries(), final(self).entries(), name@, timestamp, cap),
    {
        let ghost old_es = self.entries();
        // Upsert: drop any entry carrying the name, then append the new one.
        let mut i: usize = 0;
        while i < self.profiles.len()
            invariant_except_break
                old_es == self.entries(),
                0 <= i <= self.profiles.len(),
                forall|j: int| 0 <= j < i ==> (#[trigger] old_es[j]).0 != name@,
            ensures
                old_es == self.entries(),
                0 <= i <= self.profiles.len(),
                forall|j: int| 0 <= j < i ==> (#[trigger] old_es[j]).0 != name@,
                i < self.profiles.len() ==> old_es[i as int].0 == name@,
            decreases self.profiles.len() - i,
        {
            if str_eq(self.profiles[i].0.as_str(), name) {
                break ;
            }
            i = i + 1;
        }
        proof {
            lemma_remove_key_scan(old_es, name@, i as int);
        }
        let ghost hit = i < self.profiles.len();
        if i < self.profiles.len() {
            self.profiles.remove(i);
            proof {
                assert(self.entries() =~= old_es.take(i as int) + old_es.skip(i as int + 1));
            }
        }
        let ghost rem = self.entries();
        proof {
            assert(rem =~= spec_remove_key(old_es, name@));
            assert forall|j: int| 0 <= j < rem.len() implies (#[trigger] rem[j]).0 != name@ by {
                if hit {
                    if j < i {
                        assert(rem[j] == old_es[j]);
                    } else {
                        assert(rem[j] == old_es[j + 1]);
                        assert(old_es[i as int].0 == name@);
                    }
                } else {
                    assert(rem[j] == old_es[j]);
                }
            }
            assert forall|i2: int, j2: int| 0 <= i2 < j2 < rem.len() implies (
            #[trigger] rem[i2]).0 != (#[trigger] rem[j2]).0 by {
                if hit {
                    let a = if i2 < i {
                        i2
                    } else {
                        i2 + 1
                    };
                    let b = if j2 < i {
                        j2
                    } else {
                        j2 + 1
                    };
                    assert(rem[i2] == old_es[a] && rem[j2] == old_es[b]);
                } else {
                    assert(rem[i2] == old_es[i2] && rem[j2] == old_es[j2]);
                }
            }
        }
        self.profiles.push((String::from_str(name), timestamp));
        let ghost up = self.entries();
        proof {
            assert(up =~= spec_upserted(old_es, name@, timestamp));
            assert(up =~= rem.push((name@, timestamp)));
            assert forall|i2: int, j2: int| 0 <= i2 < j2 < up.len() implies (
            #[trigger] up[i2]).0 != (#[trigger] up[j2]).0 by {
                if j2 < up.len() - 1 {
                    assert(up[i2] == rem[i2] && up[j2] == rem[j2]);
                } else {
                    assert(up[i2] == rem[i2] && up[j2].0 == name@);
                }
            }
        }
        // Enforce the cap, dropping a least-recent entry each round.
        while self.profiles.len() > cap
            invariant
                self.wf(),
                up == spec_upserted(old_es, name@, timestamp),
                self.entries().len() <= up.len(),
                self.entries().len() >= if up.len() <= cap {
                    up.len() as int
                } else {
                    cap as int
                },
                forall|p: (Seq<char>, u64)| #[trigger] self.entries().contains(p) ==> up.contains(
                    p,
                ),
                forall|p: (Seq<char>, u64), q: (Seq<char>, u64)|
                    self.entries().contains(p) && up.contains(q) && !self.entries().contains(q)
                        ==> p.1 >= q.1,
            decreases self.profiles.len(),
        {
            let ghost cur = self.entries();
            let mut m: usize = 0;
            let mut j: usize = 1;
            while j < self.profiles.len()
                invariant
                    cur == self.entries(),
                    self.profiles.len() > 0,
                    0 <= m < j <= self.profiles.len(),
                    forall|k: int| 0 <= k < j ==> cur[m as int].1 <= (#[trigger] cur[k]).1,
                decreases self.profiles.len() - j,
            {
                if self.profiles[j].1 < self.profiles[m].1 {
                    m = j;
                }
                j = j + 1;
            }
            self.profiles.remove(m);
            proof {
                assert(self.entries() =~= cur.take(m as int) + cur.skip(m as int + 1));
                let new_es = self.entries();
                assert forall|p: (Seq<char>, u64)| #[trigger] new_es.contains(p) implies
                    cur.contains(p) by {
                    let k = choose|k: int| 0 <= k < new_es.len() && new_es[k] == p;
                    if k < m {
                        assert(cur[k] == p);
                    } else {
                        assert(cur[k + 1] == p);
                    }
                }
                assert(self.wf()) by {
                    assert forall|i2: int, j2: int| 0 <= i2 < j2 < new_es.len() implies (
                    #[trigger] new_es[i2]).0 != (#[trigger] new_es[j2]).0 by {
                        let a = if i2 < m {
                            i2
                        } else {
                            i2 + 1
                        };
                        let b = if j2 < m {
                            j2
                        } else {
                            j2 + 1
                        };
                        assert(new_es[i2] == cur[a] && new_es[j2] == cur[b]);
                    }
                }
                assert forall|p: (Seq<char>, u64), q: (Seq<char>, u64)|
                    new_es.contains(p) && up.contains(q) && !new_es.contains(q) implies p.1
                    >= q.1 by {
                    let k = choose|k: int| 0 <= k < new_es.len() && new_es[k] == p;
                    let kc = if k < m {
                        k
                    } else {
                        k + 1
                    };
                    assert(cur[kc] == p);
                    if cur.contains(q) {
                        // q was dropped this round, so it is the minimum.
                        let ghost kq = choose|kq: int| 0 <= kq < cur.len() && cur[kq] == q;
                        if kq != m {
                            let kn = if kq < m {
                                kq
                            } else {
                                kq - 1
                            };
                            assert(new_es[kn] == q);
                        }
                        assert(q == cur[m as int]);
                        assert(cur[m as int].1 <= cur[kc].1);
                    }
                }
            }
        }
    }
}

/// Law: after any `record`, the ledger holds at most `cap` entries, and
/// every entry it dropped had a timestamp no larger than any it kept.
pub proof fn lemma_cap_never_exceeded(
    old_es: Seq<(Seq<char>, u64)>,
    new_es: Seq<(Seq<char>, u64)>,
    name: Seq<char>,
    timestamp: u64,
    cap: usize,
)
    requires
        spec_record_post(old_es, new_es, name, timestamp, cap),
    ensures
        new_es.len() <= cap,
        forall|p: (Seq<char>, u64), q: (Seq<char>, u64)|
            new_es.contains(p) && spec_upserted(old_es, name, timestamp).contains(q)
                && !new_es.contains(q) ==> p.1 >= q.1,
{
}

/// The recency key a profile sorts by.
pub open spec fn spec_recency_of(es: Seq<(Seq<char>, u64)>, p: crate::profile::ProfileV) -> u64 {
    spec_ledger_lookup(es, p.name)
}

/// The profiles reordered by descending last-used timestamp; profiles the
/// ledger does not know sort last. A permutation: nothing is added or lost.
pub fn sort_by_recency(profiles: Vec<Profile>, recent: &RecentProfiles) -> (r: Vec<Profile>)
    ensures
        r@.to_multiset() == profiles@.to_multiset(),
        forall|i: int, j: int|
            0 <= i < j < r@.len() ==> spec_recency_of(recent.entries(), r@[i]@) >= spec_recency_of(
                recent.entries(),
                r@[j]@,
            ),
{
    let ghost orig = profiles@;
    let ghost es = recent.entries();
    let mut rest = profiles;
    let mut out: Vec<Profile> = Vec::new();
    while rest.len() > 0
        invariant
            es == recent.entries(),
            out@.to_multiset().add(rest@.to_multiset()) =~= orig.to_multiset(),
            forall|i: int, j: int|
                0 <= i < j < out@.len() ==> spec_recency_of(es, out@[i]@) >= spec_recency_of(
                    es,
                    out@[j]@,
                ),
            forall|i: int, j: int|
                0 <= i < out@.len() && 0 <= j < rest@.len() ==> spec_recency_of(es, out@[i]@)
                    >= spec_recency_of(es, rest@[j]@),
        decreases rest.len(),
    {
        let ghost prev_rest = rest@;
        let mut m: usize = 0;
        let mut best = recent.lookup(rest[0].name.as_str());
        let mut j: usize = 1;
        while j < rest.len()
            invariant
                es == recent.entries(),
                rest@.len() > 0,
                0 <= m < j <= rest@.len(),
                best == spec_recency_of(es, rest@[m as int]@),
                forall|k: int|
                    0 <= k < j ==> best >= spec_recency_of(es, (#[trigger] rest@[k])@),
            decreases rest.len() - j,
        {
            let ts = recent.lookup(rest[j].name.as_str());
            if ts > best {
                m = j;
                best = ts;
            }
            j = j + 1;
        }
        let picked = rest.remove(m);
        out.push(picked);
        proof {
            assert(prev_rest.contains(prev_rest[m as int]));
            assert(out@.to_multiset().add(rest@.to_multiset()) =~= orig.to_multiset());
            assert forall|i: int, j2: int|
                0 <= i < out@.len() && 0 <= j2 < rest@.len() implies spec_recency_of(
                es,
                out@[i]@,
            ) >= spec_recency_of(es, rest@[j2]@) by {
                let jc = if j2 < m {
                    j2
                } else {
                    j2 + 1
                };
                assert(rest@[j2] == prev_rest[jc]);
                if i == out@.len() - 1 {
                    assert(out@[i] == prev_rest[m as int]);
                } else {
                }
            }
        }
    }
    out
}

} // verus!
