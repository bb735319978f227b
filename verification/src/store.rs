//! The three-tier revocation store: a global cutoff timestamp, a per-user
//! cutoff map, and an explicit per-token denylist with expiry bookkeeping.
//!
//! A claims set is revoked when any tier matches: the global cutoff is at
//! or after its issue time, the subject's cutoff is at or after its issue
//! time, or its token id is on the denylist. Denylist entries are only ever
//! added; cleanup removes exactly the entries whose recorded expiry is
//! strictly in the past.

use vstd::prelude::*;

use vstd::string::StringExecFns;

use crate::claims::{ClaimsMethods, RefreshClaims};
use crate::strings::str_eq;

verus! {

/// The map an association list stands for; later entries would win, but the
/// store keeps keys unique.
pub open spec fn assoc_map(v: Seq<(String, u64)>) -> Map<Seq<char>, u64>
    decreases v.len(),
{
    if v.len() == 0 {
        Map::<Seq<char>, u64>::empty()
    } else {
        assoc_map(v.drop_last()).insert(v.last().0@, v.last().1)
    }
}

/// No two entries share a key.
pub open spec fn keys_unique(v: Seq<(String, u64)>) -> bool {
    forall|i: int, j: int| 0 <= i < j < v.len() ==> v[i].0@ != v[j].0@
}

/// The domain of the map is exactly the listed keys.
pub proof fn lemma_assoc_map_dom(v: Seq<(String, u64)>)
    ensures
        forall|k: Seq<char>|
            assoc_map(v).contains_key(k) <==> (exists|i: int|
                0 <= i < v.len() && #[trigger] v[i].0@ == k),
    decreases v.len(),
{
    if v.len() > 0 {
        lemma_assoc_map_dom(v.drop_last());
        assert forall|k: Seq<char>| assoc_map(v).contains_key(k) implies (exists|i: int|
            0 <= i < v.len() && #[trigger] v[i].0@ == k) by {
            if k == v.last().0@ {
                assert(v[v.len() - 1].0@ == k);
            } else {
                assert(assoc_map(v.drop_last()).contains_key(k));
                let i = choose|i: int| 0 <= i < v.len() - 1 && #[trigger] v.drop_last()[i].0@ == k;
                assert(v[i].0@ == k);
            }
        }
        assert forall|k: Seq<char>|
            (exists|i: int| 0 <= i < v.len() && #[trigger] v[i].0@ == k) implies assoc_map(
            v,
        ).contains_key(k) by {
            let i = choose|i: int| 0 <= i < v.len() && #[trigger] v[i].0@ == k;
            if i == v.len() - 1 {
            } else {
                assert(v.drop_last()[i].0@ == k);
                assert(assoc_map(v.drop_last()).contains_key(k));
            }
        }
    }
}

/// Each listed entry is in the map with its value.
pub proof fn lemma_assoc_map_index(v: Seq<(String, u64)>, i: int)
    requires
        keys_unique(v),
        0 <= i < v.len(),
    ensures
        assoc_map(v).contains_key(v[i].0@),
        assoc_map(v)[v[i].0@] == v[i].1,
    decreases v.len(),
{
    if i == v.len() - 1 {
    } else {
        assert(forall|a: int, b: int|
            0 <= a < b < v.len() - 1 ==> v.drop_last()[a].0@ != v.drop_last()[b].0@);
        lemma_assoc_map_index(v.drop_last(), i);
        assert(v[i].0@ != v.last().0@);
    }
}

/// Appending one entry inserts it.
pub proof fn lemma_assoc_map_push(v: Seq<(String, u64)>, e: (String, u64))
    ensures
        assoc_map(v + seq![e]) == assoc_map(v).insert(e.0@, e.1),
{
    let w = v + seq![e];
    assert(w.drop_last() =~= v);
    assert(w.last() == e);
}

/// Removing the entry at `i` removes its key from the map.
pub proof fn lemma_assoc_map_remove(v: Seq<(String, u64)>, i: int)
    requires
        keys_unique(v),
        0 <= i < v.len(),
    ensures
        keys_unique(v.remove(i)),
        assoc_map(v.remove(i)) == assoc_map(v).remove(v[i].0@),
    decreases v.len(),
{
    let w = v.remove(i);
    assert(keys_unique(w)) by {
        assert(forall|a: int|
            0 <= a < w.len() ==> w[a] == (if a < i {
                v[a]
            } else {
                v[a + 1]
            }));
    }
    lemma_assoc_map_dom(v.drop_last());
    if i == v.len() - 1 {
        assert(w =~= v.drop_last());
        assert(!assoc_map(v.drop_last()).contains_key(v[i].0@)) by {
            if assoc_map(v.drop_last()).contains_key(v[i].0@) {
                let j = choose|j: int|
                    0 <= j < v.len() - 1 && #[trigger] v.drop_last()[j].0@ == v[i].0@;
                assert(v[j].0@ == v[i].0@);
            }
        }
        assert(assoc_map(w) =~= assoc_map(v).remove(v[i].0@));
    } else {
        assert(forall|a: int, b: int|
            0 <= a < b < v.len() - 1 ==> v.drop_last()[a].0@ != v.drop_last()[b].0@);
        lemma_assoc_map_remove(v.drop_last(), i);
        assert(w.drop_last() =~= v.drop_last().remove(i));
        assert(w.last() == v.last());
        assert(assoc_map(w) == assoc_map(v.drop_last().remove(i)).insert(v.last().0@, v.last().1));
        assert(v.drop_last()[i].0@ == v[i].0@);
        assert(v[i].0@ != v.last().0@);
        assert(assoc_map(v.drop_last()).remove(v[i].0@).insert(v.last().0@, v.last().1)
            =~= assoc_map(v.drop_last()).insert(v.last().0@, v.last().1).remove(v[i].0@));
    }
}

/// Unique keys make the map as large as the list.
pub proof fn lemma_assoc_map_len(v: Seq<(String, u64)>)
    requires
        keys_unique(v),
    ensures
        assoc_map(v).dom().finite(),
        assoc_map(v).dom().len() == v.len(),
    decreases v.len(),
{
    if v.len() == 0 {
    } else {
        assert(forall|a: int, b: int|
            0 <= a < b < v.len() - 1 ==> v.drop_last()[a].0@ != v.drop_last()[b].0@);
        lemma_assoc_map_len(v.drop_last());
        lemma_assoc_map_dom(v.drop_last());
        assert(!assoc_map(v.drop_last()).contains_key(v.last().0@)) by {
            if assoc_map(v.drop_last()).contains_key(v.last().0@) {
                let j = choose|j: int|
                    0 <= j < v.len() - 1 && #[trigger] v.drop_last()[j].0@ == v.last().0@;
                assert(v[j].0@ == v.last().0@);
            }
        }
        assert(assoc_map(v).dom() =~= assoc_map(v.drop_last()).dom().insert(v.last().0@));
        vstd::set::axiom_set_insert_len(assoc_map(v.drop_last()).dom(), v.last().0@);
    }
}

/// Looks a key up in an association list.
fn map_get(v: &Vec<(String, u64)>, key: &str) -> (r: Option<u64>)
    requires
        keys_unique(v@),
    ensures
        r is Some <==> assoc_map(v@).contains_key(key@),
        r matches Some(x) ==> assoc_map(v@)[key@] == x,
{
    let n = v.len();
    let mut i: usize = 0;
    while i < n
        invariant
            i <= n,
            n == v@.len(),
            keys_unique(v@),
            forall|j: int| 0 <= j < i ==> v@[j].0@ != key@,
        decreases n - i,
    {
        if str_eq(v[i].0.as_str(), key) {
            proof {
                lemma_assoc_map_index(v@, i as int);
            }
            return Some(v[i].1);
        }
        i += 1;
    }
    proof {
        lemma_assoc_map_dom(v@);
    }
    None
}

/// Inserts or replaces a key in an association list.
fn map_put(v: &mut Vec<(String, u64)>, key: &str, val: u64)
    requires
        keys_unique(old(v)@),
    ensures
        keys_unique(final(v)@),
        assoc_map(final(v)@) == assoc_map(old(v)@).insert(key@, val),
{
    let n = v.len();
    let mut i: usize = 0;
    while i < n
        invariant
            i <= n,
            n == v@.len(),
            v@ == old(v)@,
            keys_unique(v@),
            forall|j: int| 0 <= j < i ==> v@[j].0@ != key@,
        decreases n - i,
    {
        if str_eq(v[i].0.as_str(), key) {
            proof {
                lemma_assoc_map_remove(v@, i as int);
                lemma_assoc_map_index(v@, i as int);
            }
            let ghost removed = v@.remove(i as int);
            let _ = v.remove(i);
            let owned = String::from_str(key);
            v.push((owned, val));
            proof {
                assert(v@ =~= removed + seq![(v@[v@.len() - 1].0, val)]);
                lemma_assoc_map_push(removed, v@[v@.len() - 1]);
                assert(keys_unique(v@)) by {
                    assert(forall|a: int| 0 <= a < removed.len() ==> removed[a].0@ != key@) by {
                        assert(forall|a: int|
                            0 <= a < removed.len() ==> removed[a] == (if a < i {
                                old(v)@[a]
                            } else {
                                old(v)@[a + 1]
                            }));
                    }
                }
                assert(assoc_map(v@) =~= assoc_map(old(v)@).insert(key@, val));
            }
            return ;
        }
        i += 1;
    }
    let owned = String::from_str(key);
    v.push((owned, val));
    proof {
        assert(v@ =~= old(v)@ + seq![(v@[v@.len() - 1].0, val)]);
        lemma_assoc_map_push(old(v)@, v@[v@.len() - 1]);
        assert(keys_unique(v@));
    }
}

/// The map left after keeping, of the first `i` entries, those with value
/// at least `now`.
pub open spec fn keep_map(v: Seq<(String, u64)>, i: int, now: u64) -> Map<Seq<char>, u64>
    decreases i,
{
    if i <= 0 {
        Map::<Seq<char>, u64>::empty()
    } else {
        let m = keep_map(v, i - 1, now);
        if v[i - 1].1 >= now {
            m.insert(v[i - 1].0@, v[i - 1].1)
        } else {
            m
        }
    }
}

/// What `keep_map` holds: exactly the keys of kept entries, each at its
/// listed value.
pub proof fn lemma_keep_map_dom(v: Seq<(String, u64)>, i: int, now: u64)
    requires
        keys_unique(v),
        0 <= i <= v.len(),
    ensures
        forall|k: Seq<char>|
            keep_map(v, i, now).contains_key(k) <==> (exists|j: int|
                0 <= j < i && #[trigger] v[j].0@ == k && v[j].1 >= now),
        forall|j: int|
            0 <= j < i && v[j].1 >= now ==> #[trigger] keep_map(v, i, now)[v[j].0@] == v[j].1,
    decreases i,
{
    if i > 0 {
        lemma_keep_map_dom(v, i - 1, now);
        let m = keep_map(v, i, now);
        assert forall|k: Seq<char>| m.contains_key(k) implies (exists|j: int|
            0 <= j < i && #[trigger] v[j].0@ == k && v[j].1 >= now) by {
            if v[i - 1].1 >= now && k == v[i - 1].0@ {
                assert(v[i - 1].0@ == k && v[i - 1].1 >= now);
            } else {
                assert(keep_map(v, i - 1, now).contains_key(k));
            }
        }
        assert forall|k: Seq<char>|
            (exists|j: int| 0 <= j < i && #[trigger] v[j].0@ == k && v[j].1 >= now) implies
            m.contains_key(k) by {
            let j = choose|j: int| 0 <= j < i && #[trigger] v[j].0@ == k && v[j].1 >= now;
            if j < i - 1 {
                assert(keep_map(v, i - 1, now).contains_key(k));
            }
        }
        assert forall|j: int| 0 <= j < i && v[j].1 >= now implies #[trigger] m[v[j].0@]
            == v[j].1 by {
            if j < i - 1 {
                assert(keep_map(v, i - 1, now)[v[j].0@] == v[j].1);
                if v[i - 1].1 >= now {
                    assert(v[j].0@ != v[i - 1].0@);
                }
            }
        }
    }
}

/// The three-tier revocation state.
pub struct RevocationStore {
    global_cutoff: Option<u64>,
    user_cutoffs: Vec<(String, u64)>,
    denylist: Vec<(String, u64)>,
}

impl RevocationStore {
    /// The global cutoff: claims issued at or before it are revoked.
    pub closed spec fn global(&self) -> Option<u64> {
        self.global_cutoff
    }

    /// The per-user cutoffs: claims of a listed subject issued at or before
    /// its cutoff are revoked.
    pub closed spec fn users(&self) -> Map<Seq<char>, u64> {
        assoc_map(self.user_cutoffs@)
    }

    /// The token denylist: claims whose token id is listed are revoked; the
    /// value is the expiry used as the cleanup horizon.
    pub closed spec fn tokens(&self) -> Map<Seq<char>, u64> {
        assoc_map(self.denylist@)
    }

    /// Internal invariant: the backing lists have unique keys.
    pub closed spec fn wf(&self) -> bool {
        keys_unique(self.user_cutoffs@) && keys_unique(self.denylist@)
    }

    /// An empty store: nothing is revoked.
    pub fn new() -> (r: RevocationStore)
        ensures
            r.wf(),
            r.global() is None,
            r.users() == Map::<Seq<char>, u64>::empty(),
            r.tokens() == Map::<Seq<char>, u64>::empty(),
    {
        RevocationStore { global_cutoff: None, user_cutoffs: Vec::new(), denylist: Vec::new() }
    }

    /// Sets the global cutoff to `now`: every token issued at or before
    /// `now` is revoked from here on, across all users.
    pub fn revoke_global(&mut self, now: u64)
        requires
            old(self).wf(),
        ensures
            final(self).wf(),
            final(self).global() == Some(now),
            final(self).users() == old(self).users(),
            final(self).tokens() == old(self).tokens(),
    {
        self.global_cutoff = Some(now);
    }

    /// Sets the cutoff for one subject to `now`: every token of that
    /// subject issued at or before `now` is revoked from here on.
    pub fn revoke_user(&mut self, user_id: &str, now: u64)
        requires
            old(self).wf(),
        ensures
            final(self).wf(),
            final(self).global() == old(self).global(),
            final(self).users() == old(self).users().insert(user_id@, now),
            final(self).tokens() == old(self).tokens(),
    {
        map_put(&mut self.user_cutoffs, user_id, now);
    }

    /// Denylists both ids of a refresh/access pair, each under the refresh
    /// token's own expiry as the cleanup horizon.
    pub fn revoke_token_pair(&mut self, claims: &RefreshClaims)
        requires
            old(self).wf(),
        ensures
            final(self).wf(),
            final(self).global() == old(self).global(),
            final(self).users() == old(self).users(),
            final(self).tokens() == old(self).tokens().insert(claims.jti@, claims.exp).insert(
                claims.prf@,
                claims.exp,
            ),
    {
        map_put(&mut self.denylist, claims.jti.as_str(), claims.exp);
        map_put(&mut self.denylist, claims.prf.as_str(), claims.exp);
    }

    /// Whether any of the three tiers revokes these claims.
    pub open spec fn spec_is_revoked(&self, sub: Seq<char>, iat: u64, jti: Seq<char>) -> bool {
        ||| (self.global() matches Some(t) && t >= iat)
        ||| (self.users().contains_key(sub) && self.users()[sub] >= iat)
        ||| self.tokens().contains_key(jti)
    }

    /// Evaluates global cutoff, then user cutoff, then denylist membership;
    /// logically the three are OR'd, the order only serves diagnostics.
    pub fn is_revoked<T: ClaimsMethods>(&self, claims: &T) -> (r: bool)
        requires
            self.wf(),
        ensures
            r == self.spec_is_revoked(claims.spec_sub(), claims.spec_iat(), claims.spec_jti()),
    {
        let iat = claims.get_iat();
        match self.global_cutoff {
            Some(t) => {
                if t >= iat {
                    return true;
                }
            },
            None => {},
        }
        match map_get(&self.user_cutoffs, claims.get_sub()) {
            Some(t) => {
                if t >= iat {
                    return true;
                }
            },
            None => {},
        }
        match map_get(&self.denylist, claims.get_jti()) {
            Some(_) => true,
            None => false,
        }
    }

    /// The current global cutoff, if one was ever set.
    pub fn global_cutoff(&self) -> (r: Option<u64>)
        ensures
            r == self.global(),
    {
        self.global_cutoff
    }

    /// The per-user cutoff entries, one per subject.
    pub fn user_cutoff_entries(&self) -> (r: &Vec<(String, u64)>)
        ensures
            assoc_map(r@) == self.users(),
            self.wf() ==> keys_unique(r@),
            self.wf() ==> forall|i: int|
                0 <= i < r@.len() ==> #[trigger] self.users().contains_key(r@[i].0@)
                    && self.users()[r@[i].0@] == r@[i].1,
    {
        proof {
            if self.wf() {
                assert forall|i: int| 0 <= i < self.user_cutoffs@.len() implies #[trigger]
                    self.users().contains_key(self.user_cutoffs@[i].0@) && self.users()[
                    self.user_cutoffs@[i].0@] == self.user_cutoffs@[i].1 by {
                    lemma_assoc_map_index(self.user_cutoffs@, i);
                }
            }
        }
        &self.user_cutoffs
    }

    /// The denylist entries, one per revoked token id, with the recorded
    /// cleanup horizon.
    pub fn denylist_entries(&self) -> (r: &Vec<(String, u64)>)
        ensures
            assoc_map(r@) == self.tokens(),
            self.wf() ==> keys_unique(r@),
            self.wf() ==> forall|i: int|
                0 <= i < r@.len() ==> #[trigger] self.tokens().contains_key(r@[i].0@)
                    && self.tokens()[r@[i].0@] == r@[i].1,
    {
        proof {
            if self.wf() {
                assert forall|i: int| 0 <= i < self.denylist@.len() implies #[trigger]
                    self.tokens().contains_key(self.denylist@[i].0@) && self.tokens()[
                    self.denylist@[i].0@] == self.denylist@[i].1 by {
                    lemma_assoc_map_index(self.denylist@, i);
                }
            }
        }
        &self.denylist
    }

    /// Removes exactly the denylist entries whose recorded expiry is
    /// strictly before `now` and returns how many were removed; a token
    /// past that horizon fails expiry validation on its own.
    pub fn cleanup_expired(&mut self, now: u64) -> (r: usize)
        requires
            old(self).wf(),
        ensures
            final(self).wf(),
            final(self).global() == old(self).global(),
            final(self).users() == old(self).users(),
            forall|k: Seq<char>|
                final(self).tokens().contains_key(k) <==> (old(self).tokens().contains_key(k)
                    && old(self).tokens()[k] >= now),
            forall|k: Seq<char>| #[trigger]
                final(self).tokens().contains_key(k) ==> final(self).tokens()[k] == old(
                    self,
                ).tokens()[k],
            final(self).tokens().dom().finite(),
            old(self).tokens().dom().finite(),
            r == old(self).tokens().dom().len() - final(self).tokens().dom().len(),
    {
        let ghost orig = self.denylist@;
        let n = self.denylist.len();
        let mut kept: Vec<(String, u64)> = Vec::new();
        let mut deleted: usize = 0;
        let mut i: usize = 0;
        proof {
            lemma_assoc_map_dom(orig);
            lemma_assoc_map_len(orig);
        }
        while i < n
            invariant
                i <= n,
                n == self.denylist@.len(),
                self.denylist@ == orig,
                keys_unique(orig),
                keys_unique(kept@),
                kept@.len() + deleted == i,
                assoc_map(kept@) == keep_map(orig, i as int, now),
            decreases n - i,
        {
            let e = &self.denylist[i];
            if e.1 >= now {
                let entry = (e.0.clone(), e.1);
                let ghost before = kept@;
                proof {
                    assert(entry == (orig[i as int].0, orig[i as int].1));
                    lemma_keep_map_dom(orig, i as int, now);
                    lemma_assoc_map_dom(before);
                    assert forall|a: int| 0 <= a < before.len() implies before[a].0@
                        != entry.0@ by {
                        assert(assoc_map(before).contains_key(before[a].0@)) by {
                            assert(before[a].0@ == before[a].0@);
                        }
                        if before[a].0@ == entry.0@ {
                            let j = choose|j: int|
                                0 <= j < i && #[trigger] orig[j].0@ == before[a].0@ && orig[j].1
                                    >= now;
                            assert(orig[j].0@ != orig[i as int].0@);
                        }
                    }
                }
                kept.push(entry);
                proof {
                    assert(kept@ =~= before + seq![(kept@[kept@.len() - 1].0, entry.1)]);
                    lemma_assoc_map_push(before, kept@[kept@.len() - 1]);
                    assert(assoc_map(kept@) == keep_map(orig, i as int + 1, now));
                }
            } else {
                deleted += 1;
                proof {
                    assert(assoc_map(kept@) == keep_map(orig, i as int + 1, now));
                }
            }
            i += 1;
        }
        proof {
            lemma_keep_map_dom(orig, n as int, now);
            lemma_assoc_map_dom(kept@);
            lemma_assoc_map_len(kept@);
            assert forall|k: Seq<char>| assoc_map(kept@).contains_key(k) implies assoc_map(
                orig,
            ).contains_key(k) && assoc_map(orig)[k] >= now && assoc_map(kept@)[k] == assoc_map(
                orig,
            )[k] by {
                let j = choose|j: int| 0 <= j < n && #[trigger] orig[j].0@ == k && orig[j].1 >= now;
                lemma_assoc_map_index(orig, j);
                assert(keep_map(orig, n as int, now)[orig[j].0@] == orig[j].1);
            }
            assert forall|k: Seq<char>|
                assoc_map(orig).contains_key(k) && assoc_map(orig)[k] >= now implies assoc_map(
                kept@,
            ).contains_key(k) by {
                let j = choose|j: int| 0 <= j < n && #[trigger] orig[j].0@ == k;
                lemma_assoc_map_index(orig, j);
                assert(orig[j].1 >= now);
            }
        }
        self.denylist = kept;
        deleted
    }
}

} // verus!
