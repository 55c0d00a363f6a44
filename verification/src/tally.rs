//! Grouping: the totals of weighted records per key, listed in a fixed
//! order.
//!
//! A record enters the grouping as a share: its key and two amounts. The
//! grouping holds one total per key that was seen, with the sums of the two
//! amounts over the shares of that key. The totals are listed either by key
//! or by their sums, largest first, the key breaking ties.
use vstd::prelude::*;

verus! {

/// A key by which records are grouped.
pub trait Key: Sized {
    /// The key as a mathematical value.
    type Model;

    /// The mathematical value of this key.
    spec fn model(&self) -> Self::Model;

    /// The order in which keys are listed: `a` comes strictly before `b`.
    spec fn before(a: Self::Model, b: Self::Model) -> bool;

    /// The order of keys is strict and total.
    proof fn order_is_strict_and_total(a: Self::Model, b: Self::Model, c: Self::Model)
        ensures
            !Self::before(a, a),
            Self::before(a, b) && Self::before(b, c) ==> Self::before(a, c),
            a != b ==> Self::before(a, b) || Self::before(b, a),
    ;

    /// Whether two keys are the same.
    fn same_as(&self, other: &Self) -> (same: bool)
        ensures
            same == (self.model() == other.model()),
    ;

    /// Whether this key comes strictly before `other`.
    fn comes_before(&self, other: &Self) -> (yes: bool)
        ensures
            yes == Self::before(self.model(), other.model()),
    ;

    /// A key of its own with the same value.
    fn duplicate(&self) -> (copy: Self)
        ensures
            copy.model() == self.model(),
    ;
}

/// A key and two amounts: what a record contributes, or what a group has
/// received.
pub struct Share<M> {
    pub key: M,
    pub first: nat,
    pub second: nat,
}

/// The sum of the first amounts of the shares of `key`.
pub open spec fn total_first<M>(shares: Seq<Share<M>>, key: M) -> nat
    decreases shares.len(),
{
    if shares.len() == 0 {
        0
    } else {
        total_first(shares.drop_last(), key) + if shares.last().key == key {
            shares.last().first
        } else {
            0
        }
    }
}

/// The sum of the second amounts of the shares of `key`.
pub open spec fn total_second<M>(shares: Seq<Share<M>>, key: M) -> nat
    decreases shares.len(),
{
    if shares.len() == 0 {
        0
    } else {
        total_second(shares.drop_last(), key) + if shares.last().key == key {
            shares.last().second
        } else {
            0
        }
    }
}

/// Some share of `shares` has the key `key`.
pub open spec fn has_key<M>(shares: Seq<Share<M>>, key: M) -> bool {
    exists|i: int| 0 <= i < shares.len() && (#[trigger] shares[i]).key == key
}

/// `groups` is a grouping of `shares`: it holds every key of `shares` once
/// and no other key, each with the sums of its shares.
pub open spec fn is_grouping<M>(shares: Seq<Share<M>>, groups: Seq<Share<M>>) -> bool {
    &&& forall|j: int|
        0 <= j < groups.len() ==> {
            &&& has_key(shares, (#[trigger] groups[j]).key)
            &&& groups[j].first == total_first(shares, groups[j].key)
            &&& groups[j].second == total_second(shares, groups[j].key)
        }
    &&& forall|i: int| 0 <= i < shares.len() ==> has_key(groups, (#[trigger] shares[i]).key)
    &&& forall|i: int, j: int|
        0 <= i < j < groups.len() ==> (#[trigger] groups[i]).key != (#[trigger] groups[j]).key
}

/// The order in which the totals of a grouping are listed.
#[derive(Debug, Clone, Copy, PartialEq, Eq, Structural)]
pub enum Ranking {
    /// By key, in the order of the keys.
    ByKey,
    /// By the first sum, largest first; among equal first sums by the second
    /// sum, largest first; among equal sums by key.
    BySums,
}

/// `x` is listed strictly before `y`.
pub open spec fn ranks_before<K: Key>(
    ranking: Ranking,
    x: Share<K::Model>,
    y: Share<K::Model>,
) -> bool {
    match ranking {
        Ranking::ByKey => K::before(x.key, y.key),
        Ranking::BySums => x.first > y.first || (x.first == y.first && (x.second > y.second || (
        x.second == y.second && K::before(x.key, y.key)))),
    }
}

/// `groups` is listed in the order of `ranking`: each entry stands strictly
/// before all that follow it.
pub open spec fn is_ranked<K: Key>(ranking: Ranking, groups: Seq<Share<K::Model>>) -> bool {
    forall|i: int, j: int|
        0 <= i < j < groups.len() ==> ranks_before::<K>(
            ranking,
            #[trigger] groups[i],
            #[trigger] groups[j],
        )
}

/// The listing order is strict, and it decides between any two entries with
/// different keys.
pub proof fn lemma_ranking<K: Key>(
    ranking: Ranking,
    x: Share<K::Model>,
    y: Share<K::Model>,
    z: Share<K::Model>,
)
    ensures
        !ranks_before::<K>(ranking, x, x),
        ranks_before::<K>(ranking, x, y) && ranks_before::<K>(ranking, y, z) ==> ranks_before::<K>(
            ranking,
            x,
            z,
        ),
        x.key != y.key ==> ranks_before::<K>(ranking, x, y) || ranks_before::<K>(ranking, y, x),
{
    K::order_is_strict_and_total(x.key, x.key, x.key);
    K::order_is_strict_and_total(x.key, y.key, z.key);
}

/// What a group has received: its key and the two sums.
pub struct Total<K> {
    pub key: K,
    pub first: u128,
    pub second: u128,
}

impl<K: Key> Total<K> {
    /// The total as a share of mathematical values.
    pub open spec fn share(&self) -> Share<K::Model> {
        Share { key: self.key.model(), first: self.first as nat, second: self.second as nat }
    }
}

/// The totals of a vector as shares of mathematical values.
pub open spec fn total_shares<K: Key>(totals: Seq<Total<K>>) -> Seq<Share<K::Model>> {
    totals.map_values(|total: Total<K>| total.share())
}

/// Adding a share changes the sums of its own key alone.
pub proof fn lemma_totals_after_push<M>(shares: Seq<Share<M>>, share: Share<M>, key: M)
    ensures
        total_first(shares.push(share), key) == total_first(shares, key) + if share.key == key {
            share.first
        } else {
            0
        },
        total_second(shares.push(share), key) == total_second(shares, key) + if share.key
            == key {
            share.second
        } else {
            0
        },
{
    assert(shares.push(share).drop_last() == shares);
}

/// A running grouping: shares are added one by one, and the totals are
/// listed at the end.
pub struct Tally<K: Key> {
    totals: Vec<Total<K>>,
    seen: Ghost<Seq<Share<K::Model>>>,
}

impl<K: Key> Tally<K> {
    /// The shares that were added, in the order in which they came.
    pub closed spec fn shares(&self) -> Seq<Share<K::Model>> {
        self.seen@
    }

    /// The totals are a grouping of the shares, and no sum is more than the
    /// shares could have brought.
    pub closed spec fn well_formed(&self) -> bool {
        &&& is_grouping(self.seen@, total_shares(self.totals@))
        &&& forall|j: int|
            0 <= j < self.totals.len() ==> {
                &&& (#[trigger] self.totals[j]).first <= self.seen@.len() * u64::MAX
                &&& self.totals[j].second <= self.seen@.len() * u64::MAX
            }
    }

    /// A grouping to which nothing was added.
    pub fn new() -> (tally: Tally<K>)
        ensures
            tally.well_formed(),
            tally.shares() == Seq::<Share<K::Model>>::empty(),
    {
        Tally { totals: Vec::new(), seen: Ghost(Seq::empty()) }
    }

    /// Adds a share of `key` with the amounts `first` and `second`.
    #[verifier::loop_isolation(false)]
    pub fn add(&mut self, key: &K, first: u64, second: u64)
        requires
            old(self).well_formed(),
            old(self).shares().len() < usize::MAX,
        ensures
            final(self).well_formed(),
            final(self).shares() == old(self).shares().push(
                Share { key: key.model(), first: first as nat, second: second as nat },
            ),
    {
        let ghost share = Share { key: key.model(), first: first as nat, second: second as nat };
        let ghost before = self.seen@;
        let ghost groups = total_shares(self.totals@);
        proof {
            assert forall|k: K::Model|
                total_first(before.push(share), k) == total_first(before, k) + if share.key == k {
                    share.first
                } else {
                    0
                } && total_second(before.push(share), k) == total_second(before, k) + if share.key
                    == k {
                    share.second
                } else {
                    0
                } by {
                lemma_totals_after_push(before, share, k);
            }
            assert forall|i: int| 0 <= i < before.len() implies before.push(share)[i]
                == before[i] by {}
        }
        let mut j: usize = 0;
        while j < self.totals.len()
            invariant
                j <= self.totals.len(),
                self.totals@ == old(self).totals@,
                self.seen@ == before,
                forall|k: int|
                    0 <= k < j ==> (#[trigger] self.totals[k]).key.model() != key.model(),
            decreases self.totals.len() - j,
        {
            if self.totals[j].key.same_as(key) {
                let total = Total {
                    key: key.duplicate(),
                    first: self.totals[j].first + first as u128,
                    second: self.totals[j].second + second as u128,
                };
                self.totals.set(j, total);
                self.seen = Ghost(before.push(share));
                proof {
                    let after = total_shares(self.totals@);
                    assert forall|k: int| 0 <= k < after.len() && k != j implies after[k]
                        == groups[k] by {}
                    assert(after[j as int].key == groups[j as int].key);
                }
                return ;
            }
            j += 1;
        }
        let total = Total { key: key.duplicate(), first: first as u128, second: second as u128 };
        self.totals.push(total);
        self.seen = Ghost(before.push(share));
        proof {
            let after = total_shares(self.totals@);
            assert(after == groups.push(share));
            lemma_no_key_no_total(before, share.key);
            assert forall|k: int| 0 <= k < after.len() implies has_key(
                before.push(share),
                (#[trigger] after[k]).key,
            ) by {
                if k >= groups.len() {
                    assert(before.push(share)[before.len() as int].key == after[k].key);
                }
            }
            assert forall|i: int| 0 <= i < before.push(share).len() implies has_key(
                after,
                (#[trigger] before.push(share)[i]).key,
            ) by {
                if i < before.len() {
                    let w = choose|k: int|
                        0 <= k < groups.len() && (#[trigger] groups[k]).key == before[i].key;
                    assert(after[w].key == before[i].key);
                } else {
                    assert(after[groups.len() as int].key == share.key);
                }
            }
        }
    }
}

/// `listed` holds the entries of `all` from index `from` on and no others.
spec fn lists_from<M>(listed: Seq<Share<M>>, all: Seq<Share<M>>, from: int) -> bool {
    &&& forall|p: int|
        0 <= p < listed.len() ==> exists|k: int|
            from <= k < all.len() && all[k] == #[trigger] listed[p]
    &&& forall|k: int|
        from <= k < all.len() ==> exists|p: int|
            0 <= p < listed.len() && listed[p] == #[trigger] all[k]
}

/// A list that takes in the entry before the ones it holds then holds the
/// entries from that one on.
proof fn lemma_insert_listed<M>(was: Seq<Share<M>>, all: Seq<Share<M>>, rest: int, at: int)
    requires
        0 <= rest < all.len(),
        0 <= at <= was.len(),
        lists_from(was, all, rest + 1),
    ensures
        lists_from(was.insert(at, all[rest]), all, rest),
{
    let now = was.insert(at, all[rest]);
    assert forall|k: int| rest <= k < all.len() implies exists|p: int|
        0 <= p < now.len() && now[p] == #[trigger] all[k] by {
        if k == rest {
            assert(now[at] == all[k]);
        } else {
            let p = choose|p: int| 0 <= p < was.len() && was[p] == all[k];
            if p < at {
                assert(now[p] == all[k]);
            } else {
                assert(now[p + 1] == all[k]);
            }
        }
    }
}

/// A ranked list stays ranked when an entry with a new key goes in behind
/// the entries that stand before it and before the first that does not.
proof fn lemma_insert_ranked<K: Key>(
    ranking: Ranking,
    was: Seq<Share<K::Model>>,
    entry: Share<K::Model>,
    at: int,
)
    requires
        0 <= at <= was.len(),
        is_ranked::<K>(ranking, was),
        forall|p: int| 0 <= p < at ==> ranks_before::<K>(ranking, #[trigger] was[p], entry),
        at < was.len() ==> !ranks_before::<K>(ranking, was[at], entry),
        forall|p: int| 0 <= p < was.len() ==> (#[trigger] was[p]).key != entry.key,
    ensures
        is_ranked::<K>(ranking, was.insert(at, entry)),
{
    let now = was.insert(at, entry);
    assert forall|i: int, j: int| 0 <= i < j < now.len() implies ranks_before::<K>(
        ranking,
        #[trigger] now[i],
        #[trigger] now[j],
    ) by {
        if i == at {
            lemma_ranking::<K>(ranking, entry, was[at], was[j - 1]);
        }
    }
}

/// A ranked list of the entries of a grouping is a grouping itself.
proof fn lemma_listed_grouping<K: Key>(
    ranking: Ranking,
    shares: Seq<Share<K::Model>>,
    all: Seq<Share<K::Model>>,
    listed: Seq<Share<K::Model>>,
)
    requires
        is_grouping(shares, all),
        lists_from(listed, all, 0),
        is_ranked::<K>(ranking, listed),
    ensures
        is_grouping(shares, listed),
{
    assert forall|i: int, j: int| 0 <= i < j < listed.len() implies (#[trigger] listed[i]).key != (
    #[trigger] listed[j]).key by {
        lemma_ranking::<K>(ranking, listed[i], listed[j], listed[j]);
    }
}

impl<K: Key> Tally<K> {
    /// Lists the totals in the order of `ranking`.
    pub fn ranked(self, ranking: Ranking) -> (listed: Vec<Total<K>>)
        requires
            self.well_formed(),
        ensures
            is_grouping(self.shares(), total_shares(listed@)),
            is_ranked::<K>(ranking, total_shares(listed@)),
    {
        let ghost all = total_shares(self.totals@);
        let mut pending = self.totals;
        let mut listed: Vec<Total<K>> = Vec::new();
        while pending.len() > 0
            invariant
                pending.len() <= all.len(),
                total_shares(pending@) == all.take(pending.len() as int),
                is_ranked::<K>(ranking, total_shares(listed@)),
                lists_from(total_shares(listed@), all, pending.len() as int),
                forall|i: int, j: int|
                    0 <= i < j < all.len() ==> (#[trigger] all[i]).key != (#[trigger] all[j]).key,
            decreases pending.len(),
        {
            let ghost rest = pending.len() - 1;
            let ghost was = total_shares(listed@);
            let ghost waiting = total_shares(pending@);
            let total = pending.pop().unwrap();
            proof {
                assert(total.share() == waiting[rest]);
            }
            let mut at: usize = 0;
            while at < listed.len() && comes_first(ranking, &listed[at], &total)
                invariant
                    at <= listed.len(),
                    was == total_shares(listed@),
                    forall|p: int|
                        0 <= p < at ==> ranks_before::<K>(
                            ranking,
                            #[trigger] was[p],
                            total.share(),
                        ),
                decreases listed.len() - at,
            {
                at += 1;
            }
            listed.insert(at, total);
            proof {
                assert(total_shares(listed@) == was.insert(at as int, all[rest]));
                lemma_insert_ranked::<K>(ranking, was, all[rest], at as int);
                lemma_insert_listed(was, all, rest, at as int);
            }
        }
        proof {
            lemma_listed_grouping::<K>(ranking, self.seen@, all, total_shares(listed@));
        }
        listed
    }
}

/// Decides `ranks_before` for two totals.
pub fn comes_first<K: Key>(ranking: Ranking, x: &Total<K>, y: &Total<K>) -> (yes: bool)
    ensures
        yes == ranks_before::<K>(ranking, x.share(), y.share()),
{
    match ranking {
        Ranking::ByKey => x.key.comes_before(&y.key),
        Ranking::BySums => x.first > y.first || (x.first == y.first && (x.second > y.second || (
        x.second == y.second && x.key.comes_before(&y.key)))),
    }
}

/// Where no share brings more than `first` and `second`, no sum is more than
/// that many times the number of shares.
pub proof fn lemma_total_bound<M>(shares: Seq<Share<M>>, key: M, first: nat, second: nat)
    requires
        forall|i: int|
            0 <= i < shares.len() ==> (#[trigger] shares[i]).first <= first && shares[i].second
                <= second,
    ensures
        total_first(shares, key) <= shares.len() * first,
        total_second(shares, key) <= shares.len() * second,
    decreases shares.len(),
{
    if shares.len() > 0 {
        let rest = shares.drop_last();
        lemma_total_bound(rest, key, first, second);
        assert(rest.len() * first + first == shares.len() * first) by (nonlinear_arith)
            requires
                rest.len() + 1 == shares.len(),
        ;
        assert(rest.len() * second + second == shares.len() * second) by (nonlinear_arith)
            requires
                rest.len() + 1 == shares.len(),
        ;
    }
}

/// A key without shares has no sums.
pub proof fn lemma_no_key_no_total<M>(shares: Seq<Share<M>>, key: M)
    requires
        !has_key(shares, key),
    ensures
        total_first(shares, key) == 0,
        total_second(shares, key) == 0,
    decreases shares.len(),
{
    if shares.len() > 0 {
        lemma_no_key_no_total(shares.drop_last(), key);
    }
}

/// `entry` stands somewhere in `list`.
pub open spec fn holds<M>(list: Seq<Share<M>>, entry: Share<M>) -> bool {
    exists|j: int| 0 <= j < list.len() && #[trigger] list[j] == entry
}

/// Every entry of `a` is an entry of `b`.
pub open spec fn entries_among<M>(a: Seq<Share<M>>, b: Seq<Share<M>>) -> bool {
    forall|i: int| 0 <= i < a.len() ==> holds(b, #[trigger] a[i])
}

/// Two groupings of the same shares hold the same entries.
pub proof fn lemma_groupings_share_entries<M>(
    shares: Seq<Share<M>>,
    a: Seq<Share<M>>,
    b: Seq<Share<M>>,
)
    requires
        is_grouping(shares, a),
        is_grouping(shares, b),
    ensures
        entries_among(a, b),
{
}

/// Two lists in the same order that hold the same entries begin with the
/// same entry.
proof fn lemma_first_entries_agree<K: Key>(
    ranking: Ranking,
    a: Seq<Share<K::Model>>,
    b: Seq<Share<K::Model>>,
)
    requires
        is_ranked::<K>(ranking, a),
        is_ranked::<K>(ranking, b),
        entries_among(a, b),
        entries_among(b, a),
        a.len() > 0,
    ensures
        b.len() > 0,
        a[0] == b[0],
{
    lemma_ranking::<K>(ranking, a[0], b[0], a[0]);
}

/// What follows the first entry of a list in order holds what follows the
/// same first entry of a list that holds all its entries.
proof fn lemma_later_entries_among<K: Key>(
    ranking: Ranking,
    a: Seq<Share<K::Model>>,
    b: Seq<Share<K::Model>>,
)
    requires
        is_ranked::<K>(ranking, a),
        entries_among(a, b),
        a.len() > 0,
        b.len() > 0,
        a[0] == b[0],
    ensures
        entries_among(a.subrange(1, a.len() as int), b.subrange(1, b.len() as int)),
{
    let rest_a = a.subrange(1, a.len() as int);
    let rest_b = b.subrange(1, b.len() as int);
    assert forall|i: int| 0 <= i < rest_a.len() implies holds(rest_b, #[trigger] rest_a[i]) by {
        let j = choose|j: int| 0 <= j < b.len() && #[trigger] b[j] == a[i + 1];
        lemma_ranking::<K>(ranking, a[0], a[i + 1], a[0]);
        assert(rest_b[j - 1] == rest_a[i]);
    }
}

/// What follows the first entry of a list in order is in order.
proof fn lemma_later_entries_ranked<K: Key>(ranking: Ranking, a: Seq<Share<K::Model>>)
    requires
        is_ranked::<K>(ranking, a),
        a.len() > 0,
    ensures
        is_ranked::<K>(ranking, a.subrange(1, a.len() as int)),
{
}

/// Two lists in the same order that hold the same entries are the same
/// list.
pub proof fn lemma_ranked_lists_agree<K: Key>(
    ranking: Ranking,
    a: Seq<Share<K::Model>>,
    b: Seq<Share<K::Model>>,
)
    requires
        is_ranked::<K>(ranking, a),
        is_ranked::<K>(ranking, b),
        entries_among(a, b),
        entries_among(b, a),
    ensures
        a == b,
    decreases a.len(),
{
    if a.len() == 0 {
        if b.len() > 0 {
            assert(holds(a, b[0]));
        }
    } else {
        lemma_first_entries_agree::<K>(ranking, a, b);
        lemma_later_entries_among::<K>(ranking, a, b);
        lemma_later_entries_among::<K>(ranking, b, a);
        lemma_later_entries_ranked::<K>(ranking, a);
        lemma_later_entries_ranked::<K>(ranking, b);
        let rest_a = a.subrange(1, a.len() as int);
        let rest_b = b.subrange(1, b.len() as int);
        lemma_ranked_lists_agree::<K>(ranking, rest_a, rest_b);
        assert(a =~= b) by {
            assert forall|i: int| 0 <= i < a.len() implies a[i] == b[i] by {
                if i > 0 {
                    assert(a[i] == rest_a[i - 1]);
                }
            }
        }
    }
}

/// What one share brings to the sums of `key`.
pub open spec fn brought<M>(share: Share<M>, key: M) -> (nat, nat) {
    if share.key == key {
        (share.first, share.second)
    } else {
        (0, 0)
    }
}

/// The sums of a key are the sums without one share and what that share
/// brings.
pub proof fn lemma_totals_without<M>(shares: Seq<Share<M>>, at: int, key: M)
    requires
        0 <= at < shares.len(),
    ensures
        total_first(shares, key) == total_first(shares.remove(at), key) + brought(
            shares[at],
            key,
        ).0,
        total_second(shares, key) == total_second(shares.remove(at), key) + brought(
            shares[at],
            key,
        ).1,
    decreases shares.len(),
{
    if at < shares.len() - 1 {
        let fewer = shares.drop_last();
        lemma_totals_without(fewer, at, key);
        assert(shares.remove(at).drop_last() =~= fewer.remove(at));
    }
}

/// The sums do not depend on the order of the shares: two sequences that
/// hold the same shares equally often give every key the same sums.
pub proof fn lemma_totals_in_any_order<M>(a: Seq<Share<M>>, b: Seq<Share<M>>, key: M)
    requires
        a.to_multiset() == b.to_multiset(),
    ensures
        total_first(a, key) == total_first(b, key),
        total_second(a, key) == total_second(b, key),
    decreases a.len(),
{
    a.to_multiset_ensures();
    b.to_multiset_ensures();
    if a.len() > 0 {
        let last = a.last();
        let fewer = a.drop_last();
        assert(fewer.push(last) =~= a);
        fewer.to_multiset_ensures();
        assert(b.to_multiset().count(last) > 0);
        let at = choose|at: int| 0 <= at < b.len() && b[at] == last;
        assert(fewer.to_multiset() =~= b.remove(at).to_multiset());
        lemma_totals_in_any_order(fewer, b.remove(at), key);
        lemma_totals_without(b, at, key);
    }
}

/// The keys do not depend on the order of the shares.
pub proof fn lemma_keys_in_any_order<M>(a: Seq<Share<M>>, b: Seq<Share<M>>, key: M)
    requires
        a.to_multiset() == b.to_multiset(),
        has_key(a, key),
    ensures
        has_key(b, key),
{
    a.to_multiset_ensures();
    b.to_multiset_ensures();
    let i = choose|i: int| 0 <= i < a.len() && (#[trigger] a[i]).key == key;
    assert(b.to_multiset().count(a[i]) > 0);
}

/// A grouping does not depend on the order of its shares: what is a
/// grouping of some shares is a grouping of the same shares in any other
/// order.
pub proof fn grouping_in_any_order<M>(a: Seq<Share<M>>, b: Seq<Share<M>>, groups: Seq<Share<M>>)
    requires
        a.to_multiset() == b.to_multiset(),
        is_grouping(a, groups),
    ensures
        is_grouping(b, groups),
{
    assert forall|j: int| 0 <= j < groups.len() implies {
        &&& has_key(b, (#[trigger] groups[j]).key)
        &&& groups[j].first == total_first(b, groups[j].key)
        &&& groups[j].second == total_second(b, groups[j].key)
    } by {
        lemma_keys_in_any_order(a, b, groups[j].key);
        lemma_totals_in_any_order(a, b, groups[j].key);
    }
    assert forall|i: int| 0 <= i < b.len() implies has_key(groups, (#[trigger] b[i]).key) by {
        lemma_keys_in_any_order(b, a, b[i].key);
    }
}

/// The shares decide the listed grouping: two groupings of the same shares
/// that are listed in the same order are the same, entry for entry.
pub proof fn ranked_grouping_is_unique<K: Key>(
    ranking: Ranking,
    shares: Seq<Share<K::Model>>,
    a: Seq<Share<K::Model>>,
    b: Seq<Share<K::Model>>,
)
    requires
        is_grouping(shares, a),
        is_ranked::<K>(ranking, a),
        is_grouping(shares, b),
        is_ranked::<K>(ranking, b),
    ensures
        a == b,
{
    lemma_groupings_share_entries(shares, a, b);
    lemma_groupings_share_entries(shares, b, a);
    lemma_ranked_lists_agree::<K>(ranking, a, b);
}

/// A list by sums never rises: each entry has at least the first sum of
/// every later one, and among equal first sums at least its second sum.
pub proof fn ranked_by_sums_never_rises<K: Key>(groups: Seq<Share<K::Model>>, i: int, j: int)
    requires
        is_ranked::<K>(Ranking::BySums, groups),
        0 <= i <= j < groups.len(),
    ensures
        groups[i].first >= groups[j].first,
        groups[i].first == groups[j].first ==> groups[i].second >= groups[j].second,
        groups[i].first == groups[j].first && groups[i].second == groups[j].second && i < j
            ==> K::before(groups[i].key, groups[j].key),
{
}

} // verus!
