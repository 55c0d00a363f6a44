//! From records to groupings: what a record contributes to a tally, by whom
//! and on which day.
use crate::calendar::{day_number, day_of};
use crate::data::{author_before, Author, AuthorView, Commit, DetailedCommit};
use crate::order::lemma_text_order;
use crate::tally::{
    grouping_in_any_order, has_key, is_grouping, is_ranked, ranked_grouping_is_unique,
    total_shares, Key, Ranking, Share, Tally, Total,
};
use vstd::prelude::*;

verus! {

/// Authors are listed in their order.
impl Key for Author {
    type Model = AuthorView;

    open spec fn model(&self) -> AuthorView {
        self@
    }

    open spec fn before(a: AuthorView, b: AuthorView) -> bool {
        author_before(a, b)
    }

    proof fn order_is_strict_and_total(a: AuthorView, b: AuthorView, c: AuthorView) {
        lemma_text_order(a.name, a.name, a.name);
        lemma_text_order(a.email, a.email, a.email);
        lemma_text_order(a.name, b.name, c.name);
        lemma_text_order(a.email, b.email, c.email);
        lemma_text_order(b.name, a.name, c.name);
    }

    fn same_as(&self, other: &Author) -> (same: bool) {
        *self == *other
    }

    fn comes_before(&self, other: &Author) -> (yes: bool) {
        *self < *other
    }

    fn duplicate(&self) -> (copy: Author) {
        self.clone()
    }
}

/// Days are listed from the earliest to the latest.
impl Key for i64 {
    type Model = int;

    open spec fn model(&self) -> int {
        *self as int
    }

    open spec fn before(a: int, b: int) -> bool {
        a < b
    }

    proof fn order_is_strict_and_total(a: int, b: int, c: int) {
    }

    fn same_as(&self, other: &i64) -> (same: bool) {
        *self == *other
    }

    fn comes_before(&self, other: &i64) -> (yes: bool) {
        *self < *other
    }

    fn duplicate(&self) -> (copy: i64) {
        *self
    }
}

/// A record as the tallies see it: who made the commit, when, and the two
/// amounts that it adds to the sums of its group.
pub struct Entry {
    pub author: AuthorView,
    pub time: int,
    pub first: nat,
    pub second: nat,
}

/// A record that can be tallied.
pub trait Record {
    /// The record as the tallies see it.
    spec fn entry(&self) -> Entry;

    /// Who made the commit.
    fn author(&self) -> (author: &Author)
        ensures
            author@ == self.entry().author,
    ;

    /// The second of the Unix epoch at which the commit was made.
    fn time(&self) -> (time: i64)
        ensures
            time == self.entry().time,
    ;

    /// The two amounts that the record adds to the sums of its group.
    fn amounts(&self) -> (amounts: (u64, u64))
        ensures
            amounts.0 == self.entry().first,
            amounts.1 == self.entry().second,
    ;
}

/// A commit counts once.
impl Record for Commit {
    open spec fn entry(&self) -> Entry {
        Entry { author: self.author@, time: self.time as int, first: 1, second: 0 }
    }

    fn author(&self) -> (author: &Author) {
        &self.author
    }

    fn time(&self) -> (time: i64) {
        self.time
    }

    fn amounts(&self) -> (amounts: (u64, u64)) {
        (1, 0)
    }
}

/// A detailed commit adds its insertions and its deletions.
impl Record for DetailedCommit {
    open spec fn entry(&self) -> Entry {
        Entry {
            author: self.commit.author@,
            time: self.commit.time as int,
            first: self.insertions as nat,
            second: self.deletions as nat,
        }
    }

    fn author(&self) -> (author: &Author) {
        &self.commit.author
    }

    fn time(&self) -> (time: i64) {
        self.commit.time
    }

    fn amounts(&self) -> (amounts: (u64, u64)) {
        (self.insertions, self.deletions)
    }
}

/// The records of a vector as the tallies see them.
pub open spec fn entries<R: Record>(records: Seq<R>) -> Seq<Entry> {
    records.map_values(|record: R| record.entry())
}

/// The name that an author filter asks for.
pub open spec fn filter_view(filter: &Option<String>) -> Option<Seq<char>> {
    match filter {
        Some(name) => Some(name@),
        None => None,
    }
}

/// Whether `filter` lets a record of `author` through: without a name every
/// record passes, with a name those whose author has exactly that name.
pub open spec fn admits(filter: Option<Seq<char>>, author: AuthorView) -> bool {
    match filter {
        Some(name) => author.name == name,
        None => true,
    }
}

/// Decides `admits`.
pub fn is_admitted(filter: &Option<String>, author: &Author) -> (yes: bool)
    ensures
        yes == admits(filter_view(filter), author@),
{
    match filter {
        Some(name) => author.name == *name,
        None => true,
    }
}

/// The shares of the entries that `filter` lets through, in the order of the
/// entries, each under the key that `key_of` gives its entry.
pub open spec fn shares_by<M>(
    entries: Seq<Entry>,
    filter: Option<Seq<char>>,
    key_of: spec_fn(Entry) -> M,
) -> Seq<Share<M>>
    decreases entries.len(),
{
    if entries.len() == 0 {
        Seq::empty()
    } else if admits(filter, entries.last().author) {
        shares_by(entries.drop_last(), filter, key_of).push(
            Share {
                key: key_of(entries.last()),
                first: entries.last().first,
                second: entries.last().second,
            },
        )
    } else {
        shares_by(entries.drop_last(), filter, key_of)
    }
}

/// The shares by author of the entries that `filter` lets through, in the
/// order of the entries.
pub open spec fn author_shares(entries: Seq<Entry>, filter: Option<Seq<char>>) -> Seq<
    Share<AuthorView>,
> {
    shares_by(entries, filter, |entry: Entry| entry.author)
}

/// The shares by day of the entries that `filter` lets through, in the order
/// of the entries.
pub open spec fn day_shares(entries: Seq<Entry>, filter: Option<Seq<char>>) -> Seq<Share<int>> {
    shares_by(entries, filter, |entry: Entry| day_of(entry.time))
}

/// `share` is what `entry` brings: the filter lets the entry through, and
/// the share has its key and its amounts.
pub open spec fn brings<M>(
    entry: Entry,
    filter: Option<Seq<char>>,
    key_of: spec_fn(Entry) -> M,
    share: Share<M>,
) -> bool {
    &&& admits(filter, entry.author)
    &&& key_of(entry) == share.key
    &&& entry.first == share.first
    &&& entry.second == share.second
}

/// `share` is what one of the entries brings.
pub open spec fn comes_from<M>(
    share: Share<M>,
    entries: Seq<Entry>,
    filter: Option<Seq<char>>,
    key_of: spec_fn(Entry) -> M,
) -> bool {
    exists|i: int| 0 <= i < entries.len() && brings(#[trigger] entries[i], filter, key_of, share)
}

/// Every share is what one of the entries brings, and there are no more
/// shares than entries.
pub proof fn lemma_shares_come_from_entries<M>(
    entries: Seq<Entry>,
    filter: Option<Seq<char>>,
    key_of: spec_fn(Entry) -> M,
)
    ensures
        shares_by(entries, filter, key_of).len() <= entries.len(),
        forall|j: int|
            0 <= j < shares_by(entries, filter, key_of).len() ==> comes_from(
                #[trigger] shares_by(entries, filter, key_of)[j],
                entries,
                filter,
                key_of,
            ),
    decreases entries.len(),
{
    if entries.len() > 0 {
        let rest = entries.drop_last();
        lemma_shares_come_from_entries(rest, filter, key_of);
    }
}

/// The share that an entry brings under the key that `key_of` gives it.
pub open spec fn share_of<M>(entry: Entry, key_of: spec_fn(Entry) -> M) -> Share<M> {
    Share { key: key_of(entry), first: entry.first, second: entry.second }
}

/// The shares of some entries are the shares of the entries without one of
/// them and, where the filter lets that one through, its share.
pub proof fn lemma_shares_without<M>(
    entries: Seq<Entry>,
    filter: Option<Seq<char>>,
    key_of: spec_fn(Entry) -> M,
    at: int,
)
    requires
        0 <= at < entries.len(),
    ensures
        shares_by(entries, filter, key_of).to_multiset() == if admits(
            filter,
            entries[at].author,
        ) {
            shares_by(entries.remove(at), filter, key_of).to_multiset().insert(
                share_of(entries[at], key_of),
            )
        } else {
            shares_by(entries.remove(at), filter, key_of).to_multiset()
        },
    decreases entries.len(),
{
    if at == entries.len() - 1 {
        shares_by(entries.drop_last(), filter, key_of).to_multiset_ensures();
    } else {
        let fewer = entries.drop_last();
        let without = entries.remove(at);
        lemma_shares_without(fewer, filter, key_of, at);
        assert(without.drop_last() =~= fewer.remove(at));
        shares_by(fewer, filter, key_of).to_multiset_ensures();
        shares_by(fewer.remove(at), filter, key_of).to_multiset_ensures();
    }
}

/// The shares do not depend on the order of the entries: entries that are
/// the same up to their order bring the same shares up to their order.
pub proof fn lemma_shares_in_any_order<M>(
    a: Seq<Entry>,
    b: Seq<Entry>,
    filter: Option<Seq<char>>,
    key_of: spec_fn(Entry) -> M,
)
    requires
        a.to_multiset() == b.to_multiset(),
    ensures
        shares_by(a, filter, key_of).to_multiset() == shares_by(b, filter, key_of).to_multiset(),
    decreases a.len(),
{
    a.to_multiset_ensures();
    b.to_multiset_ensures();
    if a.len() > 0 {
        let last = a.last();
        let fewer = a.drop_last();
        assert(fewer.push(last) =~= a);
        fewer.to_multiset_ensures();
        assert(b.to_multiset().count(last) > 0);
        let at = choose|at: int| 0 <= at < b.len() && b[at] == last;
        assert(fewer.to_multiset() =~= b.remove(at).to_multiset());
        lemma_shares_in_any_order(fewer, b.remove(at), filter, key_of);
        lemma_shares_without(b, filter, key_of, at);
        shares_by(fewer, filter, key_of).to_multiset_ensures();
    }
}

/// The order of the records does not show in a tally by author: records
/// that are the same up to their order give the same rows in the same
/// order, so that authors with equal sums are listed by name and address,
/// not by where their commits stand.
pub proof fn tally_by_author_ignores_the_order_of_the_records(
    a: Seq<Entry>,
    b: Seq<Entry>,
    filter: Option<Seq<char>>,
    rows_of_a: Seq<Share<AuthorView>>,
    rows_of_b: Seq<Share<AuthorView>>,
)
    requires
        a.to_multiset() == b.to_multiset(),
        is_grouping(author_shares(a, filter), rows_of_a),
        is_ranked::<Author>(Ranking::BySums, rows_of_a),
        is_grouping(author_shares(b, filter), rows_of_b),
        is_ranked::<Author>(Ranking::BySums, rows_of_b),
    ensures
        rows_of_a == rows_of_b,
{
    lemma_shares_in_any_order(a, b, filter, |entry: Entry| entry.author);
    grouping_in_any_order(author_shares(a, filter), author_shares(b, filter), rows_of_a);
    ranked_grouping_is_unique::<Author>(
        Ranking::BySums,
        author_shares(b, filter),
        rows_of_a,
        rows_of_b,
    );
}

/// The order of the records does not show in a tally by day.
pub proof fn tally_by_day_ignores_the_order_of_the_records(
    a: Seq<Entry>,
    b: Seq<Entry>,
    filter: Option<Seq<char>>,
    points_of_a: Seq<Share<int>>,
    points_of_b: Seq<Share<int>>,
)
    requires
        a.to_multiset() == b.to_multiset(),
        is_grouping(day_shares(a, filter), points_of_a),
        is_ranked::<i64>(Ranking::ByKey, points_of_a),
        is_grouping(day_shares(b, filter), points_of_b),
        is_ranked::<i64>(Ranking::ByKey, points_of_b),
    ensures
        points_of_a == points_of_b,
{
    lemma_shares_in_any_order(a, b, filter, |entry: Entry| day_of(entry.time));
    grouping_in_any_order(day_shares(a, filter), day_shares(b, filter), points_of_a);
    ranked_grouping_is_unique::<i64>(
        Ranking::ByKey,
        day_shares(b, filter),
        points_of_a,
        points_of_b,
    );
}

/// `part` stands inside `whole` and is shorter than it.
pub open spec fn strict_part(part: Seq<char>, whole: Seq<char>) -> bool {
    part.len() < whole.len() && exists|at: int|
        0 <= at <= whole.len() - part.len() && #[trigger] whole.subrange(at, at + part.len())
            == part
}

/// The author filter asks for the whole name: every row of a tally that was
/// filtered by a name bears exactly that name, and where no record bears it
/// the tally is empty.
pub proof fn filter_takes_the_exact_name(
    entries: Seq<Entry>,
    name: Seq<char>,
    rows: Seq<Share<AuthorView>>,
)
    requires
        is_grouping(author_shares(entries, Some(name)), rows),
    ensures
        forall|j: int| 0 <= j < rows.len() ==> (#[trigger] rows[j]).key.name == name,
        (forall|i: int| 0 <= i < entries.len() ==> (#[trigger] entries[i]).author.name != name)
            ==> rows.len() == 0,
{
    let shares = author_shares(entries, Some(name));
    let key_of = |entry: Entry| entry.author;
    lemma_shares_come_from_entries(entries, Some(name), key_of);
    assert forall|j: int| 0 <= j < rows.len() implies (#[trigger] rows[j]).key.name == name by {}
    if rows.len() > 0 {
        assert(has_key(shares, rows[0].key));
    }
}

/// A filter that is only a part of the authors' names finds nobody: where
/// the filter stands inside the name of every record's author and is shorter
/// than it, the tally is empty.
pub proof fn filter_by_a_part_of_the_names_finds_nobody(
    entries: Seq<Entry>,
    part: Seq<char>,
    rows: Seq<Share<AuthorView>>,
)
    requires
        forall|i: int|
            0 <= i < entries.len() ==> strict_part(part, (#[trigger] entries[i]).author.name),
        is_grouping(author_shares(entries, Some(part)), rows),
    ensures
        rows.len() == 0,
{
    filter_takes_the_exact_name(entries, part, rows);
}

/// Tallying by author is repeatable: two tallies of the same records under
/// the same filter are the same, row for row.
pub proof fn tally_by_author_is_repeatable(
    entries: Seq<Entry>,
    filter: Option<Seq<char>>,
    once: Seq<Share<AuthorView>>,
    again: Seq<Share<AuthorView>>,
)
    requires
        is_grouping(author_shares(entries, filter), once),
        is_ranked::<Author>(Ranking::BySums, once),
        is_grouping(author_shares(entries, filter), again),
        is_ranked::<Author>(Ranking::BySums, again),
    ensures
        once == again,
{
    ranked_grouping_is_unique::<Author>(
        Ranking::BySums,
        author_shares(entries, filter),
        once,
        again,
    );
}

/// Tallying by day is repeatable: two tallies of the same records under the
/// same filter are the same, point for point.
pub proof fn tally_by_day_is_repeatable(
    entries: Seq<Entry>,
    filter: Option<Seq<char>>,
    once: Seq<Share<int>>,
    again: Seq<Share<int>>,
)
    requires
        is_grouping(day_shares(entries, filter), once),
        is_ranked::<i64>(Ranking::ByKey, once),
        is_grouping(day_shares(entries, filter), again),
        is_ranked::<i64>(Ranking::ByKey, again),
    ensures
        once == again,
{
    ranked_grouping_is_unique::<i64>(Ranking::ByKey, day_shares(entries, filter), once, again);
}

/// The totals per author of the records that `filter` lets through, the
/// largest sums first.
pub fn tally_by_author<R: Record>(records: &Vec<R>, filter: &Option<String>) -> (totals: Vec<
    Total<Author>,
>)
    ensures
        is_grouping(
            author_shares(entries(records@), filter_view(filter)),
            total_shares(totals@),
        ),
        is_ranked::<Author>(Ranking::BySums, total_shares(totals@)),
{
    let mut tally: Tally<Author> = Tally::new();
    let mut i: usize = 0;
    while i < records.len()
        invariant
            i <= records.len(),
            tally.well_formed(),
            tally.shares() == author_shares(entries(records@).take(i as int), filter_view(filter)),
        decreases records.len() - i,
    {
        proof {
            let now = entries(records@).take(i + 1);
            assert(now.drop_last() == entries(records@).take(i as int));
            lemma_shares_come_from_entries(
                entries(records@).take(i as int),
                filter_view(filter),
                |entry: Entry| entry.author,
            );
        }
        let record = &records[i];
        if is_admitted(filter, record.author()) {
            let (first, second) = record.amounts();
            tally.add(record.author(), first, second);
        }
        i += 1;
    }
    proof {
        assert(entries(records@).take(i as int) == entries(records@));
    }
    tally.ranked(Ranking::BySums)
}

/// The totals per day of the records that `filter` lets through, the
/// earliest day first.
pub fn tally_by_day<R: Record>(records: &Vec<R>, filter: &Option<String>) -> (totals: Vec<
    Total<i64>,
>)
    ensures
        is_grouping(day_shares(entries(records@), filter_view(filter)), total_shares(totals@)),
        is_ranked::<i64>(Ranking::ByKey, total_shares(totals@)),
{
    let mut tally: Tally<i64> = Tally::new();
    let mut i: usize = 0;
    while i < records.len()
        invariant
            i <= records.len(),
            tally.well_formed(),
            tally.shares() == day_shares(entries(records@).take(i as int), filter_view(filter)),
        decreases records.len() - i,
    {
        proof {
            let now = entries(records@).take(i + 1);
            assert(now.drop_last() == entries(records@).take(i as int));
            lemma_shares_come_from_entries(
                entries(records@).take(i as int),
                filter_view(filter),
                |entry: Entry| day_of(entry.time),
            );
        }
        let record = &records[i];
        if is_admitted(filter, record.author()) {
            let (first, second) = record.amounts();
            let day = day_number(record.time());
            tally.add(&day, first, second);
        }
        i += 1;
    }
    proof {
        assert(entries(records@).take(i as int) == entries(records@));
    }
    tally.ranked(Ranking::ByKey)
}

/// The number of commits of one author.
#[derive(Debug)]
pub struct AuthorCommits {
    pub author: Author,
    pub commits: u64,
}

impl AuthorCommits {
    /// The row as the total of a grouping.
    pub open spec fn share(&self) -> Share<AuthorView> {
        Share { key: self.author@, first: self.commits as nat, second: 0 }
    }
}

/// The insertions and deletions of one author.
#[derive(Debug)]
pub struct AuthorChanges {
    pub author: Author,
    pub insertions: u128,
    pub deletions: u128,
}

impl AuthorChanges {
    /// The row as the total of a grouping.
    pub open spec fn share(&self) -> Share<AuthorView> {
        Share {
            key: self.author@,
            first: self.insertions as nat,
            second: self.deletions as nat,
        }
    }
}

/// The number of commits of one day.
#[derive(Debug, Clone, Copy, PartialEq, Eq, Structural)]
pub struct DayCommits {
    pub day: i64,
    pub commits: u64,
}

impl DayCommits {
    /// The point as the total of a grouping.
    pub open spec fn share(&self) -> Share<int> {
        Share { key: self.day as int, first: self.commits as nat, second: 0 }
    }
}

/// The insertions and deletions of one day.
#[derive(Debug, Clone, Copy, PartialEq, Eq, Structural)]
pub struct DayChanges {
    pub day: i64,
    pub insertions: u128,
    pub deletions: u128,
}

impl DayChanges {
    /// The point as the total of a grouping.
    pub open spec fn share(&self) -> Share<int> {
        Share { key: self.day as int, first: self.insertions as nat, second: self.deletions as nat }
    }
}

/// The rows of a vector as the totals of a grouping.
pub open spec fn author_commits_shares(rows: Seq<AuthorCommits>) -> Seq<Share<AuthorView>> {
    rows.map_values(|row: AuthorCommits| row.share())
}

/// The rows of a vector as the totals of a grouping.
pub open spec fn author_changes_shares(rows: Seq<AuthorChanges>) -> Seq<Share<AuthorView>> {
    rows.map_values(|row: AuthorChanges| row.share())
}

/// The points of a vector as the totals of a grouping.
pub open spec fn day_commits_shares(points: Seq<DayCommits>) -> Seq<Share<int>> {
    points.map_values(|point: DayCommits| point.share())
}

/// The points of a vector as the totals of a grouping.
pub open spec fn day_changes_shares(points: Seq<DayChanges>) -> Seq<Share<int>> {
    points.map_values(|point: DayChanges| point.share())
}

} // verus!
