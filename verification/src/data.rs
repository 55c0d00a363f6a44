//! The records that the scanners produce.
use crate::order::{is_text_before, lemma_text_order, text_before};
use std::cmp::Ordering;
use vstd::prelude::*;
use vstd::std_specs::cmp::{PartialEqSpecImpl, PartialOrdSpecImpl};

verus! {

/// Who made a commit. Two authors are the same when both fields agree,
/// character for character; authors are ordered by name and, among equal
/// names, by address, each in the order of strings.
#[derive(Debug, Eq, Hash, Ord)]
pub struct Author {
    pub name: String,
    pub email: String,
}

/// An author as a pair of character sequences.
pub struct AuthorView {
    pub name: Seq<char>,
    pub email: Seq<char>,
}

impl View for Author {
    type V = AuthorView;

    open spec fn view(&self) -> AuthorView {
        AuthorView { name: self.name@, email: self.email@ }
    }
}

impl Clone for Author {
    fn clone(&self) -> (copy: Author)
        ensures
            copy == *self,
    {
        Author { name: self.name.clone(), email: self.email.clone() }
    }
}

impl PartialEq for Author {
    fn eq(&self, other: &Author) -> (same: bool) {
        self.name == other.name && self.email == other.email
    }
}

impl PartialEqSpecImpl for Author {
    open spec fn obeys_eq_spec() -> bool {
        true
    }

    open spec fn eq_spec(&self, other: &Author) -> bool {
        self@ == other@
    }
}

/// Authors are ordered by name and, among equal names, by address, each in
/// the order of strings.
pub open spec fn author_before(a: AuthorView, b: AuthorView) -> bool {
    text_before(a.name, b.name) || (a.name == b.name && text_before(a.email, b.email))
}

impl PartialOrd for Author {
    fn partial_cmp(&self, other: &Author) -> (order: Option<Ordering>) {
        proof {
            lemma_text_order(self.name@, other.name@, self.name@);
            lemma_text_order(self.email@, other.email@, self.email@);
        }
        if is_text_before(self.name.as_str(), other.name.as_str()) {
            Some(Ordering::Less)
        } else if is_text_before(other.name.as_str(), self.name.as_str()) {
            Some(Ordering::Greater)
        } else if is_text_before(self.email.as_str(), other.email.as_str()) {
            Some(Ordering::Less)
        } else if is_text_before(other.email.as_str(), self.email.as_str()) {
            Some(Ordering::Greater)
        } else {
            Some(Ordering::Equal)
        }
    }
}

impl PartialOrdSpecImpl for Author {
    open spec fn obeys_partial_cmp_spec() -> bool {
        true
    }

    open spec fn partial_cmp_spec(&self, other: &Author) -> Option<Ordering> {
        if author_before(self@, other@) {
            Some(Ordering::Less)
        } else if author_before(other@, self@) {
            Some(Ordering::Greater)
        } else {
            Some(Ordering::Equal)
        }
    }
}

/// One commit that is not a merge: its author and the second of the Unix
/// epoch at which it was made.
#[derive(Debug)]
pub struct Commit {
    pub author: Author,
    pub time: i64,
}

/// A commit as plain mathematical values.
pub struct CommitView {
    pub author: AuthorView,
    pub time: int,
}

impl View for Commit {
    type V = CommitView;

    open spec fn view(&self) -> CommitView {
        CommitView { author: self.author@, time: self.time as int }
    }
}

impl Clone for Commit {
    fn clone(&self) -> (copy: Commit)
        ensures
            copy == *self,
    {
        Commit { author: self.author.clone(), time: self.time }
    }
}

/// The commits of a vector as plain mathematical values.
pub open spec fn commit_views(commits: Seq<Commit>) -> Seq<CommitView> {
    commits.map_values(|commit: Commit| commit@)
}

/// A commit with the number of lines that it added and removed.
#[derive(Debug)]
pub struct DetailedCommit {
    pub commit: Commit,
    pub insertions: u64,
    pub deletions: u64,
}

/// A detailed commit as plain mathematical values.
pub struct DetailedCommitView {
    pub commit: CommitView,
    pub insertions: nat,
    pub deletions: nat,
}

impl View for DetailedCommit {
    type V = DetailedCommitView;

    open spec fn view(&self) -> DetailedCommitView {
        DetailedCommitView {
            commit: self.commit@,
            insertions: self.insertions as nat,
            deletions: self.deletions as nat,
        }
    }
}

impl Clone for DetailedCommit {
    fn clone(&self) -> (copy: DetailedCommit)
        ensures
            copy == *self,
    {
        DetailedCommit {
            commit: self.commit.clone(),
            insertions: self.insertions,
            deletions: self.deletions,
        }
    }
}

/// The detailed commits of a vector as plain mathematical values.
pub open spec fn detailed_views(commits: Seq<DetailedCommit>) -> Seq<DetailedCommitView> {
    commits.map_values(|commit: DetailedCommit| commit@)
}

/// Why a block of the log gave no record.
#[derive(Debug, Clone, Copy, PartialEq, Eq, Structural)]
pub enum Rejection {
    /// The line after the header marks a merge.
    MergeCommit,
    /// The log ends before the block is complete.
    MissingLine,
    /// The author line has no ` <` between name and address.
    MissingSeparator,
    /// The part before the separator does not begin with `Author: `.
    BadAuthor,
    /// The part from the separator on is not an address in angle brackets.
    BadEmail,
    /// The date line is not `Date:` followed by digits.
    BadDate,
    /// The digits of the date line name no second that can be represented.
    DateOutOfRange,
    /// A count of the diff summary does not fit in 64 bits.
    CountOutOfRange,
}

} // verus!
