//! Chart series: the points of a tally by day, each with the label that a
//! time axis reads.
use crate::calendar::{format_unix_timestamp, formatted_unix_timestamp};
use crate::summary::{DayChanges, DayCommits};
use vstd::prelude::*;

verus! {

/// One point of a series: the label of its day and its value.
#[derive(Debug)]
pub struct Point {
    pub label: String,
    pub value: u128,
}

/// How the label of a day is laid out: year, month and day of the month,
/// and midnight as the time of day.
pub open spec fn day_format() -> Seq<char> {
    "[year]/[month]/[day]T00:00:00"@
}

/// The label of day `day`: its midnight, written as `day_format` lays it
/// out. `None` where the midnight is no second that 64 bits can hold, or
/// where it cannot be written.
pub open spec fn label_of(day: int) -> Option<Seq<char>> {
    if i64::MIN <= day * 86_400 <= i64::MAX {
        formatted_unix_timestamp((day * 86_400) as i64, day_format())
    } else {
        None
    }
}

/// Writes the label of day `day`.
pub fn day_label(day: i64) -> (label: Option<String>)
    ensures
        match label {
            Some(text) => label_of(day as int) == Some(text@),
            None => label_of(day as int) is None,
        },
{
    match day.checked_mul(86_400) {
        Some(midnight) => format_unix_timestamp(midnight, "[year]/[month]/[day]T00:00:00"),
        None => None,
    }
}

/// `point` shows `value` on day `day`.
pub open spec fn shows(point: Point, day: int, value: nat) -> bool {
    label_of(day) == Some(point.label@) && point.value == value
}

/// `series` is the series of the commits per day for `days`: one point for
/// each day, in the order of the days, or nothing where a day has no label.
pub open spec fn is_commit_series(days: Seq<DayCommits>, series: Option<Vec<Point>>) -> bool {
    match series {
        Some(points) => points.len() == days.len() && forall|i: int|
            0 <= i < days.len() ==> shows(
                #[trigger] points[i],
                days[i].day as int,
                days[i].commits as nat,
            ),
        None => exists|i: int| 0 <= i < days.len() && label_of(
            (#[trigger] days[i]).day as int,
        ) is None,
    }
}

/// `series` is the two series of the changes per day for `days`, insertions
/// and deletions: one point of each for each day, in the order of the days,
/// or nothing where a day has no label.
pub open spec fn is_change_series(
    days: Seq<DayChanges>,
    series: Option<(Vec<Point>, Vec<Point>)>,
) -> bool {
    match series {
        Some((insertions, deletions)) => insertions.len() == days.len() && deletions.len()
            == days.len() && forall|i: int|
            0 <= i < days.len() ==> shows(
                #[trigger] insertions[i],
                days[i].day as int,
                days[i].insertions as nat,
            ) && shows(#[trigger] deletions[i], days[i].day as int, days[i].deletions as nat),
        None => exists|i: int| 0 <= i < days.len() && label_of(
            (#[trigger] days[i]).day as int,
        ) is None,
    }
}

/// The series of the commits per day: one point for each day, in the order
/// of `days`. `None` where a day has no label.
pub fn label_commits(days: &Vec<DayCommits>) -> (series: Option<Vec<Point>>)
    ensures
        is_commit_series(days@, series),
{
    let mut points: Vec<Point> = Vec::new();
    let mut i: usize = 0;
    while i < days.len()
        invariant
            i <= days.len(),
            points.len() == i,
            forall|k: int|
                0 <= k < i ==> shows(
                    #[trigger] points[k],
                    days[k].day as int,
                    days[k].commits as nat,
                ),
        decreases days.len() - i,
    {
        match day_label(days[i].day) {
            Some(label) => {
                points.push(Point { label, value: days[i].commits as u128 });
            },
            None => {
                return None;
            },
        }
        i += 1;
    }
    Some(points)
}

/// The two series of the changes per day, insertions and deletions: one
/// point of each for each day, in the order of `days`. `None` where a day
/// has no label.
pub fn label_changes(days: &Vec<DayChanges>) -> (series: Option<(Vec<Point>, Vec<Point>)>)
    ensures
        is_change_series(days@, series),
{
    let mut insertions: Vec<Point> = Vec::new();
    let mut deletions: Vec<Point> = Vec::new();
    let mut i: usize = 0;
    while i < days.len()
        invariant
            i <= days.len(),
            insertions.len() == i,
            deletions.len() == i,
            forall|k: int|
                0 <= k < i ==> shows(
                    #[trigger] insertions[k],
                    days[k].day as int,
                    days[k].insertions as nat,
                ),
            forall|k: int|
                0 <= k < i ==> shows(
                    #[trigger] deletions[k],
                    days[k].day as int,
                    days[k].deletions as nat,
                ),
        decreases days.len() - i,
    {
        match day_label(days[i].day) {
            Some(label) => {
                insertions.push(Point { label: label.clone(), value: days[i].insertions });
                deletions.push(Point { label, value: days[i].deletions });
            },
            None => {
                return None;
            },
        }
        i += 1;
    }
    Some((insertions, deletions))
}

} // verus!
