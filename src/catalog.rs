use vstd::prelude::*;

use crate::message::{section_label, unknown_label};

verus! {

/// Settings of the watcher: where to notify, how long to suppress repeats, which
/// term to ask about, and which identifiers to watch.
pub struct Config {
    /// Endpoint of the notification channel.
    pub webhook: String,
    /// Text placed before each alert, meant to mention a user or a role.
    pub mention: Option<String>,
    /// Ticks during which an identifier that stays open is not announced again.
    pub repeat_timeout: u32,
    pub year: String,
    pub term: String,
    pub campus: String,
    pub level: String,
    /// The watched identifiers.
    pub indexes: Vec<String>,
}

/// Cooldown length, in ticks, used when the configuration names none.
pub fn default_repeat_timeout() -> (r: u32)
    ensures
        r == 60,
{
    60
}

/// A course of the catalog: its title and its sections.
pub struct Course {
    pub title: String,
    pub sections: Vec<Section>,
}

/// A section of a course, with the identifier it is registered under.
pub struct Section {
    pub number: String,
    pub index: String,
}

/// One section of the catalog with the title of its course.
pub ghost struct Row {
    pub title: Seq<char>,
    pub number: Seq<char>,
    pub index: Seq<char>,
}

pub open spec fn row_of(title: Seq<char>, s: Section) -> Row {
    Row { title, number: s.number@, index: s.index@ }
}

/// The sections of one course as rows, in order.
pub open spec fn course_rows(c: Course) -> Seq<Row> {
    c.sections@.map_values(|s: Section| row_of(c.title@, s))
}

/// Every section of the catalog, course after course, in order.
pub open spec fn catalog_rows(courses: Seq<Course>) -> Seq<Row>
    decreases courses.len(),
{
    if courses.len() == 0 {
        Seq::empty()
    } else {
        catalog_rows(courses.drop_last()) + course_rows(courses.last())
    }
}

/// The label of the last row listing `k`, if any.
pub open spec fn last_label(rows: Seq<Row>, k: Seq<char>) -> Option<Seq<char>>
    decreases rows.len(),
{
    if rows.len() == 0 {
        None
    } else if rows.last().index == k {
        Some(section_label(rows.last().title, rows.last().number, k))
    } else {
        last_label(rows.drop_last(), k)
    }
}

/// How many rows list `k`.
pub open spec fn count_rows(rows: Seq<Row>, k: Seq<char>) -> nat
    decreases rows.len(),
{
    if rows.len() == 0 {
        0
    } else {
        count_rows(rows.drop_last(), k) + if rows.last().index == k {
            1nat
        } else {
            0nat
        }
    }
}

/// The label a watched identifier gets: that of its last section in the catalog,
/// or the fallback where the catalog does not list it.
pub open spec fn resolved_label(courses: Seq<Course>, k: Seq<char>) -> Seq<char> {
    match last_label(catalog_rows(courses), k) {
        Some(l) => l,
        None => unknown_label(k),
    }
}

pub proof fn lemma_catalog_rows_step(courses: Seq<Course>, n: int)
    requires
        0 <= n < courses.len(),
    ensures
        catalog_rows(courses.take(n + 1)) == catalog_rows(courses.take(n)) + course_rows(courses[n]),
{
    assert(courses.take(n + 1).drop_last() =~= courses.take(n));
}

pub proof fn lemma_rows_push(rows: Seq<Row>, r: Row, k: Seq<char>)
    ensures
        last_label(rows.push(r), k) == if r.index == k {
            Some(section_label(r.title, r.number, k))
        } else {
            last_label(rows, k)
        },
        count_rows(rows.push(r), k) == count_rows(rows, k) + if r.index == k {
            1nat
        } else {
            0nat
        },
{
    assert(rows.push(r).drop_last() =~= rows);
}

pub proof fn lemma_no_rows_no_label(rows: Seq<Row>, k: Seq<char>)
    ensures
        (last_label(rows, k) is None) == (count_rows(rows, k) == 0),
    decreases rows.len(),
{
    if rows.len() > 0 {
        lemma_no_rows_no_label(rows.drop_last(), k);
    }
}

} // verus!
