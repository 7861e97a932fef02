use vstd::prelude::*;

use crate::catalog::{
    catalog_rows, count_rows, course_rows, last_label, lemma_catalog_rows_step, lemma_no_rows_no_label, lemma_rows_push, resolved_label, row_of, Course, Row,
};
use crate::message::{format_section_label, format_unknown_label, unknown_label};
use crate::table::{keys_distinct, keys_of, Entry, EntryModel, SuppressionTable};

verus! {

/// A data-quality finding of the label resolver; neither stops the watcher.
pub enum LabelWarning {
    /// The catalog lists a watched identifier more than once: `then` replaces `first`.
    Duplicate { index: String, first: String, then: String },
    /// The catalog does not list a watched identifier: it keeps the fallback label.
    Missing { index: String },
}

pub open spec fn warns_duplicate(w: LabelWarning, k: Seq<char>) -> bool {
    match w {
        LabelWarning::Duplicate { index, .. } => index@ == k,
        LabelWarning::Missing { .. } => false,
    }
}

pub open spec fn warns_missing(w: LabelWarning, k: Seq<char>) -> bool {
    match w {
        LabelWarning::Duplicate { .. } => false,
        LabelWarning::Missing { index } => index@ == k,
    }
}

/// The identifier a warning is about.
pub open spec fn warned_key(w: LabelWarning) -> Seq<char> {
    match w {
        LabelWarning::Duplicate { index, .. } => index@,
        LabelWarning::Missing { index } => index@,
    }
}

/// `k` is one of the watched identifiers.
pub open spec fn is_watched(watch: Seq<String>, k: Seq<char>) -> bool {
    exists|j: int| 0 <= j < watch.len() && (#[trigger] watch[j])@ == k
}

/// Some slot of the table holds `k`.
pub open spec fn has_slot(t: Seq<EntryModel>, k: Seq<char>) -> bool {
    exists|s: int| 0 <= s < t.len() && (#[trigger] t[s]).index == k
}

/// The slots hold the watched identifiers, each once.
pub open spec fn slots_are(t: Seq<EntryModel>, watch: Seq<String>) -> bool {
    &&& keys_distinct(t)
    &&& forall|s: int| 0 <= s < t.len() ==> #[trigger] is_watched(watch, t[s].index)
    &&& forall|j: int| 0 <= j < watch.len() ==> #[trigger] has_slot(t, watch[j]@)
}

/// Labels of the slots found so far in `rows`: the last one listing each.
spec fn labelled_by(t: Seq<EntryModel>, found: Seq<bool>, rows: Seq<Row>) -> bool {
    &&& found.len() == t.len()
    &&& forall|s: int|
        0 <= s < t.len() ==> {
            &&& #[trigger] found[s] == (count_rows(rows, t[s].index) > 0)
            &&& found[s] ==> last_label(rows, t[s].index) == Some(t[s].label)
            &&& t[s].cooldown == 0
        }
}

/// Exactly the identifiers listed twice or more in `rows` have a duplicate warning.
spec fn duplicates_reported(t: Seq<EntryModel>, rows: Seq<Row>, w: Seq<LabelWarning>) -> bool {
    &&& forall|i: int|
        0 <= i < w.len() ==> {
            &&& (#[trigger] w[i]) is Duplicate
            &&& has_slot(t, warned_key(w[i]))
            &&& count_rows(rows, warned_key(w[i])) >= 2
        }
    &&& forall|s: int|
        0 <= s < t.len() && #[trigger] count_rows(rows, t[s].index) >= 2 ==> exists|i: int|
            0 <= i < w.len() && #[trigger] warns_duplicate(w[i], t[s].index)
}

/// One slot per watched identifier, in order of first appearance, with an empty label.
fn watch_slots(watch: &Vec<String>) -> (t: SuppressionTable)
    ensures
        t.wf(),
        slots_are(t@, watch@),
        forall|s: int| 0 <= s < t@.len() ==> (#[trigger] t@[s]).cooldown == 0 && t@[s].label.len() == 0,
{
    let mut t = SuppressionTable { entries: Vec::new() };
    let mut j: usize = 0;
    while j < watch.len()
        invariant
            j <= watch@.len(),
            t.wf(),
            forall|s: int| 0 <= s < t@.len() ==> #[trigger] is_watched(watch@.take(j as int), t@[s].index),
            forall|m: int| 0 <= m < j ==> #[trigger] has_slot(t@, watch@[m]@),
            forall|s: int| 0 <= s < t@.len() ==> (#[trigger] t@[s]).cooldown == 0 && t@[s].label.len() == 0,
        decreases watch@.len() - j,
    {
        let ghost t0 = t@;
        match t.slot_of(&watch[j]) {
            Some(s) => {
                assert(t@[s as int].index == watch@[j as int]@);
            },
            None => {
                t.entries.push(Entry { index: watch[j].clone(), label: String::new(), cooldown: 0 });
                assert(t@ =~= t0.push(t@[t0.len() as int]));
                assert(t@[t0.len() as int].index == watch@[j as int]@);
            },
        }
        proof {
            assert forall|s: int| 0 <= s < t@.len() implies #[trigger] is_watched(
                watch@.take(j + 1),
                t@[s].index,
            ) by {
                if s < t0.len() {
                    assert(t@[s] == t0[s]);
                    assert(is_watched(watch@.take(j as int), t0[s].index));
                    let m = choose|m: int|
                        0 <= m < j && (#[trigger] watch@.take(j as int)[m])@ == t0[s].index;
                    assert(watch@.take(j + 1)[m] == watch@.take(j as int)[m]);
                } else {
                    assert(watch@.take(j + 1)[j as int] == watch@[j as int]);
                }
            }
            assert forall|m: int| 0 <= m < j + 1 implies #[trigger] has_slot(t@, watch@[m]@) by {
                if m < j {
                    assert(has_slot(t0, watch@[m]@));
                    let s = choose|s: int| 0 <= s < t0.len() && (#[trigger] t0[s]).index == watch@[m]@;
                    assert(t@[s] == t0[s]);
                }
            }
        }
        j = j + 1;
    }
    assert(watch@.take(watch@.len() as int) =~= watch@);
    t
}

/// Applies the sections of one course, in order, to the labels found so far.
fn apply_course(
    t: &mut SuppressionTable,
    found: &mut Vec<bool>,
    course: &Course,
    warnings: &mut Vec<LabelWarning>,
    rows: Ghost<Seq<Row>>,
)
    requires
        old(t).wf(),
        labelled_by(old(t)@, old(found)@, rows@),
        duplicates_reported(old(t)@, rows@, old(warnings)@),
    ensures
        final(t).wf(),
        keys_of(final(t)@) == keys_of(old(t)@),
        labelled_by(final(t)@, final(found)@, rows@ + course_rows(*course)),
        duplicates_reported(final(t)@, rows@ + course_rows(*course), final(warnings)@),
{
    let ghost t0 = t@;
    let ghost all = course_rows(*course);
    let mut j: usize = 0;
    while j < course.sections.len()
        invariant
            j <= course.sections@.len(),
            all == course_rows(*course),
            t.wf(),
            t@.len() == t0.len(),
            forall|s: int| 0 <= s < t@.len() ==> (#[trigger] t@[s]).index == t0[s].index,
            labelled_by(t@, found@, rows@ + all.take(j as int)),
            duplicates_reported(t@, rows@ + all.take(j as int), warnings@),
        decreases course.sections@.len() - j,
    {
        let ghost before = rows@ + all.take(j as int);
        let ghost r = all[j as int];
        let ghost t1 = t@;
        let ghost f1 = found@;
        let ghost w1 = warnings@;
        assert(rows@ + all.take(j + 1) =~= before.push(r));
        let sec = &course.sections[j];
        assert(r == row_of(course.title@, *sec));
        match t.slot_of(&sec.index) {
            Some(s) => {
                let label = format_section_label(&course.title, &sec.number, &sec.index);
                proof {
                    assert(t@[s as int] == t.entries@[s as int]@);
                    lemma_rows_push(before, r, t1[s as int].index);
                }
                if found[s] {
                    warnings.push(
                        LabelWarning::Duplicate {
                            index: sec.index.clone(),
                            first: t.entries[s].label.clone(),
                            then: label.clone(),
                        },
                    );
                }
                let ghost e0 = t.entries@;
                t.entries[s].label = label;
                found[s] = true;
                proof {
                    assert forall|k: int| 0 <= k < e0.len() && k != s implies #[trigger] t@[k] == t1[k] by {
                        assert(t.entries@[k] == e0[k]);
                    }
                    assert(t@[s as int].index == t1[s as int].index);
                    assert(t@[s as int].cooldown == t1[s as int].cooldown);
                    assert forall|k: int| 0 <= k < t@.len() && k != s implies #[trigger] t@[k].index != r.index by {
                        assert(t1[k].index != t1[s as int].index);
                    }
                }
            },
            None => {},
        }
        proof {
            let after = before.push(r);
            assert forall|k: int| 0 <= k < t@.len() implies (#[trigger] t@[k]).index == t0[k].index by {
                assert(t@[k].index == t1[k].index);
            }
            assert forall|k: int| 0 <= k < t@.len() && t@[k].index != r.index implies #[trigger] count_rows(
                after,
                t@[k].index,
            ) == count_rows(before, t@[k].index) && last_label(after, t@[k].index) == last_label(
                before,
                t@[k].index,
            ) by {
                lemma_rows_push(before, r, t@[k].index);
            }
            assert forall|k: Seq<char>| #[trigger] count_rows(after, k) >= count_rows(before, k) by {
                lemma_rows_push(before, r, k);
            }
            assert(labelled_by(t@, found@, after));
            assert forall|i: int| 0 <= i < warnings@.len() implies {
                &&& (#[trigger] warnings@[i]) is Duplicate
                &&& has_slot(t@, warned_key(warnings@[i]))
                &&& count_rows(after, warned_key(warnings@[i])) >= 2
            } by {
                if i < w1.len() {
                    assert(warnings@[i] == w1[i]);
                    let s = choose|s: int| 0 <= s < t1.len() && (#[trigger] t1[s]).index == warned_key(w1[i]);
                    assert(t@[s].index == t1[s].index);
                } else {
                    let s = choose|s: int| 0 <= s < t1.len() && (#[trigger] t1[s]).index == r.index;
                    assert(t@[s].index == t1[s].index);
                }
            }
            assert forall|k: int|
                0 <= k < t@.len() && #[trigger] count_rows(after, t@[k].index) >= 2 implies exists|i: int|
                0 <= i < warnings@.len() && #[trigger] warns_duplicate(warnings@[i], t@[k].index) by {
                assert(t@[k].index == t1[k].index);
                lemma_rows_push(before, r, t@[k].index);
                if count_rows(before, t@[k].index) >= 2 {
                    let i = choose|i: int| 0 <= i < w1.len() && #[trigger] warns_duplicate(w1[i], t1[k].index);
                    assert(warnings@[i] == w1[i]);
                } else {
                    assert(f1[k]);
                    assert(warns_duplicate(warnings@[w1.len() as int], t@[k].index));
                }
            }
        }
        j = j + 1;
    }
    proof {
        assert(all.take(course.sections@.len() as int) =~= all);
        assert(keys_of(t@) =~= keys_of(t0));
    }
}

/// Exactly the watched identifiers listed twice or more have a duplicate warning, and
/// exactly those not listed at all have a missing warning.
pub open spec fn warnings_exact(t: Seq<EntryModel>, rows: Seq<Row>, w: Seq<LabelWarning>) -> bool {
    &&& forall|i: int|
        0 <= i < w.len() ==> {
            &&& has_slot(t, warned_key(#[trigger] w[i]))
            &&& if w[i] is Duplicate {
                count_rows(rows, warned_key(w[i])) >= 2
            } else {
                count_rows(rows, warned_key(w[i])) == 0
            }
        }
    &&& forall|s: int|
        0 <= s < t.len() && #[trigger] count_rows(rows, t[s].index) >= 2 ==> exists|i: int|
            0 <= i < w.len() && #[trigger] warns_duplicate(w[i], t[s].index)
    &&& forall|s: int|
        0 <= s < t.len() && #[trigger] count_rows(rows, t[s].index) == 0 ==> exists|i: int|
            0 <= i < w.len() && #[trigger] warns_missing(w[i], t[s].index)
}

/// A table and its warnings as built from the watch list and the catalog: one slot per
/// watched identifier, each labelled from the catalog, every cooldown zero.
pub open spec fn built_from(t: Seq<EntryModel>, w: Seq<LabelWarning>, watch: Seq<String>, courses: Seq<Course>) -> bool {
    &&& slots_are(t, watch)
    &&& forall|s: int|
        0 <= s < t.len() ==> (#[trigger] t[s]).cooldown == 0 && t[s].label == resolved_label(courses, t[s].index)
    &&& warnings_exact(t, catalog_rows(courses), w)
}

impl SuppressionTable {
    /// Builds the table for the watched identifiers, each labelled from the catalog:
    /// by the last section that lists it, or by the fallback label where none does.
    /// Every cooldown starts at zero.
    pub fn from_catalog(watch: &Vec<String>, courses: &Vec<Course>) -> (r: (SuppressionTable, Vec<LabelWarning>))
        ensures
            r.0.wf(),
            built_from(r.0@, r.1@, watch@, courses@),
    {
        let mut t = watch_slots(watch);
        let ghost keys = keys_of(t@);
        let mut found: Vec<bool> = Vec::new();
        while found.len() < t.entries.len()
            invariant
                found@.len() <= t@.len(),
                forall|s: int| 0 <= s < found@.len() ==> !(#[trigger] found@[s]),
            decreases t@.len() - found@.len(),
        {
            found.push(false);
        }
        let mut warnings: Vec<LabelWarning> = Vec::new();
        proof {
            assert(courses@.take(0) =~= Seq::<Course>::empty());
        }
        let mut c: usize = 0;
        while c < courses.len()
            invariant
                c <= courses@.len(),
                t.wf(),
                slots_are(t@, watch@),
                keys_of(t@) == keys,
                labelled_by(t@, found@, catalog_rows(courses@.take(c as int))),
                duplicates_reported(t@, catalog_rows(courses@.take(c as int)), warnings@),
            decreases courses@.len() - c,
        {
            let ghost t1 = t@;
            apply_course(&mut t, &mut found, &courses[c], &mut warnings, Ghost(catalog_rows(courses@.take(c as int))));
            proof {
                lemma_catalog_rows_step(courses@, c as int);
                assert(t@.len() == keys_of(t@).len() && t1.len() == keys_of(t1).len());
                assert forall|s: int| 0 <= s < t@.len() implies (#[trigger] t@[s]).index == t1[s].index by {
                    assert(keys_of(t@)[s] == keys_of(t1)[s]);
                }
                assert forall|s: int| 0 <= s < t@.len() implies #[trigger] is_watched(watch@, t@[s].index) by {
                    assert(is_watched(watch@, t1[s].index));
                }
                assert forall|m: int| 0 <= m < watch@.len() implies #[trigger] has_slot(t@, watch@[m]@) by {
                    assert(has_slot(t1, watch@[m]@));
                    let s = choose|s: int| 0 <= s < t1.len() && (#[trigger] t1[s]).index == watch@[m]@;
                    assert(t@[s].index == t1[s].index);
                }
            }
            c = c + 1;
        }
        let ghost rows = catalog_rows(courses@);
        assert(courses@.take(courses@.len() as int) =~= courses@);
        let ghost t2 = t@;
        let ghost w2 = warnings@;
        let mut i: usize = 0;
        while i < t.entries.len()
            invariant
                i <= t@.len(),
                t@.len() == t2.len(),
                t.wf(),
                rows == catalog_rows(courses@),
                keys_distinct(t2),
                labelled_by(t2, found@, rows),
                duplicates_reported(t2, rows, w2),
                forall|s: int| 0 <= s < t@.len() ==> (#[trigger] t@[s]).index == t2[s].index,
                forall|s: int|
                    0 <= s < i ==> (#[trigger] t@[s]).cooldown == 0 && t@[s].label == resolved_label(
                        courses@,
                        t@[s].index,
                    ),
                forall|s: int| i <= s < t@.len() ==> #[trigger] t@[s] == t2[s],
                warnings@.len() >= w2.len(),
                forall|k: int| 0 <= k < w2.len() ==> #[trigger] warnings@[k] == w2[k],
                forall|k: int|
                    w2.len() <= k < warnings@.len() ==> (#[trigger] warnings@[k]) is Missing && count_rows(
                        rows,
                        warned_key(warnings@[k]),
                    ) == 0 && has_slot(t2, warned_key(warnings@[k])),
                forall|s: int|
                    0 <= s < i && #[trigger] count_rows(rows, t2[s].index) == 0 ==> exists|k: int|
                        0 <= k < warnings@.len() && #[trigger] warns_missing(warnings@[k], t2[s].index),
            decreases t@.len() - i,
        {
            let ghost t3 = t@;
            let ghost w3 = warnings@;
            proof {
                assert(t@[i as int] == t.entries@[i as int]@);
                lemma_no_rows_no_label(rows, t2[i as int].index);
                assert(found@[i as int] == (count_rows(rows, t2[i as int].index) > 0));
            }
            if !found[i] {
                let label = format_unknown_label(&t.entries[i].index);
                warnings.push(LabelWarning::Missing { index: t.entries[i].index.clone() });
                let ghost e0 = t.entries@;
                t.entries[i].label = label;
                proof {
                    assert forall|k: int| 0 <= k < e0.len() && k != i implies #[trigger] t@[k] == t3[k] by {
                        assert(t.entries@[k] == e0[k]);
                    }
                    assert(t@[i as int].label == unknown_label(t3[i as int].index));
                    assert(t@[i as int].index == t3[i as int].index);
                    assert(t@[i as int].cooldown == t3[i as int].cooldown);
                    assert(has_slot(t2, t2[i as int].index));
                    assert(warns_missing(warnings@[w3.len() as int], t2[i as int].index));
                }
            }
            proof {
                assert(t3[i as int] == t2[i as int]);
                assert(t2[i as int].cooldown == 0);
                assert(rows == catalog_rows(courses@));
                if found@[i as int] {
                    assert(last_label(rows, t2[i as int].index) == Some(t2[i as int].label));
                    assert(t@[i as int] == t2[i as int]);
                } else {
                    assert(count_rows(rows, t2[i as int].index) == 0);
                    assert(last_label(rows, t2[i as int].index) is None);
                    assert(t@[i as int].label == unknown_label(t2[i as int].index));
                }
                assert(t@[i as int].cooldown == 0);
                assert(t@[i as int].label == resolved_label(courses@, t@[i as int].index));
                assert forall|s: int|
                    0 <= s < i + 1 && #[trigger] count_rows(rows, t2[s].index) == 0 implies exists|k: int|
                    0 <= k < warnings@.len() && #[trigger] warns_missing(warnings@[k], t2[s].index) by {
                    if s < i {
                        let k = choose|k: int| 0 <= k < w3.len() && #[trigger] warns_missing(w3[k], t2[s].index);
                        assert(warnings@[k] == w3[k]);
                    } else {
                        assert(!found@[i as int]);
                        assert(warns_missing(warnings@[w3.len() as int], t2[s].index));
                    }
                }
                assert(keys_distinct(t@)) by {
                    assert forall|a: int, b: int|
                        0 <= a < t@.len() && 0 <= b < t@.len() && a != b implies #[trigger] t@[a].index
                        != #[trigger] t@[b].index by {
                        assert(t2[a].index != t2[b].index);
                    }
                }
            }
            i = i + 1;
        }
        proof {
            assert forall|s: int| 0 <= s < t@.len() implies #[trigger] is_watched(watch@, t@[s].index) by {
                assert(is_watched(watch@, t2[s].index));
            }
            assert forall|m: int| 0 <= m < watch@.len() implies #[trigger] has_slot(t@, watch@[m]@) by {
                assert(has_slot(t2, watch@[m]@));
                let s = choose|s: int| 0 <= s < t2.len() && (#[trigger] t2[s]).index == watch@[m]@;
                assert(t@[s].index == t2[s].index);
            }
            assert forall|k: int| 0 <= k < warnings@.len() implies {
                &&& has_slot(t@, warned_key(#[trigger] warnings@[k]))
                &&& if warnings@[k] is Duplicate {
                    count_rows(rows, warned_key(warnings@[k])) >= 2
                } else {
                    count_rows(rows, warned_key(warnings@[k])) == 0
                }
            } by {
                if k < w2.len() {
                    assert(warnings@[k] == w2[k]);
                }
                assert(has_slot(t2, warned_key(warnings@[k])));
                let s = choose|s: int| 0 <= s < t2.len() && (#[trigger] t2[s]).index == warned_key(warnings@[k]);
                assert(t@[s].index == t2[s].index);
            }
            assert forall|s: int|
                0 <= s < t@.len() && #[trigger] count_rows(rows, t@[s].index) >= 2 implies exists|k: int|
                0 <= k < warnings@.len() && #[trigger] warns_duplicate(warnings@[k], t@[s].index) by {
                assert(t@[s].index == t2[s].index);
                let k = choose|k: int| 0 <= k < w2.len() && #[trigger] warns_duplicate(w2[k], t2[s].index);
                assert(warnings@[k] == w2[k]);
            }
            assert forall|s: int|
                0 <= s < t@.len() && #[trigger] count_rows(rows, t@[s].index) == 0 implies exists|k: int|
                0 <= k < warnings@.len() && #[trigger] warns_missing(warnings@[k], t@[s].index) by {
                assert(t@[s].index == t2[s].index);
            }
        }
        (t, warnings)
    }
}

} // verus!
