use vstd::prelude::*;

verus! {

/// One watched identifier: its display label and the ticks left before it may notify again.
pub struct Entry {
    pub index: String,
    pub label: String,
    pub cooldown: u32,
}

/// What an entry means: plain sequences and a natural number.
pub ghost struct EntryModel {
    pub index: Seq<char>,
    pub label: Seq<char>,
    pub cooldown: nat,
}

impl View for Entry {
    type V = EntryModel;

    open spec fn view(&self) -> EntryModel {
        EntryModel { index: self.index@, label: self.label@, cooldown: self.cooldown as nat }
    }
}

/// The per-identifier suppression state, one slot per watched identifier.
/// The set of identifiers is fixed when the table is built.
pub struct SuppressionTable {
    pub entries: Vec<Entry>,
}

impl View for SuppressionTable {
    type V = Seq<EntryModel>;

    open spec fn view(&self) -> Seq<EntryModel> {
        self.entries@.map_values(|e: Entry| e@)
    }
}

/// No identifier has two slots.
pub open spec fn keys_distinct(t: Seq<EntryModel>) -> bool {
    forall|i: int, j: int|
        0 <= i < t.len() && 0 <= j < t.len() && i != j ==> #[trigger] t[i].index != #[trigger] t[j].index
}

/// The identifiers of a table, slot by slot.
pub open spec fn keys_of(t: Seq<EntryModel>) -> Seq<Seq<char>> {
    t.map_values(|e: EntryModel| e.index)
}

/// `id` is reported open in this snapshot.
pub open spec fn is_open(open: Seq<String>, id: Seq<char>) -> bool {
    exists|j: int| 0 <= j < open.len() && (#[trigger] open[j])@ == id
}

/// A notification fires for an identifier that is open and not suppressed.
pub open spec fn fires(cooldown: nat, open: bool) -> bool {
    open && cooldown == 0
}

/// The cooldown after one tick: re-armed on a notification, counted down while the
/// identifier stays open, and forced to zero once it is closed.
pub open spec fn next_cooldown(cooldown: nat, open: bool, len: nat) -> nat {
    if !open {
        0
    } else if cooldown == 0 {
        len
    } else {
        (cooldown - 1) as nat
    }
}

/// The table after a tick with the given snapshot: identifiers and labels kept,
/// each cooldown moved on by `next_cooldown`.
pub open spec fn table_after(t: Seq<EntryModel>, open: Seq<String>, len: nat) -> Seq<EntryModel> {
    t.map_values(
        |e: EntryModel|
            EntryModel {
                index: e.index,
                label: e.label,
                cooldown: next_cooldown(e.cooldown, is_open(open, e.index), len),
            },
    )
}

/// `fired` lists, in slot order and once each, the slots that notify on this tick.
pub open spec fn fired_slots(t: Seq<EntryModel>, open: Seq<String>, fired: Seq<usize>) -> bool {
    &&& forall|a: int, b: int| 0 <= a < b < fired.len() ==> fired[a] < fired[b]
    &&& forall|k: int| 0 <= k < fired.len() ==> fired[k] < t.len()
    &&& forall|i: int|
        0 <= i < t.len() ==> (fired.contains(i as usize) <==> fires(
            t[i].cooldown,
            is_open(open, t[i].index),
        ))
}

/// Decides whether `id` is in the snapshot.
pub fn is_listed(open: &Vec<String>, id: &String) -> (r: bool)
    ensures
        r == is_open(open@, id@),
{
    let mut j: usize = 0;
    while j < open.len()
        invariant
            j <= open@.len(),
            forall|k: int| 0 <= k < j ==> (#[trigger] open@[k])@ != id@,
        decreases open@.len() - j,
    {
        if open[j] == *id {
            return true;
        }
        j = j + 1;
    }
    false
}

impl SuppressionTable {
    pub open spec fn wf(&self) -> bool {
        keys_distinct(self@)
    }

    pub fn len(&self) -> (r: usize)
        ensures
            r == self@.len(),
    {
        self.entries.len()
    }

    /// Finds the slot of `id`, if it is watched.
    pub fn slot_of(&self, id: &String) -> (r: Option<usize>)
        requires
            self.wf(),
        ensures
            r matches Some(i) ==> i < self@.len() && self@[i as int].index == id@,
            r is None ==> forall|i: int| 0 <= i < self@.len() ==> #[trigger] self@[i].index != id@,
    {
        let mut i: usize = 0;
        while i < self.entries.len()
            invariant
                i <= self@.len(),
                forall|k: int| 0 <= k < i ==> #[trigger] self@[k].index != id@,
            decreases self@.len() - i,
        {
            assert(self@[i as int] == self.entries@[i as int]@);
            if self.entries[i].index == *id {
                return Some(i);
            }
            i = i + 1;
        }
        None
    }

    /// The remaining cooldown of `id`, or `None` where it is not watched.
    pub fn cooldown_of(&self, id: &String) -> (r: Option<u32>)
        requires
            self.wf(),
        ensures
            r matches Some(c) ==> exists|i: int|
                0 <= i < self@.len() && #[trigger] self@[i] == (EntryModel { index: id@, label: self@[i].label, cooldown: c as nat }),
            r is None ==> forall|i: int| 0 <= i < self@.len() ==> #[trigger] self@[i].index != id@,
    {
        match self.slot_of(id) {
            Some(i) => {
                assert(self@[i as int] == self.entries@[i as int]@);
                Some(self.entries[i].cooldown)
            },
            None => None,
        }
    }

    /// Applies one snapshot of the open identifiers: every open identifier whose cooldown
    /// is zero notifies and is re-armed to `len`, every other open one counts down by one,
    /// and every closed one is reset to zero. Returns the slots that notify.
    pub fn tick(&mut self, open: &Vec<String>, len: u32) -> (fired: Vec<usize>)
        requires
            old(self).wf(),
        ensures
            final(self).wf(),
            final(self)@ == table_after(old(self)@, open@, len as nat),
            fired_slots(old(self)@, open@, fired@),
    {
        let ghost t0 = self@;
        let mut fired: Vec<usize> = Vec::new();
        let mut i: usize = 0;
        while i < self.entries.len()
            invariant
                i <= self@.len(),
                self@.len() == t0.len(),
                forall|k: int|
                    0 <= k < i ==> #[trigger] self@[k] == table_after(t0, open@, len as nat)[k],
                forall|k: int| i <= k < self@.len() ==> #[trigger] self@[k] == t0[k],
                forall|a: int, b: int| 0 <= a < b < fired@.len() ==> fired@[a] < fired@[b],
                forall|k: int| 0 <= k < fired@.len() ==> fired@[k] < i,
                forall|k: int|
                    0 <= k < i ==> (fired@.contains(k as usize) <==> fires(
                        t0[k].cooldown,
                        is_open(open@, t0[k].index),
                    )),
            decreases self@.len() - i,
        {
            proof {
                assert(self@[i as int] == self.entries@[i as int]@);
            }
            let seen = is_listed(open, &self.entries[i].index);
            let c = self.entries[i].cooldown;
            assert(seen == is_open(open@, t0[i as int].index) && c == t0[i as int].cooldown);
            let next: u32 = if !seen {
                0
            } else if c == 0 {
                len
            } else {
                c - 1
            };
            let ghost f0 = fired@;
            if seen && c == 0 {
                fired.push(i);
            }
            let ghost e0 = self.entries@;
            let ghost v0 = self@;
            self.entries[i].cooldown = next;
            proof {
                assert(self.entries@.len() == e0.len());
                assert(self.entries@[i as int].index == e0[i as int].index);
                assert(self.entries@[i as int].label == e0[i as int].label);
                assert(self.entries@[i as int].cooldown == next);
                assert forall|k: int| 0 <= k < e0.len() && k != i implies #[trigger] self@[k] == v0[k] by {
                    assert(self.entries@[k] == e0[k]);
                }
                assert(self@[i as int] == table_after(t0, open@, len as nat)[i as int]);
                assert forall|k: int| 0 <= k < i + 1 implies (fired@.contains(k as usize) <==> fires(
                    t0[k].cooldown,
                    is_open(open@, t0[k].index),
                )) by {
                    if k < i {
                        if fired@.contains(k as usize) {
                            let m = choose|m: int| 0 <= m < fired@.len() && fired@[m] == k as usize;
                            if m < f0.len() {
                                assert(f0[m] == k as usize);
                            }
                        }
                        if f0.contains(k as usize) {
                            let m = choose|m: int| 0 <= m < f0.len() && f0[m] == k as usize;
                            assert(fired@[m] == k as usize);
                        }
                    } else {
                        if fired@.contains(k as usize) {
                            let m = choose|m: int| 0 <= m < fired@.len() && fired@[m] == k as usize;
                            if m < f0.len() {
                                assert(f0[m] < i);
                            }
                        }
                        if fires(t0[k].cooldown, is_open(open@, t0[k].index)) {
                            assert(fired@[f0.len() as int] == i);
                        }
                    }
                }
            }
            i = i + 1;
        }
        proof {
            assert(self@ =~= table_after(t0, open@, len as nat));
        }
        fired
    }
}

/// The table after a run of ticks, one snapshot each, oldest first.
pub open spec fn table_after_run(t: Seq<EntryModel>, snaps: Seq<Seq<String>>, len: nat) -> Seq<EntryModel>
    decreases snaps.len(),
{
    if snaps.len() == 0 {
        t
    } else {
        table_after(table_after_run(t, snaps.drop_last(), len), snaps.last(), len)
    }
}

/// An open identifier whose cooldown is zero notifies exactly once on the tick, and its
/// cooldown becomes the configured length.
pub proof fn law_ready_and_open_fires_once(t: Seq<EntryModel>, open: Seq<String>, len: nat, fired: Seq<usize>, i: int)
    requires
        fired_slots(t, open, fired),
        0 <= i < t.len(),
        is_open(open, t[i].index),
        t[i].cooldown == 0,
    ensures
        table_after(t, open, len)[i].cooldown == len,
        exists|m: int|
            0 <= m < fired.len() && fired[m] == i as usize && forall|n: int|
                0 <= n < fired.len() && #[trigger] fired[n] == i as usize ==> n == m,
{
    assert(fired.contains(i as usize));
    let m = choose|m: int| 0 <= m < fired.len() && fired[m] == i as usize;
    assert forall|n: int| 0 <= n < fired.len() && #[trigger] fired[n] == i as usize implies n == m by {
        if n < m {
            assert(fired[n] < fired[m]);
        } else if m < n {
            assert(fired[m] < fired[n]);
        }
    }
}

/// An identifier missing from the snapshot ends the tick with a zero cooldown, whatever it
/// had before, and does not notify.
pub proof fn law_closed_resets(t: Seq<EntryModel>, open: Seq<String>, len: nat, fired: Seq<usize>, i: int)
    requires
        fired_slots(t, open, fired),
        0 <= i < t.len(),
        !is_open(open, t[i].index),
    ensures
        table_after(t, open, len)[i].cooldown == 0,
        !fired.contains(i as usize),
{
}

/// An open identifier that is still suppressed does not notify, and its cooldown drops by one.
pub proof fn law_suppressed_counts_down(t: Seq<EntryModel>, open: Seq<String>, len: nat, fired: Seq<usize>, i: int)
    requires
        fired_slots(t, open, fired),
        0 <= i < t.len(),
        is_open(open, t[i].index),
        t[i].cooldown > 0,
    ensures
        table_after(t, open, len)[i].cooldown == t[i].cooldown - 1,
        !fired.contains(i as usize),
{
}

proof fn lemma_run_keeps_slots(t: Seq<EntryModel>, snaps: Seq<Seq<String>>, len: nat)
    ensures
        table_after_run(t, snaps, len).len() == t.len(),
        forall|i: int|
            0 <= i < t.len() ==> (#[trigger] table_after_run(t, snaps, len)[i]).index == t[i].index,
    decreases snaps.len(),
{
    if snaps.len() > 0 {
        lemma_run_keeps_slots(t, snaps.drop_last(), len);
    }
}

/// An identifier missing from every snapshot of a run of one or more ticks has a zero
/// cooldown after each of them, so the first snapshot that lists it again makes it notify.
pub proof fn law_closed_run_stays_clear(t: Seq<EntryModel>, snaps: Seq<Seq<String>>, len: nat, i: int, open: Seq<String>)
    requires
        0 <= i < t.len(),
        snaps.len() >= 1,
        forall|j: int| 0 <= j < snaps.len() ==> !is_open(#[trigger] snaps[j], t[i].index),
        is_open(open, t[i].index),
    ensures
        forall|m: int|
            1 <= m <= snaps.len() ==> (#[trigger] table_after_run(t, snaps.take(m), len))[i].cooldown == 0,
        fires(table_after_run(t, snaps, len)[i].cooldown, is_open(open, table_after_run(t, snaps, len)[i].index)),
{
    assert forall|m: int| 1 <= m <= snaps.len() implies (#[trigger] table_after_run(t, snaps.take(m), len))[i].cooldown
        == 0 by {
        let before = table_after_run(t, snaps.take(m).drop_last(), len);
        lemma_run_keeps_slots(t, snaps.take(m).drop_last(), len);
        assert(snaps.take(m).last() == snaps[m - 1]);
        assert(!is_open(snaps[m - 1], before[i].index));
    }
    assert(snaps.take(snaps.len() as int) =~= snaps);
    lemma_run_keeps_slots(t, snaps, len);
}

} // verus!
