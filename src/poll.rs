use vstd::prelude::*;

use crate::catalog::{Config, Course};
use crate::message::{alert_text, format_alert, format_mention, format_notification, mention_prefix};
use crate::resolve::{built_from, LabelWarning};
use crate::table::{fired_slots, table_after, SuppressionTable};

verus! {

/// The state the polling loop carries from tick to tick.
pub struct Poller {
    pub table: SuppressionTable,
    /// The line put before each alert.
    pub prefix: String,
    pub term: String,
    pub year: String,
    pub repeat_timeout: u32,
}

pub open spec fn view_option(m: Option<String>) -> Option<Seq<char>> {
    match m {
        Some(s) => Some(s@),
        None => None,
    }
}

impl Poller {
    pub open spec fn wf(&self) -> bool {
        self.table.wf()
    }

    /// What the channel receives when slot `s` of the table notifies.
    pub open spec fn body_for(&self, s: int) -> Seq<char> {
        self.prefix@ + "\n"@ + alert_text(self.table@[s].label, self.term@, self.year@, self.table@[s].index)
    }

    /// Builds the loop state from the settings and the catalog.
    pub fn new(config: &Config, courses: &Vec<Course>) -> (r: (Poller, Vec<LabelWarning>))
        ensures
            r.0.wf(),
            built_from(r.0.table@, r.1@, config.indexes@, courses@),
            r.0.prefix@ == mention_prefix(view_option(config.mention)),
            r.0.term@ == config.term@,
            r.0.year@ == config.year@,
            r.0.repeat_timeout == config.repeat_timeout,
    {
        let (table, warnings) = SuppressionTable::from_catalog(&config.indexes, courses);
        let prefix = format_mention(&config.mention);
        (
            Poller {
                table,
                prefix,
                term: config.term.clone(),
                year: config.year.clone(),
                repeat_timeout: config.repeat_timeout,
            },
            warnings,
        )
    }

    /// One tick of the loop. `fetched` is the snapshot of open identifiers, or `None`
    /// where it could not be had: then nothing changes and nothing is sent. Otherwise
    /// the table moves on by one tick, and the result holds the message of each slot
    /// that notifies, in slot order.
    pub fn on_snapshot(&mut self, fetched: Option<Vec<String>>) -> (r: Vec<String>)
        requires
            old(self).wf(),
        ensures
            final(self).wf(),
            final(self).prefix == old(self).prefix,
            final(self).term == old(self).term,
            final(self).year == old(self).year,
            final(self).repeat_timeout == old(self).repeat_timeout,
            fetched is None ==> final(self).table@ == old(self).table@ && r@.len() == 0,
            fetched matches Some(open) ==> {
                &&& final(self).table@ == table_after(old(self).table@, open@, old(self).repeat_timeout as nat)
                &&& exists|fired: Seq<usize>|
                    {
                        &&& fired_slots(old(self).table@, open@, fired)
                        &&& r@.len() == fired.len()
                        &&& forall|j: int|
                            0 <= j < fired.len() ==> (#[trigger] r@[j])@ == old(self).body_for(
                                fired[j] as int,
                            )
                    }
            },
    {
        match fetched {
            None => Vec::new(),
            Some(open) => {
                let ghost before = *self;
                let fired = self.table.tick(&open, self.repeat_timeout);
                let mut out: Vec<String> = Vec::new();
                let mut j: usize = 0;
                while j < fired.len()
                    invariant
                        j <= fired@.len(),
                        out@.len() == j,
                        self.table@ == table_after(before.table@, open@, before.repeat_timeout as nat),
                        self.prefix == before.prefix,
                        self.term == before.term,
                        self.year == before.year,
                        fired_slots(before.table@, open@, fired@),
                        forall|m: int| 0 <= m < j ==> (#[trigger] out@[m])@ == before.body_for(fired@[m] as int),
                    decreases fired@.len() - j,
                {
                    let s = fired[j];
                    proof {
                        assert(fired@[j as int] < before.table@.len());
                        assert(self.table@.len() == before.table@.len());
                        assert(self.table@.len() == self.table.entries@.len());
                        assert(self.table@[s as int] == self.table.entries@[s as int]@);
                        assert(self.table@[s as int].label == before.table@[s as int].label);
                        assert(self.table@[s as int].index == before.table@[s as int].index);
                    }
                    let alert = format_alert(
                        &self.table.entries[s].label,
                        &self.term,
                        &self.year,
                        &self.table.entries[s].index,
                    );
                    out.push(format_notification(&self.prefix, &alert));
                    j = j + 1;
                }
                out
            },
        }
    }
}

} // verus!
