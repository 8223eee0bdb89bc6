//! The replicated log: entries above the last snapshot boundary, with dense
//! 1-based indices.
use vstd::prelude::*;

verus! {

#[derive(Debug, Clone, Copy, PartialEq, Eq, Structural)]
pub enum EntryType {
    Normal,
    Configuration,
}

/// One log entry.
#[derive(Debug, Clone)]
pub struct Entry {
    pub index: u64,
    pub term: u64,
    pub entry_type: EntryType,
    pub data: Vec<u8>,
}

pub struct EntryView {
    pub index: u64,
    pub term: u64,
    pub entry_type: EntryType,
    pub data: Seq<u8>,
}

impl View for Entry {
    type V = EntryView;

    open spec fn view(&self) -> EntryView {
        EntryView { index: self.index, term: self.term, entry_type: self.entry_type, data: self.data@ }
    }
}

pub open spec fn entries_view(v: Seq<Entry>) -> Seq<EntryView> {
    v.map_values(|e: Entry| e@)
}

/// Entries numbered from `start`: the i-th carries index `start + i`.
pub open spec fn dense_from(s: Seq<EntryView>, start: int) -> bool {
    forall|i: int| 0 <= i < s.len() ==> #[trigger] s[i].index == start + i
}

pub fn copy_entry(e: &Entry) -> (r: Entry)
    ensures
        r@ == e@,
{
    Entry { index: e.index, term: e.term, entry_type: e.entry_type, data: e.data.clone() }
}

/// Log entries retained above the snapshot boundary.
#[derive(Debug)]
pub struct Log {
    /// Index of the first retained entry (one past the snapshot's last index).
    pub start_index: u64,
    pub entries: Vec<Entry>,
}

impl Log {
    pub open spec fn wf(&self) -> bool {
        &&& self.start_index >= 1
        &&& self.start_index + self.entries@.len() < u64::MAX
        &&& dense_from(entries_view(self.entries@), self.start_index as int)
    }

    pub open spec fn last(&self) -> int {
        self.start_index + self.entries@.len() - 1
    }

    pub open spec fn view_entries(&self) -> Seq<EntryView> {
        entries_view(self.entries@)
    }

    /// The entry at log index `index`, which must be retained.
    pub open spec fn at(&self, index: int) -> EntryView {
        self.view_entries()[index - self.start_index]
    }

    pub open spec fn holds(&self, index: int) -> bool {
        self.start_index <= index <= self.last()
    }

    /// An empty log whose first entry will carry `start_index`.
    pub fn new(start_index: u64) -> (r: Log)
        requires
            1 <= start_index < u64::MAX,
        ensures
            r.wf(),
            r.start_index == start_index,
            r.entries@.len() == 0,
    {
        Log { start_index, entries: Vec::new() }
    }

    pub fn last_index(&self) -> (r: u64)
        requires
            self.wf(),
        ensures
            r == self.last(),
    {
        self.start_index + self.entries.len() as u64 - 1
    }

    /// Number of retained entries.
    pub fn len(&self) -> (r: usize)
        ensures
            r == self.entries@.len(),
    {
        self.entries.len()
    }

    /// The term of the entry at `index`, when the log retains it.
    pub fn term_at(&self, index: u64) -> (r: Option<u64>)
        requires
            self.wf(),
        ensures
            r is Some <==> self.holds(index as int),
            r is Some ==> r->Some_0 == self.at(index as int).term,
    {
        if index >= self.start_index && index - self.start_index < self.entries.len() as u64 {
            Some(self.entries[(index - self.start_index) as usize].term)
        } else {
            None
        }
    }

    /// A copy of the entry at `index`, when the log retains it.
    pub fn entry_at(&self, index: u64) -> (r: Option<Entry>)
        requires
            self.wf(),
        ensures
            r is Some <==> self.holds(index as int),
            r is Some ==> r->Some_0@ == self.at(index as int),
    {
        if index >= self.start_index && index - self.start_index < self.entries.len() as u64 {
            Some(copy_entry(&self.entries[(index - self.start_index) as usize]))
        } else {
            None
        }
    }

    /// Appends one entry per (type, data) pair under `term`, with
    /// consecutive indices after the last one.
    pub fn append_data(&mut self, term: u64, items: Vec<(EntryType, Vec<u8>)>)
        requires
            old(self).wf(),
            old(self).start_index + old(self).entries@.len() + items@.len() < u64::MAX,
        ensures
            final(self).wf(),
            final(self).start_index == old(self).start_index,
            final(self).entries@.len() == old(self).entries@.len() + items@.len(),
            final(self).view_entries().subrange(0, old(self).entries@.len() as int) == old(self).view_entries(),
            forall|i: int| 0 <= i < items@.len() ==> #[trigger] final(self).view_entries()[old(self).entries@.len() + i] == (EntryView {
                index: (old(self).last() + 1 + i) as u64,
                term,
                entry_type: items@[i].0,
                data: items@[i].1@,
            }),
    {
        let n0 = self.entries.len();
        let mut i: usize = 0;
        while i < items.len()
            invariant
                self.wf(),
                i <= items.len(),
                self.start_index == old(self).start_index,
                n0 == old(self).entries@.len(),
                self.entries@.len() == n0 + i,
                old(self).start_index + old(self).entries@.len() + items@.len() < u64::MAX,
                self.view_entries().subrange(0, n0 as int) == old(self).view_entries(),
                forall|k: int| 0 <= k < i ==> #[trigger] self.view_entries()[n0 + k] == (EntryView {
                    index: (old(self).last() + 1 + k) as u64,
                    term,
                    entry_type: items@[k].0,
                    data: items@[k].1@,
                }),
            decreases items.len() - i,
        {
            let index = self.start_index + self.entries.len() as u64;
            let e = Entry { index, term, entry_type: items[i].0, data: items[i].1.clone() };
            let ghost prev = self.entries@;
            self.entries.push(e);
            proof {
                assert(entries_view(self.entries@) =~= entries_view(prev).push(e@));
                assert(self.view_entries().subrange(0, n0 as int) =~= old(self).view_entries());
            }
            i = i + 1;
        }
    }

    /// Appends one entry, whose index must follow the last one.
    pub fn append_entry(&mut self, e: Entry)
        requires
            old(self).wf(),
            e.index == old(self).last() + 1,
            e.index + 1 < u64::MAX,
        ensures
            final(self).wf(),
            final(self).start_index == old(self).start_index,
            final(self).entries@.len() == old(self).entries@.len() + 1,
            final(self).view_entries() == old(self).view_entries().push(e@),
    {
        let ghost prev = self.entries@;
        self.entries.push(e);
        assert(entries_view(self.entries@) =~= entries_view(prev).push(e@));
    }

    /// Drops every entry at or after `index`.
    pub fn truncate_from(&mut self, index: u64)
        requires
            old(self).wf(),
            old(self).start_index <= index <= old(self).last() + 1,
        ensures
            final(self).wf(),
            final(self).start_index == old(self).start_index,
            final(self).last() == index - 1,
            final(self).view_entries() == old(self).view_entries().subrange(0, index - old(self).start_index),
    {
        self.entries.truncate((index - self.start_index) as usize);
        assert(entries_view(self.entries@) =~= old(self).view_entries().subrange(0, index - old(self).start_index));
    }

    /// Copies of the entries from `index` to the end.
    pub fn entries_from(&self, index: u64) -> (r: Vec<Entry>)
        requires
            self.wf(),
            self.start_index <= index <= self.last() + 1,
        ensures
            entries_view(r@) == self.view_entries().subrange(index - self.start_index, self.entries@.len() as int),
    {
        let mut r: Vec<Entry> = Vec::new();
        assert(index - self.start_index <= self.entries@.len());
        let mut k: usize = (index - self.start_index) as usize;
        let k0 = k;
        while k < self.entries.len()
            invariant
                k0 <= k <= self.entries.len(),
                k0 == index - self.start_index,
                entries_view(r@) == self.view_entries().subrange(k0 as int, k as int),
            decreases self.entries.len() - k,
        {
            let ghost prev = r@;
            let e = copy_entry(&self.entries[k]);
            r.push(e);
            proof {
                assert(entries_view(r@) =~= entries_view(prev).push(e@));
                assert(self.view_entries().subrange(k0 as int, k as int + 1) =~= self.view_entries().subrange(
                    k0 as int,
                    k as int,
                ).push(self.view_entries()[k as int]));
            }
            k = k + 1;
        }
        r
    }

    /// Discards the prefix up to and including `index`: the first retained
    /// entry becomes `index + 1`.
    pub fn compact_through(&mut self, index: u64)
        requires
            old(self).wf(),
            old(self).start_index - 1 <= index <= old(self).last(),
        ensures
            final(self).wf(),
            final(self).start_index == index + 1,
            final(self).last() == old(self).last(),
            final(self).view_entries() == old(self).view_entries().subrange(
                index + 1 - old(self).start_index,
                old(self).entries@.len() as int,
            ),
    {
        let kept = self.entries_from(index + 1);
        self.start_index = index + 1;
        self.entries = kept;
        proof {
            let s = self.view_entries();
            assert(s.len() == old(self).entries@.len() - (index + 1 - old(self).start_index));
            assert forall|i: int| 0 <= i < s.len() implies #[trigger] s[i].index == self.start_index + i by {
                assert(s[i] == old(self).view_entries()[index + 1 - old(self).start_index + i]);
            }
        }
    }

    /// Drops every entry and starts the log after `last_included_index`.
    pub fn reset(&mut self, last_included_index: u64)
        requires
            last_included_index + 1 < u64::MAX,
        ensures
            final(self).wf(),
            final(self).start_index == last_included_index + 1,
            final(self).entries@.len() == 0,
    {
        self.start_index = last_included_index + 1;
        self.entries = Vec::new();
        assert(entries_view(self.entries@) =~= Seq::<EntryView>::empty());
    }
}

} // verus!
