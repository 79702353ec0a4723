//! The history of recent transcriptions, newest first.
use vstd::prelude::*;

verus! {

/// Number of transcriptions kept.
pub const MAX_HISTORY_ENTRIES: usize = 5;

/// One transcription, numbered and stamped with seconds since the Unix
/// epoch.
pub struct HistoryEntry {
    pub id: u64,
    pub timestamp: i64,
    pub text: String,
}

pub struct HistoryEntryView {
    pub id: u64,
    pub timestamp: i64,
    pub text: Seq<char>,
}

impl View for HistoryEntry {
    type V = HistoryEntryView;

    open spec fn view(&self) -> HistoryEntryView {
        HistoryEntryView { id: self.id, timestamp: self.timestamp, text: self.text@ }
    }
}

pub open spec fn entry_views(v: Seq<HistoryEntry>) -> Seq<HistoryEntryView> {
    v.map_values(|e: HistoryEntry| e@)
}

/// The entries after adding `e` in front, keeping the newest ones.
pub open spec fn with_entry(entries: Seq<HistoryEntryView>, e: HistoryEntryView) -> Seq<
    HistoryEntryView,
> {
    let all = seq![e] + entries;
    if all.len() > MAX_HISTORY_ENTRIES {
        all.take(MAX_HISTORY_ENTRIES as int)
    } else {
        all
    }
}

/// The stored history: its entries, newest first, and the next number to
/// give.
pub struct HistoryData {
    pub entries: Vec<HistoryEntry>,
    pub next_id: u64,
}

impl Default for HistoryData {
    fn default() -> (r: Self)
        ensures
            r.entries@.len() == 0,
            r.next_id == 1,
    {
        HistoryData { entries: Vec::new(), next_id: 1 }
    }
}

impl HistoryData {
    /// Records `text`, transcribed at `timestamp`, as the newest entry under
    /// the next number; only the newest entries are kept.
    pub fn add_transcription(&mut self, timestamp: i64, text: String)
        requires
            old(self).next_id < u64::MAX,
        ensures
            entry_views(final(self).entries@) == with_entry(
                entry_views(old(self).entries@),
                HistoryEntryView { id: old(self).next_id, timestamp, text: text@ },
            ),
            final(self).next_id == old(self).next_id + 1,
    {
        let e = HistoryEntry { id: self.next_id, timestamp, text };
        let ghost before = self.entries@;
        self.entries.insert(0, e);
        assert(entry_views(self.entries@) =~= seq![e@] + entry_views(before));
        self.next_id = self.next_id + 1;
        if self.entries.len() > MAX_HISTORY_ENTRIES {
            let ghost full = self.entries@;
            self.entries.truncate(MAX_HISTORY_ENTRIES);
            assert(entry_views(self.entries@) =~= entry_views(full).take(MAX_HISTORY_ENTRIES as int));
        }
    }

    /// The text of the newest entry, if any.
    pub fn get_last_transcription(&self) -> (r: Option<String>)
        ensures
            self.entries@.len() == 0 ==> r is None,
            self.entries@.len() > 0 ==> (r matches Some(t) && t@ == self.entries@[0].text@),
    {
        if self.entries.len() == 0 {
            None
        } else {
            Some(self.entries[0].text.clone())
        }
    }
}

} // verus!
