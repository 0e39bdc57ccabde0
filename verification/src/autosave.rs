//! Autosave bookkeeping: the manifest of backups, the merge of a finished
//! backup batch, recovery at start-up, and the rescue plan after a lost GPU
//! device. Reading and writing files is left to the caller.

use vstd::prelude::*;
use std::collections::VecDeque;
use crate::audio_settings::{copy_opt_string, opt_text, texts};

verus! {

/// One record of the manifest.
pub struct AutoSaveEntry {
    /// Session id of the document (names the backup file).
    pub doc_id: u64,
    /// Backup file path (the original file when `backup` is false).
    pub file: String,
    /// Original path; `None` for a document never saved.
    pub original: Option<String>,
    /// Tab name.
    pub name: String,
    /// Write time, unix seconds.
    pub saved_at: u64,
    /// A backup written by the application (false: reopen the original file
    /// and never delete it).
    pub backup: bool,
}

/// An entry as plain values: (doc_id, file, original, name, saved_at, backup).
pub type EntryView = (u64, Seq<char>, Option<Seq<char>>, Seq<char>, u64, bool);

impl View for AutoSaveEntry {
    type V = EntryView;

    open spec fn view(&self) -> EntryView {
        (self.doc_id, self.file@, opt_text(self.original), self.name@, self.saved_at, self.backup)
    }
}

/// The views of a list of entries.
pub open spec fn entries_view(v: Seq<AutoSaveEntry>) -> Seq<EntryView> {
    v.map_values(|e: AutoSaveEntry| e@)
}

impl AutoSaveEntry {
    /// A copy with the same fields.
    pub fn duplicate(&self) -> (r: AutoSaveEntry)
        ensures
            r@ == self@,
    {
        AutoSaveEntry {
            doc_id: self.doc_id,
            file: self.file.clone(),
            original: copy_opt_string(&self.original),
            name: self.name.clone(),
            saved_at: self.saved_at,
            backup: self.backup,
        }
    }

    /// The record of a file to reopen directly after an automatic restart
    /// (an unmodified document): no backup, `name` is the file stem.
    pub fn reopen(path: String, name: String) -> (r: AutoSaveEntry)
        ensures
            r@ == (0u64, path@, Some(path@), name@, 0u64, false),
    {
        let original = Some(path.clone());
        AutoSaveEntry { doc_id: 0, file: path, original, name, saved_at: 0, backup: false }
    }
}

/// The default of `backup` for records that do not say: a backup.
pub fn default_true() -> (r: bool)
    ensures
        r,
{
    true
}

/// The manifest of the autosave directory.
pub struct Manifest {
    /// Written before an automatic restart: restore without asking.
    pub auto_recover: bool,
    pub entries: Vec<AutoSaveEntry>,
    /// Original paths to reopen directly (unmodified documents; automatic
    /// restart only).
    pub reopen: Vec<String>,
}

fn copy_entries(v: &Vec<AutoSaveEntry>) -> (r: Vec<AutoSaveEntry>)
    ensures
        entries_view(r@) == entries_view(v@),
{
    let mut r: Vec<AutoSaveEntry> = Vec::new();
    let mut i: usize = 0;
    while i < v.len()
        invariant
            i <= v@.len(),
            r@.len() == i,
            forall|j: int| 0 <= j < i ==> #[trigger] r@[j]@ == v@[j]@,
        decreases v@.len() - i,
    {
        r.push(v[i].duplicate());
        i += 1;
    }
    proof {
        assert(entries_view(r@) =~= entries_view(v@));
    }
    r
}

fn copy_strings(v: &Vec<String>) -> (r: Vec<String>)
    ensures
        texts(r@) == texts(v@),
{
    let mut r: Vec<String> = Vec::new();
    let mut i: usize = 0;
    while i < v.len()
        invariant
            i <= v@.len(),
            r@.len() == i,
            forall|j: int| 0 <= j < i ==> #[trigger] r@[j]@ == v@[j]@,
        decreases v@.len() - i,
    {
        r.push(v[i].clone());
        i += 1;
    }
    proof {
        assert(texts(r@) =~= texts(v@));
    }
    r
}

impl Manifest {
    /// No records, nothing to reopen, no automatic recovery.
    pub fn new() -> (r: Manifest)
        ensures
            !r.auto_recover,
            r.entries@.len() == 0,
            r.reopen@.len() == 0,
    {
        Manifest { auto_recover: false, entries: Vec::new(), reopen: Vec::new() }
    }

    /// The manifest says nothing: its file is deleted instead of written.
    pub fn is_blank(&self) -> (r: bool)
        ensures
            r == (self.entries@.len() == 0 && self.reopen@.len() == 0 && !self.auto_recover),
    {
        self.entries.len() == 0 && self.reopen.len() == 0 && !self.auto_recover
    }
}

/// The records after merging the batch result `news` in order: each new
/// record replaces the records of the same document.
pub open spec fn merged_entries(es: Seq<EntryView>, news: Seq<EntryView>) -> Seq<EntryView>
    decreases news.len(),
{
    if news.len() == 0 {
        es
    } else {
        let e = news.last();
        merged_entries(es, news.drop_last()).filter(|o: EntryView| o.0 != e.0).push(e)
    }
}

/// The replaced records whose backup file differs from the new one (their
/// files are to be deleted), in merge order.
pub open spec fn stale_entries(es: Seq<EntryView>, news: Seq<EntryView>) -> Seq<EntryView>
    decreases news.len(),
{
    if news.len() == 0 {
        Seq::empty()
    } else {
        let e = news.last();
        stale_entries(es, news.drop_last()) + merged_entries(es, news.drop_last()).filter(
            |o: EntryView| o.0 == e.0 && o.1 != e.1,
        )
    }
}

/// The first position of a record of document `doc_id`.
pub open spec fn first_of(es: Seq<EntryView>, doc_id: u64, k: int) -> bool {
    &&& 0 <= k < es.len()
    &&& es[k].0 == doc_id
    &&& forall|j: int| 0 <= j < k ==> #[trigger] es[j].0 != doc_id
}

/// No two records belong to the same document.
pub open spec fn ids_unique(es: Seq<EntryView>) -> bool {
    forall|i: int, j: int| 0 <= i < j < es.len() ==> #[trigger] es[i].0 != #[trigger] es[j].0
}

proof fn lemma_filter_keeps_unique(es: Seq<EntryView>, pred: spec_fn(EntryView) -> bool)
    requires
        ids_unique(es),
    ensures
        ids_unique(es.filter(pred)),
    decreases es.len(),
{
    if es.len() > 0 {
        let d = es.drop_last();
        assert(ids_unique(d)) by {
            assert forall|i: int, j: int| 0 <= i < j < d.len() implies #[trigger] d[i].0 != #[trigger] d[j].0 by {
                assert(es[i] == d[i] && es[j] == d[j]);
            }
        }
        lemma_filter_keeps_unique(d, pred);
        assert(es =~= d.push(es.last()));
        d.lemma_filter_push(es.last(), pred);
        let f = d.filter(pred);
        if pred(es.last()) {
            // the last record's document occurs nowhere before it, so neither in f
            assert forall|k: int| 0 <= k < f.len() implies #[trigger] f[k].0 != es.last().0 by {
                assert(f.contains(f[k]));
                d.lemma_filter_contains_rev(pred, f[k]);
                assert(d.contains(f[k]));
                let i = choose|i: int| 0 <= i < d.len() && d[i] == f[k];
                assert(es[i] == d[i]);
                assert(es[i].0 != es[es.len() - 1].0);
            }
            let g = f.push(es.last());
            assert forall|i: int, j: int| 0 <= i < j < g.len() implies #[trigger] g[i].0 != #[trigger] g[j].0 by {
                if j == f.len() {
                    assert(g[i] == f[i]);
                } else {
                    assert(g[i] == f[i] && g[j] == f[j]);
                }
            }
        }
    }
}

/// Taking in a batch result keeps at most one record per document: the
/// records of a document that the batch names are all replaced by its newest
/// record.
pub proof fn lemma_merge_keeps_ids_unique(es: Seq<EntryView>, news: Seq<EntryView>)
    requires
        ids_unique(es),
    ensures
        ids_unique(merged_entries(es, news)),
    decreases news.len(),
{
    if news.len() > 0 {
        let e = news.last();
        lemma_merge_keeps_ids_unique(es, news.drop_last());
        let m = merged_entries(es, news.drop_last());
        let pred = |o: EntryView| o.0 != e.0;
        lemma_filter_keeps_unique(m, pred);
        let f = m.filter(pred);
        let g = f.push(e);
        assert forall|i: int, j: int| 0 <= i < j < g.len() implies #[trigger] g[i].0 != #[trigger] g[j].0 by {
            if j == f.len() {
                m.lemma_filter_pred(pred, i);
                assert(g[i] == f[i]);
            } else {
                assert(g[i] == f[i] && g[j] == f[j]);
                assert(f[i].0 != f[j].0);
            }
        }
        assert(merged_entries(es, news) == g);
    }
}

/// `x` is a record of the batch `news` and no later record of the batch is for
/// its document.
pub open spec fn latest_in_batch(news: Seq<EntryView>, x: EntryView) -> bool {
    exists|k: int|
        0 <= k < news.len() && #[trigger] news[k] == x && forall|j: int| k < j < news.len() ==> (#[trigger] news[j]).0
            != x.0
}

/// Some record of the batch `news` is for document `doc_id`.
pub open spec fn batch_names(news: Seq<EntryView>, doc_id: u64) -> bool {
    exists|k: int| 0 <= k < news.len() && (#[trigger] news[k]).0 == doc_id
}

/// After taking in a batch, the records are the newest batch record of each
/// document that the batch names, and the earlier records of the documents it
/// does not name.
pub proof fn lemma_merge_keeps_latest(es: Seq<EntryView>, news: Seq<EntryView>, x: EntryView)
    ensures
        merged_entries(es, news).contains(x) <==> latest_in_batch(news, x) || (es.contains(x) && !batch_names(
            news,
            x.0,
        )),
    decreases news.len(),
{
    if news.len() > 0 {
        let d = news.drop_last();
        let e = news.last();
        lemma_merge_keeps_latest(es, d, x);
        let m = merged_entries(es, d);
        let p = |o: EntryView| o.0 != e.0;
        let f = m.filter(p);
        assert(merged_entries(es, news) == f.push(e));
        // membership in the merged records
        if f.push(e).contains(x) && x != e {
            let i = choose|i: int| 0 <= i < f.len() + 1 && f.push(e)[i] == x;
            assert(f[i] == x);
            assert(f.contains(x));
            m.lemma_filter_contains_rev(p, x);
            m.lemma_filter_pred(p, i);
        }
        if m.contains(x) && x.0 != e.0 {
            let i = choose|i: int| 0 <= i < m.len() && m[i] == x;
            m.lemma_filter_contains(p, i);
            let j = choose|j: int| 0 <= j < f.len() && f[j] == x;
            assert(f.push(e)[j] == x);
        }
        if x == e {
            assert(f.push(e)[f.len() as int] == x);
        }
        // the batch facts, last record split off
        if latest_in_batch(news, x) && x != e {
            let k = choose|k: int|
                0 <= k < news.len() && #[trigger] news[k] == x && forall|j: int| k < j < news.len() ==> (
                #[trigger] news[j]).0 != x.0;
            assert(k < d.len());
            assert(d[k] == x);
            assert forall|j: int| k < j < d.len() implies (#[trigger] d[j]).0 != x.0 by {
                assert(news[j] == d[j]);
            }
            assert(news[news.len() - 1] == e);
        }
        if latest_in_batch(d, x) && x.0 != e.0 {
            let k = choose|k: int|
                0 <= k < d.len() && #[trigger] d[k] == x && forall|j: int| k < j < d.len() ==> (#[trigger] d[j]).0
                    != x.0;
            assert(news[k] == x);
            assert forall|j: int| k < j < news.len() implies (#[trigger] news[j]).0 != x.0 by {
                if j < d.len() {
                    assert(news[j] == d[j]);
                }
            }
        }
        if x == e {
            assert(news[news.len() - 1] == x);
        }
        if batch_names(news, x.0) && x.0 != e.0 {
            let k = choose|k: int| 0 <= k < news.len() && (#[trigger] news[k]).0 == x.0;
            assert(d[k] == news[k]);
        }
        if batch_names(d, x.0) {
            let k = choose|k: int| 0 <= k < d.len() && (#[trigger] d[k]).0 == x.0;
            assert(news[k] == d[k]);
        }
        if x.0 == e.0 {
            assert(news[news.len() - 1].0 == x.0);
        }
    }
}

/// What to do at the first poll when leftovers were found.
pub enum RecoveryStart {
    /// Nothing to do (no leftovers, or already handled).
    Nothing,
    /// Ask the user whether to restore.
    AskUser,
    /// Automatic restart: restore these records, then reopen these paths.
    Restore { entries: Vec<AutoSaveEntry>, reopen: Vec<String> },
}

/// Autosave run-time state.
pub struct AutoSaveState {
    /// In-memory mirror of the manifest on disk.
    pub manifest: Manifest,
    /// Leftovers found at start-up (data of the recovery dialog).
    pub recovery: Option<Vec<AutoSaveEntry>>,
    /// The leftovers have been handled (restored or asked about).
    pub recovery_handled: bool,
    /// The leftovers come from an automatic restart (restore without asking).
    pub recovery_auto: bool,
    /// Paths to reopen directly after an automatic restart.
    pub recovery_reopen: Vec<String>,
    /// Whether the recovery dialog is shown.
    pub show_recovery_dialog: bool,
    /// Records waiting to be loaded, one at a time.
    pub restore_queue: VecDeque<AutoSaveEntry>,
    /// A restore is in progress.
    pub restore_in_flight: bool,
    /// A background autosave batch is running.
    pub in_flight: bool,
    /// The lost-device rescue has started.
    pub lost_started: bool,
    /// The rescue or restart failed (fall back to the manual dialog).
    pub lost_failed: bool,
}

/// Autosave intervals are kept between 10 seconds and one day.
pub open spec fn clamped_interval(interval_secs: u64) -> int {
    if interval_secs < 10 {
        10
    } else if interval_secs > 86400 {
        86400
    } else {
        interval_secs as int
    }
}

impl AutoSaveState {
    /// Start-up state from the manifest left on disk: leftover records or
    /// paths make a recovery to offer.
    pub fn new(manifest: Manifest) -> (r: AutoSaveState)
        ensures
            entries_view(r.manifest.entries@) == entries_view(manifest.entries@),
            texts(r.manifest.reopen@) == texts(manifest.reopen@),
            r.manifest.auto_recover == manifest.auto_recover,
            (manifest.entries@.len() > 0 || manifest.reopen@.len() > 0) ==> {
                &&& r.recovery matches Some(v)
                &&& entries_view(v@) == entries_view(manifest.entries@)
                &&& r.recovery_auto == manifest.auto_recover
                &&& texts(r.recovery_reopen@) == texts(manifest.reopen@)
            },
            !(manifest.entries@.len() > 0 || manifest.reopen@.len() > 0) ==> {
                &&& r.recovery is None
                &&& !r.recovery_auto
                &&& r.recovery_reopen@.len() == 0
            },
            !r.recovery_handled,
            !r.show_recovery_dialog,
            r.restore_queue@.len() == 0,
            !r.restore_in_flight,
            !r.in_flight,
            !r.lost_started,
            !r.lost_failed,
    {
        let has_leftovers = manifest.entries.len() > 0 || manifest.reopen.len() > 0;
        let recovery = if has_leftovers { Some(copy_entries(&manifest.entries)) } else { None };
        let recovery_auto = has_leftovers && manifest.auto_recover;
        let recovery_reopen = if has_leftovers { copy_strings(&manifest.reopen) } else { Vec::new() };
        AutoSaveState {
            manifest,
            recovery,
            recovery_handled: false,
            recovery_auto,
            recovery_reopen,
            show_recovery_dialog: false,
            restore_queue: VecDeque::new(),
            restore_in_flight: false,
            in_flight: false,
            lost_started: false,
            lost_failed: false,
        }
    }

    /// Whether the next autosave batch is due: never run yet, or at least the
    /// interval (clamped to 10 s ..= 1 day) has passed since the last one.
    /// `since_last_run_ms` is the time since the last run, in whole milliseconds.
    pub fn interval_due(&self, since_last_run_ms: Option<u128>, interval_secs: u64) -> (r: bool)
        ensures
            r == match since_last_run_ms {
                None => true,
                Some(ms) => ms >= clamped_interval(interval_secs) * 1000,
            },
    {
        let secs: u64 = if interval_secs < 10 {
            10
        } else if interval_secs > 86400 {
            86400
        } else {
            interval_secs
        };
        match since_last_run_ms {
            None => true,
            Some(ms) => ms >= (secs as u128) * 1000,
        }
    }

    /// Takes in the records of a finished background batch: each replaces the
    /// records of its document. Returns the replaced records whose backup file
    /// differs from the new one (to delete).
    pub fn take_batch_result(&mut self, new_entries: Vec<AutoSaveEntry>) -> (stale: Vec<AutoSaveEntry>)
        ensures
            entries_view(final(self).manifest.entries@) == merged_entries(
                entries_view(old(self).manifest.entries@),
                entries_view(new_entries@),
            ),
            entries_view(stale@) == stale_entries(
                entries_view(old(self).manifest.entries@),
                entries_view(new_entries@),
            ),
            !final(self).in_flight,
            final(self).manifest.auto_recover == old(self).manifest.auto_recover,
            final(self).manifest.reopen@ == old(self).manifest.reopen@,
    {
        self.in_flight = false;
        let ghost es0 = entries_view(self.manifest.entries@);
        let ghost news = entries_view(new_entries@);
        let mut stale: Vec<AutoSaveEntry> = Vec::new();
        let mut cur: Vec<AutoSaveEntry> = Vec::new();
        std::mem::swap(&mut cur, &mut self.manifest.entries);
        let mut n: usize = 0;
        while n < new_entries.len()
            invariant
                n <= new_entries@.len(),
                news == entries_view(new_entries@),
                entries_view(cur@) == merged_entries(es0, news.take(n as int)),
                entries_view(stale@) == stale_entries(es0, news.take(n as int)),
            decreases new_entries@.len() - n,
        {
            let e = &new_entries[n];
            let ghost prev = entries_view(cur@);
            let ghost same = |o: EntryView| o.0 == e@.0 && o.1 != e@.1;
            let ghost other = |o: EntryView| o.0 != e@.0;
            let mut kept: Vec<AutoSaveEntry> = Vec::new();
            let ghost stale0 = entries_view(stale@);
            let mut i: usize = 0;
            while i < cur.len()
                invariant
                    i <= cur@.len(),
                    prev == entries_view(cur@),
                    same == (|o: EntryView| o.0 == e@.0 && o.1 != e@.1),
                    other == (|o: EntryView| o.0 != e@.0),
                    entries_view(kept@) == prev.take(i as int).filter(other),
                    entries_view(stale@) == stale0 + prev.take(i as int).filter(same),
                decreases cur@.len() - i,
            {
                let o = &cur[i];
                proof {
                    assert(prev.take(i + 1) =~= prev.take(i as int).push(prev[i as int]));
                    prev.take(i as int).lemma_filter_push(prev[i as int], other);
                    prev.take(i as int).lemma_filter_push(prev[i as int], same);
                }
                let ghost k0 = entries_view(kept@);
                let ghost s0 = entries_view(stale@);
                if o.doc_id == e.doc_id && o.file != e.file {
                    stale.push(o.duplicate());
                    proof {
                        assert(entries_view(stale@) =~= s0.push(prev[i as int]));
                        assert(stale0 + prev.take(i as int).filter(same).push(prev[i as int]) =~= (stale0
                            + prev.take(i as int).filter(same)).push(prev[i as int]));
                    }
                }
                if o.doc_id != e.doc_id {
                    kept.push(o.duplicate());
                    proof {
                        assert(entries_view(kept@) =~= k0.push(prev[i as int]));
                    }
                }
                i += 1;
            }
            let ghost kept_v = entries_view(kept@);
            kept.push(e.duplicate());
            cur = kept;
            n += 1;
            proof {
                assert(prev.take(prev.len() as int) =~= prev);
                assert(news.take(n as int).drop_last() =~= news.take(n - 1));
                assert(news.take(n as int).last() == e@);
                assert(entries_view(cur@) =~= kept_v.push(e@));
            }
        }
        proof {
            assert(news.take(n as int) =~= news);
        }
        self.manifest.entries = cur;
        stale
    }

    /// Removes and returns the record of document `doc_id` (its backup is to
    /// be deleted), after a save or close of that document.
    pub fn discard_for(&mut self, doc_id: u64) -> (r: Option<AutoSaveEntry>)
        ensures
            match r {
                Some(e) => exists|k: int|
                    first_of(entries_view(old(self).manifest.entries@), doc_id, k) && e@ == entries_view(
                        old(self).manifest.entries@,
                    )[k] && entries_view(final(self).manifest.entries@) == entries_view(
                        old(self).manifest.entries@,
                    ).remove(k),
                None => {
                    &&& forall|j: int|
                        0 <= j < old(self).manifest.entries@.len() ==> #[trigger] old(
                            self,
                        ).manifest.entries@[j].doc_id != doc_id
                    &&& final(self).manifest.entries@ == old(self).manifest.entries@
                },
            },
            final(self).manifest.auto_recover == old(self).manifest.auto_recover,
            final(self).manifest.reopen@ == old(self).manifest.reopen@,
    {
        let mut i: usize = 0;
        while i < self.manifest.entries.len()
            invariant
                i <= self.manifest.entries@.len(),
                *self == *old(self),
                forall|j: int| 0 <= j < i ==> #[trigger] self.manifest.entries@[j].doc_id != doc_id,
            decreases self.manifest.entries@.len() - i,
        {
            if self.manifest.entries[i].doc_id == doc_id {
                let e = self.manifest.entries.remove(i);
                proof {
                    let es = entries_view(old(self).manifest.entries@);
                    assert(first_of(es, doc_id, i as int));
                    assert(entries_view(self.manifest.entries@) =~= es.remove(i as int));
                }
                return Some(e);
            }
            i += 1;
        }
        None
    }

    /// Empties the manifest on a normal exit; returns the records whose
    /// backups are to be deleted.
    pub fn clear(&mut self) -> (r: Vec<AutoSaveEntry>)
        ensures
            r@ == old(self).manifest.entries@,
            final(self).manifest.entries@.len() == 0,
            !final(self).manifest.auto_recover,
            final(self).manifest.reopen@.len() == 0,
    {
        let mut taken: Vec<AutoSaveEntry> = Vec::new();
        std::mem::swap(&mut taken, &mut self.manifest.entries);
        self.manifest.auto_recover = false;
        self.manifest.reopen = Vec::new();
        taken
    }

    /// First poll with leftovers: after an automatic restart restore them at
    /// once; otherwise show the recovery dialog. Done once.
    pub fn begin_recovery(&mut self) -> (r: RecoveryStart)
        ensures
            old(self).recovery_handled || old(self).recovery is None ==> {
                &&& r is Nothing
                &&& final(self).recovery_handled == old(self).recovery_handled
                &&& final(self).show_recovery_dialog == old(self).show_recovery_dialog
                &&& final(self).recovery_reopen@ == old(self).recovery_reopen@
            },
            !old(self).recovery_handled && old(self).recovery is Some ==> {
                &&& final(self).recovery_handled
                &&& if old(self).recovery_auto {
                    &&& r matches RecoveryStart::Restore { entries, reopen }
                    &&& entries_view(entries@) == entries_view(old(self).recovery->0@)
                    &&& reopen@ == old(self).recovery_reopen@
                    &&& final(self).recovery_reopen@.len() == 0
                    &&& final(self).show_recovery_dialog == old(self).show_recovery_dialog
                } else {
                    &&& r is AskUser
                    &&& final(self).show_recovery_dialog
                    &&& final(self).recovery_reopen@ == old(self).recovery_reopen@
                }
            },
            final(self).recovery_auto == old(self).recovery_auto,
            entries_view(final(self).manifest.entries@) == entries_view(old(self).manifest.entries@),
    {
        if self.recovery_handled {
            return RecoveryStart::Nothing;
        }
        let entries = match &self.recovery {
            Some(v) => copy_entries(v),
            None => {
                return RecoveryStart::Nothing;
            },
        };
        self.recovery_handled = true;
        if self.recovery_auto {
            let mut reopen: Vec<String> = Vec::new();
            std::mem::swap(&mut reopen, &mut self.recovery_reopen);
            RecoveryStart::Restore { entries, reopen }
        } else {
            self.show_recovery_dialog = true;
            RecoveryStart::AskUser
        }
    }

    /// Starts restoring `entries` (loaded one at a time).
    pub fn restore(&mut self, entries: Vec<AutoSaveEntry>)
        ensures
            final(self).recovery is None,
            !final(self).show_recovery_dialog,
            final(self).restore_in_flight,
            final(self).restore_queue@ == old(self).restore_queue@ + entries@,
            entries_view(final(self).manifest.entries@) == entries_view(old(self).manifest.entries@),
    {
        self.recovery = None;
        self.show_recovery_dialog = false;
        self.restore_in_flight = true;
        let mut entries = entries;
        let ghost all = entries@;
        proof {
            assert(all.skip(0) =~= all);
            assert(all.take(0) =~= Seq::<AutoSaveEntry>::empty());
            assert(self.restore_queue@ + Seq::<AutoSaveEntry>::empty() =~= self.restore_queue@);
        }
        let ghost q0 = self.restore_queue@;
        while entries.len() > 0
            invariant
                entries@ == all.skip(all.len() - entries@.len()),
                entries@.len() <= all.len(),
                self.restore_queue@ == q0 + all.take(all.len() - entries@.len()),
                self.recovery is None,
                !self.show_recovery_dialog,
                self.restore_in_flight,
                entries_view(self.manifest.entries@) == entries_view(old(self).manifest.entries@),
            decreases entries@.len(),
        {
            let ghost k = all.len() - entries@.len();
            let e = entries.remove(0);
            self.restore_queue.push_back(e);
            proof {
                assert(entries@ =~= all.skip(all.len() - entries@.len()));
                assert(all.take(k + 1) =~= all.take(k).push(all[k]));
                assert(self.restore_queue@ =~= q0 + all.take(all.len() - entries@.len()));
            }
        }
        proof {
            assert(all.take(all.len() as int) =~= all);
        }
    }

    /// The next record to load, if the loader is idle: the front of the queue;
    /// with an empty queue the restore ends.
    pub fn next_restore(&mut self, loader_busy: bool) -> (r: Option<AutoSaveEntry>)
        ensures
            loader_busy ==> r is None && final(self).restore_queue@ == old(self).restore_queue@
                && final(self).restore_in_flight == old(self).restore_in_flight,
            !loader_busy && old(self).restore_queue@.len() > 0 ==> {
                &&& r == Some(old(self).restore_queue@[0])
                &&& final(self).restore_queue@ == old(self).restore_queue@.drop_first()
                &&& final(self).restore_in_flight == old(self).restore_in_flight
            },
            !loader_busy && old(self).restore_queue@.len() == 0 ==> r is None
                && final(self).restore_queue@ == old(self).restore_queue@ && !final(self).restore_in_flight,
            entries_view(final(self).manifest.entries@) == entries_view(old(self).manifest.entries@),
    {
        if loader_busy {
            return None;
        }
        match self.restore_queue.pop_front() {
            Some(e) => Some(e),
            None => {
                self.restore_in_flight = false;
                None
            },
        }
    }

    /// A restored document finished loading: its records leave the manifest
    /// and automatic recovery is over.
    pub fn finish_restore(&mut self, doc_id: u64)
        ensures
            entries_view(final(self).manifest.entries@) == entries_view(old(self).manifest.entries@).filter(
                |o: EntryView| o.0 != doc_id,
            ),
            !final(self).manifest.auto_recover,
            final(self).manifest.reopen@ == old(self).manifest.reopen@,
    {
        let mut cur: Vec<AutoSaveEntry> = Vec::new();
        std::mem::swap(&mut cur, &mut self.manifest.entries);
        let ghost prev = entries_view(cur@);
        let ghost pred = |o: EntryView| o.0 != doc_id;
        let mut kept: Vec<AutoSaveEntry> = Vec::new();
        let mut i: usize = 0;
        while i < cur.len()
            invariant
                i <= cur@.len(),
                prev == entries_view(cur@),
                pred == (|o: EntryView| o.0 != doc_id),
                entries_view(kept@) == prev.take(i as int).filter(pred),
            decreases cur@.len() - i,
        {
            proof {
                assert(prev.take(i + 1) =~= prev.take(i as int).push(prev[i as int]));
                prev.take(i as int).lemma_filter_push(prev[i as int], pred);
            }
            let ghost k0 = entries_view(kept@);
            if cur[i].doc_id != doc_id {
                kept.push(cur[i].duplicate());
                proof {
                    assert(entries_view(kept@) =~= k0.push(prev[i as int]));
                }
            }
            i += 1;
        }
        proof {
            assert(prev.take(i as int) =~= prev);
        }
        self.manifest.entries = kept;
        self.manifest.auto_recover = false;
    }

    /// The user discarded the leftovers: the manifest is emptied and the
    /// dialog closed (the caller deletes the backups).
    pub fn discard_recovery(&mut self)
        ensures
            final(self).manifest.entries@.len() == 0,
            !final(self).manifest.auto_recover,
            final(self).manifest.reopen@.len() == 0,
            final(self).recovery is None,
            !final(self).show_recovery_dialog,
    {
        self.manifest.entries = Vec::new();
        self.manifest.auto_recover = false;
        self.manifest.reopen = Vec::new();
        self.recovery = None;
        self.show_recovery_dialog = false;
    }
}

/// The rescue plan after a lost GPU device, from each document's
/// (unsaved changes, path): unsaved documents are backed up; saved ones with a
/// path are reopened from it.
pub open spec fn spec_lost_plan(docs: Seq<(bool, Option<Seq<char>>)>) -> (Seq<usize>, Seq<Seq<char>>)
    decreases docs.len(),
{
    if docs.len() == 0 {
        (Seq::empty(), Seq::empty())
    } else {
        let (jobs, reopen) = spec_lost_plan(docs.drop_last());
        let (dirty, path) = docs.last();
        if dirty {
            (jobs.push((docs.len() - 1) as usize), reopen)
        } else {
            match path {
                Some(p) => (jobs, reopen.push(p)),
                None => (jobs, reopen),
            }
        }
    }
}

/// The rescue plan backs up exactly the documents with unsaved changes, in
/// tab order, and reopens the saved paths of the other documents, in tab
/// order (a clean document without a path is left out).
pub proof fn lemma_lost_plan_splits_dirty_and_clean(docs: Seq<(bool, Option<Seq<char>>)>)
    requires
        docs.len() <= usize::MAX,
    ensures
        ({
            let (jobs, reopen) = spec_lost_plan(docs);
            &&& forall|k: int| 0 <= k < jobs.len() ==> (#[trigger] jobs[k] as int) < docs.len() && docs[jobs[k] as int].0
            &&& forall|i: int| 0 <= i < docs.len() && (#[trigger] docs[i]).0 ==> jobs.contains(i as usize)
            &&& forall|k1: int, k2: int| 0 <= k1 < k2 < jobs.len() ==> #[trigger] jobs[k1] < #[trigger] jobs[k2]
            &&& reopen == docs.filter(|d: (bool, Option<Seq<char>>)| !d.0 && d.1 is Some).map_values(
                |d: (bool, Option<Seq<char>>)| d.1->0,
            )
        }),
    decreases docs.len(),
{
    let f = |d: (bool, Option<Seq<char>>)| !d.0 && d.1 is Some;
    let g = |d: (bool, Option<Seq<char>>)| d.1->0;
    if docs.len() == 0 {
        assert(docs.filter(f) =~= Seq::<(bool, Option<Seq<char>>)>::empty());
        assert(docs.filter(f).map_values(g) =~= Seq::<Seq<char>>::empty());
    } else {
        let d = docs.drop_last();
        lemma_lost_plan_splits_dirty_and_clean(d);
        let (jobs0, reopen0) = spec_lost_plan(d);
        let (jobs, reopen) = spec_lost_plan(docs);
        let last = docs.len() - 1;
        assert(docs =~= d.push(docs.last()));
        d.lemma_filter_push(docs.last(), f);
        assert forall|i: int| 0 <= i < d.len() implies #[trigger] d[i] == docs[i] by {}
        if docs.last().0 {
            assert(jobs == jobs0.push(last as usize));
            assert forall|k: int| 0 <= k < jobs.len() implies (#[trigger] jobs[k] as int) < docs.len()
                && docs[jobs[k] as int].0 by {
                if k < jobs0.len() {
                    assert(jobs[k] == jobs0[k]);
                }
            }
            assert forall|i: int| 0 <= i < docs.len() && (#[trigger] docs[i]).0 implies jobs.contains(i as usize) by {
                if i < last {
                    assert(d[i].0);
                    let k = choose|k: int| 0 <= k < jobs0.len() && jobs0[k] == i as usize;
                    assert(jobs[k] == jobs0[k]);
                } else {
                    assert(jobs[jobs0.len() as int] == last as usize);
                }
            }
        } else {
            assert(jobs == jobs0);
            assert forall|i: int| 0 <= i < docs.len() && (#[trigger] docs[i]).0 implies jobs.contains(i as usize) by {
                assert(i < last);
                assert(d[i].0);
            }
            if docs.last().1 is Some {
                assert(d.filter(f).push(docs.last()).map_values(g) =~= d.filter(f).map_values(g).push(
                    docs.last().1->0,
                ));
            }
        }
    }
}

/// A document state as plain values.
pub open spec fn doc_state_view(d: (bool, Option<String>)) -> (bool, Option<Seq<char>>) {
    (d.0, opt_text(d.1))
}

/// Splits the documents into those to back up (indices) and the paths to
/// reopen, as `spec_lost_plan` says.
pub fn lost_recovery_plan(docs: &Vec<(bool, Option<String>)>) -> (r: (Vec<usize>, Vec<String>))
    ensures
        (r.0@, texts(r.1@)) == spec_lost_plan(docs@.map_values(|d: (bool, Option<String>)| doc_state_view(d))),
{
    let ghost dv = docs@.map_values(|d: (bool, Option<String>)| doc_state_view(d));
    let mut jobs: Vec<usize> = Vec::new();
    let mut reopen: Vec<String> = Vec::new();
    let mut i: usize = 0;
    while i < docs.len()
        invariant
            i <= docs@.len(),
            dv == docs@.map_values(|d: (bool, Option<String>)| doc_state_view(d)),
            (jobs@, texts(reopen@)) == spec_lost_plan(dv.take(i as int)),
        decreases docs@.len() - i,
    {
        proof {
            assert(dv.take(i + 1).drop_last() =~= dv.take(i as int));
            assert(dv.take(i + 1).last() == doc_state_view(docs@[i as int]));
        }
        let ghost r0 = texts(reopen@);
        if docs[i].0 {
            jobs.push(i);
        } else {
            match &docs[i].1 {
                Some(p) => {
                    reopen.push(p.clone());
                    proof {
                        assert(texts(reopen@) =~= r0.push(p@));
                    }
                },
                None => {},
            }
        }
        i += 1;
    }
    proof {
        assert(dv.take(i as int) =~= dv);
    }
    (jobs, reopen)
}

} // verus!
