//! The per-tick driver: takes in what was found under `/proc` and what
//! the kernel counted for each task, and keeps the entries up to date.

use crate::proc_reader::{MetadataFields, ProcessMetadata};
use crate::process::{
    capped, lemma_sampled_well_formed, lemma_thread_from, lookup_user_name, opt_chars,
    thread_from, user_label, ProcessInfo, ProcessView,
};
use crate::taskstats::{sat_sub, TaskStats};
use crate::text::{
    chars_of, find_char, find_from, is_word, nth_word, parse_decimal, parse_u64, slice_of,
    word_at,
};
use vstd::prelude::*;

verus! {

/// Bytes in a page of the VM event counters.
pub const PAGE_SIZE: u64 = 4096;

/// One task to sample, and, once sampled, what the kernel counted for it.
#[derive(Debug, Clone, Copy)]
pub struct ScanItem {
    /// The entry that the task is shown under.
    pub key: i32,
    /// The task's thread group.
    pub pid: i32,
    /// The task.
    pub tid: i32,
    /// The sample; none before sampling, or where the task had vanished.
    pub stats: Option<TaskStats>,
}

/// The views of a list of entries.
pub open spec fn views(procs: Seq<ProcessInfo>) -> Seq<ProcessView> {
    Seq::new(procs.len(), |i: int| procs[i]@)
}

/// The least index at or after `from` of an entry kept under `key`, or
/// the number of entries where there is none.
pub open spec fn process_from(procs: Seq<ProcessView>, key: i32, from: int) -> int
    decreases procs.len() - from,
{
    if from < 0 || from >= procs.len() {
        procs.len() as int
    } else if procs[from].key == key {
        from
    } else {
        process_from(procs, key, from + 1)
    }
}

pub proof fn lemma_process_from(procs: Seq<ProcessView>, key: i32, from: int)
    requires
        0 <= from <= procs.len(),
    ensures
        from <= process_from(procs, key, from) <= procs.len(),
        process_from(procs, key, from) < procs.len() ==> procs[process_from(
            procs,
            key,
            from,
        )].key == key,
        forall|i: int| from <= i < process_from(procs, key, from) ==> procs[i].key != key,
    decreases procs.len() - from,
{
    if from < procs.len() && procs[from].key != key {
        lemma_process_from(procs, key, from + 1);
    }
}

/// The entries with one under `key` among them: appended, fresh and
/// belonging to the thread group `pid`, where there was none.
pub open spec fn procs_with(procs: Seq<ProcessView>, key: i32, pid: i32) -> Seq<ProcessView> {
    if process_from(procs, key, 0) < procs.len() {
        procs
    } else {
        procs.push(ProcessView { key, ..ProcessView::fresh(pid) })
    }
}

/// The entries after one item was taken in: its entry is found or made,
/// shows the item's key as its task, and takes the sample; where `last`
/// holds, the entry's threads are then folded into its counters.
pub open spec fn recorded(procs: Seq<ProcessView>, item: ScanItem, last: bool) -> Seq<
    ProcessView,
> {
    let i = process_from(procs, item.key, 0);
    let known = procs_with(procs, item.key, item.pid);
    let p = (ProcessView { tid: item.key, ..known[i] }).sampled(item.tid, item.stats);
    known.update(
        i,
        if last {
            p.aggregated()
        } else {
            p
        },
    )
}

/// The bytes read and written that one item adds to the interval.
pub open spec fn item_io(procs: Seq<ProcessView>, item: ScanItem) -> (u64, u64) {
    procs_with(procs, item.key, item.pid)[process_from(procs, item.key, 0)].sample_io(
        item.tid,
        item.stats,
    )
}

/// Whether item `i` is the last of a run of items with one key.
pub open spec fn ends_run(items: Seq<ScanItem>, i: int) -> bool {
    i + 1 >= items.len() || items[i + 1].key != items[i].key
}

/// The entries after the items from `from` on were taken in, in order.
pub open spec fn refreshed(procs: Seq<ProcessView>, items: Seq<ScanItem>, from: int) -> Seq<
    ProcessView,
>
    decreases items.len() - from,
{
    if from < 0 || from >= items.len() {
        procs
    } else {
        refreshed(recorded(procs, items[from], ends_run(items, from)), items, from + 1)
    }
}

/// The bytes read and written that the items from `from` on add to the
/// interval, summed without a bound.
pub open spec fn refreshed_io(procs: Seq<ProcessView>, items: Seq<ScanItem>, from: int) -> (
    int,
    int,
)
    decreases items.len() - from,
{
    if from < 0 || from >= items.len() {
        (0, 0)
    } else {
        let io = item_io(procs, items[from]);
        let rest = refreshed_io(
            recorded(procs, items[from], ends_run(items, from)),
            items,
            from + 1,
        );
        (io.0 + rest.0, io.1 + rest.1)
    }
}

/// The entries that have a thread, in order.
pub open spec fn evicted(procs: Seq<ProcessView>) -> Seq<ProcessView>
    decreases procs.len(),
{
    if procs.len() == 0 {
        procs
    } else if procs.last().threads.len() == 0 {
        evicted(procs.drop_last())
    } else {
        evicted(procs.drop_last()).push(procs.last())
    }
}

/// Key and thread group of each entry whose metadata are not known yet.
pub open spec fn pending(procs: Seq<ProcessView>) -> Seq<(i32, i32)>
    decreases procs.len(),
{
    if procs.len() == 0 {
        Seq::empty()
    } else if procs.last().metadata_initialized {
        pending(procs.drop_last())
    } else {
        pending(procs.drop_last()).push((procs.last().key, procs.last().pid))
    }
}

/// The number that a word of the VM counters file writes, zero where it
/// writes none.
pub open spec fn vmstat_value(w: Seq<char>) -> u64 {
    match parse_decimal(w, 0, u64::MAX as int) {
        Some(n) => n as u64,
        None => 0,
    }
}

/// The page counters after one more line: a line whose first word is
/// `pgpgin` or `pgpgout`, with a second word, sets that counter.
pub open spec fn vmstat_line(line: Seq<char>, acc: (u64, u64)) -> (u64, u64) {
    match (nth_word(line, 0, 0), nth_word(line, 0, 1)) {
        (Some(k), Some(v)) => if k == "pgpgin"@ {
            (vmstat_value(v), acc.1)
        } else if k == "pgpgout"@ {
            (acc.0, vmstat_value(v))
        } else {
            acc
        },
        _ => acc,
    }
}

/// The page counters after the lines of `s` from position `from` on.
pub open spec fn vmstat_from(s: Seq<char>, from: int, acc: (u64, u64)) -> (u64, u64)
    decreases s.len() - from,
{
    let end = find_from(s, '\n', from);
    if from < 0 || from > s.len() || end < from {
        acc
    } else {
        let next = vmstat_line(s.subrange(from, end), acc);
        if end >= s.len() {
            next
        } else {
            vmstat_from(s, end + 1, next)
        }
    }
}

/// Bytes paged in and out according to the VM counters file, at 4096
/// bytes a page.
pub open spec fn spec_vmstat(s: Seq<char>) -> (u64, u64) {
    let pages = vmstat_from(s, 0, (0, 0));
    (capped(pages.0 * 4096), capped(pages.1 * 4096))
}

/// What was paged since the previous reading; zero where there is none.
pub open spec fn since(previous: Option<u64>, current: u64) -> u64 {
    match previous {
        Some(p) => sat_sub(current as int, p as int) as u64,
        None => 0,
    }
}

/// Whether a filter lets a value through: an empty filter lets all through.
pub open spec fn allows_pid(pids: Seq<i32>, pid: i32) -> bool {
    pids.len() == 0 || pids.contains(pid)
}

/// Whether the owner filter lets an entry through: an empty filter lets
/// all through, any other only a known owner that it lists.
pub open spec fn allows_uid(uids: Seq<u32>, uid: Option<u32>) -> bool {
    uids.len() == 0 || (uid is Some && uids.contains(uid->0))
}

/// The threads to sample for a thread group: those listed, or the group's
/// main thread alone where they could not be listed.
pub open spec fn spec_thread_list(tgid: i32, listing: Option<Seq<i32>>) -> Seq<i32> {
    match listing {
        Some(tids) => tids,
        None => seq![tgid],
    }
}

/// The items of one thread group when whole processes are shown: each
/// thread under the group's own key.
pub open spec fn process_items(tgid: i32, tids: Seq<i32>) -> Seq<ScanItem> {
    Seq::new(tids.len(), |i: int| ScanItem { key: tgid, pid: tgid, tid: tids[i], stats: None })
}

/// The items of one thread group when threads are shown: each thread that
/// the filter lets through, under its own key.
pub open spec fn thread_items(pids: Seq<i32>, tgid: i32, tids: Seq<i32>) -> Seq<ScanItem>
    decreases tids.len(),
{
    if tids.len() == 0 {
        Seq::empty()
    } else if allows_pid(pids, tids.last()) {
        thread_items(pids, tgid, tids.drop_last()).push(
            ScanItem { key: tids.last(), pid: tgid, tid: tids.last(), stats: None },
        )
    } else {
        thread_items(pids, tgid, tids.drop_last())
    }
}

/// The items to sample for one thread group.
pub open spec fn group_items(
    pids: Seq<i32>,
    uids: Seq<u32>,
    show_processes: bool,
    tgid: i32,
    uid: Option<u32>,
    tids: Seq<i32>,
) -> Seq<ScanItem> {
    if !allows_uid(uids, uid) {
        Seq::empty()
    } else if !show_processes {
        thread_items(pids, tgid, tids)
    } else if allows_pid(pids, tgid) {
        process_items(tgid, tids)
    } else {
        Seq::empty()
    }
}

/// An entry after its metadata arrived, shown for the user `user`. Known
/// metadata stay as they are; so does the entry where none arrived.
pub open spec fn with_metadata(
    p: ProcessView,
    metadata: Option<MetadataFields>,
    user: Seq<char>,
) -> ProcessView {
    match metadata {
        Some(m) => if p.metadata_initialized {
            p
        } else {
            ProcessView {
                pid: m.pid,
                tid: m.tid,
                uid: Some(m.uid),
                user: Some(user),
                prio: Some(m.priority_str),
                cmdline: Some(m.cmdline),
                metadata_initialized: true,
                ..p
            }
        },
        None => p,
    }
}

/// The view of optional metadata.
pub open spec fn opt_metadata(m: Option<ProcessMetadata>) -> Option<MetadataFields> {
    match m {
        Some(m) => Some(m@),
        None => None,
    }
}

/// What one tick publishes.
#[derive(Debug)]
pub struct ProcessSnapshot {
    pub processes: Vec<ProcessInfo>,
    /// Bytes read and written by the sampled threads in the interval.
    pub total_io: (u64, u64),
    /// Bytes paged in and out in the interval.
    pub actual_io: (u64, u64),
    /// Length of the interval in nanoseconds.
    pub duration: u64,
}

/// The monitor's state between ticks.
pub struct ProcessList {
    pub processes: Vec<ProcessInfo>,
    /// Clock reading at the last tick, in nanoseconds.
    pub timestamp: u64,
    /// Nanoseconds between the two last ticks.
    pub duration: u64,
    pub prev_pgpgin: Option<u64>,
    pub prev_pgpgout: Option<u64>,
    /// Entries to show; all where empty.
    pub pids: Vec<i32>,
    /// Owners to show; all where empty.
    pub uids: Vec<u32>,
}

/// The place of the entry kept under `key`, or the number of entries.
pub fn process_index(processes: &Vec<ProcessInfo>, key: i32) -> (r: usize)
    ensures
        r == process_from(views(processes@), key, 0),
        r <= processes@.len(),
{
    let mut i: usize = 0;
    while i < processes.len() && processes[i].key != key
        invariant
            i <= processes@.len(),
            process_from(views(processes@), key, 0) == process_from(
                views(processes@),
                key,
                i as int,
            ),
        decreases processes@.len() - i,
    {
        i += 1;
    }
    i
}

/// Takes one sampled item into the entries. Returns the bytes read and
/// written that it adds to the interval.
pub fn record_item(processes: &mut Vec<ProcessInfo>, item: &ScanItem, last: bool) -> (r: (
    u64,
    u64,
))
    ensures
        views(final(processes)@) == recorded(views(old(processes)@), *item, last),
        r == item_io(views(old(processes)@), *item),
{
    let i = process_index(processes, item.key);
    if i == processes.len() {
        let mut p = ProcessInfo::new(item.pid);
        p.key = item.key;
        processes.push(p);
    }
    assert(views(processes@) =~= procs_with(views(old(processes)@), item.key, item.pid));
    processes[i].tid = item.key;
    let r = processes[i].record_sample(item.tid, item.stats);
    if last {
        processes[i].update_stats();
    }
    assert(views(processes@) =~= recorded(views(old(processes)@), *item, last));
    r
}

/// Whether `x` is among `list`.
fn contains_i32(list: &Vec<i32>, x: i32) -> (r: bool)
    ensures
        r == list@.contains(x),
{
    let mut i: usize = 0;
    while i < list.len()
        invariant
            i <= list@.len(),
            forall|k: int| 0 <= k < i ==> list@[k] != x,
        decreases list@.len() - i,
    {
        if list[i] == x {
            return true;
        }
        i += 1;
    }
    false
}

fn contains_u32(list: &Vec<u32>, x: u32) -> (r: bool)
    ensures
        r == list@.contains(x),
{
    let mut i: usize = 0;
    while i < list.len()
        invariant
            i <= list@.len(),
            forall|k: int| 0 <= k < i ==> list@[k] != x,
        decreases list@.len() - i,
    {
        if list[i] == x {
            return true;
        }
        i += 1;
    }
    false
}

/// The threads to sample for a thread group, given the listing of its
/// task directory where that could be read.
pub fn thread_list(tgid: i32, listing: Option<Vec<i32>>) -> (r: Vec<i32>)
    ensures
        r@ == spec_thread_list(
            tgid,
            match listing {
                Some(l) => Some(l@),
                None => None,
            },
        ),
{
    match listing {
        Some(tids) => tids,
        None => {
            let mut v: Vec<i32> = Vec::new();
            v.push(tgid);
            v
        },
    }
}

impl ProcessList {
    /// A monitor that has seen nothing yet, started at clock reading `now`.
    pub fn new(now: u64) -> (r: ProcessList)
        ensures
            r.processes@.len() == 0,
            r.timestamp == now,
            r.duration == 0,
            r.prev_pgpgin is None,
            r.prev_pgpgout is None,
            r.pids@.len() == 0,
            r.uids@.len() == 0,
    {
        ProcessList {
            processes: Vec::new(),
            timestamp: now,
            duration: 0,
            prev_pgpgin: None,
            prev_pgpgout: None,
            pids: Vec::new(),
            uids: Vec::new(),
        }
    }

    /// Shows only the entries with these ids.
    pub fn with_pids(self, pids: Vec<i32>) -> (r: ProcessList)
        ensures
            r == (ProcessList { pids, ..self }),
    {
        let mut r = self;
        r.pids = pids;
        r
    }

    /// Shows only the entries of these owners.
    pub fn with_uids(self, uids: Vec<u32>) -> (r: ProcessList)
        ensures
            r == (ProcessList { uids, ..self }),
    {
        let mut r = self;
        r.uids = uids;
        r
    }

    /// Reads the bytes paged in and out from the content of the VM
    /// counters file.
    pub fn read_vmstat(content: &str) -> (r: (u64, u64))
        ensures
            r == spec_vmstat(content@),
    {
        let v = chars_of(content);
        let mut pgpgin: u64 = 0;
        let mut pgpgout: u64 = 0;
        let mut pos: usize = 0;
        loop
            invariant
                pos <= v@.len(),
                v@ == content@,
                vmstat_from(v@, 0, (0, 0)) == vmstat_from(v@, pos as int, (pgpgin, pgpgout)),
            ensures
                vmstat_from(v@, 0, (0, 0)) == (pgpgin, pgpgout),
            decreases v@.len() - pos,
        {
            let ghost acc = (pgpgin, pgpgout);
            let end = find_char(&v, '\n', pos);
            let line = slice_of(&v, pos, end);
            assert(vmstat_from(v@, pos as int, acc) == if end >= v@.len() {
                vmstat_line(line@, acc)
            } else {
                vmstat_from(v@, end + 1, vmstat_line(line@, acc))
            });
            let key = word_at(&line, 0, 0);
            let value = word_at(&line, 0, 1);
            match (key, value) {
                (Some(k), Some(w)) => {
                    if is_word(&k, "pgpgin") {
                        pgpgin = match parse_u64(&w) {
                            Some(n) => n,
                            None => 0,
                        };
                    } else if is_word(&k, "pgpgout") {
                        pgpgout = match parse_u64(&w) {
                            Some(n) => n,
                            None => 0,
                        };
                    }
                },
                _ => {},
            }
            assert(vmstat_line(line@, acc) == (pgpgin, pgpgout));
            if end >= v.len() {
                break ;
            }
            pos = end + 1;
        }
        (Self::pages_to_bytes(pgpgin), Self::pages_to_bytes(pgpgout))
    }

    fn pages_to_bytes(pages: u64) -> (r: u64)
        ensures
            r == capped(pages * 4096),
    {
        if pages > u64::MAX / PAGE_SIZE {
            u64::MAX
        } else {
            pages * PAGE_SIZE
        }
    }

    /// Takes a reading of the VM counters file in, `None` where it could
    /// not be read, and returns the bytes paged in and out since the
    /// previous reading. A missing reading gives zero and leaves the
    /// previous one in place.
    pub fn update_actual_io(&mut self, vmstat: Option<&str>) -> (r: (u64, u64))
        ensures
            vmstat is None ==> r == (0u64, 0u64) && *final(self) == *old(self),
            vmstat is Some ==> {
                let current = spec_vmstat(vmstat->0@);
                &&& r == (since(old(self).prev_pgpgin, current.0), since(
                    old(self).prev_pgpgout,
                    current.1,
                ))
                &&& *final(self) == (ProcessList {
                    prev_pgpgin: Some(current.0),
                    prev_pgpgout: Some(current.1),
                    ..*old(self)
                })
            },
    {
        match vmstat {
            None => (0, 0),
            Some(content) => {
                let (current_in, current_out) = Self::read_vmstat(content);
                let actual_read = match self.prev_pgpgin {
                    Some(prev) => current_in.saturating_sub(prev),
                    None => 0,
                };
                let actual_write = match self.prev_pgpgout {
                    Some(prev) => current_out.saturating_sub(prev),
                    None => 0,
                };
                self.prev_pgpgin = Some(current_in);
                self.prev_pgpgout = Some(current_out);
                (actual_read, actual_write)
            },
        }
    }

    /// Appends to `out` the items to sample for one thread group found
    /// under `/proc`: `uid` is its owner where that is known, `tids` are
    /// its threads.
    pub fn plan_group(
        &self,
        show_processes: bool,
        tgid: i32,
        uid: Option<u32>,
        tids: &Vec<i32>,
        out: &mut Vec<ScanItem>,
    )
        ensures
            final(out)@ == old(out)@ + group_items(
                self.pids@,
                self.uids@,
                show_processes,
                tgid,
                uid,
                tids@,
            ),
    {
        let owner_ok = self.uids.len() == 0 || match uid {
            Some(u) => contains_u32(&self.uids, u),
            None => false,
        };
        if !owner_ok {
            assert(out@ + Seq::<ScanItem>::empty() =~= out@);
            return ;
        }
        if show_processes && !(self.pids.len() == 0 || contains_i32(&self.pids, tgid)) {
            assert(out@ + Seq::<ScanItem>::empty() =~= out@);
            return ;
        }
        let mut i: usize = 0;
        assert(tids@.subrange(0, 0) =~= Seq::<i32>::empty());
        assert(old(out)@ + Seq::<ScanItem>::empty() =~= old(out)@);
        while i < tids.len()
            invariant
                i <= tids@.len(),
                show_processes ==> out@ == old(out)@ + process_items(
                    tgid,
                    tids@.subrange(0, i as int),
                ),
                !show_processes ==> out@ == old(out)@ + thread_items(
                    self.pids@,
                    tgid,
                    tids@.subrange(0, i as int),
                ),
            decreases tids@.len() - i,
        {
            let tid = tids[i];
            proof {
                let next = tids@.subrange(0, i + 1);
                assert(next.drop_last() =~= tids@.subrange(0, i as int));
                assert(next.last() == tid);
            }
            if show_processes {
                out.push(ScanItem { key: tgid, pid: tgid, tid, stats: None });
                assert(out@ =~= old(out)@ + process_items(tgid, tids@.subrange(0, i + 1)));
            } else if self.pids.len() == 0 || contains_i32(&self.pids, tid) {
                out.push(ScanItem { key: tid, pid: tgid, tid, stats: None });
                assert(out@ =~= old(out)@ + thread_items(
                    self.pids@,
                    tgid,
                    tids@.subrange(0, i + 1),
                ));
            }
            i += 1;
        }
        assert(tids@.subrange(0, tids@.len() as int) =~= tids@);
    }

    /// One tick: `now` is the clock reading in nanoseconds, `vmstat` the
    /// content of the VM counters file where it could be read, `items` the
    /// tasks found, each with the outcome of sampling it. Returns the bytes
    /// read and written by the sampled threads, and the bytes paged in and
    /// out, in the interval since the last tick.
    pub fn refresh_processes(&mut self, now: u64, vmstat: Option<&str>, items: &Vec<ScanItem>) -> (r:
        ((u64, u64), (u64, u64)))
        ensures
            final(self).timestamp == now,
            final(self).duration == sat_sub(now as int, old(self).timestamp as int),
            final(self).pids == old(self).pids,
            final(self).uids == old(self).uids,
            vmstat is None ==> {
                &&& r.1 == (0u64, 0u64)
                &&& final(self).prev_pgpgin == old(self).prev_pgpgin
                &&& final(self).prev_pgpgout == old(self).prev_pgpgout
            },
            vmstat is Some ==> {
                let current = spec_vmstat(vmstat->0@);
                &&& r.1 == (since(old(self).prev_pgpgin, current.0), since(
                    old(self).prev_pgpgout,
                    current.1,
                ))
                &&& final(self).prev_pgpgin == Some(current.0)
                &&& final(self).prev_pgpgout == Some(current.1)
            },
            views(final(self).processes@) == evicted(
                refreshed(views(old(self).processes@), items@, 0),
            ),
            r.0 == (
                capped(refreshed_io(views(old(self).processes@), items@, 0).0),
                capped(refreshed_io(views(old(self).processes@), items@, 0).1),
            ),
            well_formed_list(views(old(self).processes@)) ==> well_formed_list(
                views(final(self).processes@),
            ),
            forall|k: int|
                0 <= k < final(self).processes@.len() ==> (#[trigger] final(self).processes@[k])
                    .threads@.len() > 0,
    {
        proof {
            let before = views(old(self).processes@);
            let taken = refreshed(before, items@, 0);
            if well_formed_list(before) {
                lemma_refreshed_well_formed(before, items@, 0);
                lemma_evicted_well_formed(taken);
            }
            lemma_evicted_entries(taken);
        }
        self.duration = now.saturating_sub(self.timestamp);
        self.timestamp = now;
        let actual = self.update_actual_io(vmstat);
        let mut total_read: u64 = 0;
        let mut total_write: u64 = 0;
        let ghost mut sum_read: int = 0;
        let ghost mut sum_write: int = 0;
        let ghost start = views(self.processes@);
        let mut i: usize = 0;
        while i < items.len()
            invariant
                i <= items@.len(),
                sum_read >= 0,
                sum_write >= 0,
                total_read == capped(sum_read),
                total_write == capped(sum_write),
                refreshed(start, items@, 0) == refreshed(views(self.processes@), items@, i as int),
                refreshed_io(start, items@, 0).0 == sum_read + refreshed_io(
                    views(self.processes@),
                    items@,
                    i as int,
                ).0,
                refreshed_io(start, items@, 0).1 == sum_write + refreshed_io(
                    views(self.processes@),
                    items@,
                    i as int,
                ).1,
                self.timestamp == now,
                self.duration == sat_sub(now as int, old(self).timestamp as int),
                self.pids == old(self).pids,
                self.uids == old(self).uids,
                self.prev_pgpgin == (match vmstat {
                    Some(c) => Some(spec_vmstat(c@).0),
                    None => old(self).prev_pgpgin,
                }),
                self.prev_pgpgout == (match vmstat {
                    Some(c) => Some(spec_vmstat(c@).1),
                    None => old(self).prev_pgpgout,
                }),
            decreases items@.len() - i,
        {
            let last = i + 1 >= items.len() || items[i + 1].key != items[i].key;
            let (read, write) = record_item(&mut self.processes, &items[i], last);
            total_read = total_read.saturating_add(read);
            total_write = total_write.saturating_add(write);
            proof {
                sum_read = sum_read + read;
                sum_write = sum_write + write;
            }
            i += 1;
        }
        self.evict_empty();
        proof {
            assert forall|k: int| 0 <= k < self.processes@.len() implies (
            #[trigger] self.processes@[k]).threads@.len() > 0 by {
                assert(views(self.processes@)[k] == self.processes@[k]@);
            }
        }
        ((total_read, total_write), actual)
    }

    /// Drops the entries that have no thread.
    pub fn evict_empty(&mut self)
        ensures
            views(final(self).processes@) == evicted(views(old(self).processes@)),
            final(self).timestamp == old(self).timestamp,
            final(self).duration == old(self).duration,
            final(self).prev_pgpgin == old(self).prev_pgpgin,
            final(self).prev_pgpgout == old(self).prev_pgpgout,
            final(self).pids == old(self).pids,
            final(self).uids == old(self).uids,
    {
        let mut kept: Vec<ProcessInfo> = Vec::new();
        let mut i: usize = 0;
        assert(views(self.processes@).subrange(0, 0) =~= Seq::<ProcessView>::empty());
        while i < self.processes.len()
            invariant
                i <= self.processes@.len(),
                views(kept@) == evicted(views(self.processes@).subrange(0, i as int)),
            decreases self.processes@.len() - i,
        {
            proof {
                let next = views(self.processes@).subrange(0, i + 1);
                assert(next.drop_last() =~= views(self.processes@).subrange(0, i as int));
                assert(next.last() == self.processes@[i as int]@);
            }
            let ghost before = views(kept@);
            if self.processes[i].threads.len() > 0 {
                kept.push(self.processes[i].copy());
                assert(views(kept@) =~= before.push(self.processes@[i as int]@));
            }
            i += 1;
        }
        assert(views(self.processes@).subrange(0, self.processes@.len() as int) =~= views(
            self.processes@,
        ));
        self.processes = kept;
    }

    /// The entries whose metadata are still to be read: for each its key
    /// and its thread group.
    pub fn pending_metadata(&self) -> (r: Vec<(i32, i32)>)
        ensures
            r@ == pending(views(self.processes@)),
    {
        let mut out: Vec<(i32, i32)> = Vec::new();
        let mut i: usize = 0;
        assert(views(self.processes@).subrange(0, 0) =~= Seq::<ProcessView>::empty());
        while i < self.processes.len()
            invariant
                i <= self.processes@.len(),
                out@ == pending(views(self.processes@).subrange(0, i as int)),
            decreases self.processes@.len() - i,
        {
            proof {
                let next = views(self.processes@).subrange(0, i + 1);
                assert(next.drop_last() =~= views(self.processes@).subrange(0, i as int));
                assert(next.last() == self.processes@[i as int]@);
            }
            if !self.processes[i].metadata_initialized {
                out.push((self.processes[i].key, self.processes[i].pid));
            }
            i += 1;
        }
        assert(views(self.processes@).subrange(0, self.processes@.len() as int) =~= views(
            self.processes@,
        ));
        out
    }

    /// Latches the metadata of an entry, shown for the user `user`. An
    /// entry whose metadata are known stays as it is, and so does one for
    /// which none arrived.
    pub fn apply_metadata(process: &mut ProcessInfo, metadata: Option<ProcessMetadata>, user: String)
        ensures
            final(process)@ == with_metadata(old(process)@, opt_metadata(metadata), user@),
            old(process)@.well_formed() ==> final(process)@.well_formed(),
    {
        proof {
            if old(process)@.well_formed() {
                lemma_metadata_well_formed(old(process)@, opt_metadata(metadata), user@);
            }
        }
        if process.metadata_initialized {
            return ;
        }
        if let Some(m) = metadata {
            process.pid = m.pid;
            process.tid = m.tid;
            process.uid = Some(m.uid);
            process.cmdline = Some(m.cmdline);
            process.prio = Some(m.priority_str);
            process.user = Some(user);
            process.metadata_initialized = true;
        }
    }

    /// Latches the metadata of an entry once: the owner's name is looked
    /// up in the user database. Which name that gives is not known here;
    /// whatever it gives, an entry whose metadata are known stays as it is.
    pub fn update_process_metadata(process: &mut ProcessInfo, metadata: Option<ProcessMetadata>)
        ensures
            old(process)@.metadata_initialized || metadata is None ==> final(process)@
                == old(process)@,
            !old(process)@.metadata_initialized && metadata is Some ==> exists|
                name: Option<Seq<char>>,
            |
                final(process)@ == with_metadata(
                    old(process)@,
                    opt_metadata(metadata),
                    user_label(Some(metadata->0.uid), name),
                ),
    {
        if process.metadata_initialized {
            return ;
        }
        if let Some(m) = metadata {
            let name = lookup_user_name(m.uid);
            let ghost shown = opt_chars(name);
            let user = ProcessInfo::user_from_lookup(Some(m.uid), name);
            Self::apply_metadata(process, Some(m), user);
            assert(process@ == with_metadata(
                old(process)@,
                opt_metadata(metadata),
                user_label(Some(metadata->0.uid), shown),
            ));
        }
    }

    /// Hands the metadata read for the entry kept under `key` to it.
    pub fn set_metadata(&mut self, key: i32, metadata: Option<ProcessMetadata>)
        ensures
            final(self).processes@.len() == old(self).processes@.len(),
            forall|i: int|
                0 <= i < old(self).processes@.len() && i != process_from(
                    views(old(self).processes@),
                    key,
                    0,
                ) ==> final(self).processes@[i] == old(self).processes@[i],
            final(self).timestamp == old(self).timestamp,
            final(self).duration == old(self).duration,
            final(self).prev_pgpgin == old(self).prev_pgpgin,
            final(self).prev_pgpgout == old(self).prev_pgpgout,
            final(self).pids == old(self).pids,
            final(self).uids == old(self).uids,
            ({
                let i = process_from(views(old(self).processes@), key, 0);
                i < old(self).processes@.len() ==> {
                    let p = old(self).processes@[i]@;
                    let q = final(self).processes@[i]@;
                    &&& (p.metadata_initialized || metadata is None ==> q == p)
                    &&& (!p.metadata_initialized && metadata is Some ==> exists|
                        name: Option<Seq<char>>,
                    |
                        q == with_metadata(
                            p,
                            opt_metadata(metadata),
                            user_label(Some(metadata->0.uid), name),
                        ))
                }
            }),
    {
        let i = process_index(&self.processes, key);
        if i < self.processes.len() {
            Self::update_process_metadata(&mut self.processes[i], metadata);
        }
    }

    /// What this tick publishes: a copy of the entries with the totals.
    pub fn snapshot(&self, total_io: (u64, u64), actual_io: (u64, u64)) -> (r: ProcessSnapshot)
        ensures
            views(r.processes@) == views(self.processes@),
            r.total_io == total_io,
            r.actual_io == actual_io,
            r.duration == self.duration,
    {
        ProcessSnapshot {
            processes: copy_processes(&self.processes),
            total_io,
            actual_io,
            duration: self.duration,
        }
    }
}

/// A copy of the entries.
pub fn copy_processes(source: &Vec<ProcessInfo>) -> (r: Vec<ProcessInfo>)
    ensures
        views(r@) == views(source@),
{
    let mut processes: Vec<ProcessInfo> = Vec::new();
    let mut i: usize = 0;
    while i < source.len()
        invariant
            i <= source@.len(),
            views(processes@) == views(source@).subrange(0, i as int),
        decreases source@.len() - i,
    {
        let ghost before = views(processes@);
        processes.push(source[i].copy());
        assert(views(processes@) =~= before.push(source@[i as int]@));
        assert(views(processes@) =~= views(source@).subrange(0, i + 1));
        i += 1;
    }
    assert(views(source@).subrange(0, source@.len() as int) =~= views(source@));
    processes
}

impl ProcessSnapshot {
    /// A copy of the snapshot.
    pub fn copy(&self) -> (r: ProcessSnapshot)
        ensures
            views(r.processes@) == views(self.processes@),
            r.total_io == self.total_io,
            r.actual_io == self.actual_io,
            r.duration == self.duration,
    {
        ProcessSnapshot {
            processes: copy_processes(&self.processes),
            total_io: self.total_io,
            actual_io: self.actual_io,
            duration: self.duration,
        }
    }
}

/// What holds between an entry before and after any number of items were
/// taken in: it keeps its key and its threads, its running totals have
/// not shrunk, and metadata that were known are the same.
pub open spec fn keeps(before: ProcessView, after: ProcessView) -> bool {
    &&& after.key == before.key
    &&& after.threads.len() >= before.threads.len()
    &&& after.stats_accum.ge(before.stats_accum)
    &&& before.metadata_initialized ==> {
        &&& after.metadata_initialized
        &&& after.uid == before.uid
        &&& after.user == before.user
        &&& after.prio == before.prio
        &&& after.cmdline == before.cmdline
    }
}

/// Taking one item in keeps every entry in its place, with its running
/// totals no lower and its known metadata unchanged.
pub proof fn lemma_recorded_keeps(procs: Seq<ProcessView>, item: ScanItem, last: bool)
    ensures
        recorded(procs, item, last).len() >= procs.len(),
        forall|k: int|
            0 <= k < procs.len() ==> keeps(procs[k], #[trigger] recorded(procs, item, last)[k]),
{
    lemma_process_from(procs, item.key, 0);
    let pi = process_from(procs, item.key, 0);
    let known = procs_with(procs, item.key, item.pid);
    let base = ProcessView { tid: item.key, ..known[pi] };
    lemma_thread_from(base.threads, item.tid, 0);
    let p = base.sampled(item.tid, item.stats);
    assert(p.threads.len() >= base.threads.len());
    assert(p.aggregated().stats_accum.ge(p.stats_accum));
    assert forall|k: int| 0 <= k < procs.len() implies keeps(
        procs[k],
        #[trigger] recorded(procs, item, last)[k],
    ) by {
        if k == pi {
            assert(known[pi] == procs[k]);
        } else {
            assert(recorded(procs, item, last)[k] == procs[k]);
        }
    }
}

/// A whole tick's items keep every entry in its place, with its running
/// totals no lower and its known metadata unchanged.
pub proof fn lemma_refreshed_keeps(procs: Seq<ProcessView>, items: Seq<ScanItem>, from: int)
    requires
        0 <= from,
    ensures
        refreshed(procs, items, from).len() >= procs.len(),
        forall|k: int|
            0 <= k < procs.len() ==> keeps(procs[k], #[trigger] refreshed(procs, items, from)[k]),
    decreases items.len() - from,
{
    if from < items.len() {
        let next = recorded(procs, items[from], ends_run(items, from));
        lemma_recorded_keeps(procs, items[from], ends_run(items, from));
        lemma_refreshed_keeps(next, items, from + 1);
        assert forall|k: int| 0 <= k < procs.len() implies keeps(
            procs[k],
            #[trigger] refreshed(procs, items, from)[k],
        ) by {
            assert(keeps(procs[k], next[k]));
            assert(keeps(next[k], refreshed(next, items, from + 1)[k]));
        }
    }
}

/// Eviction keeps every entry that has a thread, as it is.
pub proof fn lemma_evicted_keeps(procs: Seq<ProcessView>, k: int)
    requires
        0 <= k < procs.len(),
        procs[k].threads.len() > 0,
    ensures
        evicted(procs).contains(procs[k]),
    decreases procs.len(),
{
    let rest = evicted(procs.drop_last());
    if k == procs.len() - 1 {
        assert(rest.push(procs.last())[rest.len() as int] == procs[k]);
    } else {
        lemma_evicted_keeps(procs.drop_last(), k);
        let w = choose|w: int| 0 <= w < rest.len() && rest[w] == procs[k];
        if procs.last().threads.len() > 0 {
            assert(rest.push(procs.last())[w] == procs[k]);
        }
    }
}

/// Every entry has a thread.
pub open spec fn all_have_threads(procs: Seq<ProcessView>) -> bool {
    forall|k: int| 0 <= k < procs.len() ==> (#[trigger] procs[k]).threads.len() > 0
}

/// Taking items in leaves no entry without a thread.
pub proof fn lemma_refreshed_have_threads(procs: Seq<ProcessView>, items: Seq<ScanItem>, from: int)
    requires
        0 <= from,
        all_have_threads(procs),
    ensures
        all_have_threads(refreshed(procs, items, from)),
    decreases items.len() - from,
{
    if from < items.len() {
        let item = items[from];
        let next = recorded(procs, item, ends_run(items, from));
        lemma_process_from(procs, item.key, 0);
        let pi = process_from(procs, item.key, 0);
        let known = procs_with(procs, item.key, item.pid);
        let base = ProcessView { tid: item.key, ..known[pi] };
        lemma_thread_from(base.threads, item.tid, 0);
        assert forall|k: int| 0 <= k < next.len() implies (#[trigger] next[k]).threads.len() > 0 by {
            if k != pi {
                assert(next[k] == procs[k]);
            }
        }
        lemma_refreshed_have_threads(next, items, from + 1);
    }
}

/// Where every entry has a thread, eviction drops none.
pub proof fn lemma_evicted_none(procs: Seq<ProcessView>)
    requires
        all_have_threads(procs),
    ensures
        evicted(procs) == procs,
    decreases procs.len(),
{
    if procs.len() > 0 {
        let front = procs.drop_last();
        assert(all_have_threads(front)) by {
            assert forall|k: int| 0 <= k < front.len() implies (#[trigger] front[k]).threads.len()
                > 0 by {
                assert(front[k] == procs[k]);
            }
        }
        lemma_evicted_none(front);
        assert(procs.last() == procs[procs.len() - 1]);
        assert(front.push(procs.last()) =~= procs);
    }
}

/// Over a whole tick, eviction included, every entry that had a thread
/// stays in its place, with its running totals no lower and its known
/// metadata unchanged.
pub proof fn lemma_tick_keeps(procs: Seq<ProcessView>, items: Seq<ScanItem>)
    requires
        all_have_threads(procs),
    ensures
        evicted(refreshed(procs, items, 0)) == refreshed(procs, items, 0),
        evicted(refreshed(procs, items, 0)).len() >= procs.len(),
        forall|k: int|
            0 <= k < procs.len() ==> keeps(
                procs[k],
                #[trigger] evicted(refreshed(procs, items, 0))[k],
            ),
{
    lemma_refreshed_have_threads(procs, items, 0);
    lemma_evicted_none(refreshed(procs, items, 0));
    lemma_refreshed_keeps(procs, items, 0);
}

/// Metadata are latched once: an entry whose metadata are known is not
/// changed by any that arrive later.
pub proof fn lemma_metadata_latch(p: ProcessView, metadata: Option<MetadataFields>, user: Seq<char>)
    requires
        p.metadata_initialized,
    ensures
        with_metadata(p, metadata, user) == p,
{
}

/// What a sample adds to the interval's bytes is the thread's new delta;
/// a failed sample adds nothing and leaves the thread as it was.
pub proof fn lemma_sample_io(p: ProcessView, tid: i32, sample: Option<TaskStats>)
    ensures
        ({
            let i = thread_from(p.threads, tid, 0);
            let before = p.threads_with(tid)[i];
            let after = p.sampled(tid, sample).threads[i];
            &&& 0 <= i < p.sampled(tid, sample).threads.len()
            &&& after.tid == tid
            &&& sample is Some ==> p.sample_io(tid, sample) == (
                after.stats_delta.read_bytes,
                after.stats_delta.write_bytes,
            )
            &&& sample is None ==> p.sample_io(tid, sample) == (0u64, 0u64) && after == before
        }),
{
    lemma_thread_from(p.threads, tid, 0);
}

/// No two items name the same thread of the same entry.
pub open spec fn distinct_items(items: Seq<ScanItem>) -> bool {
    forall|i: int, j: int|
        0 <= i < j < items.len() ==> !(#[trigger] items[i].key == #[trigger] items[j].key
            && items[i].tid == items[j].tid)
}

/// Every thread's delta is zero, and a thread that has a sample was named
/// by one of the first `upto` items.
pub open spec fn first_samples(procs: Seq<ProcessView>, items: Seq<ScanItem>, upto: int) -> bool {
    forall|a: int, b: int|
        0 <= a < procs.len() && 0 <= b < procs[a].threads.len() ==> {
            let t = #[trigger] procs[a].threads[b];
            &&& t.stats_delta == TaskStats::zero()
            &&& t.stats_total is Some ==> sampled_before(items, upto, procs[a].key, t.tid)
        }
}

/// One of the first `upto` items names the thread `tid` of the entry `key`.
pub open spec fn sampled_before(items: Seq<ScanItem>, upto: int, key: i32, tid: i32) -> bool {
    exists|j: int| 0 <= j < upto && j < items.len() && #[trigger] items[j].key == key && items[j].tid == tid
}

proof fn lemma_first_step(procs: Seq<ProcessView>, items: Seq<ScanItem>, i: int)
    requires
        0 <= i < items.len(),
        distinct_items(items),
        first_samples(procs, items, i),
    ensures
        first_samples(recorded(procs, items[i], ends_run(items, i)), items, i + 1),
        item_io(procs, items[i]) == (0u64, 0u64),
{
    let item = items[i];
    let last = ends_run(items, i);
    let pi = process_from(procs, item.key, 0);
    lemma_process_from(procs, item.key, 0);
    let known = procs_with(procs, item.key, item.pid);
    let base = ProcessView { tid: item.key, ..known[pi] };
    let ti = thread_from(base.threads, item.tid, 0);
    lemma_thread_from(base.threads, item.tid, 0);
    let with = base.threads_with(item.tid);
    let t = with[ti];
    assert(t.tid == item.tid);
    assert(known[pi].key == item.key);
    assert(t.stats_delta == TaskStats::zero() && t.stats_total is None) by {
        if ti < base.threads.len() {
            assert(t == procs[pi].threads[ti]);
            if t.stats_total is Some {
                assert(sampled_before(items, i, procs[pi].key, t.tid));
                let j = choose|j: int|
                    0 <= j < i && j < items.len() && #[trigger] items[j].key == item.key
                        && items[j].tid == item.tid;
                assert(items[j].key == items[i].key && items[j].tid == items[i].tid);
                assert(false);
            }
        }
    }
    let after = recorded(procs, item, last);
    assert forall|a: int, b: int| 0 <= a < after.len() && 0 <= b < after[a].threads.len() implies {
        let u = #[trigger] after[a].threads[b];
        &&& u.stats_delta == TaskStats::zero()
        &&& u.stats_total is Some ==> sampled_before(items, i + 1, after[a].key, u.tid)
    } by {
        let u = after[a].threads[b];
        if a == pi && b == ti {
            assert(u == t.spec_collect(item.stats));
            assert(items[i].key == after[a].key && items[i].tid == u.tid);
            assert(sampled_before(items, i + 1, after[a].key, u.tid));
        } else if a == pi {
            assert(u == with[b]);
            assert(b < base.threads.len());
            assert(u == procs[a].threads[b]);
            if u.stats_total is Some {
                assert(sampled_before(items, i, procs[a].key, u.tid));
                let j = choose|j: int|
                    0 <= j < i && j < items.len() && #[trigger] items[j].key == procs[a].key
                        && items[j].tid == u.tid;
                assert(items[j].key == after[a].key && items[j].tid == u.tid);
            }
        } else {
            assert(after[a] == known[a]);
            assert(a < procs.len());
            assert(u == procs[a].threads[b]);
            if u.stats_total is Some {
                assert(sampled_before(items, i, procs[a].key, u.tid));
                let j = choose|j: int|
                    0 <= j < i && j < items.len() && #[trigger] items[j].key == procs[a].key
                        && items[j].tid == u.tid;
                assert(items[j].key == after[a].key && items[j].tid == u.tid);
            }
        }
    }
}

proof fn lemma_first_from(procs: Seq<ProcessView>, items: Seq<ScanItem>, from: int)
    requires
        0 <= from,
        distinct_items(items),
        first_samples(procs, items, from),
    ensures
        first_samples(refreshed(procs, items, from), items, items.len() as int),
        refreshed_io(procs, items, from) == (0int, 0int),
    decreases items.len() - from,
{
    if from < items.len() {
        lemma_first_step(procs, items, from);
        lemma_first_from(recorded(procs, items[from], ends_run(items, from)), items, from + 1);
    } else {
        assert forall|a: int, b: int|
            0 <= a < procs.len() && 0 <= b < procs[a].threads.len() implies {
            let t = #[trigger] procs[a].threads[b];
            t.stats_total is Some ==> sampled_before(items, items.len() as int, procs[a].key, t.tid)
        } by {
            let t = procs[a].threads[b];
            if t.stats_total is Some {
                assert(sampled_before(items, from, procs[a].key, t.tid));
                let j = choose|j: int|
                    0 <= j < from && j < items.len() && #[trigger] items[j].key == procs[a].key
                        && items[j].tid == t.tid;
                assert(items[j].key == procs[a].key && items[j].tid == t.tid);
            }
        }
    }
}

/// The first tick: where nothing was seen before and no thread is named
/// twice, every thread ends with a zero delta and the items add nothing
/// to the interval's bytes.
pub proof fn lemma_first_tick(items: Seq<ScanItem>)
    requires
        distinct_items(items),
    ensures
        refreshed_io(Seq::empty(), items, 0) == (0int, 0int),
        forall|a: int, b: int|
            0 <= a < refreshed(Seq::empty(), items, 0).len() && 0 <= b < refreshed(
                Seq::empty(),
                items,
                0,
            )[a].threads.len() ==> (#[trigger] refreshed(
                Seq::empty(),
                items,
                0,
            )[a].threads[b]).stats_delta == TaskStats::zero(),
{
    lemma_first_from(Seq::empty(), items, 0);
}

/// The entries after the first `n` items were taken in.
pub open spec fn taken(procs: Seq<ProcessView>, items: Seq<ScanItem>, n: int) -> Seq<ProcessView>
    decreases n,
{
    if n <= 0 || n > items.len() {
        procs
    } else {
        recorded(taken(procs, items, n - 1), items[n - 1], ends_run(items, n - 1))
    }
}

/// What the first `n` items add to the interval's bytes, each taken in
/// after those before it.
pub open spec fn io_upto(procs: Seq<ProcessView>, items: Seq<ScanItem>, n: int) -> (int, int)
    decreases n,
{
    if n <= 0 || n > items.len() {
        (0, 0)
    } else {
        let rest = io_upto(procs, items, n - 1);
        let io = item_io(taken(procs, items, n - 1), items[n - 1]);
        (rest.0 + io.0, rest.1 + io.1)
    }
}

/// Where an item's sample lands: the place of its entry and, in it, of
/// its thread.
pub open spec fn landing(procs: Seq<ProcessView>, item: ScanItem) -> (int, int) {
    let a = process_from(procs, item.key, 0);
    (a, thread_from(procs_with(procs, item.key, item.pid)[a].threads, item.tid, 0))
}

/// A tick can be cut after any item: the rest goes on from the entries
/// reached, and the bytes add up.
pub proof fn lemma_taken_then_refreshed(procs: Seq<ProcessView>, items: Seq<ScanItem>, n: int)
    requires
        0 <= n <= items.len(),
    ensures
        refreshed(procs, items, 0) == refreshed(taken(procs, items, n), items, n),
        refreshed_io(procs, items, 0).0 == io_upto(procs, items, n).0 + refreshed_io(
            taken(procs, items, n),
            items,
            n,
        ).0,
        refreshed_io(procs, items, 0).1 == io_upto(procs, items, n).1 + refreshed_io(
            taken(procs, items, n),
            items,
            n,
        ).1,
    decreases n,
{
    if n > 0 {
        lemma_taken_then_refreshed(procs, items, n - 1);
        let before = taken(procs, items, n - 1);
        assert(refreshed(before, items, n - 1) == refreshed(
            recorded(before, items[n - 1], ends_run(items, n - 1)),
            items,
            n,
        ));
    }
}

/// The bytes of a tick are the sum of what its items add, one after the other.
pub proof fn lemma_total_is_sum(procs: Seq<ProcessView>, items: Seq<ScanItem>)
    ensures
        refreshed_io(procs, items, 0) == io_upto(procs, items, items.len() as int),
        refreshed(procs, items, 0) == taken(procs, items, items.len() as int),
{
    lemma_taken_then_refreshed(procs, items, items.len() as int);
}

/// An item leaves every thread alone but the one it names.
pub proof fn lemma_recorded_leaves_others(
    procs: Seq<ProcessView>,
    item: ScanItem,
    last: bool,
    a: int,
    b: int,
)
    requires
        0 <= a < procs.len(),
        0 <= b < procs[a].threads.len(),
        !(procs[a].key == item.key && procs[a].threads[b].tid == item.tid),
    ensures
        a < recorded(procs, item, last).len(),
        b < recorded(procs, item, last)[a].threads.len(),
        recorded(procs, item, last)[a].key == procs[a].key,
        recorded(procs, item, last)[a].threads[b] == procs[a].threads[b],
{
    lemma_process_from(procs, item.key, 0);
    let pi = process_from(procs, item.key, 0);
    let known = procs_with(procs, item.key, item.pid);
    let base = ProcessView { tid: item.key, ..known[pi] };
    lemma_thread_from(base.threads, item.tid, 0);
    if a == pi {
        assert(known[pi] == procs[a]);
    }
}

/// The items from `from` on leave a thread alone that none of them names.
pub proof fn lemma_refreshed_leaves_others(
    procs: Seq<ProcessView>,
    items: Seq<ScanItem>,
    from: int,
    a: int,
    b: int,
)
    requires
        0 <= from,
        0 <= a < procs.len(),
        0 <= b < procs[a].threads.len(),
        forall|j: int|
            from <= j < items.len() ==> !((#[trigger] items[j]).key == procs[a].key
                && items[j].tid == procs[a].threads[b].tid),
    ensures
        a < refreshed(procs, items, from).len(),
        b < refreshed(procs, items, from)[a].threads.len(),
        refreshed(procs, items, from)[a].key == procs[a].key,
        refreshed(procs, items, from)[a].threads[b] == procs[a].threads[b],
    decreases items.len() - from,
{
    if from < items.len() {
        let next = recorded(procs, items[from], ends_run(items, from));
        assert(!(items[from].key == procs[a].key && items[from].tid == procs[a].threads[b].tid));
        lemma_recorded_leaves_others(procs, items[from], ends_run(items, from), a, b);
        lemma_refreshed_leaves_others(next, items, from + 1, a, b);
    }
}

/// Where no thread is named twice in a tick, what a sampled item added to
/// the interval's bytes is the delta that its thread has when the tick is
/// over: the tick's bytes are the sum of the deltas of the threads sampled.
pub proof fn lemma_sampled_delta_stays(procs: Seq<ProcessView>, items: Seq<ScanItem>, i: int)
    requires
        distinct_items(items),
        0 <= i < items.len(),
        items[i].stats is Some,
    ensures
        ({
            let before = taken(procs, items, i);
            let at = landing(before, items[i]);
            let after = refreshed(procs, items, 0);
            &&& 0 <= at.0 < after.len()
            &&& 0 <= at.1 < after[at.0].threads.len()
            &&& after[at.0].key == items[i].key
            &&& after[at.0].threads[at.1].tid == items[i].tid
            &&& item_io(before, items[i]) == (
                after[at.0].threads[at.1].stats_delta.read_bytes,
                after[at.0].threads[at.1].stats_delta.write_bytes,
            )
        }),
{
    let before = taken(procs, items, i);
    let item = items[i];
    let at = landing(before, item);
    let next = taken(procs, items, i + 1);
    assert(next == recorded(before, item, ends_run(items, i)));
    lemma_process_from(before, item.key, 0);
    let known = procs_with(before, item.key, item.pid);
    let base = ProcessView { tid: item.key, ..known[at.0] };
    lemma_thread_from(base.threads, item.tid, 0);
    lemma_sample_io(base, item.tid, item.stats);
    assert(next[at.0].threads[at.1] == base.sampled(item.tid, item.stats).threads[at.1]);
    assert(next[at.0].key == item.key);
    lemma_taken_then_refreshed(procs, items, i + 1);
    assert forall|j: int| i + 1 <= j < items.len() implies !((#[trigger] items[j]).key
        == next[at.0].key && items[j].tid == next[at.0].threads[at.1].tid) by {
        assert(!(items[i].key == items[j].key && items[i].tid == items[j].tid));
    }
    lemma_refreshed_leaves_others(next, items, i + 1, at.0, at.1);
}

/// What holds of the entries that the monitor keeps: each is well formed,
/// and no key occurs twice.
pub open spec fn well_formed_list(procs: Seq<ProcessView>) -> bool {
    &&& forall|i: int| 0 <= i < procs.len() ==> (#[trigger] procs[i]).well_formed()
    &&& forall|i: int, j: int|
        0 <= i < j < procs.len() ==> (#[trigger] procs[i]).key != (#[trigger] procs[j]).key
}

/// Taking one item in keeps the entries well formed.
pub proof fn lemma_recorded_well_formed(procs: Seq<ProcessView>, item: ScanItem, last: bool)
    requires
        well_formed_list(procs),
    ensures
        well_formed_list(recorded(procs, item, last)),
{
    lemma_process_from(procs, item.key, 0);
    let pi = process_from(procs, item.key, 0);
    let known = procs_with(procs, item.key, item.pid);
    let base = ProcessView { tid: item.key, ..known[pi] };
    assert(known[pi].well_formed());
    assert(base.well_formed());
    lemma_sampled_well_formed(base, item.tid, item.stats);
    let after = recorded(procs, item, last);
    assert forall|i: int| 0 <= i < after.len() implies (#[trigger] after[i]).well_formed() by {
        if i != pi {
            assert(after[i] == procs[i]);
        }
    }
    assert forall|i: int, j: int| 0 <= i < j < after.len() implies (#[trigger] after[i]).key != (
    #[trigger] after[j]).key by {
        assert(after[i].key == known[i].key);
        assert(after[j].key == known[j].key);
        if j < procs.len() {
            assert(procs[i].key != procs[j].key);
        }
    }
}

/// A whole tick's items keep the entries well formed.
pub proof fn lemma_refreshed_well_formed(procs: Seq<ProcessView>, items: Seq<ScanItem>, from: int)
    requires
        0 <= from,
        well_formed_list(procs),
    ensures
        well_formed_list(refreshed(procs, items, from)),
    decreases items.len() - from,
{
    if from < items.len() {
        lemma_recorded_well_formed(procs, items[from], ends_run(items, from));
        lemma_refreshed_well_formed(
            recorded(procs, items[from], ends_run(items, from)),
            items,
            from + 1,
        );
    }
}

/// Every entry that is left after eviction was there before and has a thread.
pub proof fn lemma_evicted_entries(procs: Seq<ProcessView>)
    ensures
        forall|k: int|
            0 <= k < evicted(procs).len() ==> procs.contains(#[trigger] evicted(procs)[k])
                && evicted(procs)[k].threads.len() > 0,
    decreases procs.len(),
{
    if procs.len() > 0 {
        let rest = evicted(procs.drop_last());
        lemma_evicted_entries(procs.drop_last());
        assert forall|k: int| 0 <= k < evicted(procs).len() implies procs.contains(
            #[trigger] evicted(procs)[k],
        ) && evicted(procs)[k].threads.len() > 0 by {
            if k < rest.len() {
                assert(evicted(procs)[k] == rest[k]);
                assert(procs.drop_last().contains(rest[k]));
                let w = choose|w: int|
                    0 <= w < procs.drop_last().len() && procs.drop_last()[w] == rest[k];
                assert(procs[w] == rest[k]);
            } else {
                assert(evicted(procs)[k] == procs[procs.len() - 1]);
            }
        }
    }
}

/// Eviction keeps the entries well formed, and leaves none without a thread.
pub proof fn lemma_evicted_well_formed(procs: Seq<ProcessView>)
    requires
        well_formed_list(procs),
    ensures
        well_formed_list(evicted(procs)),
        forall|k: int| 0 <= k < evicted(procs).len() ==> (#[trigger] evicted(procs)[k]).threads.len() > 0,
    decreases procs.len(),
{
    lemma_evicted_entries(procs);
    if procs.len() > 0 {
        let front = procs.drop_last();
        let rest = evicted(front);
        assert(well_formed_list(front)) by {
            assert forall|i: int| 0 <= i < front.len() implies (#[trigger] front[i]).well_formed() by {
                assert(front[i] == procs[i]);
            }
            assert forall|i: int, j: int| 0 <= i < j < front.len() implies (#[trigger] front[i]).key
                != (#[trigger] front[j]).key by {
                assert(front[i] == procs[i]);
                assert(front[j] == procs[j]);
            }
        }
        lemma_evicted_well_formed(front);
        lemma_evicted_entries(front);
        let out = evicted(procs);
        assert forall|i: int| 0 <= i < out.len() implies (#[trigger] out[i]).well_formed() by {
            if i < rest.len() {
                assert(out[i] == rest[i]);
            } else {
                assert(out[i] == procs[procs.len() - 1]);
            }
        }
        assert forall|i: int, j: int| 0 <= i < j < out.len() implies (#[trigger] out[i]).key != (
        #[trigger] out[j]).key by {
            if j < rest.len() {
                assert(out[i] == rest[i]);
                assert(out[j] == rest[j]);
            } else {
                assert(out[j] == procs[procs.len() - 1]);
                assert(out[i] == rest[i]);
                assert(front.contains(rest[i]));
                let w = choose|w: int| 0 <= w < front.len() && front[w] == rest[i];
                assert(procs[w] == rest[i]);
                assert(procs[w].key != procs[procs.len() - 1].key);
            }
        }
    }
}

/// Metadata that arrive leave an entry well formed.
pub proof fn lemma_metadata_well_formed(
    p: ProcessView,
    metadata: Option<MetadataFields>,
    user: Seq<char>,
)
    requires
        p.well_formed(),
    ensures
        with_metadata(p, metadata, user).well_formed(),
{
    let q = with_metadata(p, metadata, user);
    assert(q.threads == p.threads);
}

} // verus!
