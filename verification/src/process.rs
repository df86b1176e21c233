//! Per-thread running totals and per-process aggregates.

use crate::taskstats::TaskStats;
use crate::text::{chars_of, decimal, push_decimal, slice_of, string_of};
use vstd::prelude::*;

verus! {

/// The counters of one thread: the last sample and what was counted
/// between the two last samples.
#[derive(Debug, Clone, Copy)]
pub struct ThreadInfo {
    pub tid: i32,
    /// The last sample; none before the first.
    pub stats_total: Option<TaskStats>,
    /// The last sample less the one before it; zero until there are two.
    pub stats_delta: TaskStats,
}

impl ThreadInfo {
    /// A thread of which no sample was taken yet.
    pub open spec fn fresh(tid: i32) -> ThreadInfo {
        ThreadInfo { tid, stats_total: None, stats_delta: TaskStats::zero() }
    }

    /// The thread after the sample `stats`.
    pub open spec fn spec_update(self, stats: TaskStats) -> ThreadInfo {
        ThreadInfo {
            tid: self.tid,
            stats_total: Some(stats),
            stats_delta: match self.stats_total {
                Some(total) => stats.spec_delta(total),
                None => TaskStats::zero(),
            },
        }
    }

    /// The thread after an attempt to sample it: a failed attempt changes nothing.
    pub open spec fn spec_collect(self, sample: Option<TaskStats>) -> ThreadInfo {
        match sample {
            Some(stats) => self.spec_update(stats),
            None => self,
        }
    }

    /// What an attempt to sample the thread adds to the bytes read and
    /// written in this interval.
    pub open spec fn spec_io(self, sample: Option<TaskStats>) -> (u64, u64) {
        match sample {
            Some(stats) => (
                self.spec_update(stats).stats_delta.read_bytes,
                self.spec_update(stats).stats_delta.write_bytes,
            ),
            None => (0, 0),
        }
    }

    pub fn new(tid: i32) -> (r: ThreadInfo)
        ensures
            r == Self::fresh(tid),
    {
        ThreadInfo { tid, stats_total: None, stats_delta: TaskStats::default() }
    }

    /// Takes a new sample in: the difference to the last one becomes the
    /// current delta, zero where there was none.
    pub fn update_stats(&mut self, stats: TaskStats)
        ensures
            *final(self) == old(self).spec_update(stats),
    {
        match self.stats_total {
            Some(total) => {
                self.stats_delta = stats.delta(&total);
            },
            None => {
                self.stats_delta = TaskStats::default();
            },
        }
        self.stats_total = Some(stats);
    }
}

/// Sums of the five counters over the deltas of some threads.
pub struct Totals {
    pub blkio_delay_total: int,
    pub swapin_delay_total: int,
    pub read_bytes: int,
    pub write_bytes: int,
    pub cancelled_write_bytes: int,
}

/// The sums of the threads' current deltas.
pub open spec fn totals(threads: Seq<ThreadInfo>) -> Totals
    decreases threads.len(),
{
    if threads.len() == 0 {
        Totals {
            blkio_delay_total: 0,
            swapin_delay_total: 0,
            read_bytes: 0,
            write_bytes: 0,
            cancelled_write_bytes: 0,
        }
    } else {
        let rest = totals(threads.drop_last());
        let d = threads.last().stats_delta;
        Totals {
            blkio_delay_total: rest.blkio_delay_total + d.blkio_delay_total,
            swapin_delay_total: rest.swapin_delay_total + d.swapin_delay_total,
            read_bytes: rest.read_bytes + d.read_bytes,
            write_bytes: rest.write_bytes + d.write_bytes,
            cancelled_write_bytes: rest.cancelled_write_bytes + d.cancelled_write_bytes,
        }
    }
}

/// A sum as a counter holds it: stopped at `u64::MAX`.
pub open spec fn capped(x: int) -> u64 {
    if x > u64::MAX as int {
        u64::MAX
    } else if x < 0 {
        0
    } else {
        x as u64
    }
}

/// The aggregate of a process over its threads: bytes are summed, delays
/// are summed and divided by the number of threads.
pub open spec fn aggregate(threads: Seq<ThreadInfo>) -> TaskStats {
    let t = totals(threads);
    let n = threads.len() as int;
    TaskStats {
        version: 0,
        blkio_delay_total: if n == 0 {
            0
        } else {
            (capped(t.blkio_delay_total) as int / n) as u64
        },
        swapin_delay_total: if n == 0 {
            0
        } else {
            (capped(t.swapin_delay_total) as int / n) as u64
        },
        read_bytes: capped(t.read_bytes),
        write_bytes: capped(t.write_bytes),
        cancelled_write_bytes: capped(t.cancelled_write_bytes),
    }
}

pub proof fn lemma_totals_nonneg(threads: Seq<ThreadInfo>)
    ensures
        totals(threads).blkio_delay_total >= 0,
        totals(threads).swapin_delay_total >= 0,
        totals(threads).read_bytes >= 0,
        totals(threads).write_bytes >= 0,
        totals(threads).cancelled_write_bytes >= 0,
    decreases threads.len(),
{
    if threads.len() > 0 {
        lemma_totals_nonneg(threads.drop_last());
    }
}

/// The least index at or after `from` of a thread with the id `tid`, or
/// the number of threads where there is none.
pub open spec fn thread_from(threads: Seq<ThreadInfo>, tid: i32, from: int) -> int
    decreases threads.len() - from,
{
    if from < 0 || from >= threads.len() {
        threads.len() as int
    } else if threads[from].tid == tid {
        from
    } else {
        thread_from(threads, tid, from + 1)
    }
}

pub proof fn lemma_thread_from(threads: Seq<ThreadInfo>, tid: i32, from: int)
    requires
        0 <= from <= threads.len(),
    ensures
        from <= thread_from(threads, tid, from) <= threads.len(),
        thread_from(threads, tid, from) < threads.len() ==> threads[thread_from(
            threads,
            tid,
            from,
        )].tid == tid,
        forall|i: int| from <= i < thread_from(threads, tid, from) ==> threads[i].tid != tid,
    decreases threads.len() - from,
{
    if from < threads.len() && threads[from].tid != tid {
        lemma_thread_from(threads, tid, from + 1);
    }
}

/// The view of an optional string.
pub open spec fn opt_chars(s: Option<String>) -> Option<Seq<char>> {
    match s {
        Some(s) => Some(s@),
        None => None,
    }
}

/// A process entry as the contracts see it.
pub struct ProcessView {
    pub key: i32,
    pub pid: i32,
    pub tid: i32,
    pub uid: Option<u32>,
    pub user: Option<Seq<char>>,
    pub prio: Option<Seq<char>>,
    pub cmdline: Option<Seq<char>>,
    pub threads: Seq<ThreadInfo>,
    pub stats_delta: TaskStats,
    pub stats_accum: TaskStats,
    pub metadata_initialized: bool,
}

impl ProcessView {
    /// An entry just made for the process `pid`.
    pub open spec fn fresh(pid: i32) -> ProcessView {
        ProcessView {
            key: pid,
            pid,
            tid: pid,
            uid: None,
            user: None,
            prio: None,
            cmdline: None,
            threads: Seq::empty(),
            stats_delta: TaskStats::zero(),
            stats_accum: TaskStats::zero(),
            metadata_initialized: false,
        }
    }

    /// What holds of every entry that the monitor keeps: known metadata
    /// are all there, and no thread occurs twice.
    pub open spec fn well_formed(self) -> bool {
        &&& self.metadata_initialized ==> self.uid is Some && self.user is Some && self.prio
            is Some && self.cmdline is Some
        &&& forall|i: int, j: int|
            0 <= i < j < self.threads.len() ==> (#[trigger] self.threads[i]).tid
                != (#[trigger] self.threads[j]).tid
    }

    /// The threads with `tid` among them: appended, fresh, where it was not.
    pub open spec fn threads_with(self, tid: i32) -> Seq<ThreadInfo> {
        if thread_from(self.threads, tid, 0) < self.threads.len() {
            self.threads
        } else {
            self.threads.push(ThreadInfo::fresh(tid))
        }
    }

    /// The entry after an attempt to sample its thread `tid`.
    pub open spec fn sampled(self, tid: i32, sample: Option<TaskStats>) -> ProcessView {
        let i = thread_from(self.threads, tid, 0);
        let known = self.threads_with(tid);
        ProcessView { threads: known.update(i, known[i].spec_collect(sample)), ..self }
    }

    /// What that attempt adds to the bytes read and written in this interval.
    pub open spec fn sample_io(self, tid: i32, sample: Option<TaskStats>) -> (u64, u64) {
        self.threads_with(tid)[thread_from(self.threads, tid, 0)].spec_io(sample)
    }

    /// The entry after its threads were folded into its own counters. An
    /// entry without threads stays as it is.
    pub open spec fn aggregated(self) -> ProcessView {
        if self.threads.len() == 0 {
            self
        } else {
            ProcessView {
                stats_delta: aggregate(self.threads),
                stats_accum: self.stats_accum.spec_accumulate(aggregate(self.threads)),
                ..self
            }
        }
    }

    /// Whether the entry shows any I/O: in its running totals, or in the
    /// current delta of one of its threads.
    pub open spec fn spec_did_some_io(self, accumulated: bool) -> bool {
        if accumulated {
            !self.stats_accum.spec_is_all_zero()
        } else {
            exists|i: int|
                0 <= i < self.threads.len() && !(#[trigger] self.threads[i]).stats_delta.spec_is_all_zero()
        }
    }
}

/// One entry of the monitor: a thread, or a process with its threads.
#[derive(Debug, Clone)]
pub struct ProcessInfo {
    /// The id that the entry is kept under.
    pub key: i32,
    /// The thread group that the entry belongs to.
    pub pid: i32,
    /// The thread, or the thread group, that the entry shows.
    pub tid: i32,
    pub uid: Option<u32>,
    pub user: Option<String>,
    pub prio: Option<String>,
    pub cmdline: Option<String>,
    /// The threads sampled for this entry, each id once.
    pub threads: Vec<ThreadInfo>,
    pub stats_delta: TaskStats,
    pub stats_accum: TaskStats,
    /// Set once owner, user, priority and command were read.
    pub metadata_initialized: bool,
}

impl View for ProcessInfo {
    type V = ProcessView;

    open spec fn view(&self) -> ProcessView {
        ProcessView {
            key: self.key,
            pid: self.pid,
            tid: self.tid,
            uid: self.uid,
            user: opt_chars(self.user),
            prio: opt_chars(self.prio),
            cmdline: opt_chars(self.cmdline),
            threads: self.threads@,
            stats_delta: self.stats_delta,
            stats_accum: self.stats_accum,
            metadata_initialized: self.metadata_initialized,
        }
    }
}

/// The name shown for the owner of a process: the user's name where the
/// user database has one, else the number (0 where the owner is unknown),
/// cut to eight characters.
pub open spec fn user_label(uid: Option<u32>, name: Option<Seq<char>>) -> Seq<char> {
    let full = match (uid, name) {
        (Some(_), Some(n)) => n,
        (Some(u), None) => decimal(u as nat),
        (None, _) => decimal(0),
    };
    if full.len() > 8 {
        full.subrange(0, 8)
    } else {
        full
    }
}

/// Looks a user up by number with `nix::unistd::User::from_uid` and hands
/// out the name. Nothing is claimed of the result: it depends on the
/// system's user database.
#[verifier::external_body]
pub(crate) fn lookup_user_name(uid: u32) -> (r: Option<String>) {
    match nix::unistd::User::from_uid(nix::unistd::Uid::from_raw(uid)) {
        Ok(Some(user)) => Some(user.name),
        Ok(None) => None,
        Err(_) => None,
    }
}

impl ProcessInfo {
    pub fn new(pid: i32) -> (r: ProcessInfo)
        ensures
            r@ == ProcessView::fresh(pid),
            r@.well_formed(),
    {
        ProcessInfo {
            key: pid,
            pid,
            tid: pid,
            uid: None,
            user: None,
            prio: None,
            cmdline: None,
            threads: Vec::new(),
            stats_delta: TaskStats::default(),
            stats_accum: TaskStats::default(),
            metadata_initialized: false,
        }
    }

    /// The owner's name as shown, `?` while it is not known.
    pub fn get_user(&self) -> (r: &str)
        ensures
            r@ == (match self@.user {
                Some(u) => u,
                None => "?"@,
            }),
    {
        match &self.user {
            Some(user) => user.as_str(),
            None => "?",
        }
    }

    /// The priority as shown, `be/4` while it is not known.
    pub fn get_prio(&self) -> (r: &str)
        ensures
            r@ == (match self@.prio {
                Some(p) => p,
                None => "be/4"@,
            }),
    {
        match &self.prio {
            Some(prio) => prio.as_str(),
            None => "be/4",
        }
    }

    /// The command as shown, a placeholder while it is not known.
    pub fn get_cmdline(&self) -> (r: &str)
        ensures
            r@ == (match self@.cmdline {
                Some(c) => c,
                None => "{no such process}"@,
            }),
    {
        match &self.cmdline {
            Some(cmdline) => cmdline.as_str(),
            None => "{no such process}",
        }
    }

    /// A copy of the entry.
    pub fn copy(&self) -> (r: ProcessInfo)
        ensures
            r@ == self@,
    {
        let mut threads: Vec<ThreadInfo> = Vec::new();
        let mut i: usize = 0;
        while i < self.threads.len()
            invariant
                i <= self.threads@.len(),
                threads@ == self.threads@.subrange(0, i as int),
            decreases self.threads@.len() - i,
        {
            threads.push(self.threads[i]);
            assert(threads@ =~= self.threads@.subrange(0, i + 1));
            i += 1;
        }
        assert(self.threads@.subrange(0, self.threads@.len() as int) =~= self.threads@);
        ProcessInfo {
            key: self.key,
            pid: self.pid,
            tid: self.tid,
            uid: self.uid,
            user: match &self.user {
                Some(s) => Some(s.clone()),
                None => None,
            },
            prio: match &self.prio {
                Some(s) => Some(s.clone()),
                None => None,
            },
            cmdline: match &self.cmdline {
                Some(s) => Some(s.clone()),
                None => None,
            },
            threads,
            stats_delta: self.stats_delta,
            stats_accum: self.stats_accum,
            metadata_initialized: self.metadata_initialized,
        }
    }

    /// The name to show for the owner, given what the user database says.
    pub fn user_from_lookup(uid: Option<u32>, name: Option<String>) -> (r: String)
        ensures
            r@ == user_label(uid, opt_chars(name)),
    {
        let mut full: Vec<char> = Vec::new();
        match uid {
            Some(u) => match name {
                Some(n) => {
                    full = chars_of(n.as_str());
                },
                None => {
                    push_decimal(&mut full, u as u64);
                },
            },
            None => {
                push_decimal(&mut full, 0);
            },
        }
        if full.len() > 8 {
            string_of(&slice_of(&full, 0, 8))
        } else {
            string_of(&full)
        }
    }

    /// The name to show for the owner of this entry. Which name the user
    /// database gives is not known here; whatever it gives, the result is
    /// at most eight characters long.
    pub fn compute_user(&self) -> (r: String)
        ensures
            r@.len() <= 8,
            exists|name: Option<Seq<char>>| r@ == user_label(self.uid, name),
    {
        let name = match self.uid {
            Some(uid) => lookup_user_name(uid),
            None => None,
        };
        let ghost shown = opt_chars(name);
        let r = Self::user_from_lookup(self.uid, name);
        assert(r@ == user_label(self.uid, shown));
        r
    }

    pub fn did_some_io(&self, accumulated: bool) -> (r: bool)
        ensures
            r == self@.spec_did_some_io(accumulated),
    {
        if accumulated {
            return !self.stats_accum.is_all_zero();
        }
        let mut i: usize = 0;
        while i < self.threads.len()
            invariant
                !accumulated,
                i <= self.threads@.len(),
                forall|k: int| 0 <= k < i ==> self.threads@[k].stats_delta.spec_is_all_zero(),
            decreases self.threads@.len() - i,
        {
            if !self.threads[i].stats_delta.is_all_zero() {
                assert(!self@.threads[i as int].stats_delta.spec_is_all_zero());
                return true;
            }
            i += 1;
        }
        false
    }

    /// Folds the threads' current deltas into the entry's own counters and
    /// adds the result to its running totals. Says whether there was any
    /// thread to fold.
    pub fn update_stats(&mut self) -> (r: bool)
        ensures
            r == (old(self)@.threads.len() > 0),
            final(self)@ == old(self)@.aggregated(),
    {
        let num_threads = self.threads.len();
        if num_threads == 0 {
            return false;
        }
        let mut stats_delta = TaskStats::default();
        let mut i: usize = 0;
        proof {
            assert(self.threads@.subrange(0, 0) =~= Seq::<ThreadInfo>::empty());
        }
        while i < num_threads
            invariant
                i <= num_threads,
                num_threads == self.threads@.len(),
                stats_delta.version == 0,
                stats_delta.blkio_delay_total == capped(
                    totals(self.threads@.subrange(0, i as int)).blkio_delay_total,
                ),
                stats_delta.swapin_delay_total == capped(
                    totals(self.threads@.subrange(0, i as int)).swapin_delay_total,
                ),
                stats_delta.read_bytes == capped(
                    totals(self.threads@.subrange(0, i as int)).read_bytes,
                ),
                stats_delta.write_bytes == capped(
                    totals(self.threads@.subrange(0, i as int)).write_bytes,
                ),
                stats_delta.cancelled_write_bytes == capped(
                    totals(self.threads@.subrange(0, i as int)).cancelled_write_bytes,
                ),
            decreases num_threads - i,
        {
            proof {
                let next = self.threads@.subrange(0, i + 1);
                assert(next.drop_last() =~= self.threads@.subrange(0, i as int));
                assert(next.last() == self.threads@[i as int]);
                lemma_totals_nonneg(self.threads@.subrange(0, i as int));
            }
            stats_delta.accumulate(&self.threads[i].stats_delta);
            i += 1;
        }
        assert(self.threads@.subrange(0, num_threads as int) =~= self.threads@);
        stats_delta.blkio_delay_total = stats_delta.blkio_delay_total / (num_threads as u64);
        stats_delta.swapin_delay_total = stats_delta.swapin_delay_total / (num_threads as u64);
        self.stats_delta = stats_delta;
        self.stats_accum.accumulate(&stats_delta);
        true
    }

    /// The place of the thread `tid` among the threads, or their number.
    pub fn thread_index(&self, tid: i32) -> (r: usize)
        ensures
            r == thread_from(self@.threads, tid, 0),
            r <= self@.threads.len(),
    {
        let mut i: usize = 0;
        while i < self.threads.len() && self.threads[i].tid != tid
            invariant
                i <= self.threads@.len(),
                thread_from(self.threads@, tid, 0) == thread_from(self.threads@, tid, i as int),
            decreases self.threads@.len() - i,
        {
            i += 1;
        }
        i
    }

    /// Takes in the outcome of sampling the thread `tid`, which joins the
    /// entry's threads where it was not among them. Returns the bytes read
    /// and written that the sample adds to this interval.
    pub fn record_sample(&mut self, tid: i32, sample: Option<TaskStats>) -> (r: (u64, u64))
        ensures
            final(self)@ == old(self)@.sampled(tid, sample),
            r == old(self)@.sample_io(tid, sample),
            old(self)@.well_formed() ==> final(self)@.well_formed(),
    {
        proof {
            if old(self)@.well_formed() {
                lemma_sampled_well_formed(old(self)@, tid, sample);
            }
        }
        let i = self.thread_index(tid);
        if i == self.threads.len() {
            self.threads.push(ThreadInfo::new(tid));
        }
        let mut thread = self.threads[i];
        let r = collect_thread_stats(&mut thread, sample);
        self.threads.set(i, thread);
        assert(self.threads@ =~= old(self)@.sampled(tid, sample).threads);
        r
    }
}

/// Takes the outcome of sampling a thread in. A failed attempt leaves the
/// thread as it was and adds nothing.
pub fn collect_thread_stats(thread: &mut ThreadInfo, sample: Option<TaskStats>) -> (r: (u64, u64))
    ensures
        *final(thread) == old(thread).spec_collect(sample),
        r == old(thread).spec_io(sample),
{
    match sample {
        Some(stats) => {
            thread.update_stats(stats);
            (thread.stats_delta.read_bytes, thread.stats_delta.write_bytes)
        },
        None => (0, 0),
    }
}

/// A process's aggregate sums the bytes of its threads' deltas and
/// averages their delays, each sum stopping at `u64::MAX`.
pub proof fn lemma_aggregate(p: ProcessView)
    requires
        p.threads.len() > 0,
    ensures
        p.aggregated().stats_delta.read_bytes == capped(totals(p.threads).read_bytes),
        p.aggregated().stats_delta.write_bytes == capped(totals(p.threads).write_bytes),
        p.aggregated().stats_delta.cancelled_write_bytes == capped(
            totals(p.threads).cancelled_write_bytes,
        ),
        p.aggregated().stats_delta.blkio_delay_total == capped(
            totals(p.threads).blkio_delay_total,
        ) as int / (p.threads.len() as int),
        p.aggregated().stats_delta.swapin_delay_total == capped(
            totals(p.threads).swapin_delay_total,
        ) as int / (p.threads.len() as int),
{
    lemma_totals_nonneg(p.threads);
    let n = p.threads.len() as int;
    let b = capped(totals(p.threads).blkio_delay_total) as int;
    let s = capped(totals(p.threads).swapin_delay_total) as int;
    assert(0 <= b / n <= b) by (nonlinear_arith)
        requires
            b >= 0,
            n > 0,
    ;
    assert(0 <= s / n <= s) by (nonlinear_arith)
        requires
            s >= 0,
            n > 0,
    ;
}

/// Sampling a thread keeps an entry well formed: the thread is found
/// where it is known and joins the others only where it is not.
pub proof fn lemma_sampled_well_formed(p: ProcessView, tid: i32, sample: Option<TaskStats>)
    requires
        p.well_formed(),
    ensures
        p.sampled(tid, sample).well_formed(),
        p.sampled(tid, sample).aggregated().well_formed(),
        p.sampled(tid, sample).threads.len() > 0,
{
    lemma_thread_from(p.threads, tid, 0);
    let q = p.sampled(tid, sample);
    let known = p.threads_with(tid);
    assert forall|i: int, j: int| 0 <= i < j < q.threads.len() implies (#[trigger] q.threads[i]).tid
        != (#[trigger] q.threads[j]).tid by {
        assert(q.threads[i].tid == known[i].tid);
        assert(q.threads[j].tid == known[j].tid);
        if j < p.threads.len() {
            assert(p.threads[i].tid != p.threads[j].tid);
        }
    }
}

/// Folding the threads in never lowers a running total.
pub proof fn lemma_accum_grows(p: ProcessView)
    ensures
        p.aggregated().stats_accum.ge(p.stats_accum),
{
}

} // verus!
