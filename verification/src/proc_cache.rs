//! A cache of file contents under two expiry policies, and the paths of
//! the files that are read for a task.

use crate::process::opt_chars;
use crate::taskstats::sat_sub;
use crate::text::{append_chars, chars_of, decimal, push_decimal, string_of};
use vstd::prelude::*;

verus! {

/// How long the stat file of a task is kept, in nanoseconds.
pub const STAT_TTL: u64 = 2_000_000_000;

/// How long a cached content stays valid.
#[derive(Debug, Clone, Copy, PartialEq, Eq, Structural)]
pub enum CacheTTL {
    /// For ever.
    Static,
    /// While fewer than this many nanoseconds have passed.
    Refresh(u64),
}

/// Whether a content cached at `timestamp` under `ttl` is still valid at `now`.
pub open spec fn valid_at(ttl: CacheTTL, timestamp: u64, now: u64) -> bool {
    match ttl {
        CacheTTL::Static => true,
        CacheTTL::Refresh(d) => sat_sub(now as int, timestamp as int) < d,
    }
}

/// A cached file content with the time it was read at.
pub struct CacheEntry {
    pub path: String,
    pub content: String,
    pub timestamp: u64,
    pub ttl: CacheTTL,
}

impl CacheEntry {
    pub fn new(path: String, content: String, ttl: CacheTTL, now: u64) -> (r: CacheEntry)
        ensures
            r.path == path,
            r.content == content,
            r.timestamp == now,
            r.ttl == ttl,
    {
        CacheEntry { path, content, timestamp: now, ttl }
    }

    /// Whether the entry is still valid at `now`.
    pub fn is_valid(&self, now: u64) -> (r: bool)
        ensures
            r == valid_at(self.ttl, self.timestamp, now),
    {
        match self.ttl {
            CacheTTL::Static => true,
            CacheTTL::Refresh(d) => now.saturating_sub(self.timestamp) < d,
        }
    }
}

/// The least index at or after `from` of an entry for `path`, or the
/// number of entries where there is none.
pub open spec fn entry_from(entries: Seq<CacheEntry>, path: Seq<char>, from: int) -> int
    decreases entries.len() - from,
{
    if from < 0 || from >= entries.len() {
        entries.len() as int
    } else if entries[from].path@ == path {
        from
    } else {
        entry_from(entries, path, from + 1)
    }
}

/// The index that `entry_from` gives is the one index with an entry for
/// `path` and none before it.
pub proof fn lemma_entry_from(entries: Seq<CacheEntry>, path: Seq<char>, from: int, i: int)
    requires
        0 <= from <= i <= entries.len(),
        i < entries.len() ==> entries[i].path@ == path,
        forall|k: int| from <= k < i ==> entries[k].path@ != path,
    ensures
        entry_from(entries, path, from) == i,
    decreases entries.len() - from,
{
    if from < i {
        lemma_entry_from(entries, path, from + 1, i);
    }
}

pub proof fn lemma_entry_found(entries: Seq<CacheEntry>, path: Seq<char>, from: int)
    requires
        0 <= from <= entries.len(),
    ensures
        from <= entry_from(entries, path, from) <= entries.len(),
        entry_from(entries, path, from) < entries.len() ==> entries[entry_from(
            entries,
            path,
            from,
        )].path@ == path,
        forall|k: int| from <= k < entry_from(entries, path, from) ==> entries[k].path@ != path,
    decreases entries.len() - from,
{
    if from < entries.len() && entries[from].path@ != path {
        lemma_entry_found(entries, path, from + 1);
    }
}

/// Cached file contents, one entry for each path.
pub struct ProcCache {
    pub entries: Vec<CacheEntry>,
}

impl ProcCache {
    /// The content that the cache holds for `path` and that is valid at `now`.
    pub open spec fn cached(&self, path: Seq<char>, now: u64) -> Option<Seq<char>> {
        let i = entry_from(self.entries@, path, 0);
        if i < self.entries@.len() && valid_at(
            self.entries@[i].ttl,
            self.entries@[i].timestamp,
            now,
        ) {
            Some(self.entries@[i].content@)
        } else {
            None
        }
    }

    pub fn new() -> (r: ProcCache)
        ensures
            r.entries@.len() == 0,
    {
        ProcCache { entries: Vec::new() }
    }

    fn index_of(&self, path: &String) -> (r: usize)
        ensures
            r == entry_from(self.entries@, path@, 0),
            r <= self.entries@.len(),
    {
        let mut i: usize = 0;
        while i < self.entries.len() && !(self.entries[i].path == *path)
            invariant
                i <= self.entries@.len(),
                entry_from(self.entries@, path@, 0) == entry_from(self.entries@, path@, i as int),
            decreases self.entries@.len() - i,
        {
            i += 1;
        }
        i
    }

    /// The cached content of `path`, where there is one that is valid at
    /// `now`. Where there is none, the file is to be read and stored.
    pub fn lookup(&self, path: &str, now: u64) -> (r: Option<String>)
        ensures
            opt_chars(r) == self.cached(path@, now),
    {
        let key = path.to_owned();
        let i = self.index_of(&key);
        if i < self.entries.len() && self.entries[i].is_valid(now) {
            Some(self.entries[i].content.clone())
        } else {
            None
        }
    }

    /// Stores the content read from `path` at `now`, in place of any
    /// earlier one. The contents of other paths stay as they are.
    pub fn store(&mut self, path: &str, content: &str, ttl: CacheTTL, now: u64)
        ensures
            forall|t: u64|
                #[trigger] final(self).cached(path@, t) == if valid_at(ttl, now, t) {
                    Some(content@)
                } else {
                    None
                },
            forall|q: Seq<char>, t: u64|
                q != path@ ==> #[trigger] final(self).cached(q, t) == old(self).cached(q, t),
    {
        let key = path.to_owned();
        let i = self.index_of(&key);
        let entry = CacheEntry::new(key, content.to_owned(), ttl, now);
        proof {
            lemma_entry_found(self.entries@, path@, 0);
        }
        if i < self.entries.len() {
            self.entries.set(i, entry);
        } else {
            self.entries.push(entry);
        }
        proof {
            let before = old(self).entries@;
            let after = self.entries@;
            lemma_entry_from(after, path@, 0, i as int);
            assert forall|q: Seq<char>, t: u64| q != path@ implies #[trigger] self.cached(q, t)
                == old(self).cached(q, t) by {
                lemma_entry_found(before, q, 0);
                let j = entry_from(before, q, 0);
                if j < before.len() {
                    lemma_entry_from(after, q, 0, j);
                } else {
                    lemma_entry_from(after, q, 0, after.len() as int);
                }
            }
        }
    }
}

/// A number in decimal, with `-` before a negative one.
pub open spec fn signed_decimal(n: int) -> Seq<char> {
    if n < 0 {
        seq!['-'] + decimal((-n) as nat)
    } else {
        decimal(n as nat)
    }
}

/// The path of a file of a task: `/proc/<id>` and, after it, `tail`.
pub open spec fn proc_path(id: i32, tail: Seq<char>) -> Seq<char> {
    "/proc/"@ + signed_decimal(id as int) + tail
}

/// Builds the path of a file of a task; `tail` is empty or starts with `/`.
pub fn task_path(id: i32, tail: &str) -> (r: String)
    ensures
        r@ == proc_path(id, tail@),
{
    let mut out = chars_of("/proc/");
    if id < 0 {
        out.push('-');
        push_decimal(&mut out, (0 - (id as i64)) as u64);
    } else {
        push_decimal(&mut out, id as u64);
    }
    assert(out@ =~= "/proc/"@ + signed_decimal(id as int));
    append_chars(&mut out, &chars_of(tail));
    string_of(&out)
}

} // verus!
