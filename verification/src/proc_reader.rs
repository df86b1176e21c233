//! What the files of one task under `/proc` say: the status fields, the
//! nice value, and the command line as it is shown.

use crate::ioprio::{get_ioprio_string, priority_text, Ioprio};
use crate::proc_cache::{proc_path, task_path, ProcCache};
use crate::text::{
    append_chars, chars_of, find_char, find_from, is_word, lemma_find_from, nth_word,
    parse_decimal, parse_i32, rfind_char, rfind_end, same_chars, slice_of, string_of, trim,
    trimmed, word_at,
};
use vstd::prelude::*;

verus! {

/// Why the files of a task could not be understood.
#[derive(Debug, Clone, Copy, PartialEq, Eq, Structural)]
pub enum ProcError {
    /// The status file lacks a name, a thread-group id or a task id, or
    /// one of the ids is no number.
    InvalidStatus,
    /// The stat file holds no parenthesised command name.
    InvalidStat,
    /// Fewer than seventeen fields follow the command name.
    StatTooShort,
    /// The nice field is no number.
    InvalidNice,
}

/// The fields read from a status file.
pub struct StatusFields {
    pub name: Seq<char>,
    pub tgid: i32,
    pub pid: i32,
}

/// The fields of `/proc/<pid>/status` that the monitor uses.
#[derive(Debug, Clone)]
pub struct ProcStatus {
    pub name: String,
    pub tgid: i32,
    pub pid: i32,
}

impl View for ProcStatus {
    type V = StatusFields;

    open spec fn view(&self) -> StatusFields {
        StatusFields { name: self.name@, tgid: self.tgid, pid: self.pid }
    }
}

/// The number that leads the value of a status line.
pub open spec fn status_number(value: Seq<char>) -> Option<i32> {
    match nth_word(value, 0, 0) {
        None => None,
        Some(w) => match parse_decimal(w, i32::MIN as int, i32::MAX as int) {
            None => None,
            Some(n) => Some(n as i32),
        },
    }
}

/// The fields after one more line: a line `key: value` whose key is
/// `Name`, `Tgid` or `Pid` sets that field; an id that is no number makes
/// the whole file invalid; any other line changes nothing.
pub open spec fn status_line(line: Seq<char>, acc: StatusFields) -> Option<StatusFields> {
    let colon = find_from(line, ':', 0);
    let key = trimmed(line.subrange(0, colon));
    let value = line.subrange(colon + 1, line.len() as int);
    if colon >= line.len() {
        Some(acc)
    } else if key == "Name"@ {
        Some(StatusFields { name: trimmed(value), ..acc })
    } else if key == "Tgid"@ {
        match status_number(value) {
            Some(n) => Some(StatusFields { tgid: n, ..acc }),
            None => None,
        }
    } else if key == "Pid"@ {
        match status_number(value) {
            Some(n) => Some(StatusFields { pid: n, ..acc }),
            None => None,
        }
    } else {
        Some(acc)
    }
}

/// The fields after the lines of `s` from position `from` on.
pub open spec fn status_from(s: Seq<char>, from: int, acc: StatusFields) -> Option<StatusFields>
    decreases s.len() - from,
{
    let end = find_from(s, '\n', from);
    if from < 0 || from > s.len() || end < from {
        None
    } else {
        match status_line(s.subrange(from, end), acc) {
            None => None,
            Some(next) => if end >= s.len() {
                Some(next)
            } else {
                status_from(s, end + 1, next)
            },
        }
    }
}

/// What a status file says, where it names the task and gives both ids.
pub open spec fn spec_parse_status(s: Seq<char>) -> Option<StatusFields> {
    match status_from(s, 0, StatusFields { name: Seq::empty(), tgid: 0, pid: 0 }) {
        None => None,
        Some(f) => if f.name.len() == 0 || f.tgid == 0 || f.pid == 0 {
            None
        } else {
            Some(f)
        },
    }
}

/// The nice value in a stat file: the seventeenth field after the last
/// closing parenthesis.
pub open spec fn spec_nice(s: Seq<char>) -> Result<i32, ProcError> {
    let close = rfind_end(s, ')', s.len() as int);
    if find_from(s, '(', 0) >= s.len() || close == 0 {
        Err(ProcError::InvalidStat)
    } else {
        match nth_word(s, close, 16) {
            None => Err(ProcError::StatTooShort),
            Some(w) => match parse_decimal(w, i32::MIN as int, i32::MAX as int) {
                None => Err(ProcError::InvalidNice),
                Some(n) => Ok(n as i32),
            },
        }
    }
}

/// The least index at or after `from` that holds no NUL, or the length of `s`.
pub open spec fn skip_nul(s: Seq<char>, from: int) -> int
    decreases s.len() - from,
{
    if from < 0 || from >= s.len() {
        s.len() as int
    } else if s[from] != '\0' {
        from
    } else {
        skip_nul(s, from + 1)
    }
}

/// The arguments from position `from` on, each with a space before it:
/// NULs are dropped, and a space stands where an argument begins.
pub open spec fn spaced_args(s: Seq<char>, from: int) -> Seq<char>
    decreases s.len() - from,
{
    if from < 1 || from >= s.len() {
        Seq::empty()
    } else if s[from] == '\0' {
        spaced_args(s, from + 1)
    } else if s[from - 1] == '\0' {
        seq![' ', s[from]] + spaced_args(s, from + 1)
    } else {
        seq![s[from]] + spaced_args(s, from + 1)
    }
}

/// The program's name as shown: the part after the last `/`, or all of
/// it where it holds no `/` or a `:` stands before its first `/`.
pub open spec fn basename(first: Seq<char>) -> Seq<char> {
    let slash = find_from(first, '/', 0);
    let colon = find_from(first, ':', 0);
    if slash >= first.len() || colon < slash {
        first
    } else {
        first.subrange(rfind_end(first, '/', first.len() as int), first.len() as int)
    }
}

/// A name in square brackets.
pub open spec fn bracketed(name: Seq<char>) -> Seq<char> {
    seq!['['] + name + seq![']']
}

/// The command as shown for a task. `leader` is the name of the thread
/// group's main task where that is known.
pub open spec fn spec_cmdline(
    content: Seq<char>,
    pid: i32,
    tid: i32,
    thread_name: Seq<char>,
    leader: Option<Seq<char>>,
) -> Seq<char> {
    let start = skip_nul(content, 0);
    let end = find_from(content, '\0', start);
    let cmd = basename(content.subrange(start, end)) + spaced_args(content, end);
    if start >= content.len() {
        bracketed(thread_name)
    } else if pid != tid && leader is Some && leader->0 != thread_name {
        cmd + seq![' '] + bracketed(thread_name)
    } else {
        cmd
    }
}

/// The view of an optional string slice.
pub open spec fn opt_view(s: Option<&str>) -> Option<Seq<char>> {
    match s {
        Some(s) => Some(s@),
        None => None,
    }
}

/// The name in a thread-group leader's status file, where the file is
/// there and valid.
pub open spec fn leader_name(leader_status: Option<Seq<char>>) -> Option<Seq<char>> {
    match leader_status {
        None => None,
        Some(s) => match spec_parse_status(s) {
            None => None,
            Some(f) => Some(f.name),
        },
    }
}

impl ProcStatus {
    /// Reads the content of a status file.
    pub fn parse(content: &str) -> (r: Option<ProcStatus>)
        ensures
            r is Some <==> spec_parse_status(content@) is Some,
            r is Some ==> r->0@ == spec_parse_status(content@)->0,
    {
        let v = chars_of(content);
        let mut name: Vec<char> = Vec::new();
        let mut tgid: i32 = 0;
        let mut pid: i32 = 0;
        let mut pos: usize = 0;
        let ghost init = StatusFields { name: Seq::empty(), tgid: 0, pid: 0 };
        loop
            invariant
                pos <= v@.len(),
                v@ == content@,
                init == (StatusFields { name: Seq::empty(), tgid: 0, pid: 0 }),
                status_from(v@, 0, init) == status_from(
                    v@,
                    pos as int,
                    StatusFields { name: name@, tgid, pid },
                ),
            ensures
                status_from(v@, 0, init) == Some(StatusFields { name: name@, tgid, pid }),
            decreases v@.len() - pos,
        {
            let ghost acc = StatusFields { name: name@, tgid, pid };
            let end = find_char(&v, '\n', pos);
            let line = slice_of(&v, pos, end);
            let colon = find_char(&line, ':', 0);
            assert(status_from(v@, pos as int, acc) == match status_line(line@, acc) {
                None => None,
                Some(next) => if end >= v@.len() {
                    Some(next)
                } else {
                    status_from(v@, end + 1, next)
                },
            });
            if colon < line.len() {
                let key = trim(&slice_of(&line, 0, colon));
                let value = slice_of(&line, colon + 1, line.len());
                if is_word(&key, "Name") {
                    name = trim(&value);
                } else if is_word(&key, "Tgid") {
                    match Self::number(&value) {
                        Some(n) => {
                            tgid = n;
                        },
                        None => {
                            assert(status_line(line@, acc) is None);
                            return None;
                        },
                    }
                } else if is_word(&key, "Pid") {
                    match Self::number(&value) {
                        Some(n) => {
                            pid = n;
                        },
                        None => {
                            assert(status_line(line@, acc) is None);
                            return None;
                        },
                    }
                }
            }
            assert(status_line(line@, acc) == Some(StatusFields { name: name@, tgid, pid }));
            if end >= v.len() {
                break ;
            }
            pos = end + 1;
        }
        if name.len() == 0 || tgid == 0 || pid == 0 {
            return None;
        }
        Some(ProcStatus { name: string_of(&name), tgid, pid })
    }

    fn number(value: &Vec<char>) -> (r: Option<i32>)
        ensures
            r == status_number(value@),
    {
        match word_at(value, 0, 0) {
            None => None,
            Some(w) => parse_i32(&w),
        }
    }
}

/// What is known of a task when it is first shown.
pub struct MetadataFields {
    pub pid: i32,
    pub tid: i32,
    pub uid: u32,
    pub cmdline: Seq<char>,
    pub priority_str: Seq<char>,
}

/// Bundle of task metadata for initialization.
#[derive(Debug, Clone)]
pub struct ProcessMetadata {
    pub pid: i32,
    pub tid: i32,
    pub uid: u32,
    pub cmdline: String,
    pub priority_str: String,
}

impl View for ProcessMetadata {
    type V = MetadataFields;

    open spec fn view(&self) -> MetadataFields {
        MetadataFields {
            pid: self.pid,
            tid: self.tid,
            uid: self.uid,
            cmdline: self.cmdline@,
            priority_str: self.priority_str@,
        }
    }
}

/// The metadata that the files of a task give. The priority is the one
/// that `ioprio_get` returned in `ioprio` or, where that says nothing, the
/// one derived from the scheduler policy and the nice value of the stat file.
pub open spec fn spec_metadata(
    pid: i32,
    uid: u32,
    status: Seq<char>,
    stat: Seq<char>,
    cmdline: Seq<char>,
    leader_status: Option<Seq<char>>,
    ioprio: i64,
    policy: i32,
) -> Result<MetadataFields, ProcError> {
    match spec_parse_status(status) {
        None => Err(ProcError::InvalidStatus),
        Some(st) => match spec_nice(stat) {
            Err(e) => Err(e),
            Ok(nice) => Ok(
                MetadataFields {
                    pid: st.tgid,
                    tid: st.pid,
                    uid,
                    cmdline: spec_cmdline(cmdline, pid, st.pid, st.name, leader_name(leader_status)),
                    priority_str: priority_text(Ioprio::spec_effective(ioprio, policy, nice)),
                },
            ),
        },
    }
}

/// Reader for the files of the task `tid`, with the contents it has read.
pub struct ProcReader {
    pub tid: i32,
    pub cache: ProcCache,
}

impl ProcReader {
    pub fn new(tid: i32) -> (r: ProcReader)
        ensures
            r.tid == tid,
            r.cache.entries@.len() == 0,
    {
        ProcReader { tid, cache: ProcCache::new() }
    }

    /// The path of the task's directory, whose owner is the task's owner.
    pub fn dir_path(&self) -> (r: String)
        ensures
            r@ == proc_path(self.tid, Seq::empty()),
    {
        let r = task_path(self.tid, "");
        assert(""@ =~= Seq::<char>::empty()) by {
            reveal_strlit("");
        }
        r
    }

    /// The path of the task's status file, which is kept for ever.
    pub fn status_path(&self) -> (r: String)
        ensures
            r@ == proc_path(self.tid, "/status"@),
    {
        task_path(self.tid, "/status")
    }

    /// The path of the task's stat file, which is kept for two seconds.
    pub fn stat_path(&self) -> (r: String)
        ensures
            r@ == proc_path(self.tid, "/stat"@),
    {
        task_path(self.tid, "/stat")
    }

    /// The path of the cmdline file of the task `pid`, which is kept for ever.
    pub fn cmdline_path(&self, pid: i32) -> (r: String)
        ensures
            r@ == proc_path(pid, "/cmdline"@),
    {
        task_path(pid, "/cmdline")
    }

    /// Reads the content of the task's status file.
    pub fn status(&self, content: &str) -> (r: Result<ProcStatus, ProcError>)
        ensures
            r is Ok <==> spec_parse_status(content@) is Some,
            r is Ok ==> r->Ok_0@ == spec_parse_status(content@)->0,
            r is Err ==> r->Err_0 == ProcError::InvalidStatus,
    {
        match ProcStatus::parse(content) {
            Some(s) => Ok(s),
            None => Err(ProcError::InvalidStatus),
        }
    }

    /// Extracts the nice value from the content of the task's stat file.
    pub fn read_nice(&self, content: &str) -> (r: Result<i32, ProcError>)
        ensures
            r == spec_nice(content@),
    {
        let v = chars_of(content);
        let open = find_char(&v, '(', 0);
        let close = rfind_char(&v, ')');
        if open >= v.len() || close == 0 {
            return Err(ProcError::InvalidStat);
        }
        match word_at(&v, close, 16) {
            None => Err(ProcError::StatTooShort),
            Some(w) => match parse_i32(&w) {
                None => Err(ProcError::InvalidNice),
                Some(n) => Ok(n),
            },
        }
    }

    /// Turns the content of a cmdline file into the command as shown.
    /// `pid` is the task whose cmdline this is, `tid` and `thread_name`
    /// come from the status file of the task shown, and `leader_status` is
    /// the content of the status file of its thread group's main task,
    /// where that could be read.
    pub fn parse_cmdline(
        content: &str,
        pid: i32,
        tid: i32,
        thread_name: &str,
        leader_status: Option<&str>,
    ) -> (r: Result<String, ProcError>)
        ensures
            r is Ok,
            r->Ok_0@ == spec_cmdline(
                content@,
                pid,
                tid,
                thread_name@,
                leader_name(opt_view(leader_status)),
            ),
    {
        let v = chars_of(content);
        let name = chars_of(thread_name);
        let mut start: usize = 0;
        while start < v.len() && v[start] == '\0'
            invariant
                start <= v@.len(),
                skip_nul(v@, 0) == skip_nul(v@, start as int),
            decreases v@.len() - start,
        {
            start += 1;
        }
        if start >= v.len() {
            return Ok(string_of(&Self::in_brackets(&name)));
        }
        let end = find_char(&v, '\0', start);
        let first = slice_of(&v, start, end);
        let mut cmd = Self::strip_directory(&first);
        let mut i: usize = end;
        assert(end >= 1);
        while i < v.len()
            invariant
                1 <= end <= i <= v@.len(),
                cmd@ + spaced_args(v@, i as int) == basename(first@) + spaced_args(v@, end as int),
            decreases v@.len() - i,
        {
            let ghost before = cmd@;
            if v[i] != '\0' {
                if v[i - 1] == '\0' {
                    cmd.push(' ');
                }
                cmd.push(v[i]);
            }
            assert(cmd@ + spaced_args(v@, i + 1) =~= before + spaced_args(v@, i as int));
            i += 1;
        }
        assert(cmd@ + spaced_args(v@, i as int) =~= cmd@);
        if pid != tid {
            if let Some(ls) = leader_status {
                if let Some(leader) = ProcStatus::parse(ls) {
                    let leader_chars = chars_of(leader.name.as_str());
                    if !same_chars(&name, &leader_chars) {
                        cmd.push(' ');
                        let b = Self::in_brackets(&name);
                        append_chars(&mut cmd, &b);
                    }
                }
            }
        }
        Ok(string_of(&cmd))
    }

    fn in_brackets(name: &Vec<char>) -> (r: Vec<char>)
        ensures
            r@ == bracketed(name@),
    {
        let mut out: Vec<char> = Vec::new();
        out.push('[');
        append_chars(&mut out, name);
        out.push(']');
        assert(out@ =~= bracketed(name@));
        out
    }

    fn strip_directory(first: &Vec<char>) -> (r: Vec<char>)
        ensures
            r@ == basename(first@),
    {
        let slash = find_char(first, '/', 0);
        let colon = find_char(first, ':', 0);
        if slash >= first.len() || colon < slash {
            assert(first@.subrange(0, first@.len() as int) =~= first@);
            slice_of(first, 0, first.len())
        } else {
            let after_slash = rfind_char(first, '/');
            slice_of(first, after_slash, first.len())
        }
    }

    /// Gathers what is shown of a task from its owner, the contents of its
    /// status, stat and cmdline files, the result of `ioprio_get` for it
    /// (negative: the call failed) and its scheduler policy. `pid` is the
    /// task whose cmdline was read.
    pub fn metadata_bundle(
        &self,
        pid: i32,
        uid: u32,
        status: &str,
        stat: &str,
        cmdline: &str,
        leader_status: Option<&str>,
        ioprio: i64,
        policy: i32,
    ) -> (r: Result<ProcessMetadata, ProcError>)
        ensures
            r is Ok <==> spec_metadata(
                pid,
                uid,
                status@,
                stat@,
                cmdline@,
                opt_view(leader_status),
                ioprio,
                policy,
            ) is Ok,
            r is Ok ==> r->Ok_0@ == spec_metadata(
                pid,
                uid,
                status@,
                stat@,
                cmdline@,
                opt_view(leader_status),
                ioprio,
                policy,
            )->Ok_0,
            r is Err ==> Err::<MetadataFields, ProcError>(r->Err_0) == spec_metadata(
                pid,
                uid,
                status@,
                stat@,
                cmdline@,
                opt_view(leader_status),
                ioprio,
                policy,
            ),
    {
        let st = match self.status(status) {
            Ok(st) => st,
            Err(e) => {
                return Err(e);
            },
        };
        let nice = match self.read_nice(stat) {
            Ok(n) => n,
            Err(e) => {
                return Err(e);
            },
        };
        let priority_str = get_ioprio_string(ioprio, policy, nice);
        let shown = match Self::parse_cmdline(cmdline, pid, st.pid, st.name.as_str(), leader_status) {
            Ok(c) => c,
            Err(e) => {
                return Err(e);
            },
        };
        Ok(ProcessMetadata { pid: st.tgid, tid: st.pid, uid, cmdline: shown, priority_str })
    }
}

/// An empty command line is that of a kernel thread, which is shown by
/// its name in square brackets.
pub proof fn lemma_kernel_thread(
    pid: i32,
    tid: i32,
    thread_name: Seq<char>,
    leader: Option<Seq<char>>,
)
    ensures
        spec_cmdline(Seq::empty(), pid, tid, thread_name, leader) == bracketed(thread_name),
{
}

/// A first argument with a `:` before its first `/` is kept as it stands.
pub proof fn lemma_colon_before_slash(first: Seq<char>, colon: int, slash: int)
    requires
        0 <= colon < slash < first.len(),
        first[colon] == ':',
        first[slash] == '/',
        forall|i: int| 0 <= i < slash ==> first[i] != '/',
    ensures
        basename(first) == first,
{
    lemma_find_from(first, '/', 0);
    lemma_find_from(first, ':', 0);
}

} // verus!
