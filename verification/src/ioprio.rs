//! The kernel's packed I/O priority word, its text form, and the priority
//! derived from scheduler policy and nice value where none is set.

use crate::text::{
    chars_of, decimal, find_char, find_from, is_word, parse_decimal, parse_u32, push_decimal,
    slice_of, string_of,
};
use vstd::prelude::*;

verus! {

/// Number of bits that the class is shifted by in the packed word.
pub const IOPRIO_CLASS_SHIFT: u32 = 13;

/// Mask of the level bits in the packed word.
pub const IOPRIO_PRIO_MASK: u32 = 0x1fff;

/// Scheduler policies as the kernel numbers them.
pub const SCHED_FIFO: i32 = 1;

pub const SCHED_RR: i32 = 2;

pub const SCHED_IDLE: i32 = 5;

#[derive(Debug, Clone, Copy, PartialEq, Eq, Structural)]
pub enum IoprioClass {
    /// No class is set.
    NoClass,
    RealTime,
    BestEffort,
    Idle,
}

/// Why an I/O priority could not be had.
#[derive(Debug, Clone, Copy, PartialEq, Eq, Structural)]
pub enum IoprioError {
    /// The text before `/` is neither `rt` nor `be`.
    InvalidClass,
    /// The text after `/` is no unsigned number.
    InvalidData,
    /// The level is above 7.
    DataOutOfRange,
    /// The text is not `idle` and holds no `/`.
    InvalidFormat,
    /// The scheduler policy of the task could not be read.
    NoScheduler,
}

impl IoprioClass {
    pub open spec fn spec_from_u32(val: u32) -> Option<IoprioClass> {
        if val == 0 {
            Some(IoprioClass::NoClass)
        } else if val == 1 {
            Some(IoprioClass::RealTime)
        } else if val == 2 {
            Some(IoprioClass::BestEffort)
        } else if val == 3 {
            Some(IoprioClass::Idle)
        } else {
            None
        }
    }

    /// The kernel's number of the class.
    pub open spec fn number(self) -> u32 {
        match self {
            IoprioClass::NoClass => 0,
            IoprioClass::RealTime => 1,
            IoprioClass::BestEffort => 2,
            IoprioClass::Idle => 3,
        }
    }

    /// The short name of the class.
    pub open spec fn name(self) -> Seq<char> {
        match self {
            IoprioClass::NoClass => "none"@,
            IoprioClass::RealTime => "rt"@,
            IoprioClass::BestEffort => "be"@,
            IoprioClass::Idle => "idle"@,
        }
    }

    pub fn from_u32(val: u32) -> (r: Option<IoprioClass>)
        ensures
            r == Self::spec_from_u32(val),
    {
        if val == 0 {
            Some(IoprioClass::NoClass)
        } else if val == 1 {
            Some(IoprioClass::RealTime)
        } else if val == 2 {
            Some(IoprioClass::BestEffort)
        } else if val == 3 {
            Some(IoprioClass::Idle)
        } else {
            None
        }
    }

    pub fn to_u32(&self) -> (r: u32)
        ensures
            r == self.number(),
    {
        match self {
            IoprioClass::NoClass => 0,
            IoprioClass::RealTime => 1,
            IoprioClass::BestEffort => 2,
            IoprioClass::Idle => 3,
        }
    }

    pub fn as_str(&self) -> (r: &'static str)
        ensures
            r@ == self.name(),
    {
        match self {
            IoprioClass::NoClass => "none",
            IoprioClass::RealTime => "rt",
            IoprioClass::BestEffort => "be",
            IoprioClass::Idle => "idle",
        }
    }
}

/// An I/O priority: a class and, within it, a level.
#[derive(Debug, Clone, Copy, PartialEq, Eq, Structural)]
pub struct Ioprio {
    pub class: IoprioClass,
    pub data: u32,
}

/// The level that a nice value maps to: `(nice + 20) / 5`, kept within 0 to 7.
pub open spec fn nice_level(nice: int) -> int {
    if nice + 20 <= 0 {
        0
    } else if (nice + 20) / 5 >= 7 {
        7
    } else {
        (nice + 20) / 5
    }
}

/// The class that a scheduler policy maps to.
pub open spec fn sched_class(policy: i32) -> IoprioClass {
    if policy == SCHED_FIFO || policy == SCHED_RR {
        IoprioClass::RealTime
    } else if policy == SCHED_IDLE {
        IoprioClass::Idle
    } else {
        IoprioClass::BestEffort
    }
}

impl Ioprio {
    /// The priority that a packed word holds: the class in the three bits
    /// from bit 13 up (an unknown class counts as none), the level below.
    pub open spec fn spec_from_raw(raw: i32) -> Ioprio {
        let word = raw as u32;
        Ioprio {
            class: match IoprioClass::spec_from_u32((word >> 13) & 0x7) {
                Some(c) => c,
                None => IoprioClass::NoClass,
            },
            data: word & 0x1fff,
        }
    }

    /// The packed word of a priority.
    pub open spec fn spec_to_raw(self) -> i32 {
        ((self.class.number() << 13) | self.data) as i32
    }

    /// The text of a priority: `none`, `idle`, `rt/N` or `be/N`.
    pub open spec fn spec_to_chars(self) -> Seq<char> {
        match self.class {
            IoprioClass::NoClass => "none"@,
            IoprioClass::Idle => "idle"@,
            IoprioClass::RealTime => "rt"@ + seq!['/'] + decimal(self.data as nat),
            IoprioClass::BestEffort => "be"@ + seq!['/'] + decimal(self.data as nat),
        }
    }

    /// The priority that a text denotes, or why it denotes none.
    pub open spec fn spec_from_chars(s: Seq<char>) -> Result<Ioprio, IoprioError> {
        let slash = find_from(s, '/', 0);
        let class_str = s.subrange(0, slash);
        let data_str = s.subrange(slash + 1, s.len() as int);
        if s == "idle"@ {
            Ok(Ioprio { class: IoprioClass::Idle, data: 0 })
        } else if slash >= s.len() {
            Err(IoprioError::InvalidFormat)
        } else if class_str != "rt"@ && class_str != "be"@ {
            Err(IoprioError::InvalidClass)
        } else {
            match parse_decimal(data_str, 0, u32::MAX as int) {
                None => Err(IoprioError::InvalidData),
                Some(level) => if level > 7 {
                    Err(IoprioError::DataOutOfRange)
                } else {
                    Ok(
                        Ioprio {
                            class: if class_str == "rt"@ {
                                IoprioClass::RealTime
                            } else {
                                IoprioClass::BestEffort
                            },
                            data: level as u32,
                        },
                    )
                },
            }
        }
    }

    /// What the `ioprio_get` system call's result says by itself: nothing
    /// where the call failed or no class is set.
    pub open spec fn spec_from_syscall(result: i64) -> Option<Ioprio> {
        if result < 0 || Self::spec_from_raw(result as i32).class == IoprioClass::NoClass {
            None
        } else {
            Some(Self::spec_from_raw(result as i32))
        }
    }

    /// The priority derived from scheduler policy and nice value.
    pub open spec fn spec_from_sched(policy: i32, nice: i32) -> Result<Ioprio, IoprioError> {
        if policy < 0 {
            Err(IoprioError::NoScheduler)
        } else {
            Ok(Ioprio { class: sched_class(policy), data: nice_level(nice as int) as u32 })
        }
    }

    /// The effective priority of a task, from the system call's result and,
    /// where that says nothing, from the scheduler.
    pub open spec fn spec_effective(result: i64, policy: i32, nice: i32) -> Result<
        Ioprio,
        IoprioError,
    > {
        match Self::spec_from_syscall(result) {
            Some(p) => Ok(p),
            None => Self::spec_from_sched(policy, nice),
        }
    }

    pub fn new(class: IoprioClass, data: u32) -> (r: Ioprio)
        ensures
            r == (Ioprio { class, data }),
    {
        Ioprio { class, data }
    }

    pub fn from_raw(ioprio: i32) -> (r: Ioprio)
        ensures
            r == Self::spec_from_raw(ioprio),
    {
        let word: u32 = #[verifier::truncate]
        (ioprio as u32);
        let class_val: u32 = (word >> IOPRIO_CLASS_SHIFT) & 0x7;
        let data: u32 = word & IOPRIO_PRIO_MASK;
        let class = match IoprioClass::from_u32(class_val) {
            Some(c) => c,
            None => IoprioClass::NoClass,
        };
        Ioprio { class, data }
    }

    pub fn to_raw(self) -> (r: i32)
        ensures
            r == self.spec_to_raw(),
    {
        let c: u32 = self.class.to_u32();
        assert((c << 13) == (c << IOPRIO_CLASS_SHIFT));
        #[verifier::truncate]
        (((c << IOPRIO_CLASS_SHIFT) | self.data) as i32)
    }

    /// The priority as text.
    pub fn to_string(&self) -> (r: String)
        ensures
            r@ == self.spec_to_chars(),
    {
        let mut out: Vec<char> = chars_of(self.class.as_str());
        match self.class {
            IoprioClass::RealTime | IoprioClass::BestEffort => {
                out.push('/');
                assert(out@ =~= self.class.name() + seq!['/']);
                push_decimal(&mut out, self.data as u64);
            },
            _ => {},
        }
        string_of(&out)
    }

    pub fn from_string(s: &str) -> (r: Result<Ioprio, IoprioError>)
        ensures
            r == Self::spec_from_chars(s@),
    {
        let v = chars_of(s);
        if is_word(&v, "idle") {
            return Ok(Ioprio { class: IoprioClass::Idle, data: 0 });
        }
        let slash = find_char(&v, '/', 0);
        if slash >= v.len() {
            return Err(IoprioError::InvalidFormat);
        }
        let class_str = slice_of(&v, 0, slash);
        let data_str = slice_of(&v, slash + 1, v.len());
        let class = if is_word(&class_str, "rt") {
            IoprioClass::RealTime
        } else if is_word(&class_str, "be") {
            IoprioClass::BestEffort
        } else {
            return Err(IoprioError::InvalidClass);
        };
        match parse_u32(&data_str) {
            None => Err(IoprioError::InvalidData),
            Some(level) => {
                if level > 7 {
                    Err(IoprioError::DataOutOfRange)
                } else {
                    Ok(Ioprio { class, data: level })
                }
            },
        }
    }
}

/// Reads the result of the `ioprio_get` system call for one task. A
/// negative result is a failed call.
pub fn ioprio_from_syscall(result: i64) -> (r: Option<Ioprio>)
    ensures
        r == Ioprio::spec_from_syscall(result),
{
    if result < 0 {
        return None;
    }
    let ioprio = Ioprio::from_raw(#[verifier::truncate] (result as i32));
    match ioprio.class {
        IoprioClass::NoClass => None,
        _ => Some(ioprio),
    }
}

/// The level that goes with a nice value.
pub fn nice_to_level(nice: i32) -> (r: u32)
    ensures
        r == nice_level(nice as int),
        r <= 7,
{
    let shifted: i64 = nice as i64 + 20;
    if shifted <= 0 {
        0
    } else if shifted / 5 >= 7 {
        7
    } else {
        (shifted / 5) as u32
    }
}

/// Derives a priority from the task's scheduler policy, as
/// `sched_getscheduler` returned it (negative: the call failed), and its
/// nice value.
pub fn get_ioprio_from_sched(policy: i32, nice: i32) -> (r: Result<Ioprio, IoprioError>)
    ensures
        r == Ioprio::spec_from_sched(policy, nice),
{
    if policy < 0 {
        return Err(IoprioError::NoScheduler);
    }
    let data = nice_to_level(nice);
    let class = if policy == SCHED_FIFO || policy == SCHED_RR {
        IoprioClass::RealTime
    } else if policy == SCHED_IDLE {
        IoprioClass::Idle
    } else {
        IoprioClass::BestEffort
    };
    Ok(Ioprio::new(class, data))
}

/// The I/O priority of a task, given the result of `ioprio_get` for it
/// and its scheduler policy and nice value to fall back on.
pub fn get_ioprio(result: i64, policy: i32, nice: i32) -> (r: Result<Ioprio, IoprioError>)
    ensures
        r == Ioprio::spec_effective(result, policy, nice),
{
    match ioprio_from_syscall(result) {
        Some(p) => Ok(p),
        None => get_ioprio_from_sched(policy, nice),
    }
}

/// What is shown for a priority that may have failed to be read.
pub open spec fn priority_text(p: Result<Ioprio, IoprioError>) -> Seq<char> {
    match p {
        Ok(ioprio) => ioprio.spec_to_chars(),
        Err(_) => "?err"@,
    }
}

/// The priority of a task as text, `?err` where it cannot be had.
pub fn get_ioprio_string(result: i64, policy: i32, nice: i32) -> (r: String)
    ensures
        r@ == priority_text(Ioprio::spec_effective(result, policy, nice)),
{
    match get_ioprio(result, policy, nice) {
        Ok(ioprio) => ioprio.to_string(),
        Err(_) => string_of(&chars_of("?err")),
    }
}

/// Packing a priority whose level fits the thirteen level bits, and
/// unpacking the word, gives the priority back. Every level from 0 to 7 of
/// every class is such a priority.
pub proof fn lemma_raw_round_trip(p: Ioprio)
    requires
        p.data <= 0x1fff,
    ensures
        Ioprio::spec_from_raw(p.spec_to_raw()) == p,
{
    let c = p.class.number();
    let d = p.data;
    let w = (c << 13) | d;
    assert(w < 0x8000 && (w >> 13) & 0x7 == c && w & 0x1fff == d) by (bit_vector)
        requires
            c < 4,
            d <= 0x1fff,
            w == (c << 13) | d,
    ;
    assert((w as i32) as u32 == w);
}

/// The text `idle` denotes the idle class at level 0, and that priority is
/// written `idle`.
pub proof fn lemma_idle_round_trip()
    ensures
        Ioprio::spec_from_chars("idle"@) == Ok::<Ioprio, IoprioError>(
            Ioprio { class: IoprioClass::Idle, data: 0 },
        ),
        (Ioprio { class: IoprioClass::Idle, data: 0 }).spec_to_chars() == "idle"@,
{
}

} // verus!
