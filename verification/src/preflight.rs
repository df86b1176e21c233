//! The kernel features that the monitor cannot do without.

use vstd::prelude::*;

verus! {

/// A kernel feature that is missing.
#[derive(Debug, Clone, Copy, PartialEq, Eq, Structural)]
pub enum MissingRequirement {
    /// Per-task I/O accounting: `/proc/self/io` is not there.
    IoAccounting,
    /// VM event counters: `/proc/vmstat` is not there.
    VmEventCounters,
}

impl MissingRequirement {
    /// The text that names the kernel options to turn on.
    pub open spec fn text(self) -> Seq<char> {
        match self {
            MissingRequirement::IoAccounting => {
                "Could not run iotop as some of the requirements are not met:\n- Linux >= 2.6.20 with I/O accounting support \n(CONFIG_TASKSTATS, CONFIG_TASK_DELAY_ACCT, CONFIG_TASK_IO_ACCOUNTING, \nkernel.task_delayacct sysctl)"@
            },
            MissingRequirement::VmEventCounters => {
                "Could not run iotop as some of the requirements are not met:\n- Linux kernel with VM event counters (CONFIG_VM_EVENT_COUNTERS)"@
            },
        }
    }

    /// The kernel options to turn on.
    pub fn message(&self) -> (r: &'static str)
        ensures
            r@ == self.text(),
    {
        match self {
            MissingRequirement::IoAccounting => {
                "Could not run iotop as some of the requirements are not met:\n- Linux >= 2.6.20 with I/O accounting support \n(CONFIG_TASKSTATS, CONFIG_TASK_DELAY_ACCT, CONFIG_TASK_IO_ACCOUNTING, \nkernel.task_delayacct sysctl)"
            },
            MissingRequirement::VmEventCounters => {
                "Could not run iotop as some of the requirements are not met:\n- Linux kernel with VM event counters (CONFIG_VM_EVENT_COUNTERS)"
            },
        }
    }
}

/// Checks what was found at startup: whether `/proc/self/io` and
/// `/proc/vmstat` exist. The first that is missing is reported.
pub fn check_requirements(has_proc_self_io: bool, has_vmstat: bool) -> (r: Result<
    (),
    MissingRequirement,
>)
    ensures
        r == if !has_proc_self_io {
            Err::<(), MissingRequirement>(MissingRequirement::IoAccounting)
        } else if !has_vmstat {
            Err::<(), MissingRequirement>(MissingRequirement::VmEventCounters)
        } else {
            Ok::<(), MissingRequirement>(())
        },
{
    if !has_proc_self_io {
        return Err(MissingRequirement::IoAccounting);
    }
    if !has_vmstat {
        return Err(MissingRequirement::VmEventCounters);
    }
    Ok(())
}

} // verus!
