//! Child processes as the supervisor sees them: the handle of a spawned
//! process, what a wait for its exit reports, and the rule of a graceful
//! shutdown.

use vstd::prelude::*;
use vstd::string::StringExecFns;
use crate::text::{decimal, spec_decimal};

verus! {

/// The handle of a spawned child process.
#[derive(Debug, Clone)]
pub struct ProcessHandle {
    /// The process id; 0 where no process was spawned.
    pub pid: u32,
    /// The logical name, as it stands in the registry.
    pub name: String,
    /// The path of the binary.
    pub executable: String,
}

impl ProcessHandle {
    /// The handle of no process.
    pub fn invalid() -> (h: ProcessHandle)
        ensures
            h.pid == 0,
            h.name@ == Seq::<char>::empty(),
            h.executable@ == Seq::<char>::empty(),
    {
        ProcessHandle { pid: 0, name: String::new(), executable: String::new() }
    }

    /// The handle of the process `pid` that was spawned from `executable`
    /// under the logical name `name`.
    pub fn spawned(pid: u32, name: &str, executable: &str) -> (h: ProcessHandle)
        ensures
            h.pid == pid,
            h.name@ == name@,
            h.executable@ == executable@,
    {
        ProcessHandle { pid, name: String::from_str(name), executable: String::from_str(executable) }
    }

    /// Whether the handle stands for a process.
    pub fn valid(&self) -> (yes: bool)
        ensures
            yes == (self.pid > 0),
    {
        self.pid > 0
    }

    /// Whether the process of the handle is running, given whether the
    /// process `pid` is: the handle of no process never is.
    pub fn is_alive(&self, process_alive: bool) -> (yes: bool)
        ensures
            yes == (self.pid > 0 && process_alive),
    {
        if !self.valid() {
            return false;
        }
        process_alive
    }
}

/// What a wait for the exit of a process reports.
#[derive(Debug, Clone, Copy, PartialEq, Eq, Structural)]
pub struct WaitResult {
    /// Whether the process exited of its own.
    pub exited: bool,
    /// Its exit code, if it exited.
    pub exit_code: i32,
    /// Whether a signal ended the process.
    pub signaled: bool,
    /// That signal, if one did.
    pub signal: i32,
}

impl Default for WaitResult {
    fn default() -> (r: WaitResult)
        ensures
            r == (WaitResult { exited: false, exit_code: 0, signaled: false, signal: 0 }),
    {
        WaitResult { exited: false, exit_code: 0, signaled: false, signal: 0 }
    }
}

/// `libc::WIFEXITED` tells whether a wait status stands for a normal exit:
/// the low seven bits of the status are zero. This and the three contracts
/// below state what libc defines for Linux, the BSDs and macOS.
pub assume_specification[ libc::WIFEXITED ](status: libc::c_int) -> (exited: bool)
    ensures
        exited == ((status & 0x7f) == 0),
;

/// `libc::WEXITSTATUS` extracts the exit code from a wait status: bits 8 to
/// 15.
pub assume_specification[ libc::WEXITSTATUS ](status: libc::c_int) -> (code: libc::c_int)
    ensures
        code == ((status >> 8) & 0xff),
;

/// `libc::WIFSIGNALED` tells whether a wait status stands for a death by
/// signal: the low seven bits are neither zero nor all ones.
pub assume_specification[ libc::WIFSIGNALED ](status: libc::c_int) -> (signaled: bool)
    ensures
        signaled == ((status & 0x7f) != 0 && (status & 0x7f) != 0x7f),
;

/// `libc::WTERMSIG` extracts the signal from a wait status: the low seven
/// bits.
pub assume_specification[ libc::WTERMSIG ](status: libc::c_int) -> (signal: libc::c_int)
    ensures
        signal == (status & 0x7f),
;

/// What the wait status of a process that was waited for reports.
pub open spec fn spec_wait_result(status: i32) -> WaitResult {
    let low = status & 0x7f;
    WaitResult {
        exited: low == 0,
        exit_code: if low == 0 {
            (status >> 8) & 0xff
        } else {
            0
        },
        signaled: low != 0 && low != 0x7f,
        signal: if low != 0 && low != 0x7f {
            low
        } else {
            0
        },
    }
}

/// Decodes the wait status of a process that was waited for.
pub fn wait_result_from_status(status: i32) -> (r: WaitResult)
    ensures
        r == spec_wait_result(status),
        !(r.exited && r.signaled),
{
    let mut r = WaitResult::default();
    if libc::WIFEXITED(status) {
        r.exited = true;
        r.exit_code = libc::WEXITSTATUS(status);
    }
    if libc::WIFSIGNALED(status) {
        r.signaled = true;
        r.signal = libc::WTERMSIG(status);
    }
    r
}

/// What one poll of a wait for the exit of a process decides.
#[derive(Debug, Clone, Copy, PartialEq, Eq, Structural)]
pub enum WaitPoll {
    /// The wait is over with this report.
    Done(WaitResult),
    /// The caller sleeps and polls again.
    Sleep,
}

/// The process id as the system call takes it: the same 32 bits, signed.
pub open spec fn spec_pid_arg(pid: u32) -> int {
    if pid <= i32::MAX {
        pid as int
    } else {
        pid - 0x1_0000_0000
    }
}

/// What a poll decides. A call that returns the process id has reaped the
/// process, and its status is the report. A call that fails ends the wait
/// without a report, and so does a deadline that has passed. Anything else
/// sends the caller to sleep.
pub open spec fn spec_wait_step(ret: i32, pid: u32, status: i32, deadline_passed: bool) -> WaitPoll {
    if ret == spec_pid_arg(pid) {
        WaitPoll::Done(spec_wait_result(status))
    } else if ret == -1 || deadline_passed {
        WaitPoll::Done(WaitResult { exited: false, exit_code: 0, signaled: false, signal: 0 })
    } else {
        WaitPoll::Sleep
    }
}

/// Decides one poll of a wait for the exit of the process `pid`, from what
/// the system call returned (`ret`) and reported (`status`), and from
/// whether the deadline has passed.
pub fn wait_step(ret: i32, pid: u32, status: i32, deadline_passed: bool) -> (step: WaitPoll)
    ensures
        step == spec_wait_step(ret, pid, status, deadline_passed),
{
    let reaped: bool = if pid <= 0x7FFF_FFFF {
        ret as i64 == pid as i64
    } else {
        ret as i64 == pid as i64 - 0x1_0000_0000
    };
    if reaped {
        WaitPoll::Done(wait_result_from_status(status))
    } else if ret == -1 || deadline_passed {
        WaitPoll::Done(WaitResult::default())
    } else {
        WaitPoll::Sleep
    }
}

/// Decides how a wait begins: for the handle of no process there is nothing
/// to wait for, and the wait is over without a report.
pub fn wait_begin(h: &ProcessHandle) -> (over: Option<WaitResult>)
    ensures
        over == if h.pid > 0 {
            None::<WaitResult>
        } else {
            Some(WaitResult { exited: false, exit_code: 0, signaled: false, signal: 0 })
        },
{
    if !h.valid() {
        return Some(WaitResult::default());
    }
    None
}

/// What a graceful shutdown does next.
#[derive(Debug, Clone, Copy, PartialEq, Eq, Structural)]
pub enum ShutdownStep {
    /// The shutdown is over with this report.
    Done(WaitResult),
    /// The caller asks the process to end and waits for the grace period.
    RequestAndWait,
    /// The caller kills the process and waits for one second.
    KillAndWait,
}

/// Decides how a graceful shutdown begins: the handle of no process is done
/// at once, without a report; any other process is asked to end.
pub fn shutdown_begin(h: &ProcessHandle) -> (step: ShutdownStep)
    ensures
        step == if h.pid > 0 {
            ShutdownStep::RequestAndWait
        } else {
            ShutdownStep::Done(
                WaitResult { exited: false, exit_code: 0, signaled: false, signal: 0 },
            )
        },
{
    if !h.valid() {
        return ShutdownStep::Done(WaitResult::default());
    }
    ShutdownStep::RequestAndWait
}

/// Decides what follows the grace period of a shutdown: a process that
/// neither exited nor was signalled and still runs is killed; else the
/// shutdown is over with the report of the wait.
pub fn shutdown_after_grace(after_grace: WaitResult, process_alive: bool) -> (step: ShutdownStep)
    ensures
        step == if !after_grace.exited && !after_grace.signaled && process_alive {
            ShutdownStep::KillAndWait
        } else {
            ShutdownStep::Done(after_grace)
        },
{
    if needs_force_kill(&after_grace, process_alive) {
        ShutdownStep::KillAndWait
    } else {
        ShutdownStep::Done(after_grace)
    }
}

/// Whether a graceful shutdown goes on to kill the process: it does where
/// the wait for the grace period saw neither an exit nor a signal, and the
/// process is still running.
pub fn needs_force_kill(after_grace: &WaitResult, process_alive: bool) -> (kill: bool)
    ensures
        kill == (!after_grace.exited && !after_grace.signaled && process_alive),
{
    !after_grace.exited && !after_grace.signaled && process_alive
}

/// The arguments with which the instance `id` of a service is spawned: the
/// executable and the instance's number.
pub fn instance_argv(executable: &str, id: usize) -> (argv: Vec<String>)
    ensures
        argv@.len() == 2,
        argv@[0]@ == executable@,
        argv@[1]@ == spec_decimal(id as nat),
{
    let mut argv: Vec<String> = Vec::new();
    argv.push(String::from_str(executable));
    argv.push(decimal(id));
    argv
}

} // verus!
