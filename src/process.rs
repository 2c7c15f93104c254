//! Process-management system calls.
//!
//! Each call receives what it needs from the rest of the kernel as explicit
//! parameters: clock readings and the current task's record as values, the
//! physical segments that back a user destination as a list, and the actions
//! of the memory manager and scheduler as closures whose results are passed
//! through unchanged.
use vstd::prelude::*;

use crate::bytes::{le_bytes, push_le};
use crate::config::{MAX_SYSCALL_NUM, PAGE_SIZE};
use crate::task::{status_code, TaskStatus};
use crate::uaccess::{copy_kernel_result_to_user_space, scatter, segments_writable, Segment};

verus! {

/// Microseconds per second.
pub const MICROS_PER_SEC: usize = 1_000_000;

/// Size in bytes of a `TimeVal` in user memory.
pub const TIME_VAL_SIZE: usize = 16;

/// Size in bytes of a `TaskInfo` in user memory: a 4-byte status word, one
/// 4-byte counter per system call, 4 bytes of padding, the 8-byte time.
pub const TASK_INFO_SIZE: usize = 2016;

/// Seconds and microseconds.
#[derive(Clone, Copy, Debug, PartialEq, Eq, Structural)]
pub struct TimeVal {
    /// Second.
    pub sec: usize,
    /// Microsecond within the second.
    pub usec: usize,
}

/// Accounting record of a task.
///
/// Inside a task control block `time` is the moment the task was first
/// scheduled; in a record handed to user space it is the running time since
/// then. Both are in milliseconds.
#[derive(Clone, Copy)]
pub struct TaskInfo {
    /// Task status in its life cycle.
    pub status: TaskStatus,
    /// The number of times each system call was made by the task.
    pub syscall_times: [u32; MAX_SYSCALL_NUM],
    /// Start time (stored record) or elapsed time (user-visible record).
    pub time: usize,
}

/// The `TimeVal` for a microsecond count.
pub open spec fn time_val_of(us: usize) -> TimeVal {
    TimeVal { sec: us / MICROS_PER_SEC, usec: us % MICROS_PER_SEC }
}

/// Layout of a `TimeVal` in user memory: both fields as little-endian
/// 64-bit words.
pub open spec fn time_val_bytes(t: TimeVal) -> Seq<u8> {
    le_bytes(t.sec as nat, 8) + le_bytes(t.usec as nat, 8)
}

/// Little-endian 32-bit words, one after the other.
pub open spec fn u32s_le(s: Seq<u32>) -> Seq<u8>
    decreases s.len(),
{
    if s.len() == 0 {
        Seq::empty()
    } else {
        u32s_le(s.drop_last()) + le_bytes(s.last() as nat, 4)
    }
}

/// Layout of a `TaskInfo` in user memory.
pub open spec fn task_info_bytes(t: TaskInfo) -> Seq<u8> {
    le_bytes(status_code(t.status) as nat, 4) + u32s_le(t.syscall_times@) + le_bytes(0, 4)
        + le_bytes(t.time as nat, 8)
}

/// The user-visible record of a task whose stored record is `stored`, at
/// time `now_ms`: the same status and counters, and the time elapsed since
/// the stored start.
pub open spec fn task_info_at(stored: TaskInfo, now_ms: usize) -> TaskInfo {
    TaskInfo {
        status: stored.status,
        syscall_times: stored.syscall_times,
        time: (now_ms - stored.time) as usize,
    }
}

proof fn lemma_le_bytes_len(x: nat, n: nat)
    ensures
        le_bytes(x, n).len() == n,
    decreases n,
{
    if n > 0 {
        lemma_le_bytes_len(x / 256, (n - 1) as nat);
    }
}

proof fn lemma_u32s_le_len(s: Seq<u32>)
    ensures
        u32s_le(s).len() == 4 * s.len(),
    decreases s.len(),
{
    if s.len() > 0 {
        lemma_u32s_le_len(s.drop_last());
        lemma_le_bytes_len(s.last() as nat, 4);
    }
}

impl TimeVal {
    /// Splits a microsecond count into seconds and microseconds.
    pub fn from_micros(us: usize) -> (r: TimeVal)
        ensures
            r == time_val_of(us),
            r.sec == us / MICROS_PER_SEC,
            r.usec == us % MICROS_PER_SEC,
            r.sec * MICROS_PER_SEC + r.usec == us,
    {
        TimeVal { sec: us / MICROS_PER_SEC, usec: us % MICROS_PER_SEC }
    }

    /// The bytes of this value as laid out in user memory.
    pub fn to_bytes(&self) -> (r: Vec<u8>)
        ensures
            r@ == time_val_bytes(*self),
            r.len() == TIME_VAL_SIZE,
    {
        let mut out: Vec<u8> = Vec::new();
        push_le(&mut out, self.sec as u64, 8);
        push_le(&mut out, self.usec as u64, 8);
        assert(out@ =~= time_val_bytes(*self));
        proof {
            lemma_le_bytes_len(self.sec as nat, 8);
            lemma_le_bytes_len(self.usec as nat, 8);
        }
        out
    }
}

impl TaskInfo {
    /// The record handed to user space at time `now_ms`, for a task whose
    /// stored record is `self`. The stored record is left as it is.
    pub fn snapshot(&self, now_ms: usize) -> (r: TaskInfo)
        requires
            self.time <= now_ms,
        ensures
            r == task_info_at(*self, now_ms),
            r.status == self.status,
            r.syscall_times@ == self.syscall_times@,
            r.time == now_ms - self.time,
    {
        TaskInfo { status: self.status, syscall_times: self.syscall_times, time: now_ms - self.time }
    }

    /// The bytes of this record as laid out in user memory.
    pub fn to_bytes(&self) -> (r: Vec<u8>)
        ensures
            r@ == task_info_bytes(*self),
            r.len() == TASK_INFO_SIZE,
    {
        let mut out: Vec<u8> = Vec::new();
        push_le(&mut out, self.status.code() as u64, 4);
        let ghost head = out@;
        let ghost times = self.syscall_times@;
        let mut j: usize = 0;
        while j < MAX_SYSCALL_NUM
            invariant
                j <= MAX_SYSCALL_NUM,
                times == self.syscall_times@,
                times.len() == MAX_SYSCALL_NUM,
                out@ == head + u32s_le(times.subrange(0, j as int)),
            decreases MAX_SYSCALL_NUM - j,
        {
            push_le(&mut out, self.syscall_times[j] as u64, 4);
            proof {
                let next = times.subrange(0, j + 1);
                assert(next.drop_last() =~= times.subrange(0, j as int));
                assert(next.last() == times[j as int]);
            }
            j = j + 1;
        }
        assert(times.subrange(0, MAX_SYSCALL_NUM as int) =~= times);
        push_le(&mut out, 0, 4);
        push_le(&mut out, self.time as u64, 8);
        assert(out@ =~= task_info_bytes(*self));
        proof {
            lemma_le_bytes_len(status_code(self.status) as nat, 4);
            lemma_u32s_le_len(times);
            lemma_le_bytes_len(0, 4);
            lemma_le_bytes_len(self.time as nat, 8);
        }
        out
    }
}

/// `port` asks for some permission among read, write and execute, and for
/// nothing else.
pub open spec fn port_valid(port: usize) -> bool {
    1 <= port <= 7
}

/// `addr` lies on a page boundary.
pub open spec fn page_aligned(addr: usize) -> bool {
    addr % PAGE_SIZE == 0
}

/// A map request with these arguments passes validation.
pub open spec fn mmap_accepted(start: usize, port: usize) -> bool {
    port_valid(port) && page_aligned(start)
}

/// What `sys_sbrk` returns for the memory manager's answer.
pub open spec fn sbrk_result(answer: Option<usize>) -> isize {
    match answer {
        Some(old_brk) => #[verifier::truncate] (old_brk as isize),
        None => -1isize,
    }
}

/// A permission mask is accepted exactly when no bit above the low three is
/// set and at least one of the low three is.
pub proof fn lemma_port_mask(port: usize)
    ensures
        port_valid(port) <==> (port & !0x7usize == 0 && port & 0x7usize != 0),
{
    assert((1 <= port <= 7) <==> (port & !0x7usize == 0 && port & 0x7usize != 0)) by (bit_vector);
}

/// An address is page-aligned exactly when its low twelve bits are clear.
pub proof fn lemma_page_mask(addr: usize)
    ensures
        page_aligned(addr) <==> addr & ((PAGE_SIZE - 1) as usize) == 0,
{
    assert(addr % 0x1000usize == 0 <==> addr & 0xfffusize == 0) by (bit_vector);
}

/// Two accounting queries on the same stored record, at `t1` and then at
/// `t2`, report elapsed times that differ by exactly `t2 - t1`, and both
/// measure from the same stored start.
pub proof fn lemma_elapsed_tracks_clock(stored: TaskInfo, t1: usize, t2: usize)
    requires
        stored.time <= t1 <= t2,
    ensures
        task_info_at(stored, t2).time - task_info_at(stored, t1).time == t2 - t1,
        task_info_at(stored, t1).time + stored.time == t1,
        task_info_at(stored, t2).time + stored.time == t2,
{
}

/// The calling task exits with `exit_code`. The task table records the code,
/// ends the task and switches to the next one; control never comes back,
/// so no statement after the hand-off is reached. The contract states that
/// the hand-off was made with `exit_code`, which the precondition says
/// cannot complete: a caller learns that the call does not return.
pub fn sys_exit<F: FnOnce(i32)>(exit_code: i32, exit_current_and_run_next: F)
    requires
        exit_current_and_run_next.requires((exit_code,)),
        forall|u: ()| !exit_current_and_run_next.ensures((exit_code,), u),
    ensures
        exit_current_and_run_next.ensures((exit_code,), ()),
{
    exit_current_and_run_next(exit_code);
    assert(false);
}

/// The calling task gives up the rest of its quantum. The scheduler suspends
/// it and runs others; once the task is scheduled again, that is once the
/// hand-off has completed, the call returns 0.
pub fn sys_yield<F: FnOnce()>(suspend_current_and_run_next: F) -> (r: isize)
    requires
        suspend_current_and_run_next.requires(()),
    ensures
        suspend_current_and_run_next.ensures((), ()),
        r == 0,
{
    suspend_current_and_run_next();
    0
}

/// Writes the time `now_us` (microseconds since boot) as a `TimeVal` into
/// the user destination backed by `ts`, and returns 0. The zone argument is
/// accepted and ignored. If `ts` cannot receive a whole `TimeVal`, memory is
/// left as it is and -1 is returned.
pub fn sys_get_time(ts: &Vec<Segment>, _tz: usize, now_us: usize, mem: &mut Vec<u8>) -> (r: isize)
    ensures
        r == 0 || r == -1,
        r == 0 <==> segments_writable(ts@, old(mem).len() as int, TIME_VAL_SIZE as int),
        r == 0 ==> final(mem)@ == scatter(old(mem)@, ts@, time_val_bytes(time_val_of(now_us))),
        r != 0 ==> final(mem)@ == old(mem)@,
{
    let res = TimeVal::from_micros(now_us);
    let bytes = res.to_bytes();
    if copy_kernel_result_to_user_space(mem, ts, &bytes) {
        0
    } else {
        -1
    }
}

/// Writes the accounting record of the current task, whose stored record is
/// `current`, into the user destination backed by `ti`, and returns 0. The
/// record carries the stored status and counters and the time elapsed from
/// the stored start to `now_ms`. If `ti` cannot receive a whole `TaskInfo`,
/// memory is left as it is and -1 is returned.
pub fn sys_task_info(ti: &Vec<Segment>, current: &TaskInfo, now_ms: usize, mem: &mut Vec<u8>) -> (r: isize)
    requires
        current.time <= now_ms,
    ensures
        r == 0 || r == -1,
        r == 0 <==> segments_writable(ti@, old(mem).len() as int, TASK_INFO_SIZE as int),
        r == 0 ==> final(mem)@ == scatter(old(mem)@, ti@, task_info_bytes(task_info_at(*current, now_ms))),
        r != 0 ==> final(mem)@ == old(mem)@,
{
    let data = current.snapshot(now_ms);
    let bytes = data.to_bytes();
    if copy_kernel_result_to_user_space(mem, ti, &bytes) {
        0
    } else {
        -1
    }
}

/// Maps `len` bytes at `start` with permissions `port`. A `port` with a bit
/// above the low three, or with none of them, and a `start` off a page
/// boundary are rejected with -1 before the memory manager is asked;
/// otherwise `task_mmap` is called with the same arguments and its answer is
/// returned unchanged. The precondition of `task_mmap` is needed only for
/// accepted requests, so a memory manager that admits no other request is
/// never called with a rejected one.
pub fn sys_mmap<F: FnOnce(usize, usize, usize) -> isize>(start: usize, len: usize, port: usize, task_mmap: F) -> (r: isize)
    requires
        mmap_accepted(start, port) ==> task_mmap.requires((start, len, port)),
    ensures
        !mmap_accepted(start, port) ==> r == -1,
        mmap_accepted(start, port) ==> task_mmap.ensures((start, len, port), r),
{
    proof {
        lemma_port_mask(port);
        lemma_page_mask(start);
    }
    if port & !0x7 != 0 || port & 0x7 == 0 {
        return -1;
    }
    if start & (PAGE_SIZE - 1) != 0 {
        return -1;
    }
    task_mmap(start, len, port)
}

/// Unmaps `len` bytes at `start`. A `start` off a page boundary is rejected
/// with -1 before the memory manager is asked; otherwise `task_munmap` is
/// called with the same arguments and its answer is returned unchanged; as
/// for `sys_mmap`, the memory manager is never called with a rejected start.
pub fn sys_munmap<F: FnOnce(usize, usize) -> isize>(start: usize, len: usize, task_munmap: F) -> (r: isize)
    requires
        page_aligned(start) ==> task_munmap.requires((start, len)),
    ensures
        !page_aligned(start) ==> r == -1,
        page_aligned(start) ==> task_munmap.ensures((start, len), r),
{
    proof {
        lemma_page_mask(start);
    }
    if start & (PAGE_SIZE - 1) != 0 {
        return -1;
    }
    task_munmap(start, len)
}

/// Moves the program break by `size` bytes. `change_program_brk` answers
/// with the previous break, which is returned, or with nothing when the heap
/// cannot grow or shrink that far, in which case -1 is returned.
pub fn sys_sbrk<F: FnOnce(i32) -> Option<usize>>(size: i32, change_program_brk: F) -> (r: isize)
    requires
        change_program_brk.requires((size,)),
    ensures
        exists|answer: Option<usize>|
            change_program_brk.ensures((size,), answer) && r == sbrk_result(answer),
{
    let answer = change_program_brk(size);
    let r = if let Some(old_brk) = answer {
        #[verifier::truncate]
        (old_brk as isize)
    } else {
        -1
    };
    assert(change_program_brk.ensures((size,), answer) && r == sbrk_result(answer));
    r
}

} // verus!
