//! The running task's accounting record: scheduling status, a counter per
//! syscall identifier, and the time since the task was first scheduled.
//! `sys_task_info` copies a snapshot of this record into user memory.

use vstd::prelude::*;
use crate::bytes::le_of;
use crate::bytes::counters_bytes;
use crate::bytes::push_le;
use crate::bytes::push_counters;
use crate::bytes::lemma_le_of_len;
use crate::bytes::lemma_counters_bytes_len;

verus! {

/// Bound of the per-task syscall counter table.  It is shared between the
/// syscall layer and the scheduler's accounting: both must agree on it or
/// counters would be written out of bounds.
pub const MAX_SYSCALL_NUM: usize = 500;

pub const SYSCALL_EXIT: usize = 93;
pub const SYSCALL_YIELD: usize = 124;
pub const SYSCALL_SET_PRIORITY: usize = 140;
pub const SYSCALL_GET_TIME: usize = 169;
pub const SYSCALL_MUNMAP: usize = 215;
pub const SYSCALL_MMAP: usize = 222;
pub const SYSCALL_TASK_INFO: usize = 410;

/// Size in bytes of an encoded `TaskInfo`: one status byte, four bytes per
/// counter, eight bytes of elapsed milliseconds.
pub const TASK_INFO_SIZE: usize = 1 + 4 * MAX_SYSCALL_NUM + 8;

/// Scheduling state of a task as the scheduler reports it.
#[derive(Clone, Copy, PartialEq, Eq, Structural, Debug)]
pub enum TaskStatus {
    UnInit,
    Ready,
    Running,
    Exited,
}

/// Snapshot of the running task's accounting record.
pub struct TaskInfo {
    pub status: TaskStatus,
    pub syscall_times: Vec<u32>,
    pub time: usize,
}

/// Wire value of a status in an encoded `TaskInfo`.
pub open spec fn status_code(s: TaskStatus) -> u8 {
    match s {
        TaskStatus::UnInit => 0,
        TaskStatus::Ready => 1,
        TaskStatus::Running => 2,
        TaskStatus::Exited => 3,
    }
}

pub fn encode_status(s: TaskStatus) -> (r: u8)
    ensures
        r == status_code(s),
{
    match s {
        TaskStatus::UnInit => 0,
        TaskStatus::Ready => 1,
        TaskStatus::Running => 2,
        TaskStatus::Exited => 3,
    }
}

/// One more recorded call of a syscall: the counter saturates at the top
/// of `u32` instead of wrapping.
pub open spec fn sat_inc(c: u32) -> u32 {
    if c == u32::MAX {
        c
    } else {
        (c + 1) as u32
    }
}

/// The counter table after recording one call of syscall `id` (a no-op
/// for an identifier outside the table).
pub open spec fn bump(times: Seq<u32>, id: int) -> Seq<u32> {
    if 0 <= id < times.len() {
        times.update(id, sat_inc(times[id]))
    } else {
        times
    }
}

/// The counter table after recording a whole sequence of calls.
pub open spec fn bump_all(times: Seq<u32>, ids: Seq<int>) -> Seq<u32>
    decreases ids.len(),
{
    if ids.len() == 0 {
        times
    } else {
        bump(bump_all(times, ids.drop_last()), ids.last())
    }
}

/// How many of the recorded calls hit syscall `k`.
pub open spec fn occurrences(ids: Seq<int>, k: int) -> nat
    decreases ids.len(),
{
    if ids.len() == 0 {
        0
    } else {
        occurrences(ids.drop_last(), k) + (if ids.last() == k {
            1nat
        } else {
            0nat
        })
    }
}

/// After any sequence of recorded syscalls, the counter of syscall `k`
/// reads exactly its old value plus the number of those calls that hit
/// `k`, saturated at the top of `u32` — so after `N` calls the reported
/// counter is at least `N` whenever the sum stays below the cap.
pub proof fn lemma_counter_accounts_calls(times: Seq<u32>, ids: Seq<int>, k: int)
    requires
        0 <= k < times.len(),
    ensures
        bump_all(times, ids).len() == times.len(),
        bump_all(times, ids)[k] as nat == if times[k] as nat + occurrences(ids, k)
            <= u32::MAX as nat {
            times[k] as nat + occurrences(ids, k)
        } else {
            u32::MAX as nat
        },
    decreases ids.len(),
{
    if ids.len() > 0 {
        lemma_counter_accounts_calls(times, ids.drop_last(), k);
    }
}

/// The bytes `sys_task_info` writes for a snapshot: the status code, each
/// counter as four little-endian bytes, then the elapsed milliseconds as
/// eight bytes.
pub open spec fn task_info_bytes(status: TaskStatus, times: Seq<u32>, time: nat) -> Seq<u8> {
    seq![status_code(status)] + counters_bytes(times) + le_of(time, 8)
}

pub proof fn lemma_task_info_bytes_len(status: TaskStatus, times: Seq<u32>, time: nat)
    ensures
        task_info_bytes(status, times, time).len() == 9 + 4 * times.len(),
{
    lemma_counters_bytes_len(times);
    lemma_le_of_len(time, 8);
}

/// Serialize a snapshot for the copy into user memory.
pub fn encode_task_info(ti: &TaskInfo) -> (out: Vec<u8>)
    ensures
        out@ == task_info_bytes(ti.status, ti.syscall_times@, ti.time as nat),
{
    let mut out: Vec<u8> = Vec::new();
    out.push(encode_status(ti.status));
    proof {
        assert(out@ =~= seq![status_code(ti.status)]);
    }
    push_counters(&mut out, &ti.syscall_times);
    push_le(&mut out, ti.time, 8);
    proof {
        assert(out@ =~= task_info_bytes(ti.status, ti.syscall_times@, ti.time as nat));
    }
    out
}

} // verus!
