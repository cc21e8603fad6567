//! The syscall handlers, over an explicit kernel-side picture of the
//! running task: its address space, the clock source, its scheduling
//! status and its accounting record.  Every handler returns a signed
//! result; negative means failure, and a handler that rejects a request
//! leaves the task's state unchanged apart from the recorded call.

use vstd::prelude::*;
use crate::space::AddressSpace;
use crate::space::PageModel;
use crate::space::mmap_spec;
use crate::space::munmap_spec;
use crate::space::wrote_bytes;
use crate::space::range_mapped;
use crate::space::MAX_FRAMES;
use crate::task::TaskStatus;
use crate::task::TaskInfo;
use crate::task::MAX_SYSCALL_NUM;
use crate::task::SYSCALL_EXIT;
use crate::task::SYSCALL_YIELD;
use crate::task::SYSCALL_SET_PRIORITY;
use crate::task::SYSCALL_GET_TIME;
use crate::task::SYSCALL_MMAP;
use crate::task::SYSCALL_MUNMAP;
use crate::task::SYSCALL_TASK_INFO;
use crate::task::TASK_INFO_SIZE;
use crate::task::bump;
use crate::task::sat_inc;
use crate::task::task_info_bytes;
use crate::task::encode_task_info;
use crate::task::lemma_task_info_bytes_len;
use crate::time::TIME_VAL_SIZE;
use crate::time::time_val_bytes;
use crate::time::time_val_from_us;
use crate::time::encode_time_val;

verus! {

/// Kernel-side state of the running task.  The collaborators the syscall
/// layer consumes — the page table, the frame allocator, the clock and the
/// scheduler's accounting — appear here as explicit fields.
pub struct Kernel {
    pub space: AddressSpace,
    pub clock_us: usize,
    pub first_scheduled_us: usize,
    pub status: TaskStatus,
    pub syscall_times: Vec<u32>,
    pub exit_code: i32,
}

/// The fields no syscall but `sys_exit` may touch: clock, scheduling
/// epoch, status and exit code.
pub open spec fn same_task_state(a: Kernel, b: Kernel) -> bool {
    &&& a.clock_us == b.clock_us
    &&& a.first_scheduled_us == b.first_scheduled_us
    &&& a.status == b.status
    &&& a.exit_code == b.exit_code
}

impl Kernel {
    pub open spec fn wf(&self) -> bool {
        &&& self.space.wf()
        &&& self.syscall_times@.len() == MAX_SYSCALL_NUM as nat
        &&& self.first_scheduled_us <= self.clock_us
    }

    /// A task just scheduled for the first time at clock reading `now_us`,
    /// owning `frames` physical frames, no pages mapped, all counters zero.
    pub fn new(frames: usize, now_us: usize) -> (k: Kernel)
        requires
            frames <= MAX_FRAMES,
        ensures
            k.wf(),
            k.space@.pages == Map::<nat, PageModel>::empty(),
            k.clock_us == now_us,
            k.first_scheduled_us == now_us,
            k.status == TaskStatus::Running,
            forall|i: int| 0 <= i < MAX_SYSCALL_NUM ==> k.syscall_times@[i] == 0,
            k.exit_code == 0,
    {
        let mut times: Vec<u32> = Vec::new();
        let mut i: usize = 0;
        while i < MAX_SYSCALL_NUM
            invariant
                i <= MAX_SYSCALL_NUM,
                times@.len() == i as nat,
                forall|j: int| 0 <= j < i ==> times@[j] == 0,
            decreases MAX_SYSCALL_NUM - i,
        {
            times.push(0u32);
            i = i + 1;
        }
        Kernel {
            space: AddressSpace::new(frames),
            clock_us: now_us,
            first_scheduled_us: now_us,
            status: TaskStatus::Running,
            syscall_times: times,
            exit_code: 0,
        }
    }

    /// The clock source only moves forward; it saturates at the top of
    /// `usize` rather than wrapping.
    pub fn advance_clock(&mut self, delta_us: usize)
        requires
            old(self).wf(),
        ensures
            final(self).wf(),
            final(self).clock_us as nat == if old(self).clock_us as nat + delta_us as nat
                <= usize::MAX as nat {
                old(self).clock_us as nat + delta_us as nat
            } else {
                usize::MAX as nat
            },
            old(self).clock_us <= final(self).clock_us,
            final(self).space == old(self).space,
            final(self).syscall_times == old(self).syscall_times,
            final(self).first_scheduled_us == old(self).first_scheduled_us,
            final(self).status == old(self).status,
            final(self).exit_code == old(self).exit_code,
    {
        self.clock_us = self.clock_us.saturating_add(delta_us);
    }

    /// Record one invocation of syscall `id` in the accounting table.
    fn count_syscall(&mut self, id: usize)
        requires
            old(self).wf(),
            id < MAX_SYSCALL_NUM,
        ensures
            final(self).wf(),
            final(self).syscall_times@ == bump(old(self).syscall_times@, id as int),
            final(self).space == old(self).space,
            same_task_state(*old(self), *final(self)),
    {
        let c = self.syscall_times[id];
        let nc: u32 = if c == u32::MAX {
            c
        } else {
            c + 1
        };
        self.syscall_times.set(id, nc);
        proof {
            assert(nc == sat_inc(old(self).syscall_times@[id as int]));
            assert(self.syscall_times@ =~= bump(old(self).syscall_times@, id as int));
        }
    }

    /// Snapshot of the running task's accounting record: its status, its
    /// counters, and the milliseconds since it was first scheduled.
    pub fn task_info(&self) -> (ti: TaskInfo)
        requires
            self.wf(),
        ensures
            ti.status == self.status,
            ti.syscall_times@ == self.syscall_times@,
            ti.time as nat == ((self.clock_us - self.first_scheduled_us) as nat) / 1000,
    {
        let mut times: Vec<u32> = Vec::new();
        let mut i: usize = 0;
        while i < self.syscall_times.len()
            invariant
                i <= self.syscall_times@.len(),
                times@ == self.syscall_times@.subrange(0, i as int),
            decreases self.syscall_times@.len() - i,
        {
            times.push(self.syscall_times[i]);
            proof {
                assert(times@ =~= self.syscall_times@.subrange(0, i + 1));
            }
            i = i + 1;
        }
        proof {
            assert(times@ =~= self.syscall_times@);
        }
        TaskInfo {
            status: self.status,
            syscall_times: times,
            time: (self.clock_us - self.first_scheduled_us) / 1000,
        }
    }
}

/// The task exits with `exit_code`.  The scheduler would never hand
/// control back to it; here that shows as the status changing to `Exited`
/// while everything else but the recorded call stays.
pub fn sys_exit(k: &mut Kernel, exit_code: i32)
    requires
        old(k).wf(),
    ensures
        final(k).wf(),
        final(k).status == TaskStatus::Exited,
        final(k).exit_code == exit_code,
        final(k).syscall_times@ == bump(old(k).syscall_times@, SYSCALL_EXIT as int),
        final(k).space == old(k).space,
        final(k).clock_us == old(k).clock_us,
        final(k).first_scheduled_us == old(k).first_scheduled_us,
{
    k.count_syscall(SYSCALL_EXIT);
    k.status = TaskStatus::Exited;
    k.exit_code = exit_code;
}

/// The running task gives the processor up for one scheduling round and is
/// later resumed; nothing in its own state changes beyond the recorded
/// call, and the result is always success.
pub fn sys_yield(k: &mut Kernel) -> (r: isize)
    requires
        old(k).wf(),
    ensures
        final(k).wf(),
        r == 0,
        final(k).syscall_times@ == bump(old(k).syscall_times@, SYSCALL_YIELD as int),
        final(k).space == old(k).space,
        same_task_state(*old(k), *final(k)),
{
    k.count_syscall(SYSCALL_YIELD);
    0
}

/// Priority scheduling is not part of this core: the call always signals
/// failure and changes nothing beyond the recorded call.
pub fn sys_set_priority(k: &mut Kernel, _prio: isize) -> (r: isize)
    requires
        old(k).wf(),
    ensures
        final(k).wf(),
        r == -1,
        final(k).syscall_times@ == bump(old(k).syscall_times@, SYSCALL_SET_PRIORITY as int),
        final(k).space == old(k).space,
        same_task_state(*old(k), *final(k)),
{
    k.count_syscall(SYSCALL_SET_PRIORITY);
    -1
}

/// Map a range of the task's address space; validation and effect are
/// exactly `mmap_spec` over the space's abstract image.
pub fn sys_mmap(k: &mut Kernel, start: usize, len: usize, port: usize) -> (r: isize)
    requires
        old(k).wf(),
    ensures
        final(k).wf(),
        r as int == mmap_spec(old(k).space@, start as nat, len as nat, port as nat).0,
        final(k).space@ == mmap_spec(old(k).space@, start as nat, len as nat, port as nat).1,
        final(k).syscall_times@ == bump(old(k).syscall_times@, SYSCALL_MMAP as int),
        same_task_state(*old(k), *final(k)),
{
    k.count_syscall(SYSCALL_MMAP);
    k.space.mmap(start, len, port)
}

/// Unmap a range of the task's address space; validation and effect are
/// exactly `munmap_spec` over the space's abstract image.
pub fn sys_munmap(k: &mut Kernel, start: usize, len: usize) -> (r: isize)
    requires
        old(k).wf(),
    ensures
        final(k).wf(),
        r as int == munmap_spec(old(k).space@, start as nat, len as nat).0,
        final(k).space@ == munmap_spec(old(k).space@, start as nat, len as nat).1,
        final(k).syscall_times@ == bump(old(k).syscall_times@, SYSCALL_MUNMAP as int),
        same_task_state(*old(k), *final(k)),
{
    k.count_syscall(SYSCALL_MUNMAP);
    k.space.munmap(start, len)
}

/// Read the clock and write its `(seconds, microseconds)` decomposition
/// through the translated user pointer `ts`.  When the buffer's range is
/// unmapped (or overflows the address width) the call fails with `-1` and
/// writes nothing, instead of faulting.  The timezone argument is a
/// reserved part of the call surface and is ignored.
pub fn sys_get_time(k: &mut Kernel, ts: usize, _tz: usize) -> (r: isize)
    requires
        old(k).wf(),
    ensures
        final(k).wf(),
        final(k).syscall_times@ == bump(old(k).syscall_times@, SYSCALL_GET_TIME as int),
        same_task_state(*old(k), *final(k)),
        final(k).space@.pages == old(k).space@.pages,
        ({
            let us = old(k).clock_us as nat;
            if ts as nat + TIME_VAL_SIZE as nat <= usize::MAX as nat
                && range_mapped(old(k).space@, ts as nat, TIME_VAL_SIZE as nat) {
                &&& r == 0
                &&& wrote_bytes(old(k).space@, final(k).space@, ts as nat, time_val_bytes(us))
            } else {
                &&& r == -1
                &&& final(k).space@ == old(k).space@
            }
        }),
{
    k.count_syscall(SYSCALL_GET_TIME);
    let tv = time_val_from_us(k.clock_us);
    let buf = encode_time_val(&tv);
    if ts > usize::MAX - TIME_VAL_SIZE {
        return -1;
    }
    let ok = k.space.write_bytes(ts, &buf);
    if ok {
        0
    } else {
        -1
    }
}

/// Write a snapshot of the running task's accounting record through the
/// translated user pointer `ti`.  The snapshot is taken after recording
/// this call itself, so its own counter is already included.  When the
/// buffer's range is unmapped (or overflows the address width) the call
/// fails with `-1` and writes nothing, instead of faulting.
pub fn sys_task_info(k: &mut Kernel, ti: usize) -> (r: isize)
    requires
        old(k).wf(),
    ensures
        final(k).wf(),
        final(k).syscall_times@ == bump(old(k).syscall_times@, SYSCALL_TASK_INFO as int),
        same_task_state(*old(k), *final(k)),
        final(k).space@.pages == old(k).space@.pages,
        ({
            let data = task_info_bytes(
                old(k).status,
                bump(old(k).syscall_times@, SYSCALL_TASK_INFO as int),
                ((old(k).clock_us - old(k).first_scheduled_us) as nat) / 1000,
            );
            if ti as nat + TASK_INFO_SIZE as nat <= usize::MAX as nat
                && range_mapped(old(k).space@, ti as nat, TASK_INFO_SIZE as nat) {
                &&& r == 0
                &&& wrote_bytes(old(k).space@, final(k).space@, ti as nat, data)
            } else {
                &&& r == -1
                &&& final(k).space@ == old(k).space@
            }
        }),
{
    k.count_syscall(SYSCALL_TASK_INFO);
    let info = k.task_info();
    let buf = encode_task_info(&info);
    proof {
        lemma_task_info_bytes_len(info.status, info.syscall_times@, info.time as nat);
        assert(buf@.len() == TASK_INFO_SIZE as nat);
    }
    if ti > usize::MAX - TASK_INFO_SIZE {
        return -1;
    }
    let ok = k.space.write_bytes(ti, &buf);
    if ok {
        0
    } else {
        -1
    }
}

} // verus!
