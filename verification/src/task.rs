use vstd::prelude::*;
use std::collections::VecDeque;
use crate::error::{Code, Error};
use crate::io::{first_free_slot, lemma_first_free_slot, with_registered, FileDescriptor};
use crate::message::Message;
use crate::segment::{KERNEL_CS, KERNEL_SS};

verus! {

/// Identifies a task; it is also the task's index in the task table.
#[derive(Copy, Clone, Debug, Eq, PartialEq, Structural, Ord, PartialOrd)]
pub struct TaskID(pub u64);

impl TaskID {
    pub fn new(v: u64) -> (id: Self)
        ensures
            id.0 == v,
    {
        Self(v)
    }

    pub fn as_usize(&self) -> (r: usize)
        requires
            self.0 <= usize::MAX,
        ensures
            r == self.0,
    {
        self.0 as usize
    }

    pub fn value(&self) -> (r: u64)
        ensures
            r == self.0,
    {
        self.0
    }
}

/// Scheduling priority, from 0 (idle) to 3 (highest).
#[derive(Debug, Copy, Clone, Eq, PartialEq, Structural)]
pub struct PriorityLevel(pub i8);

impl PriorityLevel {
    /// A priority level; it must lie between 0 and 3.
    pub fn new(level: u8) -> (p: Self)
        requires
            level <= 3,
        ensures
            p.0 == level,
    {
        Self(level as i8)
    }

    /// The highest level.
    pub fn max() -> (p: Self)
        ensures
            p.0 == 3,
    {
        Self(3)
    }

    /// The lowest level.
    pub fn min() -> (p: Self)
        ensures
            p.0 == 0,
    {
        Self(0)
    }

    /// The level of the idle task: the lowest.
    pub fn idle() -> (p: Self)
        ensures
            p.0 == 0,
    {
        Self(0)
    }

    pub fn as_usize(&self) -> (r: usize)
        requires
            0 <= self.0,
        ensures
            r == self.0,
    {
        self.0 as usize
    }
}

impl Default for PriorityLevel {
    /// Level 1, the level new tasks get.
    fn default() -> (p: Self)
        ensures
            p.0 == 1,
    {
        PriorityLevel::new(1)
    }
}

/// The registers saved when a task is switched out.
#[derive(Debug, Clone, Copy)]
pub struct TaskContext {
    pub cr3: u64,
    pub rip: u64,
    pub rflags: u64,
    pub reserved1: u64,
    pub cs: u64,
    pub ss: u64,
    pub fs: u64,
    pub gs: u64,
    pub rax: u64,
    pub rbx: u64,
    pub rcx: u64,
    pub rdx: u64,
    pub rdi: u64,
    pub rsi: u64,
    pub rsp: u64,
    pub rbp: u64,
    pub r8: u64,
    pub r9: u64,
    pub r10: u64,
    pub r11: u64,
    pub r12: u64,
    pub r13: u64,
    pub r14: u64,
    pub r15: u64,
    pub fxsave_area: [u8; 512],
}

impl TaskContext {
    /// A context with every register and the floating-point area zero.
    pub fn default_() -> (c: Self)
        ensures
            c.cr3 == 0 && c.rip == 0 && c.rflags == 0 && c.rsp == 0 && c.cs == 0 && c.ss == 0
                && c.rdi == 0 && c.rsi == 0,
            forall|i: int| 0 <= i < 512 ==> c.fxsave_area@[i] == 0,
    {
        Self {
            cr3: 0,
            rip: 0,
            rflags: 0,
            reserved1: 0,
            cs: 0,
            ss: 0,
            fs: 0,
            gs: 0,
            rax: 0,
            rbx: 0,
            rcx: 0,
            rdx: 0,
            rdi: 0,
            rsi: 0,
            rsp: 0,
            rbp: 0,
            r8: 0,
            r9: 0,
            r10: 0,
            r11: 0,
            r12: 0,
            r13: 0,
            r14: 0,
            r15: 0,
            fxsave_area: [0u8; 512],
        }
    }
}

/// Words of stack each task gets.
pub const DEFAULT_STACK_WORDS: usize = 512;

/// A task: its saved context, stack, message queue and scheduling state.
pub struct Task {
    id: TaskID,
    stack: Vec<u64>,
    context: TaskContext,
    os_stack_ptr: u64,
    messages: VecDeque<Message>,
    level: PriorityLevel,
    is_running: bool,
    files: Vec<Option<FileDescriptor>>,
}

impl Task {
    /// The task's open files, by descriptor number; `None` for a free slot.
    pub closed spec fn file_table(&self) -> Seq<Option<FileDescriptor>> {
        self.files@
    }

    pub closed spec fn tid(&self) -> TaskID {
        self.id
    }

    pub closed spec fn lvl(&self) -> PriorityLevel {
        self.level
    }

    pub closed spec fn running(&self) -> bool {
        self.is_running
    }

    /// The messages waiting for the task, oldest first.
    pub closed spec fn msgs(&self) -> Seq<Message> {
        self.messages@
    }

    pub closed spec fn ctx(&self) -> TaskContext {
        self.context
    }

    pub closed spec fn stack_len(&self) -> nat {
        self.stack@.len()
    }

    pub closed spec fn stack_seq(&self) -> Seq<u64> {
        self.stack@
    }

    pub closed spec fn os_sp(&self) -> u64 {
        self.os_stack_ptr
    }

    /// A sleeping task with an empty context and no messages.
    pub fn new(id: TaskID, level: PriorityLevel) -> (t: Task)
        ensures
            t.tid() == id,
            t.lvl() == level,
            !t.running(),
            t.msgs() == Seq::<Message>::empty(),
            t.stack_len() == 0,
            t.file_table() == Seq::<Option<FileDescriptor>>::empty(),
    {
        Self {
            id,
            stack: Vec::new(),
            context: TaskContext::default_(),
            os_stack_ptr: 0,
            messages: VecDeque::new(),
            level,
            is_running: false,
            files: Vec::new(),
        }
    }

    /// The task's open files.
    pub fn get_files_slice(&self) -> (r: &[Option<FileDescriptor>])
        ensures
            r@ == self.file_table(),
    {
        self.files.as_slice()
    }

    /// The task's file table, to change.
    pub fn get_files_mut(&mut self) -> (r: &mut Vec<Option<FileDescriptor>>)
        ensures
            r@ == old(self).file_table(),
            final(r)@ == final(self).file_table(),
            final(self).tid() == old(self).tid(),
            final(self).lvl() == old(self).lvl(),
            final(self).running() == old(self).running(),
            final(self).msgs() == old(self).msgs(),
            final(self).ctx() == old(self).ctx(),
            final(self).os_sp() == old(self).os_sp(),
            final(self).stack_seq() == old(self).stack_seq(),
    {
        &mut self.files
    }

    /// Puts `fd` in the first free slot of the file table, or in a new slot
    /// at its end, and gives back the slot's number.
    pub fn register_file_descriptor(&mut self, fd: FileDescriptor) -> (i: usize)
        requires
            old(self).file_table().len() < usize::MAX,
        ensures
            i == first_free_slot(old(self).file_table(), 0),
            final(self).file_table() == with_registered(old(self).file_table(), fd),
            final(self).tid() == old(self).tid(),
            final(self).lvl() == old(self).lvl(),
            final(self).running() == old(self).running(),
            final(self).msgs() == old(self).msgs(),
            final(self).ctx() == old(self).ctx(),
            final(self).os_sp() == old(self).os_sp(),
            final(self).stack_seq() == old(self).stack_seq(),
    {
        let ghost t = self.files@;
        proof {
            lemma_first_free_slot(t, 0);
        }
        let n: usize = self.files.len();
        let mut k: usize = 0;
        while k < n && self.files[k].is_some()
            invariant
                n == t.len(),
                self.files@ == t,
                k <= n,
                first_free_slot(t, k as nat) == first_free_slot(t, 0),
            decreases n - k,
        {
            k += 1;
        }
        if k < n {
            self.files.set(k, Some(fd));
            k
        } else {
            self.files.push(Some(fd));
            n
        }
    }

    pub fn os_stack_pointer(&self) -> (r: &u64)
        ensures
            *r == self.os_sp(),
    {
        &self.os_stack_ptr
    }

    /// Prepares the task to start at `task_func` with its id and `data`
    /// as arguments, in the address space `cr3`, on a fresh stack whose
    /// top is set with `set_stack_end`.
    pub fn init_context(&mut self, task_func: u64, data: u64, cr3: u64)
        ensures
            final(self).stack_len() == DEFAULT_STACK_WORDS,
            final(self).ctx().cr3 == cr3,
            final(self).ctx().rflags == 0x202,
            final(self).ctx().cs == KERNEL_CS,
            final(self).ctx().ss == KERNEL_SS,
            final(self).ctx().rip == task_func,
            final(self).ctx().rdi == old(self).tid().0,
            final(self).ctx().rsi == data,
            final(self).ctx().fxsave_area@.subrange(24, 28) == seq![0x80u8, 0x1fu8, 0u8, 0u8],
            final(self).tid() == old(self).tid(),
            final(self).lvl() == old(self).lvl(),
            final(self).running() == old(self).running(),
            final(self).msgs() == old(self).msgs(),
    {
        self.stack = vec![0u64; DEFAULT_STACK_WORDS];
        self.context.cr3 = cr3;
        self.context.rflags = 0x202;
        self.context.cs = KERNEL_CS as u64;
        self.context.ss = KERNEL_SS as u64;
        self.context.rip = task_func;
        self.context.rdi = self.id.0;
        self.context.rsi = data;
        self.context.fxsave_area[24] = 0x80u8;
        self.context.fxsave_area[25] = 0x1fu8;
        self.context.fxsave_area[26] = 0u8;
        self.context.fxsave_area[27] = 0u8;
        proof {
            assert(self.context.fxsave_area@.subrange(24, 28) =~= seq![0x80u8, 0x1fu8, 0u8, 0u8]);
        }
    }

    /// Sets the stack pointer for a stack whose last word is at `stack_end`:
    /// aligned down to 16 bytes, minus one word.
    pub fn set_stack_end(&mut self, stack_end: u64)
        requires
            stack_end >= 16,
        ensures
            final(self).ctx().rsp == (stack_end & !0xfu64) - 8,
            final(self).tid() == old(self).tid(),
            final(self).lvl() == old(self).lvl(),
            final(self).running() == old(self).running(),
            final(self).msgs() == old(self).msgs(),
    {
        proof {
            assert(stack_end & !0xfu64 >= 8) by (bit_vector)
                requires
                    stack_end >= 16u64,
            ;
        }
        self.context.rsp = (stack_end & !0xfu64) - 8;
    }

    /// The task's stack.
    pub fn stack(&self) -> (r: &Vec<u64>)
        ensures
            r@.len() == self.stack_len(),
    {
        &self.stack
    }

    /// The task's saved context.
    pub fn context(&self) -> (r: &TaskContext)
        ensures
            *r == self.ctx(),
    {
        &self.context
    }

    /// Saves `ctx` as the task's context.
    pub fn set_context(&mut self, ctx: TaskContext)
        ensures
            final(self).ctx() == ctx,
            final(self).tid() == old(self).tid(),
            final(self).lvl() == old(self).lvl(),
            final(self).running() == old(self).running(),
            final(self).msgs() == old(self).msgs(),
    {
        self.context = ctx;
    }

    pub fn id(&self) -> (r: TaskID)
        ensures
            r == self.tid(),
    {
        self.id
    }

    pub fn level(&self) -> (r: PriorityLevel)
        ensures
            r == self.lvl(),
    {
        self.level
    }

    pub fn is_running(&self) -> (r: bool)
        ensures
            r == self.running(),
    {
        self.is_running
    }

    pub fn set_level(&mut self, level: PriorityLevel)
        ensures
            final(self).lvl() == level,
            final(self).tid() == old(self).tid(),
            final(self).running() == old(self).running(),
            final(self).msgs() == old(self).msgs(),
            final(self).stack_seq() == old(self).stack_seq(),
            final(self).ctx() == old(self).ctx(),
    {
        self.level = level;
    }

    pub fn set_is_running(&mut self, is_running: bool)
        ensures
            final(self).running() == is_running,
            final(self).tid() == old(self).tid(),
            final(self).lvl() == old(self).lvl(),
            final(self).msgs() == old(self).msgs(),
            final(self).stack_seq() == old(self).stack_seq(),
            final(self).ctx() == old(self).ctx(),
    {
        self.is_running = is_running;
    }

    pub fn set_cr3(&mut self, cr3: u64)
        ensures
            final(self).ctx().cr3 == cr3,
            final(self).tid() == old(self).tid(),
            final(self).lvl() == old(self).lvl(),
            final(self).running() == old(self).running(),
            final(self).msgs() == old(self).msgs(),
    {
        self.context.cr3 = cr3;
    }

    pub fn get_cr3(&self) -> (r: u64)
        ensures
            r == self.ctx().cr3,
    {
        self.context.cr3
    }

    /// Appends a message to the task's queue; the caller wakes the task.
    pub fn send_message(&mut self, message: Message)
        ensures
            final(self).msgs() == old(self).msgs().push(message),
            final(self).tid() == old(self).tid(),
            final(self).lvl() == old(self).lvl(),
            final(self).running() == old(self).running(),
            final(self).ctx() == old(self).ctx(),
            final(self).os_sp() == old(self).os_sp(),
            final(self).stack_seq() == old(self).stack_seq(),
            final(self).file_table() == old(self).file_table(),
    {
        self.messages.push_back(message)
    }

    /// Takes the oldest message, if there is one.
    pub fn receive_message(&mut self) -> (r: Option<Message>)
        ensures
            old(self).msgs().len() == 0 ==> r is None && final(self).msgs() == old(self).msgs(),
            old(self).msgs().len() > 0 ==> r == Some(old(self).msgs()[0])
                && final(self).msgs() == old(self).msgs().subrange(1, old(self).msgs().len() as int),
            final(self).tid() == old(self).tid(),
            final(self).lvl() == old(self).lvl(),
            final(self).running() == old(self).running(),
            final(self).ctx() == old(self).ctx(),
            final(self).os_sp() == old(self).os_sp(),
            final(self).stack_seq() == old(self).stack_seq(),
            final(self).file_table() == old(self).file_table(),
    {
        self.messages.pop_front()
    }
}

/// The highest level whose queue is non-empty, or `default` when all are empty.
pub open spec fn highest_nonempty(q: Seq<Seq<TaskID>>, default: int) -> int {
    if q[3].len() > 0 {
        3
    } else if q[2].len() > 0 {
        2
    } else if q[1].len() > 0 {
        1
    } else if q[0].len() > 0 {
        0
    } else {
        default
    }
}

/// The first position of `x` in `s`, or `s.len()` when it does not occur.
pub open spec fn first_index_of(s: Seq<TaskID>, x: TaskID) -> int
    decreases s.len(),
{
    if s.len() == 0 {
        0
    } else if s[0] == x {
        0
    } else {
        1 + first_index_of(s.subrange(1, s.len() as int), x)
    }
}

proof fn lemma_first_index_of(s: Seq<TaskID>, x: TaskID)
    ensures
        0 <= first_index_of(s, x) <= s.len(),
        first_index_of(s, x) < s.len() <==> s.contains(x),
        first_index_of(s, x) < s.len() ==> s[first_index_of(s, x)] == x,
        forall|k: int| 0 <= k < first_index_of(s, x) ==> s[k] != x,
    decreases s.len(),
{
    if s.len() > 0 && s[0] != x {
        let t = s.subrange(1, s.len() as int);
        lemma_first_index_of(t, x);
        if s.contains(x) {
            let k = choose|k: int| 0 <= k < s.len() && s[k] == x;
            assert(t[k - 1] == x);
        }
        if t.contains(x) {
            let k = choose|k: int| 0 <= k < t.len() && t[k] == x;
            assert(s[k + 1] == x);
        }
        assert forall|k: int| 0 <= k < first_index_of(s, x) implies s[k] != x by {
            if k > 0 {
                assert(s[k] == t[k - 1]);
            }
        }
    } else if s.len() > 0 {
        assert(s.contains(x)) by {
            assert(s[0] == x);
        }
    }
}

proof fn lemma_remove_preserves(s: Seq<TaskID>, f: int)
    requires
        0 <= f < s.len(),
        forall|j: int, k: int| 0 <= j < k < s.len() ==> #[trigger] s[j] != #[trigger] s[k],
    ensures
        forall|x: TaskID| x != s[f] ==> (s.remove(f).contains(x) <==> #[trigger] s.contains(x)),
        !s.remove(f).contains(s[f]),
        forall|j: int, k: int|
            0 <= j < k < s.remove(f).len() ==> #[trigger] s.remove(f)[j] != #[trigger] s.remove(f)[k],
{
    let r = s.remove(f);
    assert forall|x: TaskID| x != s[f] implies (r.contains(x) <==> #[trigger] s.contains(x)) by {
        if r.contains(x) {
            let k = choose|k: int| 0 <= k < r.len() && r[k] == x;
            if k < f {
                assert(s[k] == x);
            } else {
                assert(s[k + 1] == x);
            }
        }
        if s.contains(x) {
            let k = choose|k: int| 0 <= k < s.len() && s[k] == x;
            if k < f {
                assert(r[k] == x);
            } else {
                assert(k != f);
                assert(r[k - 1] == x);
            }
        }
    }
    if r.contains(s[f]) {
        let k = choose|k: int| 0 <= k < r.len() && r[k] == s[f];
        if k < f {
            assert(s[k] == s[f]);
        } else {
            assert(s[k + 1] == s[f]);
        }
    }
    assert forall|j: int, k: int| 0 <= j < k < r.len() implies #[trigger] r[j] != #[trigger] r[k] by {
        let j2 = if j < f { j } else { j + 1 };
        let k2 = if k < f { k } else { k + 1 };
        assert(r[j] == s[j2]);
        assert(r[k] == s[k2]);
    }
}

proof fn lemma_add_preserves(s: Seq<TaskID>, t: TaskID)
    requires
        !s.contains(t),
        forall|j: int, k: int| 0 <= j < k < s.len() ==> #[trigger] s[j] != #[trigger] s[k],
    ensures
        forall|x: TaskID| x != t ==> (s.push(t).contains(x) <==> #[trigger] s.contains(x)),
        forall|x: TaskID| x != t ==> ((seq![t] + s).contains(x) <==> #[trigger] s.contains(x)),
        forall|j: int, k: int|
            0 <= j < k < s.push(t).len() ==> #[trigger] s.push(t)[j] != #[trigger] s.push(t)[k],
        forall|j: int, k: int|
            0 <= j < k < (seq![t] + s).len() ==> #[trigger] (seq![t] + s)[j] != #[trigger] (seq![t]
                + s)[k],
{
    let p = s.push(t);
    let q = seq![t] + s;
    assert forall|x: TaskID| x != t implies (p.contains(x) <==> #[trigger] s.contains(x)) by {
        if p.contains(x) {
            let k = choose|k: int| 0 <= k < p.len() && p[k] == x;
            assert(s[k] == x);
        }
        if s.contains(x) {
            let k = choose|k: int| 0 <= k < s.len() && s[k] == x;
            assert(p[k] == x);
        }
    }
    assert forall|x: TaskID| x != t implies (q.contains(x) <==> #[trigger] s.contains(x)) by {
        if q.contains(x) {
            let k = choose|k: int| 0 <= k < q.len() && q[k] == x;
            assert(s[k - 1] == x);
        }
        if s.contains(x) {
            let k = choose|k: int| 0 <= k < s.len() && s[k] == x;
            assert(q[k + 1] == x);
        }
    }
    assert forall|j: int, k: int| 0 <= j < k < p.len() implies #[trigger] p[j] != #[trigger] p[k] by {
        if k == s.len() {
            assert(s[j] == p[j]);
        }
    }
    assert forall|j: int, k: int| 0 <= j < k < q.len() implies #[trigger] q[j] != #[trigger] q[k] by {
        if j == 0 {
            assert(q[k] == s[k - 1]);
        } else {
            assert(q[j] == s[j - 1]);
            assert(q[k] == s[k - 1]);
        }
    }
}

/// Removes the first occurrence of `target`, which must occur in `queue`.
pub fn erase_task_id(queue: &mut VecDeque<TaskID>, target: TaskID)
    requires
        old(queue)@.contains(target),
    ensures
        final(queue)@ == old(queue)@.remove(first_index_of(old(queue)@, target)),
{
    let ghost s = queue@;
    let ghost f = first_index_of(s, target);
    proof {
        lemma_first_index_of(s, target);
    }
    let len: usize = queue.len();
    let mut i: usize = 0;
    while i < len
        invariant
            queue@ == s,
            len == s.len(),
            i <= f,
            f < s.len(),
            s[f] == target,
            forall|k: int| 0 <= k < f ==> s[k] != target,
        ensures
            i == f,
        decreases len - i,
    {
        if queue[i] == target {
            break;
        }
        i += 1;
    }
    queue.remove(i);
}

/// The scheduler: every task, and one run queue per priority level.
pub struct TaskManager {
    tasks: Vec<Task>,
    next_id: TaskID,
    main_task_id: TaskID,
    running_task_ids: Vec<VecDeque<TaskID>>,
    current_level: PriorityLevel,
    level_changed: bool,
}

impl TaskManager {
    /// The run queue of level `l`.
    pub closed spec fn queue(&self, l: int) -> Seq<TaskID> {
        self.running_task_ids@[l]@
    }

    /// All four run queues.
    pub closed spec fn queues(&self) -> Seq<Seq<TaskID>> {
        Seq::new(4, |l: int| self.running_task_ids@[l]@)
    }

    pub closed spec fn task_list(&self) -> Seq<Task> {
        self.tasks@
    }

    pub closed spec fn cur(&self) -> int {
        self.current_level.0 as int
    }

    pub closed spec fn spec_level_changed(&self) -> bool {
        self.level_changed
    }

    pub closed spec fn spec_main_task_id(&self) -> TaskID {
        self.main_task_id
    }

    pub closed spec fn spec_next_id(&self) -> u64 {
        self.next_id.0
    }

    /// The bookkeeping holds: task `i` has id `i` and a valid level; each
    /// queue entry names a running task of that queue's level, at most once;
    /// and every running task is in the queue of its level.
    pub closed spec fn wf(&self) -> bool {
        &&& self.running_task_ids@.len() == 4
        &&& 0 <= self.current_level.0 <= 3
        &&& self.tasks@.len() == self.next_id.0
        &&& self.next_id.0 < u64::MAX
        &&& forall|i: int|
            #![trigger self.tasks@[i]]
            0 <= i < self.tasks@.len() ==> {
                &&& self.tasks@[i].id.0 == i
                &&& 0 <= self.tasks@[i].level.0 <= 3
                &&& self.tasks@[i].is_running ==> self.running_task_ids@[self.tasks@[i].level.0 as int]@.contains(
                    TaskID(i as u64),
                )
            }
        &&& forall|l: int, k: int|
            0 <= l < 4 && 0 <= k < self.running_task_ids@[l]@.len() ==> {
                let id = #[trigger] self.running_task_ids@[l]@[k];
                &&& id.0 < self.tasks@.len()
                &&& self.tasks@[id.0 as int].is_running
                &&& self.tasks@[id.0 as int].level.0 == l
            }
        &&& forall|l: int, j: int, k: int|
            0 <= l < 4 && 0 <= j < k < self.running_task_ids@[l]@.len()
                ==> #[trigger] self.running_task_ids@[l]@[j] != #[trigger] self.running_task_ids@[l]@[k]
    }

    pub fn new() -> (m: TaskManager)
        ensures
            m.wf(),
            m.task_list().len() == 0,
            forall|l: int| 0 <= l < 4 ==> m.queue(l).len() == 0,
            m.cur() == 3,
            !m.spec_level_changed(),
    {
        let mut running_task_ids: Vec<VecDeque<TaskID>> = Vec::new();
        running_task_ids.push(VecDeque::new());
        running_task_ids.push(VecDeque::new());
        running_task_ids.push(VecDeque::new());
        running_task_ids.push(VecDeque::new());
        Self {
            tasks: Vec::new(),
            next_id: TaskID(0),
            main_task_id: TaskID(0),
            running_task_ids,
            current_level: PriorityLevel::max(),
            level_changed: false,
        }
    }

    /// Adds a sleeping task of level 1 and returns it.
    pub fn new_task(&mut self) -> (t: &mut Task)
        requires
            old(self).task_list().len() == old(self).spec_next_id(),
            old(self).spec_next_id() < u64::MAX - 1,
        ensures
            t.tid().0 == old(self).task_list().len(),
            t.lvl().0 == 1,
            !t.running(),
            t.msgs() == Seq::<Message>::empty(),
            final(self).task_list() == old(self).task_list().push(*final(t)),
            final(self).spec_next_id() == old(self).spec_next_id() + 1,
            final(self).queues() == old(self).queues(),
            final(self).cur() == old(self).cur(),
            final(self).spec_level_changed() == old(self).spec_level_changed(),
            final(self).spec_main_task_id() == old(self).spec_main_task_id(),
            final(self).shape_ok() == old(self).shape_ok(),
            old(self).wf() && final(t).tid() == t.tid() && !final(t).running() && 0 <= final(t).lvl().0 <= 3
                ==> final(self).wf(),
    {
        self.tasks.push(Task::new(self.next_id, PriorityLevel::default()));
        self.next_id = TaskID(self.next_id.0 + 1);
        let n: usize = self.tasks.len() - 1;
        &mut self.tasks[n]
    }
}


impl TaskManager {
    /// The task `task_id` names, if it exists.
    pub fn get_task(&self, task_id: TaskID) -> (r: Option<&Task>)
        ensures
            task_id.0 < self.task_list().len() ==> (r matches Some(t) && *t == self.task_list()[task_id.0 as int]),
            task_id.0 >= self.task_list().len() ==> r is None,
    {
        if task_id.0 < self.tasks.len() as u64 {
            Some(&self.tasks[task_id.0 as usize])
        } else {
            None
        }
    }

    /// The task `task_id` names, for changing it; it must exist.
    pub fn get_task_mut(&mut self, task_id: TaskID) -> (t: &mut Task)
        requires
            task_id.0 < old(self).task_list().len(),
        ensures
            *t == old(self).task_list()[task_id.0 as int],
            final(self).task_list() == old(self).task_list().update(task_id.0 as int, *final(t)),
            final(self).queues() == old(self).queues(),
            final(self).cur() == old(self).cur(),
            final(self).spec_level_changed() == old(self).spec_level_changed(),
            final(self).spec_main_task_id() == old(self).spec_main_task_id(),
            final(self).spec_next_id() == old(self).spec_next_id(),
    {
        let n: usize = self.tasks.len();
        let i: usize = task_id.0 as usize;
        assert(i == task_id.0);
        &mut self.tasks[i]
    }

    /// The task at the front of the current level's queue.
    pub fn current_task(&self) -> (t: &Task)
        requires
            self.wf(),
            self.queue(self.cur()).len() > 0,
        ensures
            *t == self.task_list()[self.queue(self.cur())[0].0 as int],
    {
        let task_id = self.running_task_ids[self.current_level.0 as usize][0];
        let n: usize = self.tasks.len();
        let i: usize = task_id.0 as usize;
        assert(i == task_id.0);
        &self.tasks[i]
    }

    /// The task at the front of the current level's queue, for changing it.
    pub fn current_task_mut(&mut self) -> (t: &mut Task)
        requires
            old(self).wf(),
            old(self).queue(old(self).cur()).len() > 0,
        ensures
            *t == old(self).task_list()[old(self).queue(old(self).cur())[0].0 as int],
            final(self).task_list() == old(self).task_list().update(
                old(self).queue(old(self).cur())[0].0 as int,
                *final(t),
            ),
            final(self).queues() == old(self).queues(),
            final(self).cur() == old(self).cur(),
            final(self).spec_level_changed() == old(self).spec_level_changed(),
            final(self).spec_main_task_id() == old(self).spec_main_task_id(),
            final(self).spec_next_id() == old(self).spec_next_id(),
    {
        let task_id = self.running_task_ids[self.current_level.0 as usize][0];
        let n: usize = self.tasks.len();
        let i: usize = task_id.0 as usize;
        assert(i == task_id.0);
        &mut self.tasks[i]
    }

    /// The main task, which `initialize` made.
    pub fn main_task(&self) -> (t: &Task)
        requires
            self.spec_main_task_id().0 < self.task_list().len(),
        ensures
            *t == self.task_list()[self.spec_main_task_id().0 as int],
    {
        let n: usize = self.tasks.len();
        let i: usize = self.main_task_id.0 as usize;
        assert(i == self.main_task_id.0);
        &self.tasks[i]
    }

    /// The main task, for changing it.
    pub fn main_task_mut(&mut self) -> (t: &mut Task)
        requires
            old(self).spec_main_task_id().0 < old(self).task_list().len(),
        ensures
            *t == old(self).task_list()[old(self).spec_main_task_id().0 as int],
            final(self).task_list() == old(self).task_list().update(
                old(self).spec_main_task_id().0 as int,
                *final(t),
            ),
            final(self).queues() == old(self).queues(),
            final(self).cur() == old(self).cur(),
            final(self).spec_level_changed() == old(self).spec_level_changed(),
            final(self).spec_main_task_id() == old(self).spec_main_task_id(),
            final(self).spec_next_id() == old(self).spec_next_id(),
    {
        let n: usize = self.tasks.len();
        let i: usize = self.main_task_id.0 as usize;
        assert(i == self.main_task_id.0);
        &mut self.tasks[i]
    }

    /// The id of the main task.
    pub fn main_task_id(&self) -> (r: TaskID)
        ensures
            r == self.spec_main_task_id(),
    {
        self.main_task_id
    }

    /// The level whose queue runs now.
    pub fn current_level(&self) -> (r: PriorityLevel)
        ensures
            r.0 == self.cur(),
    {
        self.current_level
    }

    /// The run queues, one per level, lowest level first.
    pub fn running_task_ids(&self) -> (r: &Vec<VecDeque<TaskID>>)
        requires
            self.wf(),
        ensures
            r@.len() == 4,
            forall|l: int| 0 <= l < 4 ==> r@[l]@ == self.queue(l),
    {
        &self.running_task_ids
    }

    /// Makes task `task_id` runnable: a sleeping task joins the end of its
    /// level's queue, and the scheduler is told to look for a higher level
    /// when its level is above the current one. A running task stays as it is.
    pub fn wake_up(&mut self, task_id: TaskID) -> (r: Result<(), Error>)
        requires
            old(self).wf(),
        ensures
            final(self).wf(),
            task_id.0 >= old(self).task_list().len() ==> (r matches Err(e) && e.code == Code::NoSuchTask),
            task_id.0 < old(self).task_list().len() ==> r is Ok,
            final(self).spec_main_task_id() == old(self).spec_main_task_id(),
            final(self).spec_next_id() == old(self).spec_next_id(),
            final(self).cur() == old(self).cur(),
            task_id.0 >= old(self).task_list().len() || old(self).task_list()[task_id.0 as int].running()
                ==> {
                &&& final(self).task_list() == old(self).task_list()
                &&& final(self).queues() == old(self).queues()
                &&& final(self).spec_level_changed() == old(self).spec_level_changed()
            },
            task_id.0 < old(self).task_list().len() && !old(self).task_list()[task_id.0 as int].running()
                ==> {
                let t = old(self).task_list()[task_id.0 as int];
                let l = t.lvl().0 as int;
                &&& final(self).task_list()[task_id.0 as int].running()
                &&& final(self).task_list()[task_id.0 as int].lvl() == t.lvl()
                &&& final(self).task_list()[task_id.0 as int].msgs() == t.msgs()
                &&& final(self).task_list()[task_id.0 as int].ctx() == t.ctx()
                &&& final(self).task_list().len() == old(self).task_list().len()
                &&& forall|i: int| 0 <= i < old(self).task_list().len() && i != task_id.0
                    ==> #[trigger] final(self).task_list()[i] == old(self).task_list()[i]
                &&& final(self).queues() == old(self).queues().update(l, old(self).queue(l).push(task_id))
                &&& final(self).spec_level_changed() == (old(self).spec_level_changed() || l > old(self).cur())
            },
    {
        if task_id.0 >= self.tasks.len() as u64 {
            return Err(Error::new(Code::NoSuchTask, "task.rs", 0));
        }
        let n: usize = self.tasks.len();
        let index: usize = task_id.0 as usize;
        assert(index == task_id.0);
        let level = self.tasks[index].level;
        if self.tasks[index].is_running {
            self.change_level_running(task_id, level);
            return Ok(());
        }
        let ghost old_tasks = self.tasks@;
        let ghost old_queues = self.queues();
        let ghost l = level.0 as int;
        self.tasks[index].set_is_running(true);
        self.running_task_ids[level.0 as usize].push_back(task_id);
        if level.0 > self.current_level.0 {
            self.level_changed = true;
        }
        proof {
            assert(self.tasks@ =~= old_tasks.update(index as int, self.tasks@[index as int]));
            assert forall|m: int| 0 <= m < 4 implies #[trigger] self.queues()[m] == old_queues.update(
                l,
                old_queues[l].push(task_id),
            )[m] by {}
            assert(self.queues() =~= old_queues.update(l, old_queues[l].push(task_id)));
            assert(!old_queues[l].contains(task_id)) by {
                if old_queues[l].contains(task_id) {
                    let k = choose|k: int| 0 <= k < old_queues[l].len() && old_queues[l][k] == task_id;
                    assert(old(self).running_task_ids@[l]@[k] == task_id);
                }
            }
            assert forall|i: int|
                #![trigger self.tasks@[i]]
                0 <= i < self.tasks@.len() && self.tasks@[i].is_running implies self.running_task_ids@[self.tasks@[i].level.0 as int]@.contains(TaskID(i as u64)) by {
                if i == index {
                    assert(self.running_task_ids@[l]@[old_queues[l].len() as int] == task_id);
                } else {
                    let li = self.tasks@[i].level.0 as int;
                    assert(old(self).tasks@[i] == self.tasks@[i]);
                    assert(old(self).running_task_ids@[li]@.contains(TaskID(i as u64)));
                    if li == l {
                        let k = choose|k: int| 0 <= k < old_queues[l].len() && old_queues[l][k] == TaskID(i as u64);
                        assert(self.running_task_ids@[l]@[k] == TaskID(i as u64));
                    }
                }
            }
            assert forall|m: int, k: int|
                0 <= m < 4 && 0 <= k < self.running_task_ids@[m]@.len() implies {
                    let id = #[trigger] self.running_task_ids@[m]@[k];
                    &&& id.0 < self.tasks@.len()
                    &&& self.tasks@[id.0 as int].is_running
                    &&& self.tasks@[id.0 as int].level.0 == m
                } by {
                if m == l && k == old_queues[l].len() {
                } else {
                    assert(self.running_task_ids@[m]@[k] == old(self).running_task_ids@[m]@[k]);
                }
            }
            assert forall|m: int, j: int, k: int|
                0 <= m < 4 && 0 <= j < k < self.running_task_ids@[m]@.len() implies #[trigger] self.running_task_ids@[m]@[j] != #[trigger] self.running_task_ids@[m]@[k] by {
                if m == l && k == old_queues[l].len() {
                    assert(self.running_task_ids@[m]@[j] == old_queues[l][j]);
                } else {
                    assert(self.running_task_ids@[m]@[j] == old(self).running_task_ids@[m]@[j]);
                    assert(self.running_task_ids@[m]@[k] == old(self).running_task_ids@[m]@[k]);
                }
            }
        }
        Ok(())
    }

    /// Moves running task `task_id` to level `level`. A task other than
    /// the one at the front of the current queue moves to the end of the
    /// new level's queue (and the scheduler is told to look again when that
    /// level is above the current one); the front task itself moves to the
    /// front of the new level's queue, which becomes the current level.
    fn change_level_running(&mut self, task_id: TaskID, level: PriorityLevel)
        requires
            old(self).wf(),
            task_id.0 < old(self).task_list().len(),
            old(self).task_list()[task_id.0 as int].running(),
            0 <= level.0 <= 3,
        ensures
            final(self).wf(),
            final(self).spec_main_task_id() == old(self).spec_main_task_id(),
            final(self).spec_next_id() == old(self).spec_next_id(),
            final(self).task_list().len() == old(self).task_list().len(),
            forall|i: int|
                0 <= i < old(self).task_list().len() && i != task_id.0
                    ==> #[trigger] final(self).task_list()[i] == old(self).task_list()[i],
            final(self).task_list()[task_id.0 as int].lvl() == level,
            final(self).task_list()[task_id.0 as int].running(),
            final(self).task_list()[task_id.0 as int].msgs() == old(self).task_list()[task_id.0 as int].msgs(),
            level == old(self).task_list()[task_id.0 as int].lvl() ==> {
                &&& final(self).task_list() == old(self).task_list()
                &&& final(self).queues() == old(self).queues()
                &&& final(self).cur() == old(self).cur()
                &&& final(self).spec_level_changed() == old(self).spec_level_changed()
            },
            level != old(self).task_list()[task_id.0 as int].lvl() ==> {
                let tl = old(self).task_list()[task_id.0 as int].lvl().0 as int;
                let c = old(self).cur();
                let q = old(self).queues();
                let is_front = q[c].len() > 0 && q[c][0] == task_id;
                &&& !is_front ==> {
                    &&& final(self).queues() == q.update(tl, q[tl].remove(first_index_of(q[tl], task_id))).update(
                        level.0 as int,
                        q[level.0 as int].push(task_id),
                    )
                    &&& final(self).cur() == c
                    &&& final(self).spec_level_changed() == (old(self).spec_level_changed() || level.0 > c)
                }
                &&& is_front ==> {
                    &&& final(self).queues() == q.update(c, q[c].subrange(1, q[c].len() as int)).update(
                        level.0 as int,
                        seq![task_id] + q[level.0 as int],
                    )
                    &&& final(self).cur() == level.0
                    &&& final(self).spec_level_changed() == old(self).spec_level_changed()
                }
            },
    {
        let n: usize = self.tasks.len();
        let index: usize = task_id.0 as usize;
        assert(index == task_id.0);
        let task_level = self.tasks[index].level;
        if level.0 == task_level.0 {
            return;
        }
        let ghost q = self.queues();
        let ghost old_tasks = self.tasks@;
        let ghost tl = task_level.0 as int;
        let ghost nl = level.0 as int;
        let cur: usize = self.current_level.0 as usize;
        let running_id = if self.running_task_ids[cur].len() > 0 {
            self.running_task_ids[cur][0]
        } else {
            TaskID(task_id.0 + 1)
        };
        proof {
            assert(q[tl].contains(task_id));
            lemma_first_index_of(q[tl], task_id);
        }
        if task_id != running_id {
            erase_task_id(&mut self.running_task_ids[task_level.0 as usize], task_id);
            self.running_task_ids[level.0 as usize].push_back(task_id);
            self.tasks[index].set_level(level);
            if level.0 > self.current_level.0 {
                self.level_changed = true;
            }
            proof {
                let f = first_index_of(q[tl], task_id);
                let r = q[tl].remove(f);
                assert(self.tasks@ =~= old_tasks.update(index as int, self.tasks@[index as int]));
                assert forall|m: int| 0 <= m < 4 implies #[trigger] self.queues()[m]
                    == q.update(tl, r).update(nl, q[nl].push(task_id))[m] by {}
                assert(self.queues() =~= q.update(tl, r).update(nl, q[nl].push(task_id)));
                assert(!q[nl].contains(task_id)) by {
                    if q[nl].contains(task_id) {
                        let k = choose|k: int| 0 <= k < q[nl].len() && q[nl][k] == task_id;
                        assert(old(self).running_task_ids@[nl]@[k] == task_id);
                    }
                }
                assert(!r.contains(task_id)) by {
                    if r.contains(task_id) {
                        let k = choose|k: int| 0 <= k < r.len() && r[k] == task_id;
                        if k < f {
                            assert(q[tl][k] == task_id);
                        } else {
                            assert(q[tl][k + 1] == task_id);
                            assert(old(self).running_task_ids@[tl]@[f] != old(self).running_task_ids@[tl]@[k + 1]);
                        }
                    }
                }
                assert(q[nl].push(task_id)[q[nl].len() as int] == task_id);
                lemma_remove_preserves(q[tl], f);
                lemma_add_preserves(q[nl], task_id);
                self.lemma_wf_after_move(*old(self), task_id, tl, nl, r, q[nl].push(task_id));
            }
            return;
        }
        self.running_task_ids[cur].pop_front();
        self.running_task_ids[level.0 as usize].push_front(task_id);
        self.tasks[index].set_level(level);
        self.current_level = level;
        proof {
            let r = q[tl].subrange(1, q[tl].len() as int);
            assert(tl == cur);
            assert(self.tasks@ =~= old_tasks.update(index as int, self.tasks@[index as int]));
            assert forall|m: int| 0 <= m < 4 implies #[trigger] self.queues()[m]
                == q.update(tl, r).update(nl, seq![task_id] + q[nl])[m] by {}
            assert(self.queues() =~= q.update(tl, r).update(nl, seq![task_id] + q[nl]));
            assert(!q[nl].contains(task_id)) by {
                if q[nl].contains(task_id) {
                    let k = choose|k: int| 0 <= k < q[nl].len() && q[nl][k] == task_id;
                    assert(old(self).running_task_ids@[nl]@[k] == task_id);
                }
            }
            assert(r =~= q[tl].remove(0));
            assert(!r.contains(task_id)) by {
                if r.contains(task_id) {
                    let k = choose|k: int| 0 <= k < r.len() && r[k] == task_id;
                    assert(q[tl][k + 1] == task_id);
                    assert(old(self).running_task_ids@[tl]@[0] != old(self).running_task_ids@[tl]@[k + 1]);
                }
            }
            assert((seq![task_id] + q[nl])[0] == task_id);
            lemma_remove_preserves(q[tl], 0);
            lemma_add_preserves(q[nl], task_id);
            self.lemma_wf_after_move(*old(self), task_id, tl, nl, r, seq![task_id] + q[nl]);
        }
    }

    /// Moving running task `task_id` from the queue of level `from` to that of
    /// `to`, with its level set to `to`, keeps the bookkeeping consistent.
    proof fn lemma_wf_after_move(&self, prev: TaskManager, task_id: TaskID, from: int, to: int, q_from: Seq<TaskID>, q_to: Seq<TaskID>)
        requires
            prev.wf(),
            0 <= from < 4,
            0 <= to < 4,
            from != to,
            task_id.0 < prev.tasks@.len(),
            prev.tasks@[task_id.0 as int].is_running,
            prev.tasks@[task_id.0 as int].level.0 == from,
            self.running_task_ids@.len() == 4,
            0 <= self.current_level.0 <= 3,
            self.next_id == prev.next_id,
            self.tasks@.len() == prev.tasks@.len(),
            forall|i: int| 0 <= i < prev.tasks@.len() && i != task_id.0 ==> #[trigger] self.tasks@[i] == prev.tasks@[i],
            self.tasks@[task_id.0 as int].id == prev.tasks@[task_id.0 as int].id,
            self.tasks@[task_id.0 as int].is_running,
            self.tasks@[task_id.0 as int].level.0 == to,
            self.running_task_ids@[from]@ == q_from,
            self.running_task_ids@[to]@ == q_to,
            forall|m: int| 0 <= m < 4 && m != from && m != to ==> #[trigger] self.running_task_ids@[m]@ == prev.running_task_ids@[m]@,
            !q_from.contains(task_id),
            q_to.contains(task_id),
            forall|x: TaskID| x != task_id ==> (q_from.contains(x) <==> #[trigger] prev.running_task_ids@[from]@.contains(x)),
            forall|x: TaskID| x != task_id ==> (q_to.contains(x) <==> #[trigger] prev.running_task_ids@[to]@.contains(x)),
            forall|j: int, k: int| 0 <= j < k < q_from.len() ==> #[trigger] q_from[j] != #[trigger] q_from[k],
            forall|j: int, k: int| 0 <= j < k < q_to.len() ==> #[trigger] q_to[j] != #[trigger] q_to[k],
        ensures
            self.wf(),
    {
        assert forall|i: int|
            #![trigger self.tasks@[i]]
            0 <= i < self.tasks@.len() && self.tasks@[i].is_running implies self.running_task_ids@[self.tasks@[i].level.0 as int]@.contains(TaskID(i as u64)) by {
            if i != task_id.0 {
                assert(self.tasks@[i] == prev.tasks@[i]);
                let li = self.tasks@[i].level.0 as int;
                assert(prev.running_task_ids@[li]@.contains(TaskID(i as u64)));
                assert(TaskID(i as u64) != task_id);
            }
        }
        assert forall|m: int, k: int|
            0 <= m < 4 && 0 <= k < self.running_task_ids@[m]@.len() implies {
                let id = #[trigger] self.running_task_ids@[m]@[k];
                &&& id.0 < self.tasks@.len()
                &&& self.tasks@[id.0 as int].is_running
                &&& self.tasks@[id.0 as int].level.0 == m
            } by {
            let id = self.running_task_ids@[m]@[k];
            if id != task_id {
                if m == from || m == to {
                    assert(self.running_task_ids@[m]@.contains(id));
                    assert(prev.running_task_ids@[m]@.contains(id));
                    let k2 = choose|k2: int| 0 <= k2 < prev.running_task_ids@[m]@.len() && prev.running_task_ids@[m]@[k2] == id;
                    assert(prev.running_task_ids@[m]@[k2] == id);
                } else {
                    assert(prev.running_task_ids@[m]@[k] == id);
                }
                assert(id.0 != task_id.0);
            } else {
                if m == from {
                    assert(q_from.contains(id));
                } else if m != to {
                    assert(prev.running_task_ids@[m]@[k] == id);
                }
            }
        }
    }
}


/// The current level's queue after its front task is rotated: the front
/// leaves, and goes back to the end unless it is going to sleep.
pub open spec fn rotated_queue(q: Seq<Seq<TaskID>>, c: int, current_sleep: bool) -> Seq<TaskID> {
    let rest = q[c].subrange(1, q[c].len() as int);
    if current_sleep {
        rest
    } else {
        rest.push(q[c][0])
    }
}

/// The current level after a rotation: when the scheduler was told to
/// look again, or the current queue ran empty, the highest level with a
/// runnable task; otherwise unchanged.
pub open spec fn rotated_level(q: Seq<Seq<TaskID>>, c: int, changed: bool, current_sleep: bool) -> int {
    let q1 = q.update(c, rotated_queue(q, c, current_sleep));
    if changed || rotated_queue(q, c, current_sleep).len() == 0 {
        highest_nonempty(q1, c)
    } else {
        c
    }
}

impl TaskManager {
    /// The run queues exist and the current level is valid.
    pub closed spec fn shape_ok(&self) -> bool {
        &&& self.running_task_ids@.len() == 4
        &&& 0 <= self.current_level.0 <= 3
    }

    /// Task indices fit into a task id.
    pub proof fn lemma_len_bound(&self)
        requires
            self.wf(),
        ensures
            self.task_list().len() < u64::MAX,
            self.task_list().len() == self.spec_next_id(),
    {
    }

    /// There are four run queues, `queues()[l]` is `queue(l)`, the current
    /// level is one of them, and every task's level is 0 to 3; each queued
    /// task exists, runs, and has the level of its queue.
    pub proof fn lemma_queues(&self)
        requires
            self.wf(),
        ensures
            self.queues().len() == 4,
            forall|l: int| 0 <= l < 4 ==> #[trigger] self.queues()[l] == self.queue(l),
            0 <= self.cur() <= 3,
            forall|i: int| 0 <= i < self.task_list().len() ==> 0 <= (#[trigger] self.task_list()[i]).lvl().0 <= 3,
            forall|l: int, k: int|
                0 <= l < 4 && 0 <= k < self.queue(l).len() ==> {
                    let id = #[trigger] self.queue(l)[k];
                    &&& id.0 < self.task_list().len()
                    &&& self.task_list()[id.0 as int].running()
                    &&& self.task_list()[id.0 as int].lvl().0 == l
                },
    {
        assert forall|l: int, k: int| 0 <= l < 4 && 0 <= k < self.queue(l).len() implies {
            let id = #[trigger] self.queue(l)[k];
            &&& id.0 < self.task_list().len()
            &&& self.task_list()[id.0 as int].running()
            &&& self.task_list()[id.0 as int].lvl().0 == l
        } by {
            assert(self.running_task_ids@[l]@[k] == self.queue(l)[k]);
        }
    }

    /// A task that is not running is in no run queue.
    pub proof fn lemma_sleeping_not_queued(&self, task_id: TaskID)
        requires
            self.wf(),
            task_id.0 < self.task_list().len(),
            !self.task_list()[task_id.0 as int].running(),
        ensures
            forall|l: int| 0 <= l < 4 ==> !(#[trigger] self.queue(l)).contains(task_id),
    {
        assert forall|l: int| 0 <= l < 4 implies !(#[trigger] self.queue(l)).contains(task_id) by {
            if self.queue(l).contains(task_id) {
                let k = choose|k: int| 0 <= k < self.queue(l).len() && self.queue(l)[k] == task_id;
                assert(self.running_task_ids@[l]@[k] == task_id);
            }
        }
    }

    /// Each task's id is its index.
    pub proof fn lemma_ids(&self)
        requires
            self.wf(),
        ensures
            forall|i: int| 0 <= i < self.task_list().len() ==> (#[trigger] self.task_list()[i]).tid().0 == i,
    {
        assert forall|i: int| 0 <= i < self.task_list().len() implies (#[trigger] self.task_list()[i]).tid().0 == i by {
            assert(self.tasks@[i].id.0 == i);
        }
    }

    proof fn lemma_wf_shape(&self)
        requires
            self.wf(),
        ensures
            self.shape_ok(),
    {
    }

    /// Takes the front task off the current queue and, unless it is going to
    /// sleep, puts it back at the end; then picks the level to run next.
    /// Returns the task that was at the front.
    pub fn rotate_current_run_queue(&mut self, current_sleep: bool) -> (r: TaskID)
        requires
            old(self).shape_ok(),
            old(self).queue(old(self).cur()).len() > 0,
        ensures
            r == old(self).queue(old(self).cur())[0],
            final(self).queues() == old(self).queues().update(
                old(self).cur(),
                rotated_queue(old(self).queues(), old(self).cur(), current_sleep),
            ),
            final(self).cur() == rotated_level(
                old(self).queues(),
                old(self).cur(),
                old(self).spec_level_changed(),
                current_sleep,
            ),
            !final(self).spec_level_changed(),
            final(self).task_list() == old(self).task_list(),
            final(self).spec_main_task_id() == old(self).spec_main_task_id(),
            final(self).spec_next_id() == old(self).spec_next_id(),
            final(self).shape_ok(),
            old(self).wf() && !current_sleep ==> final(self).wf(),
    {
        let ghost q = self.queues();
        let ghost c = self.cur();
        let cur: usize = self.current_level.0 as usize;
        let current_task_id = match self.running_task_ids[cur].pop_front() {
            Some(id) => id,
            None => {
                proof {
                    assert(false);
                }
                TaskID(0)
            },
        };
        if !current_sleep {
            self.running_task_ids[cur].push_back(current_task_id);
        }
        if self.running_task_ids[cur].len() == 0 {
            self.level_changed = true;
        }
        proof {
            assert forall|m: int| 0 <= m < 4 implies #[trigger] self.queues()[m] == q.update(
                c,
                rotated_queue(q, c, current_sleep),
            )[m] by {}
            assert(self.queues() =~= q.update(c, rotated_queue(q, c, current_sleep)));
        }
        if self.level_changed {
            self.level_changed = false;
            let mut level: usize = 4;
            while level > 0
                invariant_except_break
                    self.current_level.0 == c,
                    forall|m: int| level <= m < 4 ==> #[trigger] self.queues()[m].len() == 0,
                invariant
                    self.running_task_ids@.len() == 4,
                    level <= 4,
                    0 <= self.current_level.0 <= 3,
                    self.queues() == q.update(c, rotated_queue(q, c, current_sleep)),
                    !self.level_changed,
                    self.tasks@ == old(self).tasks@,
                    self.main_task_id == old(self).main_task_id,
                    self.next_id == old(self).next_id,
                ensures
                    self.running_task_ids@.len() == 4,
                    0 <= self.current_level.0 <= 3,
                    self.current_level.0 == highest_nonempty(self.queues(), c),
                    self.queues() == q.update(c, rotated_queue(q, c, current_sleep)),
                    !self.level_changed,
                    self.tasks@ == old(self).tasks@,
                    self.main_task_id == old(self).main_task_id,
                    self.next_id == old(self).next_id,
                decreases level,
            {
                level -= 1;
                if self.running_task_ids[level].len() > 0 {
                    self.current_level = PriorityLevel(level as i8);
                    break;
                }
            }
        }
        proof {
            if old(self).wf() && !current_sleep {
                let rest = q[c].subrange(1, q[c].len() as int);
                let front = q[c][0];
                let qc = rest.push(front);
                assert forall|x: TaskID| (qc.contains(x) <==> #[trigger] q[c].contains(x)) by {
                    if qc.contains(x) {
                        let k = choose|k: int| 0 <= k < qc.len() && qc[k] == x;
                        if k < rest.len() {
                            assert(q[c][k + 1] == x);
                        } else {
                            assert(q[c][0] == x);
                        }
                    }
                    if q[c].contains(x) {
                        let k = choose|k: int| 0 <= k < q[c].len() && q[c][k] == x;
                        if k == 0 {
                            assert(qc[rest.len() as int] == x);
                        } else {
                            assert(qc[k - 1] == x);
                        }
                    }
                }
                assert forall|l: int, k: int|
                    0 <= l < 4 && 0 <= k < self.running_task_ids@[l]@.len() implies {
                        let id = #[trigger] self.running_task_ids@[l]@[k];
                        &&& id.0 < self.tasks@.len()
                        &&& self.tasks@[id.0 as int].is_running
                        &&& self.tasks@[id.0 as int].level.0 == l
                    } by {
                    let id = self.running_task_ids@[l]@[k];
                    assert(self.queues()[l] == self.running_task_ids@[l]@);
                    assert(q[l] == old(self).running_task_ids@[l]@);
                    if l == c {
                        assert(qc[k] == id);
                        assert(qc.contains(id));
                        let k2 = choose|k2: int| 0 <= k2 < q[c].len() && q[c][k2] == id;
                        assert(old(self).running_task_ids@[c]@[k2] == id);
                    } else {
                        assert(old(self).running_task_ids@[l]@[k] == id);
                    }
                }
                assert forall|i: int|
                    #![trigger self.tasks@[i]]
                    0 <= i < self.tasks@.len() && self.tasks@[i].is_running implies self.running_task_ids@[self.tasks@[i].level.0 as int]@.contains(TaskID(i as u64)) by {
                    assert(old(self).tasks@[i] == self.tasks@[i]);
                    let l = self.tasks@[i].level.0 as int;
                    assert(self.queues()[l] == self.running_task_ids@[l]@);
                    assert(q[l] == old(self).running_task_ids@[l]@);
                }
                assert forall|l: int, j: int, k: int|
                    0 <= l < 4 && 0 <= j < k < self.running_task_ids@[l]@.len() implies #[trigger] self.running_task_ids@[l]@[j] != #[trigger] self.running_task_ids@[l]@[k] by {
                    assert(self.queues()[l] == self.running_task_ids@[l]@);
                    assert(q[l] == old(self).running_task_ids@[l]@);
                    if l == c {
                        let j2 = if j < rest.len() { j + 1 } else { 0 };
                        let k2 = if k < rest.len() { k + 1 } else { 0 };
                        assert(qc[j] == q[c][j2]);
                        assert(qc[k] == q[c][k2]);
                        assert(old(self).running_task_ids@[c]@[j2] == q[c][j2]);
                        assert(old(self).running_task_ids@[c]@[k2] == q[c][k2]);
                    } else {
                        assert(old(self).running_task_ids@[l]@[j] == self.running_task_ids@[l]@[j]);
                        assert(old(self).running_task_ids@[l]@[k] == self.running_task_ids@[l]@[k]);
                    }
                }
            }
        }
        current_task_id
    }
}

impl TaskManager {
    /// Task `task_id`, running at level `l`, stopping and leaving the queue
    /// of `l` keeps the bookkeeping consistent.
    proof fn lemma_wf_after_leave(&self, prev: TaskManager, task_id: TaskID, l: int, q_l: Seq<TaskID>)
        requires
            prev.wf(),
            0 <= l < 4,
            task_id.0 < prev.tasks@.len(),
            prev.tasks@[task_id.0 as int].is_running,
            prev.tasks@[task_id.0 as int].level.0 == l,
            self.running_task_ids@.len() == 4,
            0 <= self.current_level.0 <= 3,
            self.next_id == prev.next_id,
            self.tasks@.len() == prev.tasks@.len(),
            forall|i: int| 0 <= i < prev.tasks@.len() && i != task_id.0 ==> #[trigger] self.tasks@[i] == prev.tasks@[i],
            self.tasks@[task_id.0 as int].id == prev.tasks@[task_id.0 as int].id,
            self.tasks@[task_id.0 as int].level == prev.tasks@[task_id.0 as int].level,
            !self.tasks@[task_id.0 as int].is_running,
            self.running_task_ids@[l]@ == q_l,
            forall|m: int| 0 <= m < 4 && m != l ==> #[trigger] self.running_task_ids@[m]@ == prev.running_task_ids@[m]@,
            !q_l.contains(task_id),
            forall|x: TaskID| x != task_id ==> (q_l.contains(x) <==> #[trigger] prev.running_task_ids@[l]@.contains(x)),
            forall|j: int, k: int| 0 <= j < k < q_l.len() ==> #[trigger] q_l[j] != #[trigger] q_l[k],
        ensures
            self.wf(),
    {
        assert forall|i: int|
            #![trigger self.tasks@[i]]
            0 <= i < self.tasks@.len() && self.tasks@[i].is_running implies self.running_task_ids@[self.tasks@[i].level.0 as int]@.contains(TaskID(i as u64)) by {
            assert(i != task_id.0);
            assert(self.tasks@[i] == prev.tasks@[i]);
            let li = self.tasks@[i].level.0 as int;
            assert(prev.running_task_ids@[li]@.contains(TaskID(i as u64)));
            assert(TaskID(i as u64) != task_id);
        }
        assert forall|m: int, k: int|
            0 <= m < 4 && 0 <= k < self.running_task_ids@[m]@.len() implies {
                let id = #[trigger] self.running_task_ids@[m]@[k];
                &&& id.0 < self.tasks@.len()
                &&& self.tasks@[id.0 as int].is_running
                &&& self.tasks@[id.0 as int].level.0 == m
            } by {
            let id = self.running_task_ids@[m]@[k];
            if m == l {
                assert(q_l.contains(id));
                assert(id != task_id);
                assert(prev.running_task_ids@[m]@.contains(id));
                let k2 = choose|k2: int| 0 <= k2 < prev.running_task_ids@[m]@.len() && prev.running_task_ids@[m]@[k2] == id;
                assert(prev.running_task_ids@[m]@[k2] == id);
            } else {
                assert(prev.running_task_ids@[m]@[k] == id);
                if id == task_id {
                    assert(prev.tasks@[task_id.0 as int].level.0 == m);
                }
            }
            assert(id.0 != task_id.0);
        }
    }

    /// Puts task `task_id` to sleep. A task at the front of the current
    /// queue is rotated out (see `rotate_current_run_queue`) and returned:
    /// the caller switches from it to the new current task. Any other running
    /// task just leaves its queue. A sleeping task stays as it is.
    pub fn sleep(&mut self, task_id: TaskID) -> (r: Result<Option<TaskID>, Error>)
        requires
            old(self).wf(),
        ensures
            final(self).wf(),
            task_id.0 >= old(self).task_list().len() ==> (r matches Err(e) && e.code == Code::NoSuchTask),
            final(self).spec_main_task_id() == old(self).spec_main_task_id(),
            final(self).spec_next_id() == old(self).spec_next_id(),
            task_id.0 >= old(self).task_list().len() || !old(self).task_list()[task_id.0 as int].running()
                ==> {
                &&& task_id.0 < old(self).task_list().len() ==> r == Ok::<Option<TaskID>, Error>(None)
                &&& final(self).task_list() == old(self).task_list()
                &&& final(self).queues() == old(self).queues()
                &&& final(self).cur() == old(self).cur()
                &&& final(self).spec_level_changed() == old(self).spec_level_changed()
            },
            task_id.0 < old(self).task_list().len() && old(self).task_list()[task_id.0 as int].running()
                ==> {
                let t = old(self).task_list()[task_id.0 as int];
                let l = t.lvl().0 as int;
                let c = old(self).cur();
                let q = old(self).queues();
                let is_front = q[c].len() > 0 && q[c][0] == task_id;
                &&& !final(self).task_list()[task_id.0 as int].running()
                &&& final(self).task_list()[task_id.0 as int].lvl() == t.lvl()
                &&& final(self).task_list()[task_id.0 as int].msgs() == t.msgs()
                &&& final(self).task_list().len() == old(self).task_list().len()
                &&& forall|i: int| 0 <= i < old(self).task_list().len() && i != task_id.0
                    ==> #[trigger] final(self).task_list()[i] == old(self).task_list()[i]
                &&& is_front ==> {
                    &&& r == Ok::<Option<TaskID>, Error>(Some(task_id))
                    &&& final(self).queues() == q.update(c, rotated_queue(q, c, true))
                    &&& final(self).cur() == rotated_level(q, c, old(self).spec_level_changed(), true)
                    &&& !final(self).spec_level_changed()
                }
                &&& !is_front ==> {
                    &&& r == Ok::<Option<TaskID>, Error>(None)
                    &&& final(self).queues() == q.update(l, q[l].remove(first_index_of(q[l], task_id)))
                    &&& final(self).cur() == c
                    &&& final(self).spec_level_changed() == old(self).spec_level_changed()
                }
            },
            task_id.0 < old(self).task_list().len() ==> forall|l: int|
                0 <= l < 4 ==> !(#[trigger] final(self).queue(l)).contains(task_id),
    {
        if task_id.0 >= self.tasks.len() as u64 {
            return Err(Error::new(Code::NoSuchTask, "task.rs", 0));
        }
        let n: usize = self.tasks.len();
        let index: usize = task_id.0 as usize;
        assert(index == task_id.0);
        if !self.tasks[index].is_running {
            proof {
                self.lemma_sleeping_not_queued(task_id);
            }
            return Ok(None);
        }
        let ghost q = self.queues();
        let ghost c = self.cur();
        let ghost old_tasks = self.tasks@;
        let level = self.tasks[index].level;
        let ghost l = level.0 as int;
        proof {
            assert(q[l] == old(self).running_task_ids@[l]@);
            assert(q[c] == old(self).running_task_ids@[c]@);
            assert(q[l].contains(task_id));
        }
        self.tasks[index].set_is_running(false);
        proof {
            assert(self.tasks@ =~= old_tasks.update(index as int, self.tasks@[index as int]));
        }
        let cur: usize = self.current_level.0 as usize;
        let is_target_task_running = self.running_task_ids[cur].len() > 0
            && self.running_task_ids[cur][0] == task_id;
        if is_target_task_running {
            let ghost mid = *self;
            let rotated = self.rotate_current_run_queue(true);
            proof {
                let qc = q[c].subrange(1, q[c].len() as int);
                assert(old(self).running_task_ids@[c]@[0] == task_id);
                assert(l == c);
                assert(qc =~= q[c].remove(0));
                lemma_remove_preserves(q[c], 0);
                assert(self.running_task_ids@[c]@ == self.queues()[c]);
                assert forall|m: int| 0 <= m < 4 && m != c implies #[trigger] self.running_task_ids@[m]@
                    == old(self).running_task_ids@[m]@ by {
                    assert(self.running_task_ids@[m]@ == self.queues()[m]);
                    assert(old(self).running_task_ids@[m]@ == q[m]);
                }
                self.lemma_wf_after_leave(*old(self), task_id, c, qc);
                self.lemma_sleeping_not_queued(task_id);
            }
            return Ok(Some(rotated));
        }
        proof {
            lemma_first_index_of(q[l], task_id);
        }
        erase_task_id(&mut self.running_task_ids[level.0 as usize], task_id);
        proof {
            let f = first_index_of(q[l], task_id);
            let r = q[l].remove(f);
            lemma_remove_preserves(q[l], f);
            assert forall|m: int| 0 <= m < 4 implies #[trigger] self.queues()[m] == q.update(l, r)[m] by {}
            assert(self.queues() =~= q.update(l, r));
            assert forall|m: int| 0 <= m < 4 && m != l implies #[trigger] self.running_task_ids@[m]@
                == old(self).running_task_ids@[m]@ by {
                assert(self.running_task_ids@[m]@ == self.queues()[m]);
                assert(old(self).running_task_ids@[m]@ == q[m]);
            }
            self.lemma_wf_after_leave(*old(self), task_id, l, r);
            self.lemma_sleeping_not_queued(task_id);
        }
        Ok(None)
    }

    /// `new` is what sending `message` to task `task_id` leaves of this
    /// manager (see `send_message`).
    pub open spec fn message_sent(&self, new: TaskManager, task_id: TaskID, message: Message) -> bool {
        &&& new.wf()
        &&& new.cur() == self.cur()
        &&& new.spec_main_task_id() == self.spec_main_task_id()
        &&& new.spec_next_id() == self.spec_next_id()
        &&& task_id.0 >= self.task_list().len() ==> new.task_list() == self.task_list() && new.queues()
            == self.queues() && new.spec_level_changed() == self.spec_level_changed()
        &&& task_id.0 < self.task_list().len() ==> {
            let t = self.task_list()[task_id.0 as int];
            let l = t.lvl().0 as int;
            &&& new.task_list().len() == self.task_list().len()
            &&& forall|i: int| 0 <= i < self.task_list().len() && i != task_id.0
                ==> #[trigger] new.task_list()[i] == self.task_list()[i]
            &&& new.task_list()[task_id.0 as int].msgs() == t.msgs().push(message)
            &&& new.task_list()[task_id.0 as int].running()
            &&& new.task_list()[task_id.0 as int].lvl() == t.lvl()
            &&& t.running() ==> new.queues() == self.queues() && new.spec_level_changed()
                == self.spec_level_changed()
            &&& !t.running() ==> new.queues() == self.queues().update(l, self.queue(l).push(task_id))
                && new.spec_level_changed() == (self.spec_level_changed() || l > self.cur())
        }
    }

    /// Appends `message` to task `task_id`'s queue and wakes the task up.
    pub fn send_message(&mut self, task_id: TaskID, message: Message) -> (r: Result<(), Error>)
        requires
            old(self).wf(),
        ensures
            final(self).wf(),
            task_id.0 >= old(self).task_list().len() ==> (r matches Err(e) && e.code == Code::NoSuchTask)
                && final(self).task_list() == old(self).task_list() && final(self).queues()
                == old(self).queues() && final(self).spec_level_changed()
                == old(self).spec_level_changed(),
            task_id.0 < old(self).task_list().len() ==> {
                let t = old(self).task_list()[task_id.0 as int];
                let l = t.lvl().0 as int;
                &&& r is Ok
                &&& final(self).task_list().len() == old(self).task_list().len()
                &&& forall|i: int| 0 <= i < old(self).task_list().len() && i != task_id.0
                    ==> #[trigger] final(self).task_list()[i] == old(self).task_list()[i]
                &&& final(self).task_list()[task_id.0 as int].msgs() == t.msgs().push(message)
                &&& final(self).task_list()[task_id.0 as int].running()
                &&& final(self).task_list()[task_id.0 as int].lvl() == t.lvl()
                &&& t.running() ==> final(self).queues() == old(self).queues()
                    && final(self).spec_level_changed() == old(self).spec_level_changed()
                &&& !t.running() ==> final(self).queues() == old(self).queues().update(
                    l,
                    old(self).queue(l).push(task_id),
                ) && final(self).spec_level_changed() == (old(self).spec_level_changed() || l
                    > old(self).cur())
            },
            final(self).cur() == old(self).cur(),
            final(self).spec_main_task_id() == old(self).spec_main_task_id(),
            final(self).spec_next_id() == old(self).spec_next_id(),
            old(self).message_sent(*final(self), task_id, message),
            r is Ok <==> task_id.0 < old(self).task_list().len(),
    {
        if task_id.0 >= self.tasks.len() as u64 {
            return Err(Error::new(Code::NoSuchTask, "task.rs", 0));
        }
        let n: usize = self.tasks.len();
        let index: usize = task_id.0 as usize;
        assert(index == task_id.0);
        let ghost old_tasks = self.tasks@;
        self.tasks[index].send_message(message);
        proof {
            assert(self.tasks@ =~= old_tasks.update(index as int, self.tasks@[index as int]));
            assert forall|i: int|
                #![trigger self.tasks@[i]]
                0 <= i < self.tasks@.len() && self.tasks@[i].is_running implies self.running_task_ids@[self.tasks@[i].level.0 as int]@.contains(TaskID(i as u64)) by {
                assert(old(self).tasks@[i].is_running);
            }
            assert forall|m: int, k: int|
                0 <= m < 4 && 0 <= k < self.running_task_ids@[m]@.len() implies {
                    let id = #[trigger] self.running_task_ids@[m]@[k];
                    &&& id.0 < self.tasks@.len()
                    &&& self.tasks@[id.0 as int].is_running
                    &&& self.tasks@[id.0 as int].level.0 == m
                } by {
                let id = self.running_task_ids@[m]@[k];
                assert(old(self).running_task_ids@[m]@[k] == id);
            }
        }
        let r = self.wake_up(task_id);
        Ok(())
    }
}

impl TaskManager {
    /// Creates the main task (running at the current level, which is the
    /// highest for a new manager) and the idle task (running at the lowest
    /// level, starting at `idle_func` in the address space `cr3`).
    pub fn initialize(&mut self, cr3: u64, idle_func: u64)
        requires
            old(self).wf(),
            old(self).task_list().len() == 0,
            old(self).spec_next_id() == 0,
        ensures
            final(self).wf(),
            final(self).task_list().len() == 2,
            final(self).spec_main_task_id() == TaskID(0),
            final(self).task_list()[0].running(),
            final(self).task_list()[0].lvl().0 == old(self).cur(),
            final(self).task_list()[1].running(),
            final(self).task_list()[1].lvl().0 == 0,
            final(self).task_list()[1].ctx().rip == idle_func,
            final(self).task_list()[1].ctx().cr3 == cr3,
            final(self).cur() == old(self).cur(),
            final(self).spec_level_changed() == old(self).spec_level_changed(),
            old(self).cur() != 0 ==> final(self).queues() == seq![
                seq![TaskID(1)],
                Seq::<TaskID>::empty(),
                Seq::<TaskID>::empty(),
                Seq::<TaskID>::empty(),
            ].update(old(self).cur(), seq![TaskID(0)]),
            old(self).cur() == 0 ==> final(self).queues() == seq![
                seq![TaskID(0), TaskID(1)],
                Seq::<TaskID>::empty(),
                Seq::<TaskID>::empty(),
                Seq::<TaskID>::empty(),
            ],
    {
        let ghost c = self.cur();
        proof {
            assert forall|l: int| 0 <= l < 4 implies self.running_task_ids@[l]@.len() == 0 by {
                if self.running_task_ids@[l]@.len() > 0 {
                    let id = self.running_task_ids@[l]@[0];
                    assert(id.0 < self.tasks@.len());
                }
            }
        }
        let level = self.current_level;
        let main_task = self.new_task();
        main_task.set_is_running(true);
        main_task.set_level(level);
        let main_task_id = main_task.id();
        self.main_task_id = main_task_id;
        let idle_task = self.new_task();
        idle_task.init_context(idle_func, 0, cr3);
        idle_task.set_is_running(true);
        idle_task.set_level(PriorityLevel::idle());
        let idle_task_id = idle_task.id();
        proof {
            assert forall|l: int| 0 <= l < 4 implies self.running_task_ids@[l]@.len() == 0 by {
                assert(self.running_task_ids@[l]@ == self.queues()[l]);
                assert(old(self).running_task_ids@[l]@ == old(self).queues()[l]);
            }
        }
        self.running_task_ids[level.0 as usize].push_back(main_task_id);
        self.running_task_ids[0].push_back(idle_task_id);
        proof {
            assert(main_task_id == TaskID(0));
            assert(idle_task_id == TaskID(1));
            assert(self.tasks@[0].is_running && self.tasks@[0].level.0 == c);
            assert(self.tasks@[1].is_running && self.tasks@[1].level.0 == 0);
            if c != 0 {
                assert(self.running_task_ids@[c]@ =~= seq![TaskID(0)]);
                assert(self.running_task_ids@[0]@ =~= seq![TaskID(1)]);
                assert forall|l: int| 0 <= l < 4 implies #[trigger] self.queues()[l] == seq![
                    seq![TaskID(1)],
                    Seq::<TaskID>::empty(),
                    Seq::<TaskID>::empty(),
                    Seq::<TaskID>::empty(),
                ].update(c, seq![TaskID(0)])[l] by {
                    if l != c && l != 0 {
                        assert(self.running_task_ids@[l]@ =~= Seq::<TaskID>::empty());
                    }
                }
                assert(self.queues() =~= seq![
                    seq![TaskID(1)],
                    Seq::<TaskID>::empty(),
                    Seq::<TaskID>::empty(),
                    Seq::<TaskID>::empty(),
                ].update(c, seq![TaskID(0)]));
                assert(self.running_task_ids@[0]@[0] == TaskID(1));
                assert(self.running_task_ids@[c]@[0] == TaskID(0));
            } else {
                assert(self.running_task_ids@[0]@ =~= seq![TaskID(0), TaskID(1)]);
                assert forall|l: int| 0 <= l < 4 implies #[trigger] self.queues()[l] == seq![
                    seq![TaskID(0), TaskID(1)],
                    Seq::<TaskID>::empty(),
                    Seq::<TaskID>::empty(),
                    Seq::<TaskID>::empty(),
                ][l] by {
                    if l != 0 {
                        assert(self.running_task_ids@[l]@ =~= Seq::<TaskID>::empty());
                    }
                }
                assert(self.queues() =~= seq![
                    seq![TaskID(0), TaskID(1)],
                    Seq::<TaskID>::empty(),
                    Seq::<TaskID>::empty(),
                    Seq::<TaskID>::empty(),
                ]);
                assert(self.running_task_ids@[0]@[0] == TaskID(0));
                assert(self.running_task_ids@[0]@[1] == TaskID(1));
            }
            assert forall|l: int, k: int|
                0 <= l < 4 && 0 <= k < self.running_task_ids@[l]@.len() implies {
                    let id = #[trigger] self.running_task_ids@[l]@[k];
                    &&& id.0 < self.tasks@.len()
                    &&& self.tasks@[id.0 as int].is_running
                    &&& self.tasks@[id.0 as int].level.0 == l
                } by {
                assert(self.running_task_ids@[l]@ == self.queues()[l]);
            }
            assert forall|l: int, j: int, k: int|
                0 <= l < 4 && 0 <= j < k < self.running_task_ids@[l]@.len() implies #[trigger] self.running_task_ids@[l]@[j] != #[trigger] self.running_task_ids@[l]@[k] by {
                assert(self.running_task_ids@[l]@ == self.queues()[l]);
            }
        }
    }
}

/// The task managers `states` step through as the messages `msgs` are sent
/// in order to task `task`.
pub open spec fn sending_steps(states: Seq<TaskManager>, task: TaskID, msgs: Seq<Message>) -> bool {
    &&& states.len() == msgs.len() + 1
    &&& forall|i: int| 0 <= i < msgs.len() ==> #[trigger] states[i].message_sent(states[i + 1], task, msgs[i])
}

/// `new` is what sending the messages `msgs` in order to task `task`
/// leaves of `old`.
pub open spec fn messages_sent(old: TaskManager, new: TaskManager, task: TaskID, msgs: Seq<Message>) -> bool {
    exists|states: Seq<TaskManager>|
        #[trigger] sending_steps(states, task, msgs) && states[0] == old && states.last() == new
}

/// Sending no message changes nothing.
pub proof fn lemma_messages_sent_none(tm: TaskManager, task: TaskID)
    ensures
        messages_sent(tm, tm, task, Seq::empty()),
{
    assert(sending_steps(seq![tm], task, Seq::empty()));
}

/// Sending one more message extends the sequence sent.
pub proof fn lemma_messages_sent_push(old: TaskManager, mid: TaskManager, new: TaskManager, task: TaskID, msgs: Seq<Message>, m: Message)
    requires
        messages_sent(old, mid, task, msgs),
        mid.message_sent(new, task, m),
    ensures
        messages_sent(old, new, task, msgs.push(m)),
{
    let states = choose|states: Seq<TaskManager>|
        #[trigger] sending_steps(states, task, msgs) && states[0] == old && states.last() == mid;
    let next = states.push(new);
    assert forall|i: int| 0 <= i < msgs.push(m).len() implies #[trigger] next[i].message_sent(next[i + 1], task, msgs.push(m)[i]) by {
        if i < msgs.len() {
            assert(states[i].message_sent(states[i + 1], task, msgs[i]));
        }
    }
    assert(sending_steps(next, task, msgs.push(m)));
}

impl TaskManager {
    /// Switches tasks on a timer tick: the running task's registers are
    /// saved from `current_ctx` and the current run queue is rotated. Gives
    /// back the task whose registers are to be restored, when the running
    /// task changed.
    pub fn switch_task(&mut self, current_ctx: &TaskContext) -> (r: Option<TaskID>)
        requires
            old(self).wf(),
            old(self).queue(old(self).cur()).len() > 0,
        ensures
            final(self).wf(),
            ({
                let t0 = old(self).queue(old(self).cur())[0];
                &&& final(self).task_list().len() == old(self).task_list().len()
                &&& final(self).task_list()[t0.0 as int].ctx() == *current_ctx
                &&& final(self).task_list()[t0.0 as int].tid() == t0
                &&& forall|i: int|
                    0 <= i < old(self).task_list().len() && i != t0.0 ==> #[trigger] final(self).task_list()[i]
                        == old(self).task_list()[i]
                &&& final(self).queues() == old(self).queues().update(
                    old(self).cur(),
                    rotated_queue(old(self).queues(), old(self).cur(), false),
                )
                &&& final(self).cur() == rotated_level(
                    old(self).queues(),
                    old(self).cur(),
                    old(self).spec_level_changed(),
                    false,
                )
                &&& r == if final(self).queue(final(self).cur()).len() > 0 && final(self).queue(final(self).cur())[0]
                    != t0 {
                    Some(final(self).queue(final(self).cur())[0])
                } else {
                    None
                }
            }),
    {
        let ghost t0 = self.queue(self.cur())[0];
        let front: TaskID = self.running_task_ids[self.current_level.0 as usize][0];
        assert(self.running_task_ids@[self.current_level.0 as int]@[0] == front);
        assert(front.0 < self.tasks@.len());
        let n: usize = self.tasks.len();
        let index: usize = front.0 as usize;
        assert(index == front.0);
        let ghost old_tasks = self.tasks@;
        self.tasks[index].set_context(*current_ctx);
        proof {
            assert(self.tasks@ =~= old_tasks.update(index as int, self.tasks@[index as int]));
            assert forall|i: int|
                #![trigger self.tasks@[i]]
                0 <= i < self.tasks@.len() && self.tasks@[i].is_running implies self.running_task_ids@[self.tasks@[i].level.0 as int]@.contains(TaskID(i as u64)) by {
                assert(old(self).tasks@[i].is_running);
            }
            assert forall|m: int, k: int|
                0 <= m < 4 && 0 <= k < self.running_task_ids@[m]@.len() implies {
                    let id = #[trigger] self.running_task_ids@[m]@[k];
                    &&& id.0 < self.tasks@.len()
                    &&& self.tasks@[id.0 as int].is_running
                    &&& self.tasks@[id.0 as int].level.0 == m
                } by {
                let id = self.running_task_ids@[m]@[k];
                assert(old(self).running_task_ids@[m]@[k] == id);
            }
        }
        let current_task_id: TaskID = self.rotate_current_run_queue(false);
        let level: usize = self.current_level().0 as usize;
        let queues: &Vec<VecDeque<TaskID>> = self.running_task_ids();
        if queues[level].len() > 0 && queues[level][0] != current_task_id {
            Some(queues[level][0])
        } else {
            None
        }
    }
}

} // verus!
