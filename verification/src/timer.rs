use vstd::prelude::*;
use crate::message::{Message, MessageType};
use crate::task::{TaskID, TaskManager};

verus! {

/// Timer interrupts per second.
pub const TIMER_FREQ: u64 = 100;

/// Ticks between two task switches.
pub const TASK_TIMER_PERIOD: u64 = 2;

/// The value that marks the timer for switching tasks.
pub const TASK_TIMER_VALUE: i32 = 0x7fff_ffff;

/// A timer that expires at tick `timeout`, telling task `task_id` `value`.
#[derive(Debug, Copy, Clone)]
pub struct Timer {
    pub timeout: u64,
    pub value: i32,
    pub task_id: Option<TaskID>,
}

impl Timer {
    pub fn new(timeout: u64, value: i32, task_id: TaskID) -> (t: Timer)
        ensures
            t == (Timer { timeout, value, task_id: Some(task_id) }),
    {
        Self { timeout, value, task_id: Some(task_id) }
    }

    /// The timer that never expires; it keeps the timer list non-empty.
    pub fn sentinel() -> (t: Self)
        ensures
            t == (Timer { timeout: u64::MAX, value: 0, task_id: None }),
    {
        Self { timeout: u64::MAX, value: 0, task_id: None }
    }

    pub fn timeout(&self) -> (r: u64)
        ensures
            r == self.timeout,
    {
        self.timeout
    }

    pub fn value(&self) -> (r: i32)
        ensures
            r == self.value,
    {
        self.value
    }
}

/// Timers are equal when they expire at the same tick.
impl PartialEq for Timer {
    fn eq(&self, other: &Self) -> (r: bool) {
        other.timeout == self.timeout
    }
}

impl vstd::std_specs::cmp::PartialEqSpecImpl for Timer {
    open spec fn obeys_eq_spec() -> bool {
        true
    }

    open spec fn eq_spec(&self, other: &Self) -> bool {
        other.timeout == self.timeout
    }
}

/// The position of the first timer with the smallest timeout.
pub open spec fn first_min_index(s: Seq<Timer>) -> int
    decreases s.len(),
{
    if s.len() <= 1 {
        0
    } else {
        let i = first_min_index(s.subrange(0, s.len() - 1));
        if s[s.len() - 1].timeout < s[i].timeout {
            s.len() - 1
        } else {
            i
        }
    }
}

/// Expiring the timers of `s` at tick `tick`, earliest timeout first and,
/// among equal timeouts, the one added first: the timers left, and the
/// expired timers in the order they fire.
pub open spec fn drain(s: Seq<Timer>, tick: u64) -> (Seq<Timer>, Seq<Timer>)
    decreases s.len(),
{
    if s.len() == 0 {
        (s, Seq::empty())
    } else {
        let i = first_min_index(s);
        proof {
            lemma_first_min_index(s);
        }
        if s[i].timeout > tick {
            (s, Seq::empty())
        } else {
            let rest = drain(s.remove(i), tick);
            (rest.0, seq![s[i]] + rest.1)
        }
    }
}

/// The task-switching timers that the expired timers `e` cause to be added.
pub open spec fn switch_timers(e: Seq<Timer>, tick: u64, main: TaskID) -> Seq<Timer>
    decreases e.len(),
{
    if e.len() == 0 {
        Seq::empty()
    } else {
        let rest = switch_timers(e.subrange(1, e.len() as int), tick, main);
        if e[0].value == TASK_TIMER_VALUE {
            seq![Timer { timeout: (tick + TASK_TIMER_PERIOD) as u64, value: TASK_TIMER_VALUE, task_id: Some(main) }] + rest
        } else {
            rest
        }
    }
}

/// The messages the expired timers `e` send: one to its task for each timer
/// that is not a task-switching timer and names a task.
pub open spec fn timeout_messages(e: Seq<Timer>) -> Seq<(TaskID, Message)>
    decreases e.len(),
{
    if e.len() == 0 {
        Seq::empty()
    } else {
        let rest = timeout_messages(e.subrange(1, e.len() as int));
        if e[0].value != TASK_TIMER_VALUE && e[0].task_id is Some {
            seq![(e[0].task_id->0, Message { m_type: MessageType::TimerTimeout { timeout: e[0].timeout, value: e[0].value } })] + rest
        } else {
            rest
        }
    }
}

/// Whether some timer of `e` is a task-switching timer.
pub open spec fn has_task_timer(e: Seq<Timer>) -> bool {
    exists|i: int| 0 <= i < e.len() && #[trigger] e[i].value == TASK_TIMER_VALUE
}

/// The messages of `msgs` addressed to task `id`, in order.
pub open spec fn messages_for(msgs: Seq<(TaskID, Message)>, id: TaskID) -> Seq<Message>
    decreases msgs.len(),
{
    if msgs.len() == 0 {
        Seq::empty()
    } else {
        let rest = messages_for(msgs.subrange(0, msgs.len() - 1), id);
        if msgs[msgs.len() - 1].0 == id {
            rest.push(msgs[msgs.len() - 1].1)
        } else {
            rest
        }
    }
}

pub proof fn lemma_first_min_index(s: Seq<Timer>)
    requires
        s.len() > 0,
    ensures
        0 <= first_min_index(s) < s.len(),
        forall|k: int| 0 <= k < s.len() ==> s[first_min_index(s)].timeout <= #[trigger] s[k].timeout,
        forall|k: int| 0 <= k < first_min_index(s) ==> s[first_min_index(s)].timeout < #[trigger] s[k].timeout,
    decreases s.len(),
{
    if s.len() > 1 {
        let t = s.subrange(0, s.len() - 1);
        lemma_first_min_index(t);
        assert forall|k: int| 0 <= k < t.len() implies t[k] == s[k] by {}
    }
}

proof fn lemma_drain_len(s: Seq<Timer>, tick: u64)
    ensures
        drain(s, tick).0.len() + drain(s, tick).1.len() == s.len(),
        forall|k: int| 0 <= k < drain(s, tick).1.len() ==> #[trigger] drain(s, tick).1[k].timeout <= tick,
    decreases s.len(),
{
    if s.len() > 0 {
        lemma_first_min_index(s);
        let i = first_min_index(s);
        if s[i].timeout <= tick {
            lemma_drain_len(s.remove(i), tick);
            let r = drain(s.remove(i), tick);
            assert forall|k: int| 0 <= k < drain(s, tick).1.len() implies #[trigger] drain(s, tick).1[k].timeout <= tick by {
                if k > 0 {
                    assert(drain(s, tick).1[k] == r.1[k - 1]);
                }
            }
        }
    }
}

/// The clock and the pending timers.
pub struct TimerManager {
    tick: u64,
    timers: Vec<Timer>,
}

impl TimerManager {
    pub closed spec fn spec_tick(&self) -> u64 {
        self.tick
    }

    /// The pending timers, in the order they were added.
    pub closed spec fn spec_timers(&self) -> Seq<Timer> {
        self.timers@
    }

    /// The never-expiring timer is pending.
    pub closed spec fn wf(&self) -> bool {
        exists|i: int| 0 <= i < self.timers@.len() && #[trigger] self.timers@[i].timeout == u64::MAX
    }

    /// A clock at tick 0 with only the never-expiring timer.
    pub fn new() -> (m: TimerManager)
        ensures
            m.wf(),
            m.spec_tick() == 0,
            m.spec_timers() == seq![Timer { timeout: u64::MAX, value: 0, task_id: None }],
    {
        let mut timers = Vec::new();
        timers.push(Timer::sentinel());
        let m = Self { tick: 0, timers };
        assert(m.timers@[0].timeout == u64::MAX);
        m
    }

    pub fn current_tick(&self) -> (r: u64)
        ensures
            r == self.spec_tick(),
    {
        self.tick
    }

    /// The pending timers, in the order they were added.
    pub fn timers(&self) -> (r: &Vec<Timer>)
        ensures
            r@ == self.spec_timers(),
    {
        &self.timers
    }

    pub fn add_timer(&mut self, timer: Timer)
        requires
            old(self).wf(),
        ensures
            final(self).wf(),
            final(self).spec_timers() == old(self).spec_timers().push(timer),
            final(self).spec_tick() == old(self).spec_tick(),
    {
        let ghost s = self.timers@;
        self.timers.push(timer);
        proof {
            let i = choose|i: int| 0 <= i < s.len() && #[trigger] s[i].timeout == u64::MAX;
            assert(self.timers@[i].timeout == u64::MAX);
        }
    }

    /// Adds the timer that switches tasks `TASK_TIMER_PERIOD` ticks from now.
    pub fn add_timer_for_switching_task(&mut self, main_task_id: TaskID)
        requires
            old(self).wf(),
            old(self).spec_tick() + TASK_TIMER_PERIOD <= u64::MAX,
        ensures
            final(self).wf(),
            final(self).spec_timers() == old(self).spec_timers().push(
                Timer { timeout: (old(self).spec_tick() + TASK_TIMER_PERIOD) as u64, value: TASK_TIMER_VALUE, task_id: Some(main_task_id) },
            ),
            final(self).spec_tick() == old(self).spec_tick(),
    {
        self.add_timer(Timer::new(self.tick + TASK_TIMER_PERIOD, TASK_TIMER_VALUE, main_task_id));
    }

    fn first_min(&self) -> (r: usize)
        requires
            self.timers@.len() > 0,
        ensures
            r == first_min_index(self.timers@),
    {
        let ghost s = self.timers@;
        let mut best: usize = 0;
        let mut i: usize = 1;
        while i < self.timers.len()
            invariant
                self.timers@ == s,
                1 <= i <= s.len(),
                best == first_min_index(s.subrange(0, i as int)),
                best < i,
            decreases s.len() - i,
        {
            proof {
                let t = s.subrange(0, i + 1);
                assert(t.subrange(0, t.len() - 1) =~= s.subrange(0, i as int));
                assert(t[i as int] == s[i as int]);
                assert(t[best as int] == s[best as int]);
            }
            if self.timers[i].timeout < self.timers[best].timeout {
                best = i;
            }
            i += 1;
        }
        proof {
            assert(s.subrange(0, s.len() as int) =~= s);
        }
        best
    }

    /// Removes the timers expired at the current tick, earliest first.
    fn expire(&mut self) -> (e: Vec<Timer>)
        requires
            old(self).wf(),
            old(self).spec_tick() < u64::MAX,
        ensures
            final(self).wf(),
            final(self).spec_tick() == old(self).spec_tick(),
            final(self).spec_timers() == drain(old(self).spec_timers(), old(self).spec_tick()).0,
            e@ == drain(old(self).spec_timers(), old(self).spec_tick()).1,
    {
        let ghost s0 = self.timers@;
        let mut expired: Vec<Timer> = Vec::new();
        loop
            invariant
                self.wf(),
                self.tick == old(self).tick,
                self.tick < u64::MAX,
                drain(s0, self.tick) == (drain(self.timers@, self.tick).0, expired@ + drain(self.timers@, self.tick).1),
            ensures
                self.wf(),
                self.tick == old(self).tick,
                drain(s0, self.tick) == (self.timers@, expired@),
            decreases self.timers@.len(),
        {
            proof {
                let i = choose|i: int| 0 <= i < self.timers@.len() && #[trigger] self.timers@[i].timeout == u64::MAX;
            }
            let mi: usize = self.first_min();
            proof {
                lemma_first_min_index(self.timers@);
            }
            if self.timers[mi].timeout > self.tick {
                proof {
                    assert(expired@ + Seq::<Timer>::empty() =~= expired@);
                    assert(drain(self.timers@, self.tick) == (self.timers@, Seq::<Timer>::empty()));
                }
                break;
            }
            let ghost before = self.timers@;
            let t = self.timers.remove(mi);
            proof {
                assert(drain(before, self.tick) == (drain(self.timers@, self.tick).0, seq![t] + drain(self.timers@, self.tick).1));
                let j = choose|j: int| 0 <= j < before.len() && #[trigger] before[j].timeout == u64::MAX;
                assert(j != mi);
                if j < mi {
                    assert(self.timers@[j].timeout == u64::MAX);
                } else {
                    assert(self.timers@[j - 1].timeout == u64::MAX);
                }
                let d = drain(self.timers@, self.tick);
                assert(expired@.push(t) + d.1 =~= expired@ + (seq![t] + d.1));
            }
            expired.push(t);
        }
        expired
    }
}

/// The messages in `msgs` after position `i`, taken together with those
/// before, give those addressed to `id` in order.
proof fn lemma_messages_for_push(msgs: Seq<(TaskID, Message)>, i: int, id: TaskID)
    requires
        0 <= i < msgs.len(),
    ensures
        messages_for(msgs.subrange(0, i + 1), id) == if msgs[i].0 == id {
            messages_for(msgs.subrange(0, i), id).push(msgs[i].1)
        } else {
            messages_for(msgs.subrange(0, i), id)
        },
{
    let t = msgs.subrange(0, i + 1);
    assert(t.subrange(0, t.len() - 1) =~= msgs.subrange(0, i));
}

/// Delivers `msgs` in order with `send_message`: each existing addressee
/// gets its messages appended, in order, and ends up running; every other
/// task keeps its messages and running state.
pub fn deliver_messages(task_manager: &mut TaskManager, msgs: &Vec<(TaskID, Message)>)
    requires
        old(task_manager).wf(),
    ensures
        final(task_manager).wf(),
        final(task_manager).task_list().len() == old(task_manager).task_list().len(),
        final(task_manager).spec_main_task_id() == old(task_manager).spec_main_task_id(),
        final(task_manager).spec_next_id() == old(task_manager).spec_next_id(),
        forall|i: int|
            0 <= i < old(task_manager).task_list().len() ==> #[trigger] final(task_manager).task_list()[i].msgs()
                == old(task_manager).task_list()[i].msgs() + messages_for(msgs@, TaskID(i as u64)),
        forall|i: int|
            0 <= i < old(task_manager).task_list().len() ==> #[trigger] final(task_manager).task_list()[i].running()
                == (old(task_manager).task_list()[i].running() || messages_for(msgs@, TaskID(i as u64)).len() > 0),
{
    proof {
        task_manager.lemma_len_bound();
    }
    let mut k: usize = 0;
    while k < msgs.len()
        invariant
            task_manager.wf(),
            old(task_manager).task_list().len() < u64::MAX,
            k <= msgs@.len(),
            task_manager.task_list().len() == old(task_manager).task_list().len(),
            task_manager.spec_main_task_id() == old(task_manager).spec_main_task_id(),
            task_manager.spec_next_id() == old(task_manager).spec_next_id(),
            forall|i: int|
                0 <= i < old(task_manager).task_list().len() ==> #[trigger] task_manager.task_list()[i].msgs()
                    == old(task_manager).task_list()[i].msgs() + messages_for(msgs@.subrange(0, k as int), TaskID(i as u64)),
            forall|i: int|
                0 <= i < old(task_manager).task_list().len() ==> #[trigger] task_manager.task_list()[i].running()
                    == (old(task_manager).task_list()[i].running() || messages_for(msgs@.subrange(0, k as int), TaskID(i as u64)).len() > 0),
        decreases msgs@.len() - k,
    {
        let (id, m) = msgs[k];
        let ghost prev = *task_manager;
        let _ = task_manager.send_message(id, m);
        proof {
            assert forall|i: int| 0 <= i < old(task_manager).task_list().len() implies
                #[trigger] task_manager.task_list()[i].msgs() == old(task_manager).task_list()[i].msgs() + messages_for(msgs@.subrange(0, k + 1), TaskID(i as u64)) by {
                lemma_messages_for_push(msgs@, k as int, TaskID(i as u64));
                assert(prev.task_list()[i].msgs() == old(task_manager).task_list()[i].msgs() + messages_for(msgs@.subrange(0, k as int), TaskID(i as u64)));
                if id == TaskID(i as u64) {
                    assert(old(task_manager).task_list()[i].msgs() + messages_for(msgs@.subrange(0, k as int), TaskID(i as u64)).push(m)
                        =~= (old(task_manager).task_list()[i].msgs() + messages_for(msgs@.subrange(0, k as int), TaskID(i as u64))).push(m));
                } else {
                    assert(id.0 != i);
                }
            }
            assert forall|i: int| 0 <= i < old(task_manager).task_list().len() implies
                #[trigger] task_manager.task_list()[i].running() == (old(task_manager).task_list()[i].running() || messages_for(msgs@.subrange(0, k + 1), TaskID(i as u64)).len() > 0) by {
                lemma_messages_for_push(msgs@, k as int, TaskID(i as u64));
                assert(prev.task_list()[i].running() == (old(task_manager).task_list()[i].running() || messages_for(msgs@.subrange(0, k as int), TaskID(i as u64)).len() > 0));
                if id != TaskID(i as u64) {
                    assert(id.0 != i);
                }
            }
        }
        k += 1;
    }
    proof {
        assert(msgs@.subrange(0, msgs@.len() as int) =~= msgs@);
    }
}

impl TimerManager {
    /// Advances the clock by one tick and fires the expired timers, earliest
    /// first: each task-switching timer is replaced by the next one, every
    /// other timer that names a task sends it a `TimerTimeout` message.
    /// Returns whether a task switch is due.
    pub fn tick(&mut self, task_manager: &mut TaskManager) -> (r: bool)
        requires
            old(self).wf(),
            old(self).spec_tick() + 1 + TASK_TIMER_PERIOD <= u64::MAX,
            old(task_manager).wf(),
            old(task_manager).spec_main_task_id().0 < old(task_manager).task_list().len(),
        ensures
            final(self).wf(),
            final(self).spec_tick() == old(self).spec_tick() + 1,
            ({
                let d = drain(old(self).spec_timers(), (old(self).spec_tick() + 1) as u64);
                &&& r == has_task_timer(d.1)
                &&& final(self).spec_timers() == d.0 + switch_timers(
                    d.1,
                    (old(self).spec_tick() + 1) as u64,
                    old(task_manager).spec_main_task_id(),
                )
                &&& forall|i: int|
                    0 <= i < old(task_manager).task_list().len() ==> #[trigger] final(task_manager).task_list()[i].msgs()
                        == old(task_manager).task_list()[i].msgs() + messages_for(timeout_messages(d.1), TaskID(i as u64))
                &&& forall|i: int|
                    0 <= i < old(task_manager).task_list().len() ==> #[trigger] final(task_manager).task_list()[i].running()
                        == (old(task_manager).task_list()[i].running() || messages_for(timeout_messages(d.1), TaskID(i as u64)).len() > 0)
            }),
            final(task_manager).wf(),
            final(task_manager).task_list().len() == old(task_manager).task_list().len(),
            final(task_manager).spec_main_task_id() == old(task_manager).spec_main_task_id(),
    {
        self.tick = self.tick + 1;
        let expired = self.expire();
        let main_task_id = task_manager.main_task().id();
        proof {
            task_manager.lemma_ids();
        }
        let mut task_timer_timeout = false;
        let mut msgs: Vec<(TaskID, Message)> = Vec::new();
        let ghost rem = self.timers@;
        let mut k: usize = 0;
        while k < expired.len()
            invariant
                self.wf(),
                self.tick == old(self).tick + 1,
                self.tick + TASK_TIMER_PERIOD <= u64::MAX,
                k <= expired@.len(),
                self.timers@ == rem + switch_timers(expired@.subrange(0, k as int), self.tick, main_task_id),
                msgs@ == timeout_messages(expired@.subrange(0, k as int)),
                task_timer_timeout == has_task_timer(expired@.subrange(0, k as int)),
            decreases expired@.len() - k,
        {
            let t = expired[k];
            proof {
                lemma_switch_timers_push(expired@, k as int, self.tick, main_task_id);
                lemma_timeout_messages_push(expired@, k as int);
                let p = expired@.subrange(0, k as int);
                let q = expired@.subrange(0, k + 1);
                assert forall|j: int| 0 <= j < p.len() implies p[j] == q[j] by {}
                if has_task_timer(p) {
                    let j = choose|j: int| 0 <= j < p.len() && #[trigger] p[j].value == TASK_TIMER_VALUE;
                    assert(q[j].value == TASK_TIMER_VALUE);
                }
                if has_task_timer(q) && t.value != TASK_TIMER_VALUE {
                    let j = choose|j: int| 0 <= j < q.len() && #[trigger] q[j].value == TASK_TIMER_VALUE;
                    assert(p[j].value == TASK_TIMER_VALUE);
                }
                if t.value == TASK_TIMER_VALUE {
                    assert(q[k as int].value == TASK_TIMER_VALUE);
                }
            }
            if t.value == TASK_TIMER_VALUE {
                task_timer_timeout = true;
                self.add_timer_for_switching_task(main_task_id);
                proof {
                    assert(self.timers@ =~= rem + switch_timers(expired@.subrange(0, k + 1), self.tick, main_task_id));
                }
            } else {
                match t.task_id {
                    Some(task_id) => {
                        msgs.push(
                            (task_id, Message::new(MessageType::TimerTimeout { timeout: t.timeout, value: t.value })),
                        );
                    },
                    None => {},
                }
            }
            k += 1;
        }
        proof {
            assert(expired@.subrange(0, expired@.len() as int) =~= expired@);
        }
        deliver_messages(task_manager, &msgs);
        task_timer_timeout
    }
}

proof fn lemma_switch_timers_push(e: Seq<Timer>, k: int, tick: u64, main: TaskID)
    requires
        0 <= k < e.len(),
    ensures
        switch_timers(e.subrange(0, k + 1), tick, main) == switch_timers(e.subrange(0, k), tick, main) + if e[k].value == TASK_TIMER_VALUE {
            seq![Timer { timeout: (tick + TASK_TIMER_PERIOD) as u64, value: TASK_TIMER_VALUE, task_id: Some(main) }]
        } else {
            Seq::<Timer>::empty()
        },
    decreases k,
{
    let p = e.subrange(0, k);
    let q = e.subrange(0, k + 1);
    if k == 0 {
        assert(q.subrange(1, q.len() as int) =~= Seq::<Timer>::empty());
        assert(switch_timers(p, tick, main) =~= Seq::<Timer>::empty());
        let h = switch_timers(q, tick, main);
        assert(switch_timers(q.subrange(1, q.len() as int), tick, main) == Seq::<Timer>::empty());
        assert(q[0] == e[0]);
        let head = if e[0].value == TASK_TIMER_VALUE {
            seq![Timer { timeout: (tick + TASK_TIMER_PERIOD) as u64, value: TASK_TIMER_VALUE, task_id: Some(main) }]
        } else {
            Seq::<Timer>::empty()
        };
        assert(h == head + Seq::<Timer>::empty());
        assert(head + Seq::<Timer>::empty() =~= head);
        assert(Seq::<Timer>::empty() + head =~= head);
    } else {
        let e1 = e.subrange(1, e.len() as int);
        lemma_switch_timers_push(e1, k - 1, tick, main);
        assert(q.subrange(1, q.len() as int) =~= e1.subrange(0, k));
        assert(p.subrange(1, p.len() as int) =~= e1.subrange(0, k - 1));
        assert(q[0] == e[0]);
        assert(p[0] == e[0]);
        assert(e1[k - 1] == e[k]);
        let last = if e[k].value == TASK_TIMER_VALUE {
            seq![Timer { timeout: (tick + TASK_TIMER_PERIOD) as u64, value: TASK_TIMER_VALUE, task_id: Some(main) }]
        } else {
            Seq::<Timer>::empty()
        };
        let head = if e[0].value == TASK_TIMER_VALUE {
            seq![Timer { timeout: (tick + TASK_TIMER_PERIOD) as u64, value: TASK_TIMER_VALUE, task_id: Some(main) }]
        } else {
            Seq::<Timer>::empty()
        };
        let mid = switch_timers(e1.subrange(0, k - 1), tick, main);
        assert(switch_timers(q, tick, main) =~= head + (mid + last));
        assert(switch_timers(p, tick, main) =~= head + mid);
        assert(head + (mid + last) =~= (head + mid) + last);
    }
}

proof fn lemma_timeout_messages_push(e: Seq<Timer>, k: int)
    requires
        0 <= k < e.len(),
    ensures
        timeout_messages(e.subrange(0, k + 1)) == timeout_messages(e.subrange(0, k)) + if e[k].value != TASK_TIMER_VALUE && e[k].task_id is Some {
            seq![(e[k].task_id->0, Message { m_type: MessageType::TimerTimeout { timeout: e[k].timeout, value: e[k].value } })]
        } else {
            Seq::<(TaskID, Message)>::empty()
        },
    decreases k,
{
    let p = e.subrange(0, k);
    let q = e.subrange(0, k + 1);
    if k == 0 {
        assert(q.subrange(1, q.len() as int) =~= Seq::<Timer>::empty());
        assert(timeout_messages(p) =~= Seq::<(TaskID, Message)>::empty());
        let h = timeout_messages(q);
        assert(timeout_messages(q.subrange(1, q.len() as int)) == Seq::<(TaskID, Message)>::empty());
        assert(q[0] == e[0]);
        let head = if e[0].value != TASK_TIMER_VALUE && e[0].task_id is Some {
            seq![(e[0].task_id->0, Message { m_type: MessageType::TimerTimeout { timeout: e[0].timeout, value: e[0].value } })]
        } else {
            Seq::<(TaskID, Message)>::empty()
        };
        assert(h == head + Seq::<(TaskID, Message)>::empty());
        assert(head + Seq::<(TaskID, Message)>::empty() =~= head);
        assert(Seq::<(TaskID, Message)>::empty() + head =~= head);
    } else {
        let e1 = e.subrange(1, e.len() as int);
        lemma_timeout_messages_push(e1, k - 1);
        assert(q.subrange(1, q.len() as int) =~= e1.subrange(0, k));
        assert(p.subrange(1, p.len() as int) =~= e1.subrange(0, k - 1));
        assert(q[0] == e[0]);
        assert(p[0] == e[0]);
        assert(e1[k - 1] == e[k]);
        let last = if e[k].value != TASK_TIMER_VALUE && e[k].task_id is Some {
            seq![(e[k].task_id->0, Message { m_type: MessageType::TimerTimeout { timeout: e[k].timeout, value: e[k].value } })]
        } else {
            Seq::<(TaskID, Message)>::empty()
        };
        let head = if e[0].value != TASK_TIMER_VALUE && e[0].task_id is Some {
            seq![(e[0].task_id->0, Message { m_type: MessageType::TimerTimeout { timeout: e[0].timeout, value: e[0].value } })]
        } else {
            Seq::<(TaskID, Message)>::empty()
        };
        let mid = timeout_messages(e1.subrange(0, k - 1));
        assert(timeout_messages(q) =~= head + (mid + last));
        assert(timeout_messages(p) =~= head + mid);
        assert(head + (mid + last) =~= (head + mid) + last);
    }
}

} // verus!
