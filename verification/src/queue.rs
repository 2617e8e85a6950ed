use crate::error::{Code, Error};
use vstd::prelude::*;

verus! {

/// A queue of at most `N` values kept in a ring of `N` slots.
pub struct ArrayQueue<T, const N: usize> {
    data: [T; N],
    length: usize,
    write_pos: usize,
    read_pos: usize,
}

impl<T, const N: usize> ArrayQueue<T, N> {
    /// The values queued, oldest first.
    pub closed spec fn view(&self) -> Seq<T> {
        Seq::new(self.length as nat, |i: int| self.data@[(self.read_pos + i) % (N as int)])
    }

    /// The slots hold `N` values; the queued ones run from the read
    /// position, wrapping around, to just before the write position.
    pub closed spec fn wf(&self) -> bool {
        &&& self.length <= N
        &&& N == 0 ==> self.read_pos == 0 && self.write_pos == 0
        &&& N > 0 ==> self.read_pos < N && self.write_pos < N
        &&& N > 0 ==> self.write_pos == (self.read_pos + self.length) % (N as int)
    }

    /// A sound queue holds at most `N` values.
    pub proof fn lemma_len_bound(&self)
        requires
            self.wf(),
        ensures
            self.view().len() <= N,
    {
    }

    /// An empty queue over the slots `data`.
    pub fn new(data: [T; N]) -> (q: Self)
        ensures
            q.wf(),
            q.view() == Seq::<T>::empty(),
    {
        let q = ArrayQueue { data, length: 0, write_pos: 0, read_pos: 0 };
        assert(q.view() =~= Seq::<T>::empty());
        if N > 0 {
            assert((0int + 0int) % (N as int) == 0) by (nonlinear_arith)
                requires
                    N > 0,
            ;
        }
        q
    }

    /// Appends `value`; an error `Full` when `N` values are queued.
    pub fn push(&mut self, value: T) -> (r: Result<(), Error>)
        requires
            old(self).wf(),
        ensures
            final(self).wf(),
            old(self).view().len() >= N ==> (r matches Err(e) && e.code == Code::Full) && final(self).view()
                == old(self).view(),
            old(self).view().len() < N ==> r is Ok && final(self).view() == old(self).view().push(value),
            final(self).view() == queue_step(old(self).view(), N as nat, QueueOp::Push(value)),
    {
        if self.length >= N {
            return Err(Error::new(Code::Full, "queue.rs", 0));
        }
        let ghost old_view = self.view();
        let ghost old_q = *self;
        self.data[self.write_pos] = value;
        self.length = self.length + 1;
        self.write_pos = self.write_pos + 1;
        if self.write_pos == N {
            self.write_pos = 0;
        }
        proof {
            let n = N as int;
            assert forall|i: int| 0 <= i < self.length implies #[trigger] self.view()[i] == old_view.push(value)[i] by {
                if i < old_q.length {
                    lemma_ring_distinct(old_q.read_pos as int, i, old_q.length as int, n);
                } else {
                    lemma_ring_last(old_q.read_pos as int, old_q.length as int, n);
                }
            }
            lemma_ring_step(old_q.read_pos as int, old_q.length as int, n);
            assert(self.view() =~= old_view.push(value));
        }
        Ok(())
    }

    /// Takes the oldest value; an error `Empty` when nothing is queued.
    pub fn pop(&mut self) -> (r: Result<&T, Error>)
        requires
            old(self).wf(),
        ensures
            final(self).wf(),
            old(self).view().len() == 0 ==> (r matches Err(e) && e.code == Code::Empty) && final(self).view()
                == old(self).view(),
            old(self).view().len() > 0 ==> (r matches Ok(v) && *v == old(self).view()[0]) && final(self).view()
                == old(self).view().drop_first(),
            final(self).view() == queue_step(old(self).view(), N as nat, QueueOp::Pop),
    {
        if self.length == 0 {
            return Err(Error::new(Code::Empty, "queue.rs", 0));
        }
        let ghost old_view = self.view();
        let ghost old_q = *self;
        let i: usize = self.read_pos;
        self.length = self.length - 1;
        self.read_pos = self.read_pos + 1;
        if self.read_pos == N {
            self.read_pos = 0;
        }
        proof {
            let n = N as int;
            assert((old_q.read_pos as int) % n == old_q.read_pos as int) by (nonlinear_arith)
                requires
                    0 <= old_q.read_pos < n,
            ;
            assert forall|k: int| 0 <= k < self.length implies #[trigger] self.view()[k] == old_view.drop_first()[k] by {
                lemma_ring_shift(old_q.read_pos as int, k, n);
            }
            assert(self.view() =~= old_view.drop_first());
            assert(self.write_pos == (self.read_pos + self.length) % n) by {
                lemma_ring_shift(old_q.read_pos as int, self.length as int, n);
            }
        }
        Ok(&self.data[i])
    }

    /// The oldest value; there must be one.
    pub fn front(&self) -> (v: &T)
        requires
            self.wf(),
            self.view().len() > 0,
        ensures
            *v == self.view()[0],
    {
        proof {
            assert((self.read_pos as int) % (N as int) == self.read_pos as int) by (nonlinear_arith)
                requires
                    0 <= self.read_pos < N,
            ;
        }
        &self.data[self.read_pos]
    }

    /// How many values are queued.
    pub fn count(&self) -> (n: usize)
        ensures
            n == self.view().len(),
    {
        self.length
    }
}

/// Moving the read position one slot on keeps every later slot's place.
proof fn lemma_ring_shift(r: int, k: int, n: int)
    requires
        0 <= r < n,
        0 <= k,
    ensures
        ((if r + 1 == n { 0 } else { r + 1 }) + k) % n == (r + (k + 1)) % n,
{
    if r + 1 == n {
        assert((0 + k) % n == (r + (k + 1)) % n) by (nonlinear_arith)
            requires
                r + 1 == n,
                0 <= k,
                n > 0,
        ;
    }
}

/// The slots of the queued values differ from the write position.
proof fn lemma_ring_distinct(r: int, i: int, len: int, n: int)
    requires
        0 <= r < n,
        0 <= i < len <= n - 1,
    ensures
        (r + i) % n != (r + len) % n,
{
    assert((r + i) % n != (r + len) % n) by (nonlinear_arith)
        requires
            0 <= r < n,
            0 <= i < len <= n - 1,
    ;
}

/// The write position is the slot after the last queued value.
proof fn lemma_ring_last(r: int, len: int, n: int)
    requires
        0 <= r < n,
        0 <= len < n,
    ensures
        0 <= (r + len) % n < n,
{
    assert(0 <= (r + len) % n < n) by (nonlinear_arith)
        requires
            n > 0,
    ;
}

/// Moving the write position one slot on wraps at the end of the ring.
proof fn lemma_ring_step(r: int, len: int, n: int)
    requires
        0 <= r < n,
        0 <= len < n,
    ensures
        (if (r + len) % n + 1 == n { 0 } else { (r + len) % n + 1 }) == (r + (len + 1)) % n,
{
    assert((if (r + len) % n + 1 == n { 0 } else { (r + len) % n + 1 }) == (r + (len + 1)) % n) by (nonlinear_arith)
        requires
            0 <= r < n,
            0 <= len < n,
    ;
}

/// A call on a queue: `push` of a value, or `pop`.
pub enum QueueOp<T> {
    Push(T),
    Pop,
}

/// The queue `q` (of room `n`) after `op`, as `push` and `pop` state it: a
/// push onto a full queue and a pop from an empty one change nothing.
pub open spec fn queue_step<T>(q: Seq<T>, n: nat, op: QueueOp<T>) -> Seq<T> {
    match op {
        QueueOp::Push(v) => if q.len() >= n { q } else { q.push(v) },
        QueueOp::Pop => if q.len() == 0 { q } else { q.drop_first() },
    }
}

/// The queue after the calls `ops` in turn.
pub open spec fn queue_run<T>(q: Seq<T>, n: nat, ops: Seq<QueueOp<T>>) -> Seq<T>
    decreases ops.len(),
{
    if ops.len() == 0 {
        q
    } else {
        queue_run(queue_step(q, n, ops[0]), n, ops.drop_first())
    }
}

/// The values that the pushes of `ops` put in, in order (the refused
/// ones left out).
pub open spec fn queue_pushed<T>(q: Seq<T>, n: nat, ops: Seq<QueueOp<T>>) -> Seq<T>
    decreases ops.len(),
{
    if ops.len() == 0 {
        Seq::empty()
    } else {
        let first = match ops[0] {
            QueueOp::Push(v) => if q.len() < n { seq![v] } else { Seq::empty() },
            QueueOp::Pop => Seq::empty(),
        };
        first + queue_pushed(queue_step(q, n, ops[0]), n, ops.drop_first())
    }
}

/// The values that the pops of `ops` give back, in order (the refused
/// ones left out).
pub open spec fn queue_popped<T>(q: Seq<T>, n: nat, ops: Seq<QueueOp<T>>) -> Seq<T>
    decreases ops.len(),
{
    if ops.len() == 0 {
        Seq::empty()
    } else {
        let first = match ops[0] {
            QueueOp::Push(_) => Seq::empty(),
            QueueOp::Pop => if q.len() > 0 { seq![q[0]] } else { Seq::empty() },
        };
        first + queue_popped(queue_step(q, n, ops[0]), n, ops.drop_first())
    }
}

/// First in, first out: over any calls, what was queued and then pushed
/// comes out, in the same order, as what the pops gave back followed by
/// what is still queued; the queue never holds more than its room, and it
/// holds what it held plus the accepted pushes less the accepted pops.
pub proof fn lemma_queue_fifo<T>(q: Seq<T>, n: nat, ops: Seq<QueueOp<T>>)
    requires
        q.len() <= n,
    ensures
        q + queue_pushed(q, n, ops) == queue_popped(q, n, ops) + queue_run(q, n, ops),
        queue_run(q, n, ops).len() <= n,
        queue_run(q, n, ops).len() == q.len() + queue_pushed(q, n, ops).len() - queue_popped(q, n, ops).len(),
    decreases ops.len(),
{
    if ops.len() == 0 {
        assert(q + Seq::<T>::empty() =~= Seq::<T>::empty() + q);
    } else {
        let q1 = queue_step(q, n, ops[0]);
        lemma_queue_fifo(q1, n, ops.drop_first());
        let rest_push = queue_pushed(q1, n, ops.drop_first());
        let rest_pop = queue_popped(q1, n, ops.drop_first());
        match ops[0] {
            QueueOp::Push(v) => {
                if q.len() < n {
                    assert(q + (seq![v] + rest_push) =~= q1 + rest_push);
                    assert(queue_popped(q, n, ops) =~= rest_pop);
                } else {
                    assert(queue_pushed(q, n, ops) =~= rest_push);
                    assert(queue_popped(q, n, ops) =~= rest_pop);
                }
            },
            QueueOp::Pop => {
                assert(queue_pushed(q, n, ops) =~= rest_push);
                if q.len() > 0 {
                    assert(q =~= seq![q[0]] + q1);
                    assert(q + rest_push =~= seq![q[0]] + (q1 + rest_push));
                    assert(seq![q[0]] + (rest_pop + queue_run(q1, n, ops.drop_first())) =~= (seq![q[0]] + rest_pop)
                        + queue_run(q1, n, ops.drop_first()));
                } else {
                    assert(queue_popped(q, n, ops) =~= rest_pop);
                }
            },
        }
    }
}

} // verus!
