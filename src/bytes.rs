//! A byte queue with pushback: bytes taken from the head are remembered, so
//! that a recognition attempt that runs out of input can be rolled back.
use std::collections::VecDeque;
use vstd::prelude::*;

verus! {

/// Pending bytes, plus the stack of bytes read since the counter was reset.
pub struct Bytes {
    unget: Vec<u8>,
    data: VecDeque<u8>,
}

/// The abstract state of a queue: what is pending and what has been read.
pub struct QueueModel {
    pub pending: Seq<u8>,
    pub consumed: Seq<u8>,
}

/// One read: the head byte moves from the pending bytes to the read stack.
pub open spec fn read_step(q: QueueModel) -> QueueModel {
    if q.pending.len() == 0 {
        q
    } else {
        QueueModel { pending: q.pending.drop_first(), consumed: q.consumed.push(q.pending[0]) }
    }
}

/// One pushback of `b`: it leaves the read stack and becomes the head again.
pub open spec fn unget_step(q: QueueModel, b: u8) -> QueueModel {
    QueueModel { pending: seq![b] + q.pending, consumed: q.consumed.drop_last() }
}

/// Whether `b` may be pushed back: it is the most recently read byte.
pub open spec fn can_unget(q: QueueModel, b: u8) -> bool {
    q.consumed.len() > 0 && q.consumed.last() == b
}

pub open spec fn read_times(q: QueueModel, n: nat) -> QueueModel
    decreases n,
{
    if n == 0 {
        q
    } else {
        read_times(read_step(q), (n - 1) as nat)
    }
}

/// Pushes back the bytes of `bs`, the last one first.
pub open spec fn unget_all(q: QueueModel, bs: Seq<u8>) -> QueueModel
    decreases bs.len(),
{
    if bs.len() == 0 {
        q
    } else {
        unget_all(unget_step(q, bs.last()), bs.drop_last())
    }
}

/// Whether every pushback of `unget_all(q, bs)` is allowed when it is made.
pub open spec fn can_unget_all(q: QueueModel, bs: Seq<u8>) -> bool
    decreases bs.len(),
{
    bs.len() == 0 || (can_unget(q, bs.last()) && can_unget_all(
        unget_step(q, bs.last()),
        bs.drop_last(),
    ))
}

proof fn lemma_read_times(q: QueueModel, n: nat)
    requires
        n <= q.pending.len(),
    ensures
        read_times(q, n) == (QueueModel {
            pending: q.pending.skip(n as int),
            consumed: q.consumed + q.pending.take(n as int),
        }),
    decreases n,
{
    if n > 0 {
        let q1 = read_step(q);
        lemma_read_times(q1, (n - 1) as nat);
        assert(q1.pending.skip(n - 1) =~= q.pending.skip(n as int));
        assert(q1.consumed + q1.pending.take(n - 1) =~= q.consumed + q.pending.take(n as int));
    } else {
        assert(q.pending.skip(0) =~= q.pending);
        assert(q.consumed + q.pending.take(0) =~= q.consumed);
    }
}

proof fn lemma_unget_all(c: Seq<u8>, bs: Seq<u8>, p: Seq<u8>)
    ensures
        can_unget_all(QueueModel { pending: p, consumed: c + bs }, bs),
        unget_all(QueueModel { pending: p, consumed: c + bs }, bs) == (QueueModel {
            pending: bs + p,
            consumed: c,
        }),
    decreases bs.len(),
{
    let q = QueueModel { pending: p, consumed: c + bs };
    if bs.len() > 0 {
        let q1 = unget_step(q, bs.last());
        assert(q1.consumed =~= c + bs.drop_last());
        lemma_unget_all(c, bs.drop_last(), seq![bs.last()] + p);
        assert(bs.drop_last() + (seq![bs.last()] + p) =~= bs + p);
    } else {
        assert(c + bs =~= c);
        assert(bs + p =~= p);
    }
}

/// Reading `n` bytes and then pushing the same bytes back, the last read
/// first, is allowed at every step and restores the queue exactly: the same
/// pending bytes and the same read count.
pub proof fn pushback_round_trip(q: QueueModel, n: nat)
    requires
        n <= q.pending.len(),
    ensures
        read_times(q, n).consumed == q.consumed + q.pending.take(n as int),
        can_unget_all(read_times(q, n), q.pending.take(n as int)),
        unget_all(read_times(q, n), q.pending.take(n as int)) == q,
{
    lemma_read_times(q, n);
    lemma_unget_all(q.consumed, q.pending.take(n as int), q.pending.skip(n as int));
    assert(q.pending.take(n as int) + q.pending.skip(n as int) =~= q.pending);
}

impl Bytes {
    /// The queue's state as a model value.
    pub open spec fn model(&self) -> QueueModel {
        QueueModel { pending: self.pending(), consumed: self.consumed() }
    }

    /// The bytes waiting to be read, head first.
    pub closed spec fn pending(&self) -> Seq<u8> {
        self.data@
    }

    /// The bytes read since the last reset, oldest first.
    pub closed spec fn consumed(&self) -> Seq<u8> {
        self.unget@
    }

    pub fn new() -> (r: Bytes)
        ensures
            r.pending() == Seq::<u8>::empty(),
            r.consumed() == Seq::<u8>::empty(),
    {
        Bytes { unget: Vec::new(), data: VecDeque::new() }
    }

    pub fn read_count(&self) -> (r: usize)
        ensures
            r == self.consumed().len(),
    {
        self.unget.len()
    }

    pub fn reset_counter(&mut self)
        ensures
            final(self).pending() == old(self).pending(),
            final(self).consumed() == Seq::<u8>::empty(),
    {
        self.unget.clear();
    }

    /// Puts back the most recently read byte, which must be `expect`.
    pub fn unget(&mut self, expect: u8)
        requires
            old(self).consumed().len() > 0,
            old(self).consumed().last() == expect,
        ensures
            final(self).pending() == seq![expect] + old(self).pending(),
            final(self).consumed() == old(self).consumed().drop_last(),
            final(self).model() == unget_step(old(self).model(), expect),
    {
        let actual = self.unget.pop().unwrap();
        self.data.push_front(actual);
        assert(self.data@ =~= seq![expect] + old(self).pending());
    }

    pub fn is_empty(&self) -> (r: bool)
        ensures
            r == (self.pending().len() == 0),
    {
        self.data.len() == 0
    }

    /// Whether `b` is among the pending bytes; nothing is read.
    pub fn contains(&self, b: u8) -> (r: bool)
        ensures
            r == self.pending().contains(b),
    {
        let n = self.data.len();
        let mut i: usize = 0;
        while i < n
            invariant
                n == self.data@.len(),
                i <= n,
                forall|j: int| 0 <= j < i ==> self.data@[j] != b,
            decreases n - i,
        {
            if self.data[i] == b {
                return true;
            }
            i += 1;
        }
        false
    }

    /// Takes the head byte and remembers it for pushback.
    pub fn next(&mut self) -> (r: Option<u8>)
        ensures
            old(self).pending().len() == 0 ==> {
                &&& r.is_none()
                &&& final(self).pending() == old(self).pending()
                &&& final(self).consumed() == old(self).consumed()
            },
            old(self).pending().len() > 0 ==> {
                &&& r == Some(old(self).pending()[0])
                &&& final(self).pending() == old(self).pending().drop_first()
                &&& final(self).consumed() == old(self).consumed().push(old(self).pending()[0])
            },
            final(self).model() == read_step(old(self).model()),
    {
        match self.data.pop_front() {
            Some(b) => {
                self.unget.push(b);
                Some(b)
            },
            None => None,
        }
    }

    /// Appends `buf` at the tail.
    pub fn extend(&mut self, buf: &[u8])
        ensures
            final(self).pending() == old(self).pending() + buf@,
            final(self).consumed() == old(self).consumed(),
    {
        let mut i: usize = 0;
        while i < buf.len()
            invariant
                i <= buf@.len(),
                self.data@ == old(self).data@ + buf@.take(i as int),
                self.unget@ == old(self).unget@,
            decreases buf@.len() - i,
        {
            self.data.push_back(buf[i]);
            i += 1;
            assert(self.data@ =~= old(self).data@ + buf@.take(i as int));
        }
        assert(buf@.take(buf@.len() as int) =~= buf@);
    }

    /// Puts back the last `n` bytes read, restoring them in their order.
    pub fn rollback(&mut self, n: usize)
        requires
            n <= old(self).consumed().len(),
        ensures
            final(self).pending() == old(self).consumed().skip(old(self).consumed().len() - n)
                + old(self).pending(),
            final(self).consumed() == old(self).consumed().take(old(self).consumed().len() - n),
    {
        let ghost c = old(self).consumed();
        let ghost start = c.len() - n;
        let mut i: usize = 0;
        while i < n
            invariant
                i <= n,
                n <= c.len(),
                start == c.len() - n,
                self.consumed() == c.take(c.len() - i),
                self.pending() == c.subrange(c.len() - i, c.len() as int) + old(self).pending(),
            decreases n - i,
        {
            let b = self.unget[self.unget.len() - 1];
            self.unget(b);
            i += 1;
            assert(self.consumed() =~= c.take(c.len() - i));
            assert(self.pending() =~= c.subrange(c.len() - i, c.len() as int) + old(self).pending());
        }
        assert(c.subrange(start, c.len() as int) =~= c.skip(start));
    }
}

} // verus!
