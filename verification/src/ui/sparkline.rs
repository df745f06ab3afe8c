use vstd::prelude::*;

verus! {

/// The items that a history of capacity `cap` keeps out of everything that was
/// pushed into it, oldest first: the last `cap` of them.
pub open spec fn keep_last<T>(pushed: Seq<T>, cap: nat) -> Seq<T> {
    if pushed.len() <= cap {
        pushed
    } else {
        pushed.subrange(pushed.len() - cap, pushed.len() as int)
    }
}

/// Fixed-capacity circular buffer for sparkline history.
#[derive(Clone, Debug)]
pub struct RingBuffer<T> {
    buf: Vec<T>,
    cap: usize,
    head: usize,  // next write position
    len: usize,
}

impl<T> View for RingBuffer<T> {
    type V = Seq<T>;

    /// The retained items, oldest first.
    closed spec fn view(&self) -> Seq<T> {
        if self.len < self.cap {
            self.buf@.subrange(0, self.len as int)
        } else {
            self.buf@.subrange(self.head as int, self.cap as int) + self.buf@.subrange(
                0,
                self.head as int,
            )
        }
    }
}

impl<T> RingBuffer<T> {
    /// The number of items the buffer keeps.
    pub closed spec fn capacity(&self) -> nat {
        self.cap as nat
    }

    /// Internal consistency of the circular layout.
    pub closed spec fn wf(&self) -> bool {
        &&& self.buf@.len() == self.cap
        &&& self.len <= self.cap
        &&& (self.cap == 0 ==> self.head == 0)
        &&& (self.cap > 0 ==> self.head < self.cap)
        &&& (self.len < self.cap ==> self.head == self.len)
    }

    /// A history never holds more items than its capacity.
    pub proof fn lemma_len_bounded(&self)
        requires
            self.wf(),
        ensures
            self@.len() <= self.capacity(),
    {
    }
}

impl<T: Copy + Default> RingBuffer<T> {
    /// An empty history that keeps the last `capacity` items.
    pub fn new(capacity: usize) -> (r: Self)
        ensures
            r.wf(),
            r.capacity() == capacity,
            r@ == Seq::<T>::empty(),
    {
        let r = Self { buf: vec![T::default(); capacity], cap: capacity, head: 0, len: 0 };
        assert(r@ =~= Seq::<T>::empty());
        r
    }

    /// Append `val`; once the buffer is full the oldest item is dropped.
    pub fn push(&mut self, val: T)
        requires
            old(self).wf(),
            old(self).capacity() > 0,
        ensures
            final(self).wf(),
            final(self).capacity() == old(self).capacity(),
            final(self)@ == keep_last(old(self)@.push(val), old(self).capacity()),
    {
        let ghost old_buf = self.buf@;
        let ghost old_view = self@;
        let h = self.head;
        self.buf.set(h, val);
        self.head = if h + 1 == self.cap { 0 } else { h + 1 };
        if self.len < self.cap {
            self.len = self.len + 1;
        }
        proof {
            let cap = self.cap as int;
            let nb = self.buf@;
            assert(nb == old_buf.update(h as int, val));
            if old(self).len < old(self).cap {
                if self.len < self.cap {
                    assert(self@ =~= old_view.push(val));
                } else {
                    assert(self.head == 0);
                    assert(self@ =~= old_view.push(val));
                }
            } else {
                assert(old_view.len() == cap);
                if h + 1 < cap {
                    assert(self@ =~= old_view.push(val).subrange(1, cap + 1));
                } else {
                    assert(self.head == 0);
                    assert(self@ =~= old_view.push(val).subrange(1, cap + 1));
                }
            }
        }
    }

    /// Return data oldest→newest.
    pub fn as_vec(&self) -> (out: Vec<T>)
        requires
            self.wf(),
        ensures
            out@ == self@,
    {
        let mut out: Vec<T> = Vec::new();
        if self.len < self.cap {
            // haven't wrapped yet
            let mut i: usize = 0;
            while i < self.len
                invariant
                    self.wf(),
                    i <= self.len,
                    out@ == self.buf@.subrange(0, i as int),
                decreases self.len - i,
            {
                out.push(self.buf[i]);
                i = i + 1;
                assert(out@ =~= self.buf@.subrange(0, i as int));
            }
        } else {
            let mut i: usize = self.head;
            while i < self.cap
                invariant
                    self.wf(),
                    self.head <= i <= self.cap,
                    out@ == self.buf@.subrange(self.head as int, i as int),
                decreases self.cap - i,
            {
                out.push(self.buf[i]);
                i = i + 1;
                assert(out@ =~= self.buf@.subrange(self.head as int, i as int));
            }
            let mut j: usize = 0;
            while j < self.head
                invariant
                    self.wf(),
                    j <= self.head,
                    self.len == self.cap,
                    out@ == self.buf@.subrange(self.head as int, self.cap as int)
                        + self.buf@.subrange(0, j as int),
                decreases self.head - j,
            {
                out.push(self.buf[j]);
                j = j + 1;
                assert(out@ =~= self.buf@.subrange(self.head as int, self.cap as int)
                    + self.buf@.subrange(0, j as int));
            }
        }
        out
    }
}

/// The history after pushing every item of `items`, in order, into a history
/// of capacity `cap` that holds `start`.
pub open spec fn push_all<T>(start: Seq<T>, items: Seq<T>, cap: nat) -> Seq<T>
    decreases items.len(),
{
    if items.len() == 0 {
        start
    } else {
        push_all(keep_last(start.push(items[0]), cap), items.drop_first(), cap)
    }
}

/// One push on a history that already dropped its oldest items keeps the same
/// items as the push on the whole record would.
pub proof fn lemma_keep_last_push<T>(s: Seq<T>, x: T, cap: nat)
    requires
        cap > 0,
    ensures
        keep_last(keep_last(s, cap).push(x), cap) == keep_last(s.push(x), cap),
{
    if s.len() > cap {
        assert(keep_last(keep_last(s, cap).push(x), cap) =~= keep_last(s.push(x), cap));
    } else if s.len() == cap {
        assert(keep_last(keep_last(s, cap).push(x), cap) =~= keep_last(s.push(x), cap));
    }
}

/// A history of capacity `cap` that starts from `start` and receives `items`
/// holds the last `cap` items of `start` followed by `items`: the values shown
/// are always the most recent ones, oldest first.
pub proof fn lemma_history_is_last_pushed<T>(start: Seq<T>, items: Seq<T>, cap: nat)
    requires
        cap > 0,
    ensures
        push_all(keep_last(start, cap), items, cap) == keep_last(start + items, cap),
    decreases items.len(),
{
    if items.len() == 0 {
        assert(start + items =~= start);
        if start.len() > cap {
            assert(keep_last(keep_last(start, cap), cap) =~= keep_last(start, cap));
        }
    } else {
        lemma_keep_last_push(start, items[0], cap);
        lemma_history_is_last_pushed(start.push(items[0]), items.drop_first(), cap);
        assert(start.push(items[0]) + items.drop_first() =~= start + items);
    }
}

/// A new history of capacity `cap` that receives `items` shows the newest
/// `min(len, cap)` of them, oldest first.
pub proof fn lemma_new_history_shows_newest<T>(items: Seq<T>, cap: nat)
    requires
        cap > 0,
    ensures
        push_all(Seq::<T>::empty(), items, cap) == keep_last(items, cap),
        push_all(Seq::<T>::empty(), items, cap) == items.subrange(
            items.len() - (if items.len() < cap { items.len() as int } else { cap as int }),
            items.len() as int,
        ),
{
    lemma_history_is_last_pushed(Seq::<T>::empty(), items, cap);
    assert(Seq::<T>::empty() + items =~= items);
    assert(keep_last(Seq::<T>::empty(), cap) =~= Seq::<T>::empty());
    if items.len() <= cap {
        assert(items.subrange(0, items.len() as int) =~= items);
    }
}

} // verus!
