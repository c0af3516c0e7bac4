use vstd::prelude::*;

verus! {

/// Queue of references of type `T` that live at least as long as `'a`.
///
/// `head` holds the elements ready to be popped, the next one at its end;
/// `tail` holds the elements pushed since `head` was last refilled, the
/// newest at its end.
pub struct AmoQueue<'a, T> {
    head: Vec<&'a T>,
    tail: Vec<&'a T>,
    /// Every reference ever pushed, in push order.
    pushed: Ghost<Seq<&'a T>>,
    /// Number of references handed out by `pop_head`.
    popped: Ghost<nat>,
    /// Number of single-element moves from `tail` to `head` so far.
    moved: Ghost<nat>,
}

impl<'a, T> View for AmoQueue<'a, T> {
    type V = Seq<&'a T>;

    /// The queue's contents in pop order: `head` from its end, then `tail`
    /// from its start.
    closed spec fn view(&self) -> Seq<&'a T> {
        self.head@.reverse() + self.tail@
    }
}

impl<'a, T> AmoQueue<'a, T> {
    /// Every reference pushed so far, in push order.
    pub closed spec fn pushed_log(&self) -> Seq<&'a T> {
        self.pushed@
    }

    /// How many references `pop_head` has returned so far.
    pub closed spec fn popped_count(&self) -> nat {
        self.popped@
    }

    /// How many single-element moves the lazy flips have made so far.
    pub closed spec fn moved_count(&self) -> nat {
        self.moved@
    }

    /// Well-formedness: the contents are exactly the pushed references that
    /// have not been popped, and every pushed reference that is no longer
    /// waiting in `tail` has been moved exactly once.
    pub closed spec fn inv(&self) -> bool {
        &&& self.popped@ <= self.pushed@.len()
        &&& self@ == self.pushed@.subrange(self.popped@ as int, self.pushed@.len() as int)
        &&& self.moved@ + self.tail@.len() == self.pushed@.len()
        &&& self.head@.len() + self.tail@.len() <= usize::MAX
    }

    /// Create a new, empty queue.
    pub fn new() -> (r: Self)
        ensures
            r.inv(),
            r@ == Seq::<&'a T>::empty(),
            r.pushed_log() == Seq::<&'a T>::empty(),
            r.popped_count() == 0,
            r.moved_count() == 0,
    {
        let head = Vec::new();
        let tail = Vec::new();
        let r = AmoQueue { head, tail, pushed: Ghost(Seq::empty()), popped: Ghost(0), moved: Ghost(0) };
        proof {
            assert(r@ =~= Seq::<&'a T>::empty());
            assert(r.pushed@.subrange(0, 0) =~= Seq::<&'a T>::empty());
        }
        r
    }

    /// Number of elements currently contained in the queue.
    pub fn len(&self) -> (r: usize)
        requires
            self.inv(),
        ensures
            r == self@.len(),
            r == self.pushed_log().len() - self.popped_count(),
    {
        assert(self.head@.reverse().len() == self.head@.len());
        self.head.len() + self.tail.len()
    }

    /// True iff the queue currently contains 0 elements.
    pub fn is_empty(&self) -> (r: bool)
        requires
            self.inv(),
        ensures
            r <==> self@.len() == 0,
    {
        self.len() == 0
    }

    /// Push a reference onto the tail of the queue.
    pub fn push_tail(&mut self, elem: &'a T)
        requires
            old(self).inv(),
            old(self)@.len() < usize::MAX,
        ensures
            final(self).inv(),
            final(self)@ == old(self)@.push(elem),
            final(self).pushed_log() == old(self).pushed_log().push(elem),
            final(self).popped_count() == old(self).popped_count(),
            final(self).moved_count() == old(self).moved_count(),
    {
        self.tail.push(elem);
        self.pushed = Ghost(self.pushed@.push(elem));
        proof {
            assert(self@ =~= old(self)@.push(elem));
            assert(self.pushed@.subrange(self.popped@ as int, self.pushed@.len() as int)
                =~= old(self).pushed@.subrange(self.popped@ as int, old(self).pushed@.len() as int).push(elem));
        }
    }

    /// Pop a reference off the head of the queue.
    ///
    /// When `head` is exhausted, every element of `tail` is first moved onto
    /// it in reverse order, so that the oldest one ends up on top.
    pub fn pop_head(&mut self) -> (r: Option<&'a T>)
        requires
            old(self).inv(),
        ensures
            final(self).inv(),
            final(self).pushed_log() == old(self).pushed_log(),
            old(self)@.len() == 0 ==> {
                &&& r is None
                &&& final(self)@ == old(self)@
                &&& final(self).popped_count() == old(self).popped_count()
            },
            old(self)@.len() > 0 ==> {
                &&& r == Some(old(self)@[0])
                &&& r == Some(old(self).pushed_log()[old(self).popped_count() as int])
                &&& final(self)@ == old(self)@.drop_first()
                &&& final(self).popped_count() == old(self).popped_count() + 1
            },
            old(self).moved_count() <= final(self).moved_count(),
    {
        if self.is_empty() {
            return None;
        }
        if self.head.len() == 0 {
            let ghost tail0 = self.tail@;
            assert(self.tail@ + self.head@.reverse() =~= tail0);
            while self.tail.len() > 0
                invariant
                    self.tail@ + self.head@.reverse() == tail0,
                    self.moved@ + self.tail@.len() == self.pushed@.len(),
                    self.pushed == old(self).pushed,
                    self.popped == old(self).popped,
                    self.head@.len() + self.tail@.len() == tail0.len(),
                    old(self).moved@ <= self.moved@,
                decreases self.tail@.len(),
            {
                match self.tail.pop() {
                    Some(x) => {
                        let ghost t = self.tail@;
                        let ghost h = self.head@;
                        self.head.push(x);
                        self.moved = Ghost(self.moved@ + 1);
                        assert(self.head@.reverse() =~= seq![x] + h.reverse());
                        assert(t.push(x) + h.reverse() =~= t + self.head@.reverse());
                    },
                    None => {},
                }
            }
            assert(self.head@.reverse() =~= tail0);
        }
        let ghost h = self.head@;
        let r = self.head.pop();
        self.popped = Ghost(self.popped@ + 1);
        proof {
            assert(h.reverse() =~= seq![h.last()] + self.head@.reverse());
            assert(self@ =~= old(self)@.drop_first());
            let p = self.pushed@;
            let k = old(self).popped@ as int;
            assert(p.subrange(k + 1, p.len() as int) =~= p.subrange(k, p.len() as int).drop_first());
        }
        r
    }

    /// First in, first out: the queue holds, front to back, exactly the
    /// pushed references that have not been popped yet, in push order. With
    /// `pop_head` handing out `pushed_log()[popped_count()]`, the k-th
    /// successful pop returns the k-th pushed reference.
    pub proof fn lemma_fifo_order(&self)
        requires
            self.inv(),
        ensures
            self.popped_count() <= self.pushed_log().len(),
            self@.len() == self.pushed_log().len() - self.popped_count(),
            forall|i: int|
                0 <= i < self@.len() ==> #[trigger] self@[i] == self.pushed_log()[self.popped_count() + i],
    {
    }

    /// The number of queued elements is the number of pushes minus the number
    /// of successful pops.
    pub proof fn lemma_size_consistency(&self)
        requires
            self.inv(),
        ensures
            self@.len() + self.popped_count() == self.pushed_log().len(),
    {
    }

    /// Each pushed element is moved from `tail` to `head` at most once, so
    /// the lazy flips make no more single-element moves in total than there
    /// were pushes, hence no more than the number of operations performed
    /// since the queue was created.
    pub proof fn lemma_flip_moves_bounded(&self)
        requires
            self.inv(),
        ensures
            self.moved_count() <= self.pushed_log().len(),
    {
    }
}

} // verus!
