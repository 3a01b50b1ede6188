use std::collections::VecDeque;
use std::time::{Duration, Instant};
use vstd::prelude::*;

verus! {

/// `std::time::Instant`: a reading of the monotonic clock. Nothing is known of its inside.
#[verifier::external_type_specification]
#[verifier::external_body]
pub struct ExInstant(Instant);

/// The length of a duration in whole nanoseconds, as `Duration::as_nanos` gives it.
pub uninterp spec fn duration_nanos(d: Duration) -> u128;

/// `Instant::now`: reads the monotonic clock. Nothing is promised of the reading.
#[verifier::external_body]
fn clock_now() -> (now: Instant) {
    Instant::now()
}

/// `Instant::elapsed`: the time that has passed since `origin` was read. It depends on
/// the clock, so nothing is promised of it.
#[verifier::external_body]
fn clock_elapsed(origin: &Instant) -> (d: Duration) {
    origin.elapsed()
}

/// `Duration::as_nanos`: the duration in whole nanoseconds, a function of the duration
/// alone.
#[verifier::external_body]
fn nanos_of(d: &Duration) -> (n: u128)
    ensures
        n == duration_nanos(*d),
{
    d.as_nanos()
}

/// `n` is the length of some duration in whole nanoseconds: what a reading of the time
/// that has passed can be.
pub open spec fn is_reading(n: u128) -> bool {
    exists|d: Duration| n == #[trigger] duration_nanos(d)
}

/// A queue that sorts what is pushed into buckets by arrival time: bucket `k` holds what
/// arrived in the `k`-th slot of `delta` nanoseconds after the last `take`.
pub struct TimedQueue<P> {
    pub queue: VecDeque<Vec<P>>,
    /// Length of a slot in nanoseconds.
    delta: u128,
    /// The clock reading that all times are measured from.
    origin: Instant,
    /// Start of the first bucket's slot, in nanoseconds after `origin`.
    time: u128,
}

/// The time from `then` to `now`, zero if `now` is the earlier one.
pub open spec fn span(now: u128, then: u128) -> u128 {
    if now >= then {
        (now - then) as u128
    } else {
        0
    }
}

/// `n` empty buckets.
pub open spec fn empty_buckets<P>(n: int) -> Seq<Seq<P>> {
    Seq::new(
        if n >= 0 {
            n as nat
        } else {
            0
        },
        |i: int| Seq::<P>::empty(),
    )
}

/// `buckets`, with at least one bucket, padded with empty buckets up to index `idx`.
pub open spec fn padded<P>(buckets: Seq<Seq<P>>, idx: int) -> Seq<Seq<P>> {
    let base = if buckets.len() == 0 {
        empty_buckets::<P>(1)
    } else {
        buckets
    };
    base + empty_buckets::<P>(idx + 1 - base.len())
}

/// `buckets` after `element` arrived in slot `idx`: padded up to that slot, with the
/// element at the end of the last bucket.
pub open spec fn pushed<P>(buckets: Seq<Seq<P>>, idx: int, element: P) -> Seq<Seq<P>> {
    let p = padded(buckets, idx);
    p.update(p.len() - 1, p.last().push(element))
}

/// Everything in the buckets, in the order of the buckets and, within a bucket, in the
/// order of arrival.
pub open spec fn in_order<P>(buckets: Seq<Seq<P>>) -> Seq<P>
    decreases buckets.len(),
{
    if buckets.len() == 0 {
        Seq::empty()
    } else {
        in_order(buckets.drop_last()) + buckets.last()
    }
}

/// Empty buckets at the end add nothing to what the buckets hold.
pub proof fn lemma_in_order_padding<P>(buckets: Seq<Seq<P>>, n: int)
    ensures
        in_order(buckets + empty_buckets::<P>(n)) == in_order(buckets),
    decreases n,
{
    if n <= 0 {
        assert(buckets + empty_buckets::<P>(n) =~= buckets);
    } else {
        let all = buckets + empty_buckets::<P>(n);
        assert(all.drop_last() =~= buckets + empty_buckets::<P>(n - 1));
        assert(all.last() =~= Seq::<P>::empty());
        lemma_in_order_padding(buckets, n - 1);
        assert(in_order(all) =~= in_order(buckets));
    }
}

/// Arrival order is kept: whatever slot an element is filed under, it comes after
/// everything that the queue already holds.
pub proof fn lemma_push_keeps_order<P>(buckets: Seq<Seq<P>>, idx: int, element: P)
    ensures
        in_order(pushed(buckets, idx, element)) == in_order(buckets).push(element),
{
    let base = if buckets.len() == 0 {
        empty_buckets::<P>(1)
    } else {
        buckets
    };
    let p = padded(buckets, idx);
    let q = pushed(buckets, idx, element);
    lemma_in_order_padding(base, idx + 1 - base.len());
    if buckets.len() == 0 {
        assert(base.drop_last() =~= buckets);
        assert(base.last() =~= Seq::<P>::empty());
        assert(in_order(base) =~= in_order(buckets));
    }
    assert(q.drop_last() =~= p.drop_last());
    assert(in_order(q) =~= in_order(p).push(element));
}

impl<P> TimedQueue<P> where P: Clone + Copy {
    /// The buckets, first slot first.
    pub closed spec fn buckets(&self) -> Seq<Seq<P>> {
        Seq::new(self.queue@.len(), |i: int| self.queue@[i]@)
    }

    /// Length of a slot in nanoseconds.
    pub closed spec fn delta(&self) -> u128 {
        self.delta
    }

    /// Start of the first bucket's slot, in nanoseconds after the queue was made.
    pub closed spec fn time(&self) -> u128 {
        self.time
    }

    /// A queue of one empty bucket whose first slot starts now.
    pub fn new(delta: Duration) -> (q: Self)
        ensures
            q.buckets() == empty_buckets::<P>(1),
            q.delta() == duration_nanos(delta),
            q.time() == 0,
    {
        let mut queue: VecDeque<Vec<P>> = VecDeque::new();
        queue.push_back(Vec::new());
        let q = Self { queue, delta: nanos_of(&delta), origin: clock_now(), time: 0 };
        proof {
            assert(q.buckets() =~= empty_buckets::<P>(1));
        }
        q
    }

    /// Nanoseconds since the queue was made: the length of the time that has passed
    /// since then, whatever it is.
    fn now(&self) -> (n: u128)
        ensures
            is_reading(n),
    {
        let d = clock_elapsed(&self.origin);
        let n = nanos_of(&d);
        proof {
            assert(n == duration_nanos(d));
        }
        n
    }

    /// Slot length in nanoseconds.
    pub fn slot_nanos(&self) -> (d: u128)
        ensures
            d == self.delta(),
    {
        self.delta
    }

    /// Files `element` under the slot that `now` falls into: slot number
    /// `(now - time) / delta`, or the last bucket if that is a later one.
    pub fn push_at(&mut self, element: P, now: u128)
        requires
            old(self).delta() > 0,
        ensures
            final(self).buckets() == pushed(
                old(self).buckets(),
                (span(now, old(self).time()) / old(self).delta()) as usize as int,
                element,
            ),
            final(self).delta() == old(self).delta(),
            final(self).time() == old(self).time(),
    {
        let ghost before = self.buckets();
        if self.queue.len() == 0 {
            self.queue.push_back(Vec::new());
        }
        let elapsed: u128 = if now >= self.time {
            now - self.time
        } else {
            0
        };
        let ind = #[verifier::truncate]
        ((elapsed / self.delta) as usize);
        let ghost base = self.buckets();
        proof {
            assert(base =~= if before.len() == 0 {
                empty_buckets::<P>(1)
            } else {
                before
            });
        }
        while self.queue.len() - 1 < ind
            invariant
                self.queue@.len() >= 1,
                base.len() >= 1,
                self.delta == old(self).delta,
                self.time == old(self).time,
                self.buckets() == base + empty_buckets::<P>(self.queue@.len() - base.len()),
                self.queue@.len() >= base.len(),
                self.queue@.len() <= base.len() || self.queue@.len() <= ind + 1,
            decreases ind + 1 - self.queue@.len(),
        {
            let ghost prev = self.buckets();
            self.queue.push_back(Vec::new());
            proof {
                assert(self.buckets() =~= prev.push(Seq::<P>::empty()));
                assert(self.buckets() =~= base + empty_buckets::<P>(
                    self.queue@.len() - base.len(),
                ));
            }
        }
        proof {
            assert(self.buckets() =~= padded(before, ind as int));
        }
        let ghost full = self.buckets();
        match self.queue.pop_back() {
            Some(mut last) => {
                last.push(element);
                self.queue.push_back(last);
            },
            None => {},
        }
        proof {
            assert(self.buckets() =~= full.update(full.len() - 1, full.last().push(element)));
        }
    }

    /// Files `element` under the slot of the present moment. Returns `false`, and leaves
    /// the queue as it is, if the slot length is zero.
    pub fn push(&mut self, element: P) -> (pushed_it: bool)
        ensures
            pushed_it == (old(self).delta() > 0),
            final(self).delta() == old(self).delta(),
            final(self).time() == old(self).time(),
            !pushed_it ==> final(self).buckets() == old(self).buckets(),
            pushed_it ==> exists|idx: int| final(self).buckets() == pushed(
                old(self).buckets(),
                idx,
                element,
            ),
    {
        if self.delta == 0 {
            return false;
        }
        let now = self.now();
        self.push_at(element, now);
        true
    }

    /// Takes the first `num` buckets out of the queue, or all of them if there are fewer,
    /// adds empty buckets to make `num`, and lets the first slot start at `now`.
    pub fn take_at(&mut self, num: usize, now: u128) -> (head: Vec<Vec<P>>)
        ensures
            head@.len() == num,
            Seq::new(head@.len(), |i: int| head@[i]@) == old(self).buckets().take(
                vstd::math::min(num as int, old(self).buckets().len() as int),
            ) + empty_buckets::<P>(num - old(self).buckets().len()),
            final(self).buckets() == old(self).buckets().skip(
                vstd::math::min(num as int, old(self).buckets().len() as int),
            ),
            final(self).delta() == old(self).delta(),
            final(self).time() == now,
    {
        self.time = now;
        let ghost before = self.buckets();
        let mut head: Vec<Vec<P>> = Vec::new();
        while head.len() < num && self.queue.len() > 0
            invariant
                self.delta == old(self).delta,
                self.time == now,
                before == old(self).buckets(),
                head@.len() <= num,
                head@.len() + self.queue@.len() == before.len(),
                Seq::new(head@.len(), |i: int| head@[i]@) == before.take(head@.len() as int),
                self.buckets() == before.skip(head@.len() as int),
            decreases self.queue@.len(),
        {
            let ghost h = Seq::new(head@.len(), |i: int| head@[i]@);
            let ghost rest = self.buckets();
            match self.queue.pop_front() {
                Some(bucket) => {
                    proof {
                        assert(bucket@ == rest[0]);
                    }
                    head.push(bucket);
                },
                None => {},
            }
            proof {
                assert(self.buckets() =~= rest.skip(1));
                assert(self.buckets() =~= before.skip(head@.len() as int));
                assert(Seq::new(head@.len(), |i: int| head@[i]@) =~= h.push(rest[0]));
                assert(Seq::new(head@.len(), |i: int| head@[i]@) =~= before.take(
                    head@.len() as int,
                ));
            }
        }
        let ghost m = head@.len();
        let ghost front = Seq::new(head@.len(), |i: int| head@[i]@);
        while head.len() < num
            invariant
                m <= head@.len() <= num,
                self.queue@.len() == 0 || m == num,
                Seq::new(head@.len(), |i: int| head@[i]@) == front + empty_buckets::<P>(
                    head@.len() - m,
                ),
            decreases num - head@.len(),
        {
            let ghost h = Seq::new(head@.len(), |i: int| head@[i]@);
            head.push(Vec::new());
            proof {
                assert(Seq::new(head@.len(), |i: int| head@[i]@) =~= h.push(Seq::<P>::empty()));
                assert(Seq::new(head@.len(), |i: int| head@[i]@) =~= front + empty_buckets::<P>(
                    head@.len() - m,
                ));
            }
        }
        proof {
            assert(empty_buckets::<P>(num - m) =~= empty_buckets::<P>(num - before.len()));
        }
        head
    }

    /// Takes the first `num` buckets, padded to `num`, and lets the first slot start at the
    /// present moment. The start of the first slot never moves back.
    pub fn take(&mut self, num: usize) -> (head: Vec<Vec<P>>)
        ensures
            head@.len() == num,
            final(self).time() >= old(self).time(),
            Seq::new(head@.len(), |i: int| head@[i]@) == old(self).buckets().take(
                vstd::math::min(num as int, old(self).buckets().len() as int),
            ) + empty_buckets::<P>(num - old(self).buckets().len()),
            final(self).buckets() == old(self).buckets().skip(
                vstd::math::min(num as int, old(self).buckets().len() as int),
            ),
            final(self).delta() == old(self).delta(),
    {
        let now = self.now();
        let start = if now >= self.time {
            now
        } else {
            self.time
        };
        self.take_at(num, start)
    }

    /// Number of buckets in the queue.
    pub fn len(&self) -> (n: usize)
        ensures
            n == self.buckets().len(),
    {
        self.queue.len()
    }

    /// Nanoseconds from the start of the first slot to `now`, zero if `now` is earlier.
    pub fn time_since_take_at(&self, now: u128) -> (d: u128)
        ensures
            d == span(now, self.time()),
    {
        if now >= self.time {
            now - self.time
        } else {
            0
        }
    }

    /// Nanoseconds from the start of the first slot to the present moment: the span from
    /// that start to a reading of the time that has passed since the queue was made.
    pub fn time_since_take(&self) -> (d: u128)
        ensures
            exists|now: u128| is_reading(now) && d == #[trigger] span(now, self.time()),
    {
        let now = self.now();
        let d = self.time_since_take_at(now);
        proof {
            assert(is_reading(now) && d == span(now, self.time()));
        }
        d
    }
}

} // verus!
