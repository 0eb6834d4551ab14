//! A cycling sequence adapter with a hard cutoff.
//!
//! [`CycleToNth`] wraps a restartable sequence producer and yields its
//! elements over and over, going back to the start whenever the producer
//! runs out, until exactly `nth` elements have been produced in total
//! (or none at all, if the producer is empty).

use vstd::prelude::*;

verus! {

/// A sequence producer that can be pulled one element at a time and
/// copied into an independent producer in the same state.
///
/// `remaining()` is the mathematical sequence of elements the producer
/// will still yield; `wf()` is the producer's validity condition, which
/// every operation preserves.
pub trait RestartableSource: Sized {
    /// The element type the producer yields.
    type Item;

    /// Validity of the producer's state.
    spec fn wf(&self) -> bool;

    /// The elements this producer will still yield, in order.
    spec fn remaining(&self) -> Seq<Self::Item>;

    /// What `size_hint` reports, as a function of the producer's state.
    spec fn size_hint_spec(&self) -> (usize, Option<usize>);

    /// The reported bounds are sound: the lower bound never exceeds the
    /// number of remaining elements, and a known upper bound is never
    /// below it.
    proof fn size_hint_sound(&self)
        requires
            self.wf(),
        ensures
            self.size_hint_spec().0 <= self.remaining().len(),
            self.size_hint_spec().1 matches Some(u) ==> self.remaining().len() <= u,
    ;

    /// Pull the next element: the head of `remaining()`, or `None` once
    /// the producer is exhausted.
    fn next(&mut self) -> (r: Option<Self::Item>)
        requires
            old(self).wf(),
        ensures
            final(self).wf(),
            old(self).remaining().len() == 0 ==> r is None && final(self).remaining()
                == old(self).remaining(),
            old(self).remaining().len() > 0 ==> r == Some(old(self).remaining()[0])
                && final(self).remaining() == old(self).remaining().drop_first(),
    ;

    /// Copy this producer into an independent one in the same state.
    fn restart_copy(&self) -> (r: Self)
        requires
            self.wf(),
        ensures
            r.wf(),
            r.remaining() == self.remaining(),
            r.size_hint_spec() == self.size_hint_spec(),
    ;

    /// Report a (lower bound, optional upper bound) on the remaining
    /// element count, without consuming anything.
    fn size_hint(&self) -> (r: (usize, Option<usize>))
        requires
            self.wf(),
        ensures
            r == self.size_hint_spec(),
    ;
}

/// A restartable producer that walks a vector from a saved position.
#[derive(Debug)]
pub struct VecSource<T> {
    items: Vec<T>,
    pos: usize,
}

impl<T: Copy> VecSource<T> {
    /// Build a producer that yields the elements of `items` in order.
    pub fn from_vec(items: Vec<T>) -> (r: VecSource<T>)
        ensures
            r.wf(),
            r.remaining() == items@,
    {
        let r = VecSource { items, pos: 0 };
        proof {
            assert(r.remaining() =~= r.items@);
        }
        r
    }
}

impl<T: Copy> RestartableSource for VecSource<T> {
    type Item = T;

    closed spec fn wf(&self) -> bool {
        self.pos <= self.items@.len()
    }

    closed spec fn remaining(&self) -> Seq<T> {
        self.items@.skip(self.pos as int)
    }

    closed spec fn size_hint_spec(&self) -> (usize, Option<usize>) {
        (
            (self.items@.len() - self.pos) as usize,
            Some((self.items@.len() - self.pos) as usize),
        )
    }

    proof fn size_hint_sound(&self) {
        broadcast use vstd::std_specs::vec::axiom_spec_len;

        assert(self.items.len() == self.items@.len());
    }

    fn next(&mut self) -> (r: Option<T>) {
        if self.pos < self.items.len() {
            let x = self.items[self.pos];
            self.pos = self.pos + 1;
            proof {
                assert(self.remaining() =~= old(self).remaining().drop_first());
            }
            Some(x)
        } else {
            None
        }
    }

    fn restart_copy(&self) -> (r: Self) {
        let mut items: Vec<T> = Vec::new();
        let mut i: usize = 0;
        while i < self.items.len()
            invariant
                i <= self.items@.len(),
                items@ == self.items@.take(i as int),
            decreases self.items@.len() - i,
        {
            items.push(self.items[i]);
            i = i + 1;
            proof {
                assert(items@ =~= self.items@.take(i as int));
            }
        }
        proof {
            assert(items@ =~= self.items@);
        }
        VecSource { items, pos: self.pos }
    }

    fn size_hint(&self) -> (r: (usize, Option<usize>)) {
        let rem: usize = self.items.len() - self.pos;
        (rem, Some(rem))
    }
}

/// The first `k` elements of the infinite cyclic repetition of `s`:
/// element `i` is the `(i % s.len())`-th element of `s` (meaningful
/// only when `s` is non-empty).
pub open spec fn cycled_prefix<T>(s: Seq<T>, k: nat) -> Seq<T> {
    Seq::new(k, |i: int| s[i % (s.len() as int)])
}

/// A lazy sequence that cycles through the elements of a restartable
/// producer and stops unconditionally after `nth` elements.
#[must_use]
pub struct CycleToNth<I> {
    orig: I,
    iter: I,
    nth: usize,
    n: usize,
}

impl<I: RestartableSource> CycleToNth<I> {
    /// Validity: both producers are valid, no more than `nth` elements
    /// have been produced, and the working copy can be non-empty only
    /// if the retained original can still produce something.
    pub closed spec fn wf(&self) -> bool {
        &&& self.orig.wf()
        &&& self.iter.wf()
        &&& self.n <= self.nth
        &&& self.orig.remaining().len() == 0 ==> self.iter.remaining().len() == 0
    }

    /// The retained restart copy of the source, never mutated after
    /// construction.
    pub closed spec fn source(&self) -> I {
        self.orig
    }

    /// How many elements have been produced so far.
    pub closed spec fn produced(&self) -> nat {
        self.n as nat
    }

    /// The cutoff set at construction.
    pub closed spec fn limit(&self) -> nat {
        self.nth as nat
    }

    /// The exact sequence of elements this adapter will still yield:
    /// nothing if the source is empty, otherwise the rest of the
    /// working copy followed by fresh cycles of the source, cut off
    /// after `limit() - produced()` elements.
    pub closed spec fn yields(&self) -> Seq<I::Item> {
        let s = self.orig.remaining();
        let t = self.iter.remaining();
        if s.len() == 0 {
            Seq::empty()
        } else {
            Seq::new(
                (self.nth - self.n) as nat,
                |i: int|
                    if i < t.len() {
                        t[i]
                    } else {
                        s[(i - t.len()) % (s.len() as int)]
                    },
            )
        }
    }

    /// Wrap `iter`, retaining a restart copy of it, with cutoff `nth`.
    /// The adapter will yield exactly `nth` elements, cycling through
    /// the producer's elements, or nothing at all if the producer is
    /// empty.
    pub fn new(iter: I, nth: usize) -> (r: CycleToNth<I>)
        requires
            iter.wf(),
        ensures
            r.wf(),
            r.produced() == 0,
            r.limit() == nth,
            r.source().remaining() == iter.remaining(),
            r.source().size_hint_spec() == iter.size_hint_spec(),
            iter.remaining().len() == 0 ==> r.yields() == Seq::<I::Item>::empty(),
            iter.remaining().len() > 0 ==> r.yields() == cycled_prefix(
                iter.remaining(),
                nth as nat,
            ),
    {
        let r = CycleToNth { orig: iter.restart_copy(), iter, nth, n: 0 };
        proof {
            let s = r.orig.remaining();
            if s.len() > 0 {
                assert forall|i: int| 0 <= i < nth implies r.yields()[i] == cycled_prefix(
                    s,
                    nth as nat,
                )[i] by {
                    let m = s.len() as int;
                    if i < m {
                        vstd::arithmetic::div_mod::lemma_small_mod(i as nat, s.len());
                    } else {
                        vstd::arithmetic::div_mod::lemma_mod_sub_multiples_vanish(i, m);
                    }
                }
                assert(r.yields() =~= cycled_prefix(s, nth as nat));
            }
        }
        r
    }

    /// Produce one element, or report exhaustion.
    ///
    /// Once the future output is exhausted — the limit was reached, or
    /// the source is empty — every further call reports exhaustion
    /// again, permanently. A call made below the limit counts toward it
    /// even when the source turns out to be empty and nothing is
    /// produced.
    pub fn next(&mut self) -> (r: Option<I::Item>)
        requires
            old(self).wf(),
        ensures
            final(self).wf(),
            final(self).limit() == old(self).limit(),
            final(self).source() == old(self).source(),
            old(self).produced() == old(self).limit() ==> r is None
                && *final(self) == *old(self),
            old(self).produced() < old(self).limit()
                ==> final(self).produced() == old(self).produced() + 1,
            old(self).yields().len() > 0 ==> r == Some(old(self).yields()[0])
                && final(self).yields() == old(self).yields().drop_first(),
            old(self).yields().len() == 0 ==> r is None && final(self).yields().len() == 0,
    {
        if self.n == self.nth {
            None
        } else {
            self.n = self.n + 1;
            let first = self.iter.next();
            if first.is_none() {
                self.iter = self.orig.restart_copy();
                let r = self.iter.next();
                proof {
                    self.lemma_next_from_restart(*old(self), r);
                }
                r
            } else {
                proof {
                    self.lemma_next_from_working_copy(*old(self), first);
                }
                first
            }
        }
    }

    /// After a pull that succeeded on the working copy, the future
    /// output is the old future output without its head.
    proof fn lemma_next_from_working_copy(&self, pre: Self, r: Option<I::Item>)
        requires
            pre.wf(),
            pre.n < pre.nth,
            self.orig == pre.orig,
            self.nth == pre.nth,
            self.n == pre.n + 1,
            self.iter.wf(),
            pre.iter.remaining().len() > 0,
            r == Some(pre.iter.remaining()[0]),
            self.iter.remaining() == pre.iter.remaining().drop_first(),
        ensures
            self.wf(),
            pre.yields().len() > 0,
            r == Some(pre.yields()[0]),
            self.yields() == pre.yields().drop_first(),
    {
        assert(pre.orig.remaining().len() > 0);
        assert(self.yields() =~= pre.yields().drop_first());
    }

    /// After the working copy ran out and one pull was made from a
    /// fresh restart copy, the future output is again the old future
    /// output without its head (which is empty whenever the source is).
    proof fn lemma_next_from_restart(&self, pre: Self, r: Option<I::Item>)
        requires
            pre.wf(),
            pre.n < pre.nth,
            self.orig == pre.orig,
            self.nth == pre.nth,
            self.n == pre.n + 1,
            self.iter.wf(),
            pre.iter.remaining().len() == 0,
            pre.orig.remaining().len() == 0 ==> r is None && self.iter.remaining()
                == pre.orig.remaining(),
            pre.orig.remaining().len() > 0 ==> r == Some(pre.orig.remaining()[0])
                && self.iter.remaining() == pre.orig.remaining().drop_first(),
        ensures
            self.wf(),
            pre.yields().len() > 0 ==> r == Some(pre.yields()[0]) && self.yields()
                == pre.yields().drop_first(),
            pre.yields().len() == 0 ==> r is None && self.yields().len() == 0,
    {
        let s = pre.orig.remaining();
        if s.len() == 0 {
            assert(pre.yields().len() == 0);
            assert(self.yields().len() == 0);
        } else {
            let m = s.len() as int;
            vstd::arithmetic::div_mod::lemma_small_mod(0, s.len());
            assert(pre.yields()[0] == s[0]);
            assert forall|i: int| 0 <= i < self.yields().len() implies self.yields()[i]
                == pre.yields().drop_first()[i] by {
                if i < m - 1 {
                    vstd::arithmetic::div_mod::lemma_small_mod((i + 1) as nat, s.len());
                } else {
                    vstd::arithmetic::div_mod::lemma_mod_sub_multiples_vanish(i + 1, m);
                }
            }
            assert(self.yields() =~= pre.yields().drop_first());
        }
    }

    /// Report a (lower bound, optional upper bound) on the remaining
    /// element count, derived from the retained source's own estimate
    /// without consuming anything: see [`cycle_size_hint`].
    pub fn size_hint(&self) -> (r: (usize, Option<usize>))
        requires
            self.wf(),
        ensures
            r == cycle_size_hint(self.source().size_hint_spec()),
    {
        let (lo, hi) = self.orig.size_hint();
        if lo == 0 {
            if let Some(h) = hi {
                if h == 0 {
                    return (0, Some(0));
                }
            }
            (0, None)
        } else {
            (usize::MAX, None)
        }
    }
}

/// The size estimate the adapter derives from its source's estimate: a
/// source known to be exactly empty stays exactly empty; a possibly
/// empty source keeps a zero lower bound with an unknown upper bound;
/// a source guaranteed non-empty can be cycled indefinitely, so the
/// lower bound becomes the maximum representable count and the upper
/// bound unknown.
pub open spec fn cycle_size_hint(h: (usize, Option<usize>)) -> (usize, Option<usize>) {
    if h == (0usize, Some(0usize)) {
        h
    } else if h.0 == 0 {
        (0usize, None)
    } else {
        (usize::MAX, None)
    }
}

/// A source whose own estimate is exactly (0, 0) is indeed empty, and
/// the adapter's estimate over it is exactly (0, 0) as well.
pub proof fn lemma_size_hint_empty_source<I: RestartableSource>(source: I)
    requires
        source.wf(),
        source.size_hint_spec() == (0usize, Some(0usize)),
    ensures
        source.remaining().len() == 0,
        cycle_size_hint(source.size_hint_spec()) == (0usize, Some(0usize)),
{
    source.size_hint_sound();
}

/// A source whose own estimate guarantees at least one element is
/// indeed non-empty, and the adapter's estimate over it reports the
/// maximum representable count as lower bound and an unknown upper
/// bound.
pub proof fn lemma_size_hint_nonempty_source<I: RestartableSource>(source: I)
    requires
        source.wf(),
        source.size_hint_spec().0 > 0,
    ensures
        source.remaining().len() > 0,
        cycle_size_hint(source.size_hint_spec()) == (usize::MAX, None::<usize>),
{
    source.size_hint_sound();
}

/// The chained-call extension point: any restartable producer can be
/// turned into a [`CycleToNth`] adapter directly, equivalently to
/// explicit construction with [`CycleToNth::new`].
pub trait CycleToNthAdapter: RestartableSource {
    /// Wrap `self` in a [`CycleToNth`] with cutoff `nth`.
    fn cycle_to_nth(self, nth: usize) -> (r: CycleToNth<Self>)
        requires
            self.wf(),
        ensures
            r.wf(),
            r.produced() == 0,
            r.limit() == nth,
            r.source().remaining() == self.remaining(),
            r.source().size_hint_spec() == self.size_hint_spec(),
            self.remaining().len() == 0 ==> r.yields() == Seq::<Self::Item>::empty(),
            self.remaining().len() > 0 ==> r.yields() == cycled_prefix(
                self.remaining(),
                nth as nat,
            ),
    ;
}

impl<I: RestartableSource> CycleToNthAdapter for I {
    fn cycle_to_nth(self, nth: usize) -> (r: CycleToNth<I>) {
        CycleToNth::new(self, nth)
    }
}

} // verus!
