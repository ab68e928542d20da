use crate::geniter::GenIter;
use crate::gentrait::lemma_yielded_chain_push;
use crate::gentrait::yielded_chain;
use crate::gentrait::GenState;
use crate::gentrait::GenTrait;
use vstd::prelude::*;

verus! {

/// One step of a computation whose whole behaviour is to yield the values
/// of a finite sequence in order and then complete with the unit value:
/// while values remain, the first one is yielded and the rest stay
/// pending; once none remain, the step completes.
pub open spec fn pending_step<Y>(pre: Seq<Y>, post: Seq<Y>, s: GenState<Y, ()>, post_live: bool) -> bool {
    if pre.len() > 0 {
        &&& s == GenState::<Y, ()>::Yielded(pre[0])
        &&& post == pre.skip(1)
        &&& post_live
    } else {
        &&& s == GenState::<Y, ()>::Complete(())
        &&& !post_live
    }
}

/// A computation that yields one value and then completes.
pub struct OnceGen<T> {
    pub item: Option<T>,
    pub done: bool,
}

impl<T> OnceGen<T> {
    /// The values still to be yielded.
    pub open spec fn pending(&self) -> Seq<T> {
        match self.item {
            Some(x) => seq![x],
            None => Seq::empty(),
        }
    }
}

impl<T> GenTrait for OnceGen<T> {
    type Yielding = T;

    type Returning = ();

    open spec fn live(&self) -> bool {
        !self.done
    }

    open spec fn stepped(self, post: Self, s: GenState<T, ()>) -> bool {
        pending_step(self.pending(), post.pending(), s, post.live())
    }

    open spec fn bounded(&self) -> bool {
        true
    }

    open spec fn size(&self) -> nat {
        self.pending().len()
    }

    fn resume(&mut self) -> (s: GenState<T, ()>) {
        match self.item.take() {
            Some(x) => {
                proof {
                    assert(self.pending() =~= old(self).pending().skip(1));
                }
                GenState::Yielded(x)
            },
            None => {
                self.done = true;
                GenState::Complete(())
            },
        }
    }
}

/// Creates a lazy sequence that yields `x` exactly once; the second pull
/// and every later one answer `None`.
pub fn once<T>(x: T) -> (it: GenIter<OnceGen<T>>)
    ensures
        it.0 matches Some(g) && g.pending() == seq![x] && g.live(),
{
    GenIter::new(OnceGen { item: Some(x), done: false })
}

/// A computation that yields the same value forever; its terminal state is
/// unreachable, so it is not bounded.
pub struct RepeatGen<T> {
    pub item: T,
}

impl<T: Copy> GenTrait for RepeatGen<T> {
    type Yielding = T;

    type Returning = ();

    open spec fn live(&self) -> bool {
        true
    }

    open spec fn stepped(self, post: Self, s: GenState<T, ()>) -> bool {
        post == self && s == GenState::<T, ()>::Yielded(self.item)
    }

    open spec fn bounded(&self) -> bool {
        false
    }

    open spec fn size(&self) -> nat {
        0
    }

    fn resume(&mut self) -> (s: GenState<T, ()>) {
        GenState::Yielded(self.item)
    }
}

/// Creates a lazy sequence that yields `x` forever and never completes.
pub fn repeat<T: Copy>(x: T) -> (it: GenIter<RepeatGen<T>>)
    ensures
        it.0 == Some(RepeatGen { item: x }),
{
    GenIter::new(RepeatGen { item: x })
}

/// A computation that yields the same value a fixed number of times and
/// then completes.
pub struct RepeatNGen<T> {
    pub item: T,
    pub left: usize,
    pub done: bool,
}

impl<T: Copy> RepeatNGen<T> {
    /// The values still to be yielded: `left` copies of the item.
    pub open spec fn pending(&self) -> Seq<T> {
        Seq::new(self.left as nat, |i: int| self.item)
    }
}

impl<T: Copy> GenTrait for RepeatNGen<T> {
    type Yielding = T;

    type Returning = ();

    open spec fn live(&self) -> bool {
        !self.done
    }

    open spec fn stepped(self, post: Self, s: GenState<T, ()>) -> bool {
        pending_step(self.pending(), post.pending(), s, post.live())
    }

    open spec fn bounded(&self) -> bool {
        true
    }

    open spec fn size(&self) -> nat {
        self.left as nat
    }

    fn resume(&mut self) -> (s: GenState<T, ()>) {
        if self.left > 0 {
            self.left = self.left - 1;
            proof {
                assert(self.pending() =~= old(self).pending().skip(1));
            }
            GenState::Yielded(self.item)
        } else {
            self.done = true;
            GenState::Complete(())
        }
    }
}

/// Creates a lazy sequence that yields `x` exactly `n` times and then
/// answers `None`; with `n == 0` the very first pull answers `None`.
pub fn repeatn<T: Copy>(x: T, n: usize) -> (it: GenIter<RepeatNGen<T>>)
    ensures
        it.0 matches Some(g) && g.live() && g.pending().len() == n && (forall|i: int|
            0 <= i < n ==> g.pending()[i] == x),
{
    GenIter::new(RepeatNGen { item: x, left: n, done: false })
}

/// A computation that yields the elements of an owned vector, first to
/// last, and then completes. It is the canonical finite computation: any
/// sequence of values written down in advance becomes a suspendable
/// computation through it.
pub struct VecGen<T> {
    pub items: Vec<T>,
    pub done: bool,
}

impl<T> VecGen<T> {
    /// The values still to be yielded.
    pub open spec fn pending(&self) -> Seq<T> {
        self.items@
    }

    /// Wraps an owned vector as a computation that will yield each of its
    /// elements in order.
    pub fn new(items: Vec<T>) -> (g: Self)
        ensures
            g.pending() == items@ && g.live(),
    {
        VecGen { items, done: false }
    }
}

impl<T> GenTrait for VecGen<T> {
    type Yielding = T;

    type Returning = ();

    open spec fn live(&self) -> bool {
        !self.done
    }

    open spec fn stepped(self, post: Self, s: GenState<T, ()>) -> bool {
        pending_step(self.pending(), post.pending(), s, post.live())
    }

    open spec fn bounded(&self) -> bool {
        true
    }

    open spec fn size(&self) -> nat {
        self.items@.len()
    }

    fn resume(&mut self) -> (s: GenState<T, ()>) {
        if self.items.len() > 0 {
            let y = self.items.remove(0);
            proof {
                assert(self.pending() =~= old(self).pending().skip(1));
            }
            GenState::Yielded(y)
        } else {
            self.done = true;
            GenState::Complete(())
        }
    }
}

/// A run of yield steps from a vector-backed computation hands out exactly
/// a prefix of its pending values, in their order, and leaves exactly the
/// matching suffix pending. With the pull protocol this is the whole
/// story of a finite sequence: each pull returns the next pending value
/// until all have been returned, and `None` forever after.
pub proof fn lemma_vecgen_chain<T>(pre: VecGen<T>, post: VecGen<T>, ys: Seq<T>)
    requires
        yielded_chain(pre, post, ys),
        pre.live(),
    ensures
        ys.len() <= pre.pending().len(),
        ys == pre.pending().take(ys.len() as int),
        post.pending() == pre.pending().skip(ys.len() as int),
        post.live(),
    decreases ys.len(),
{
    if ys.len() == 0 {
        assert(ys =~= pre.pending().take(0));
        assert(post.pending() =~= pre.pending().skip(0));
    } else {
        let mid = choose|mid: VecGen<T>|
            #[trigger] pre.stepped(mid, GenState::Yielded(ys[0])) && yielded_chain(
                mid,
                post,
                ys.skip(1),
            );
        assert(ys[0] == pre.pending()[0]);
        assert(mid.pending() == pre.pending().skip(1));
        lemma_vecgen_chain(mid, post, ys.skip(1));
        let l = ys.len() as int;
        assert forall|i: int| 0 <= i < l implies ys[i] == pre.pending().take(l)[i] by {
            if i > 0 {
                assert(ys.skip(1)[i - 1] == ys[i]);
                assert(ys.skip(1)[i - 1] == mid.pending().take(l - 1)[i - 1]);
                assert(mid.pending()[i - 1] == pre.pending().skip(1)[i - 1]);
            }
        }
        assert(ys =~= pre.pending().take(l));
        assert forall|i: int| 0 <= i < post.pending().len() implies post.pending()[i]
            == pre.pending().skip(l)[i] by {
            assert(post.pending()[i] == mid.pending().skip(l - 1)[i]);
            assert(mid.pending().skip(l - 1)[i] == mid.pending()[i + l - 1]);
            assert(mid.pending()[i + l - 1] == pre.pending().skip(1)[i + l - 1]);
        }
        assert(post.pending().len() == pre.pending().skip(l).len());
        assert(post.pending() =~= pre.pending().skip(l));
    }
}

/// A computation that hands on the values of a source computation, gated
/// by a predicate only at the start: values are yielded while the
/// predicate accepts them; the first rejected value is discarded, and from
/// then on every remaining value is yielded without being checked. The
/// gate stops checking rather than stopping the sequence — that asymmetry
/// is this combinator's documented policy.
pub struct FilterWhileGen<G, F> {
    pub source: G,
    pub pred: F,
    pub checking: bool,
}

impl<G, F> GenTrait for FilterWhileGen<G, F> where G: GenTrait, F: Fn(&G::Yielding) -> bool {
    type Yielding = G::Yielding;

    type Returning = G::Returning;

    /// The source is live and the predicate accepts every value it could
    /// be handed.
    open spec fn live(&self) -> bool {
        &&& self.source.live()
        &&& forall|y: G::Yielding| call_requires(self.pred, (&y,))
    }

    /// While checking, a step either passes on an accepted source value,
    /// or discards one rejected source value, leaves checking mode for
    /// good, and passes on whatever the source does next. Once checking is
    /// over, a step is exactly a source step.
    open spec fn stepped(self, post: Self, s: GenState<G::Yielding, G::Returning>) -> bool {
        &&& post.pred == self.pred
        &&& if self.checking {
            match s {
                GenState::Yielded(y) => {
                    ||| (post.checking && self.source.stepped(post.source, GenState::Yielded(y))
                        && call_ensures(self.pred, (&y,), true))
                    ||| (!post.checking && (exists|mid: G, rejd: G::Yielding|
                        #[trigger] self.source.stepped(mid, GenState::Yielded(rejd))
                            && call_ensures(self.pred, (&rejd,), false) && mid.stepped(
                            post.source,
                            GenState::Yielded(y),
                        )))
                },
                GenState::Complete(r) => {
                    ||| self.source.stepped(post.source, GenState::Complete(r))
                    ||| (exists|mid: G, rejd: G::Yielding|
                        #[trigger] self.source.stepped(mid, GenState::Yielded(rejd))
                            && call_ensures(self.pred, (&rejd,), false) && mid.stepped(
                            post.source,
                            GenState::Complete(r),
                        ))
                },
            }
        } else {
            !post.checking && self.source.stepped(post.source, s)
        }
    }

    open spec fn bounded(&self) -> bool {
        self.source.bounded()
    }

    open spec fn size(&self) -> nat {
        self.source.size()
    }

    fn resume(&mut self) -> (s: GenState<G::Yielding, G::Returning>) {
        if self.checking {
            let ghost spre = self.source;
            match self.source.resume() {
                GenState::Yielded(y) => {
                    let ghost gy = y;
                    if (self.pred)(&y) {
                        GenState::Yielded(y)
                    } else {
                        self.checking = false;
                        let ghost smid = self.source;
                        match self.source.resume() {
                            GenState::Yielded(y2) => {
                                let ghost gy2 = y2;
                                proof {
                                    assert(spre.stepped(smid, GenState::Yielded(gy))
                                        && smid.stepped(self.source, GenState::Yielded(gy2)));
                                }
                                GenState::Yielded(y2)
                            },
                            GenState::Complete(r) => {
                                let ghost gr = r;
                                proof {
                                    assert(spre.stepped(smid, GenState::Yielded(gy))
                                        && smid.stepped(self.source, GenState::Complete(gr)));
                                }
                                GenState::Complete(r)
                            },
                        }
                    }
                },
                GenState::Complete(r) => GenState::Complete(r),
            }
        } else {
            self.source.resume()
        }
    }
}

/// Creates a lazy sequence over `source` whose values pass through the
/// predicate gate described at [`FilterWhileGen`]: yielded while accepted,
/// the first rejected value dropped, everything after that passed on
/// unchecked.
pub fn filter_while<G, F>(f: F, source: G) -> (it: GenIter<FilterWhileGen<G, F>>) where
    G: GenTrait,
    F: Fn(&G::Yielding) -> bool,

    requires
        source.live(),
        forall|y: G::Yielding| call_requires(f, (&y,)),
    ensures
        it.0 matches Some(g) && g == (FilterWhileGen { source, pred: f, checking: true })
            && g.live(),
{
    GenIter::new(FilterWhileGen { source, pred: f, checking: true })
}

/// The order in which front/back alternation visits a sequence: the first
/// element, then the last, then the second, then the second to last, and
/// so on inward until the sequence is exhausted. `front` says which end is
/// next.
pub open spec fn interleaved<T>(s: Seq<T>, front: bool) -> Seq<T>
    decreases s.len(),
{
    if s.len() == 0 {
        Seq::empty()
    } else if front {
        seq![s[0]] + interleaved(s.skip(1), false)
    } else {
        seq![s.last()] + interleaved(s.drop_last(), true)
    }
}

/// Alternation yields exactly as many values as the sequence has
/// elements: none is dropped and none is produced twice.
pub proof fn lemma_interleaved_len<T>(s: Seq<T>, front: bool)
    ensures
        interleaved(s, front).len() == s.len(),
    decreases s.len(),
{
    if s.len() > 0 {
        if front {
            lemma_interleaved_len(s.skip(1), false);
        } else {
            lemma_interleaved_len(s.drop_last(), true);
        }
    }
}

/// Alternation is a permutation: it yields exactly the elements of the
/// sequence, each as often as the sequence holds it.
pub proof fn lemma_interleaved_permutes<T>(s: Seq<T>, front: bool)
    ensures
        interleaved(s, front).to_multiset() == s.to_multiset(),
    decreases s.len(),
{
    if s.len() == 0 {
        assert(s =~= Seq::<T>::empty());
    } else if front {
        lemma_interleaved_permutes(s.skip(1), false);
        vstd::seq_lib::lemma_multiset_commutative(seq![s[0]], interleaved(s.skip(1), false));
        vstd::seq_lib::lemma_multiset_commutative(seq![s[0]], s.skip(1));
        assert(s =~= seq![s[0]] + s.skip(1));
        assert(interleaved(s, front).to_multiset() =~= s.to_multiset());
    } else {
        lemma_interleaved_permutes(s.drop_last(), true);
        vstd::seq_lib::lemma_multiset_commutative(seq![s.last()], interleaved(s.drop_last(), true));
        vstd::seq_lib::lemma_multiset_commutative(s.drop_last(), seq![s.last()]);
        assert(s =~= s.drop_last() + seq![s.last()]);
        assert(interleaved(s, front).to_multiset() =~= s.to_multiset());
    }
}

/// A computation that yields the elements of an owned vector alternating
/// between its two ends — front, back, front, back, … — and completes as
/// soon as the vector is exhausted.
pub struct AlternateGen<T> {
    pub items: Vec<T>,
    pub front: bool,
    pub done: bool,
}

impl<T> AlternateGen<T> {
    /// The values still to be yielded, in alternation order.
    pub open spec fn pending(&self) -> Seq<T> {
        interleaved(self.items@, self.front)
    }
}

impl<T> GenTrait for AlternateGen<T> {
    type Yielding = T;

    type Returning = ();

    open spec fn live(&self) -> bool {
        !self.done
    }

    open spec fn stepped(self, post: Self, s: GenState<T, ()>) -> bool {
        pending_step(self.pending(), post.pending(), s, post.live())
    }

    open spec fn bounded(&self) -> bool {
        true
    }

    open spec fn size(&self) -> nat {
        self.items@.len()
    }

    fn resume(&mut self) -> (s: GenState<T, ()>) {
        if self.items.len() == 0 {
            self.done = true;
            GenState::Complete(())
        } else if self.front {
            let y = self.items.remove(0);
            self.front = false;
            proof {
                assert(self.items@ =~= old(self).items@.skip(1));
                assert(self.pending() =~= old(self).pending().skip(1));
            }
            GenState::Yielded(y)
        } else {
            let y_opt = self.items.pop();
            let y = y_opt.unwrap();
            self.front = true;
            proof {
                assert(self.items@ =~= old(self).items@.drop_last());
                assert(self.pending() =~= old(self).pending().skip(1));
            }
            GenState::Yielded(y)
        }
    }
}

/// Creates a lazy sequence that alternates between the two ends of
/// `items`: the first element, then the last, then the second, … — and
/// answers `None` once every element has been handed out.
pub fn alternate<T>(items: Vec<T>) -> (it: GenIter<AlternateGen<T>>)
    ensures
        it.0 matches Some(g) && g.pending() == interleaved(items@, true) && g.live(),
{
    GenIter::new(AlternateGen { items, front: true, done: false })
}

/// The order in which alternation by blocks visits a sequence: `left`
/// more elements are taken from the current end (`front` says which), then
/// `n` from the other end, then `n` from the first again, and so on inward
/// until the sequence is exhausted. `left` is at least 1.
pub open spec fn interleaved_by<T>(s: Seq<T>, n: nat, front: bool, left: nat) -> Seq<T>
    decreases s.len(),
{
    if s.len() == 0 {
        Seq::empty()
    } else {
        let head = if front {
            s[0]
        } else {
            s.last()
        };
        let tail = if front {
            s.skip(1)
        } else {
            s.drop_last()
        };
        if left <= 1 {
            seq![head] + interleaved_by(tail, n, !front, n)
        } else {
            seq![head] + interleaved_by(tail, n, front, (left - 1) as nat)
        }
    }
}

/// Alternation by blocks is a permutation too: it yields exactly the
/// elements of the sequence, each as often as the sequence holds it.
pub proof fn lemma_interleaved_by_permutes<T>(s: Seq<T>, n: nat, front: bool, left: nat)
    ensures
        interleaved_by(s, n, front, left).to_multiset() == s.to_multiset(),
    decreases s.len(),
{
    if s.len() == 0 {
        assert(s =~= Seq::<T>::empty());
    } else {
        let head = if front {
            s[0]
        } else {
            s.last()
        };
        let tail = if front {
            s.skip(1)
        } else {
            s.drop_last()
        };
        if left <= 1 {
            lemma_interleaved_by_permutes(tail, n, !front, n);
            vstd::seq_lib::lemma_multiset_commutative(
                seq![head],
                interleaved_by(tail, n, !front, n),
            );
        } else {
            lemma_interleaved_by_permutes(tail, n, front, (left - 1) as nat);
            vstd::seq_lib::lemma_multiset_commutative(
                seq![head],
                interleaved_by(tail, n, front, (left - 1) as nat),
            );
        }
        if front {
            vstd::seq_lib::lemma_multiset_commutative(seq![head], tail);
            assert(s =~= seq![head] + tail);
        } else {
            vstd::seq_lib::lemma_multiset_commutative(tail, seq![head]);
            assert(s =~= tail + seq![head]);
        }
        assert(interleaved_by(s, n, front, left).to_multiset() =~= s.to_multiset());
    }
}

/// A computation that yields the elements of an owned vector in
/// alternating blocks: `n` from the front, then `n` from the back,
/// repeating until the vector is exhausted. `taken` counts how many of the
/// current block have been handed out.
pub struct AlternateByGen<T> {
    pub items: Vec<T>,
    pub n: usize,
    pub front: bool,
    pub taken: usize,
    pub done: bool,
}

impl<T> AlternateByGen<T> {
    /// The values still to be yielded, in block-alternation order.
    pub open spec fn pending(&self) -> Seq<T> {
        interleaved_by(self.items@, self.n as nat, self.front, (self.n - self.taken) as nat)
    }
}

impl<T> GenTrait for AlternateByGen<T> {
    type Yielding = T;

    type Returning = ();

    /// Block alternation is only meaningful for blocks of at least one
    /// element; with an empty block no end would ever be consulted and no
    /// step could make progress.
    open spec fn live(&self) -> bool {
        !self.done && self.taken < self.n
    }

    open spec fn stepped(self, post: Self, s: GenState<T, ()>) -> bool {
        pending_step(self.pending(), post.pending(), s, post.live())
    }

    open spec fn bounded(&self) -> bool {
        true
    }

    open spec fn size(&self) -> nat {
        self.items@.len()
    }

    fn resume(&mut self) -> (s: GenState<T, ()>) {
        if self.items.len() == 0 {
            self.done = true;
            GenState::Complete(())
        } else {
            let y = if self.front {
                self.items.remove(0)
            } else {
                let y_opt = self.items.pop();
                y_opt.unwrap()
            };
            proof {
                if old(self).front {
                    assert(self.items@ =~= old(self).items@.skip(1));
                } else {
                    assert(self.items@ =~= old(self).items@.drop_last());
                }
            }
            self.taken = self.taken + 1;
            if self.taken == self.n {
                self.front = !self.front;
                self.taken = 0;
            }
            proof {
                assert(self.pending() =~= old(self).pending().skip(1));
            }
            GenState::Yielded(y)
        }
    }
}

/// Creates a lazy sequence that yields the first `n` elements of `items`,
/// then `n` from the back, then `n` from the front again, repeating until
/// every element has been handed out; then it answers `None`.
pub fn alternate_by<T>(items: Vec<T>, n: usize) -> (it: GenIter<AlternateByGen<T>>)
    requires
        n >= 1,
    ensures
        it.0 matches Some(g) && g.pending() == interleaved_by(items@, n as nat, true, n as nat)
            && g.live(),
{
    GenIter::new(AlternateByGen { items, n, front: true, taken: 0, done: false })
}

/// The concatenation, in order, of the element sequences of `vs`.
pub open spec fn flattened<T>(vs: Seq<Vec<T>>) -> Seq<T> {
    vs.map_values(|v: Vec<T>| v@).flatten()
}

/// A computation that yields every element of every inner vector of a
/// vector of vectors, left to right and depth exactly one: all of the
/// current inner vector before any of the next. Both levels are consumed
/// lazily, one element per step.
pub struct FlattenGen<T> {
    pub cur: Vec<T>,
    pub rest: Vec<Vec<T>>,
    pub done: bool,
}

impl<T> FlattenGen<T> {
    /// The values still to be yielded: the rest of the current inner
    /// vector, then everything in the remaining inner vectors.
    pub open spec fn pending(&self) -> Seq<T> {
        self.cur@ + flattened(self.rest@)
    }
}

impl<T> GenTrait for FlattenGen<T> {
    type Yielding = T;

    type Returning = ();

    open spec fn live(&self) -> bool {
        !self.done
    }

    open spec fn stepped(self, post: Self, s: GenState<T, ()>) -> bool {
        pending_step(self.pending(), post.pending(), s, post.live())
    }

    open spec fn bounded(&self) -> bool {
        true
    }

    open spec fn size(&self) -> nat {
        self.pending().len()
    }

    fn resume(&mut self) -> (s: GenState<T, ()>) {
        let ghost orig = *old(self);
        #[verifier::loop_isolation(false)]
        loop
            invariant
                !self.done,
                self.pending() == orig.pending(),
            decreases self.rest@.len(),
        {
            if self.cur.len() > 0 {
                let y = self.cur.remove(0);
                proof {
                    assert(self.pending() =~= orig.pending().skip(1));
                }
                return GenState::Yielded(y);
            }
            if self.rest.len() == 0 {
                self.done = true;
                proof {
                    assert(self.rest@.map_values(|v: Vec<T>| v@) =~= Seq::<Seq<T>>::empty());
                    assert(orig.pending() =~= Seq::<T>::empty());
                }
                return GenState::Complete(());
            }
            let ghost prerest = self.rest@;
            let nxt = self.rest.remove(0);
            self.cur = nxt;
            proof {
                assert(prerest.map_values(|v: Vec<T>| v@).first() == nxt@);
                assert(prerest.skip(1).map_values(|v: Vec<T>| v@) =~= prerest.map_values(
                    |v: Vec<T>| v@,
                ).drop_first());
                assert(self.pending() =~= orig.pending());
            }
        }
    }
}

/// Creates a lazy sequence that yields, in order, every element of every
/// inner vector of `items`, then answers `None`.
pub fn flatten<T>(items: Vec<Vec<T>>) -> (it: GenIter<FlattenGen<T>>)
    ensures
        it.0 matches Some(g) && g.pending() == flattened(items@) && g.live(),
{
    let g = FlattenGen { cur: Vec::new(), rest: items, done: false };
    proof {
        assert(g.pending() =~= flattened(g.rest@));
    }
    GenIter::new(g)
}

/// A computation that yields one extra value first and then behaves
/// exactly like its source.
pub struct PrependGen<T, G> {
    pub first: Option<T>,
    pub source: G,
}

impl<T, G> GenTrait for PrependGen<T, G> where G: GenTrait<Yielding = T> {
    type Yielding = T;

    type Returning = G::Returning;

    open spec fn live(&self) -> bool {
        self.source.live()
    }

    /// While the extra value is present it is yielded and the source is
    /// left untouched; afterwards every step is a source step.
    open spec fn stepped(self, post: Self, s: GenState<T, G::Returning>) -> bool {
        match self.first {
            Some(x) => post.first is None && post.source == self.source && s
                == GenState::<T, G::Returning>::Yielded(x),
            None => post.first is None && self.source.stepped(post.source, s),
        }
    }

    open spec fn bounded(&self) -> bool {
        self.source.bounded()
    }

    open spec fn size(&self) -> nat {
        self.source.size() + if self.first is Some {
            1nat
        } else {
            0nat
        }
    }

    fn resume(&mut self) -> (s: GenState<T, G::Returning>) {
        match self.first.take() {
            Some(x) => GenState::Yielded(x),
            None => self.source.resume(),
        }
    }
}

/// Creates a lazy sequence that yields `value` first and then every value
/// of `source`, completing when `source` does.
pub fn prepend<T, G>(value: T, source: G) -> (it: GenIter<PrependGen<T, G>>) where
    G: GenTrait<Yielding = T>,

    requires
        source.live(),
    ensures
        it.0 matches Some(g) && g.first == Some(value) && g.source == source && g.live(),
{
    GenIter::new(PrependGen { first: Some(value), source })
}

/// A computation that slices a source computation by (start, stop, step):
/// it discards the first `start` source values, then passes on every
/// `step`-th value of the rest, and stops after `stop` values have been
/// passed on. The source is consumed lazily: no step pulls more from it
/// than it needs, and the gap between two passed-on values is only
/// consumed on the way to the later one.
pub struct ISliceGen<G> {
    pub source: G,
    pub to_skip: usize,
    pub gap: usize,
    pub remaining: Option<usize>,
    pub done: bool,
}

impl<G: GenTrait> ISliceGen<G> {
    /// Releases the source computation, positioned exactly after the last
    /// value the slice pulled from it.
    pub fn into_source(self) -> (g: G)
        ensures
            g == self.source,
    {
        self.source
    }
}

impl<G: GenTrait> GenTrait for ISliceGen<G> {
    type Yielding = G::Yielding;

    type Returning = ();

    open spec fn live(&self) -> bool {
        !self.done && self.source.live()
    }

    /// A step that yields drives the source through exactly `to_skip`
    /// discarded values and one passed-on value, counts the passed-on
    /// value against `remaining`, and arms the next step to skip the gap.
    /// A step completes either at once, when the quota `remaining` is used
    /// up (the source untouched), or because the source completed while
    /// being pulled.
    open spec fn stepped(self, post: Self, s: GenState<G::Yielding, ()>) -> bool {
        &&& post.gap == self.gap
        &&& if self.remaining == Some(0usize) {
            &&& s == GenState::<G::Yielding, ()>::Complete(())
            &&& post.done
            &&& post.source == self.source
            &&& post.remaining == self.remaining
        } else {
            match s {
                GenState::Yielded(y) => {
                    &&& exists|mid: G, skipped: Seq<G::Yielding>|
                        #[trigger] yielded_chain(self.source, mid, skipped) && skipped.len()
                            == self.to_skip && mid.stepped(post.source, GenState::Yielded(y))
                    &&& post.to_skip == self.gap
                    &&& post.remaining == (match self.remaining {
                        Some(k) => Some((k - 1) as usize),
                        None => None::<usize>,
                    })
                    &&& !post.done
                },
                GenState::Complete(r) => {
                    &&& exists|mid: G, skipped: Seq<G::Yielding>|
                        #[trigger] yielded_chain(self.source, mid, skipped) && skipped.len()
                            <= self.to_skip && (exists|srcret: G::Returning|
                            mid.stepped(post.source, GenState::Complete(srcret)))
                    &&& post.done
                },
            }
        }
    }

    open spec fn bounded(&self) -> bool {
        self.remaining is Some || self.source.bounded()
    }

    open spec fn size(&self) -> nat {
        match self.remaining {
            Some(k) => k as nat,
            None => self.source.size(),
        }
    }

    fn resume(&mut self) -> (s: GenState<G::Yielding, ()>) {
        let ghost orig = *old(self);
        if let Some(k) = self.remaining {
            if k == 0 {
                self.done = true;
                return GenState::Complete(());
            }
        }
        let ghost mut skipped: Seq<G::Yielding> = Seq::empty();
        #[verifier::loop_isolation(false)]
        while self.to_skip > 0
            invariant
                !self.done,
                self.source.live(),
                self.gap == orig.gap,
                self.remaining == orig.remaining,
                orig.remaining matches Some(k) ==> k > 0,
                yielded_chain(orig.source, self.source, skipped),
                skipped.len() + self.to_skip == orig.to_skip,
                orig.source.bounded() ==> self.source.bounded() && self.source.size()
                    <= orig.source.size(),
            decreases self.to_skip,
        {
            let ghost spre = self.source;
            match self.source.resume() {
                GenState::Yielded(y) => {
                    let ghost gy = y;
                    proof {
                        lemma_yielded_chain_push(orig.source, spre, self.source, skipped, gy);
                        skipped = skipped.push(gy);
                    }
                    self.to_skip = self.to_skip - 1;
                },
                GenState::Complete(r) => {
                    let ghost gr = r;
                    self.done = true;
                    proof {
                        assert(yielded_chain(orig.source, spre, skipped) && spre.stepped(
                            self.source,
                            GenState::Complete(gr),
                        ));
                    }
                    return GenState::Complete(());
                },
            }
        }
        let ghost spre = self.source;
        match self.source.resume() {
            GenState::Yielded(y) => {
                self.to_skip = self.gap;
                match self.remaining {
                    Some(k) => {
                        self.remaining = Some(k - 1);
                    },
                    None => {},
                }
                let ghost gy = y;
                proof {
                    assert(yielded_chain(orig.source, spre, skipped) && spre.stepped(
                        self.source,
                        GenState::Yielded(gy),
                    ));
                }
                GenState::Yielded(y)
            },
            GenState::Complete(r) => {
                let ghost gr = r;
                self.done = true;
                proof {
                    assert(yielded_chain(orig.source, spre, skipped) && spre.stepped(
                        self.source,
                        GenState::Complete(gr),
                    ));
                }
                GenState::Complete(())
            },
        }
    }
}

/// Creates a lazy sequence that slices `source`: the first `start` values
/// are dropped, then every `step`-th of the remaining values is yielded,
/// and at most `stop` values are yielded in all. The three options
/// compose in that fixed order — skip, then step, then take — whichever of
/// them are absent; an absent `start` drops nothing, an absent `step`
/// yields consecutive values, an absent `stop` places no cap. A step of 0
/// would never advance, so a present step must be at least 1.
pub fn islice<G: GenTrait>(
    source: G,
    start: Option<usize>,
    stop: Option<usize>,
    step: Option<usize>,
) -> (it: GenIter<ISliceGen<G>>)
    requires
        source.live(),
        step matches Some(k) ==> k >= 1,
    ensures
        it.0 matches Some(g) && g == (ISliceGen {
            source,
            to_skip: (match start {
                Some(v) => v,
                None => 0usize,
            }),
            gap: (match step {
                Some(v) => (v - 1) as usize,
                None => 0usize,
            }),
            remaining: stop,
            done: false,
        }) && g.live(),
{
    let to_skip = match start {
        Some(v) => v,
        None => 0,
    };
    let gap = match step {
        Some(v) => v - 1,
        None => 0,
    };
    GenIter::new(ISliceGen { source, to_skip, gap, remaining: stop, done: false })
}

} // verus!
