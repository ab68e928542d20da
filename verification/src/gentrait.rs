use crate::aspin::AsPin;
use crate::aspin::PinHandle;
use vstd::prelude::*;

verus! {

/// The outcome of advancing a suspendable computation one step: it either
/// paused after handing out a value, or ran to completion with a final
/// result. The two carry different payloads, so completion is not just an
/// absent value.
pub enum GenState<Y, R> {
    Yielded(Y),
    Complete(R),
}

/// The suspension contract.
///
/// A suspendable computation is a state machine that, while it is `live`,
/// may be advanced one step at a time; each step either yields a value or
/// completes. Resuming a computation that has already completed is a
/// contract violation, which the wrappers in this crate make unreachable
/// by construction, so `resume` simply requires `live`.
///
/// Each implementor chooses its own transition relation `stepped`; the
/// trait only fixes its shape and the liveness bookkeeping. `bounded` and
/// `size` give an optional step budget: whenever `bounded` holds, `size`
/// is an upper bound on how many more values can be yielded, which is what
/// lets a combinator that drives its inner computation in a loop prove
/// that the loop ends.
pub trait GenTrait: Sized {
    type Yielding;

    type Returning;

    /// True until the computation has reported completion.
    spec fn live(&self) -> bool;

    /// How the state after one `resume` call relates to the state before
    /// it and to the reported outcome.
    spec fn stepped(self, post: Self, s: GenState<Self::Yielding, Self::Returning>) -> bool;

    /// Whether `size` is a meaningful bound for this computation. A
    /// computation that can yield forever is not bounded.
    spec fn bounded(&self) -> bool;

    /// An upper bound on the number of values still to be yielded,
    /// meaningful only while `bounded` holds.
    spec fn size(&self) -> nat;

    /// Advances the computation one step.
    fn resume(&mut self) -> (s: GenState<Self::Yielding, Self::Returning>)
        requires
            old(self).live(),
        ensures
            old(self).stepped(*final(self), s),
            s is Yielded ==> final(self).live(),
            s is Complete ==> !final(self).live(),
            old(self).bounded() ==> final(self).bounded() && final(self).size() <= old(self).size(),
            old(self).bounded() && s is Yielded ==> final(self).size() < old(self).size(),
    ;

    /// Advances one step and reports a yielded value, or `None` if the
    /// computation just completed. The final result, if any, is dropped.
    fn next(&mut self) -> (r: Option<Self::Yielding>)
        requires
            old(self).live(),
        ensures
            (match r {
                Some(y) => final(self).live() && old(self).stepped(*final(self), GenState::Yielded(y)),
                None => !final(self).live() && (exists|ret: Self::Returning|
                    old(self).stepped(*final(self), GenState::Complete(ret))),
            }),
            old(self).bounded() ==> final(self).bounded() && final(self).size() <= old(self).size(),
            old(self).bounded() && r is Some ==> final(self).size() < old(self).size(),
    {
        match self.resume() {
            GenState::Yielded(y) => Some(y),
            GenState::Complete(ret) => {
                let ghost gret = ret;
                proof {
                    assert(old(self).stepped(*self, GenState::Complete(gret)));
                }
                None
            },
        }
    }

    /// Composes the computation with a transformation applied to each
    /// yielded value; the completion result passes through unchanged.
    fn map<U, F: Fn(Self::Yielding) -> U>(self, f: F) -> (m: Transform<Self, F>)
        ensures
            m == (Transform { generator: self, func: f }),
    {
        Transform::new(self, f)
    }

    /// Composes the computation with a predicate; only accepted values are
    /// yielded, and the completion result passes through unchanged.
    fn filter<F: Fn(&Self::Yielding) -> bool>(self, f: F) -> (fl: Filter<Self, F>)
        ensures
            fl == (Filter { generator: self, pred: f }),
    {
        Filter::new(self, f)
    }

    /// Pins the computation and wraps it in the pull-protocol adapter.
    fn iter(self) -> (it: Iter<Self>)
        requires
            self.live(),
        ensures
            it.pinned() matches Some(g) && g == self,
    {
        Iter { handle: Some(self.as_pin()) }
    }
}

/// Holds when `post` can be reached from `pre` by a run of resume steps
/// that yielded exactly the values `ys`, in order, with no completion.
pub open spec fn yielded_chain<G: GenTrait>(pre: G, post: G, ys: Seq<G::Yielding>) -> bool
    decreases ys.len(),
{
    if ys.len() == 0 {
        post == pre
    } else {
        exists|mid: G|
            #[trigger] pre.stepped(mid, GenState::Yielded(ys[0])) && yielded_chain(
                mid,
                post,
                ys.skip(1),
            )
    }
}

/// A chain of yield steps grows at its end: one more step that yields `y`
/// extends the run by `y`.
pub proof fn lemma_yielded_chain_push<G: GenTrait>(
    pre: G,
    mid: G,
    post: G,
    ys: Seq<G::Yielding>,
    y: G::Yielding,
)
    requires
        yielded_chain(pre, mid, ys),
        mid.stepped(post, GenState::Yielded(y)),
    ensures
        yielded_chain(pre, post, ys.push(y)),
    decreases ys.len(),
{
    if ys.len() == 0 {
        assert(ys.push(y)[0] == y);
        assert(ys.push(y).skip(1) =~= Seq::<G::Yielding>::empty());
        assert(pre.stepped(post, GenState::Yielded(ys.push(y)[0])) && yielded_chain(
            post,
            post,
            ys.push(y).skip(1),
        ));
    } else {
        let mid1 = choose|m: G|
            #[trigger] pre.stepped(m, GenState::Yielded(ys[0])) && yielded_chain(
                m,
                mid,
                ys.skip(1),
            );
        lemma_yielded_chain_push(mid1, mid, post, ys.skip(1), y);
        assert(ys.push(y).skip(1) =~= ys.skip(1).push(y));
        assert(ys.push(y)[0] == ys[0]);
        assert(pre.stepped(mid1, GenState::Yielded(ys.push(y)[0])) && yielded_chain(
            mid1,
            post,
            ys.push(y).skip(1),
        ));
    }
}

/// Transforms each value yielded by an inner computation with a pure
/// function; completion passes through unchanged. The node is itself a
/// suspendable computation, so transformations compose arbitrarily deep.
pub struct Transform<G, F> {
    pub generator: G,
    pub func: F,
}

impl<G, F> Transform<G, F> {
    pub fn new(generator: G, func: F) -> (m: Self)
        ensures
            m == (Transform { generator, func }),
    {
        Transform { generator, func }
    }
}

impl<U, G, F> GenTrait for Transform<G, F> where G: GenTrait, F: Fn(G::Yielding) -> U {
    type Yielding = U;

    type Returning = G::Returning;

    /// The inner computation is live and the function accepts every value
    /// it could be handed.
    open spec fn live(&self) -> bool {
        &&& self.generator.live()
        &&& forall|y: G::Yielding| call_requires(self.func, (y,))
    }

    /// A yielded value is the function's output for the value the inner
    /// computation yielded on the same step; the function is applied to
    /// that one value exactly once. Completion is the inner completion.
    open spec fn stepped(self, post: Self, s: GenState<U, G::Returning>) -> bool {
        &&& post.func == self.func
        &&& match s {
            GenState::Yielded(u) => exists|y: G::Yielding|
                #[trigger] self.generator.stepped(post.generator, GenState::Yielded(y))
                    && call_ensures(self.func, (y,), u),
            GenState::Complete(r) => self.generator.stepped(post.generator, GenState::Complete(r)),
        }
    }

    open spec fn bounded(&self) -> bool {
        self.generator.bounded()
    }

    open spec fn size(&self) -> nat {
        self.generator.size()
    }

    fn resume(&mut self) -> (s: GenState<U, G::Returning>) {
        match self.generator.resume() {
            GenState::Yielded(y) => {
                let ghost gy = y;
                let u = (self.func)(y);
                proof {
                    assert(old(self).generator.stepped(
                        self.generator,
                        GenState::Yielded(gy),
                    ) && call_ensures(self.func, (gy,), u));
                }
                GenState::Yielded(u)
            },
            GenState::Complete(r) => GenState::Complete(r),
        }
    }
}

/// Every value a transformation node yields is its function's output for
/// the one value the inner computation yielded on the same step; this
/// names that witness.
pub proof fn lemma_transform_step<U, G, F>(
    pre: Transform<G, F>,
    post: Transform<G, F>,
    s: GenState<U, G::Returning>,
) -> (y: G::Yielding) where G: GenTrait, F: Fn(G::Yielding) -> U
    requires
        pre.stepped(post, s),
        s is Yielded,
    ensures
        pre.generator.stepped(post.generator, GenState::Yielded(y)),
        call_ensures(pre.func, (y,), s->Yielded_0),
{
    choose|y: G::Yielding|
        #[trigger] pre.generator.stepped(post.generator, GenState::Yielded(y)) && call_ensures(
            pre.func,
            (y,),
            s->Yielded_0,
        )
}

/// Passes through only the values of an inner computation that a
/// predicate accepts; completion passes through unchanged. One external
/// step may drive the inner computation through many rejected values, so
/// the inner computation must be bounded.
pub struct Filter<G, F> {
    pub generator: G,
    pub pred: F,
}

impl<G, F> Filter<G, F> {
    pub fn new(generator: G, pred: F) -> (fl: Self)
        ensures
            fl == (Filter { generator, pred }),
    {
        Filter { generator, pred }
    }
}

impl<G, F> GenTrait for Filter<G, F> where G: GenTrait, F: Fn(&G::Yielding) -> bool {
    type Yielding = G::Yielding;

    type Returning = G::Returning;

    /// The inner computation is live and bounded (so that one step here,
    /// which skips rejected values in a loop, ends), and the predicate
    /// accepts every value it could be handed.
    open spec fn live(&self) -> bool {
        &&& self.generator.live()
        &&& self.generator.bounded()
        &&& forall|y: G::Yielding| call_requires(self.pred, (&y,))
    }

    /// A step runs the inner computation through a run of values the
    /// predicate rejected, in order, and ends at the first accepted value
    /// (yielded) or at the inner completion (passed through).
    open spec fn stepped(self, post: Self, s: GenState<G::Yielding, G::Returning>) -> bool {
        &&& post.pred == self.pred
        &&& match s {
            GenState::Yielded(y) => exists|mid: G, rej: Seq<G::Yielding>|
                {
                    &&& #[trigger] yielded_chain(self.generator, mid, rej)
                    &&& forall|i: int|
                        0 <= i < rej.len() ==> call_ensures(self.pred, (&rej[i],), false)
                    &&& mid.stepped(post.generator, GenState::Yielded(y))
                    &&& call_ensures(self.pred, (&y,), true)
                },
            GenState::Complete(r) => exists|mid: G, rej: Seq<G::Yielding>|
                {
                    &&& #[trigger] yielded_chain(self.generator, mid, rej)
                    &&& forall|i: int|
                        0 <= i < rej.len() ==> call_ensures(self.pred, (&rej[i],), false)
                    &&& mid.stepped(post.generator, GenState::Complete(r))
                },
        }
    }

    open spec fn bounded(&self) -> bool {
        self.generator.bounded()
    }

    open spec fn size(&self) -> nat {
        self.generator.size()
    }

    fn resume(&mut self) -> (s: GenState<G::Yielding, G::Returning>) {
        let ghost orig = *old(self);
        let ghost mut rej: Seq<G::Yielding> = Seq::empty();
        #[verifier::loop_isolation(false)]
        loop
            invariant
                self.pred == orig.pred,
                self.generator.live(),
                self.generator.bounded(),
                forall|y: G::Yielding| call_requires(self.pred, (&y,)),
                yielded_chain(orig.generator, self.generator, rej),
                forall|i: int| 0 <= i < rej.len() ==> call_ensures(orig.pred, (&rej[i],), false),
                self.generator.size() <= orig.generator.size(),
            decreases self.generator.size(),
        {
            let ghost gpre = self.generator;
            match self.generator.resume() {
                GenState::Yielded(y) => {
                    let ghost gy = y;
                    if (self.pred)(&y) {
                        proof {
                            assert(yielded_chain(orig.generator, gpre, rej) && gpre.stepped(
                                self.generator,
                                GenState::Yielded(gy),
                            ));
                        }
                        return GenState::Yielded(y);
                    }
                    proof {
                        lemma_yielded_chain_push(orig.generator, gpre, self.generator, rej, gy);
                        rej = rej.push(gy);
                    }
                },
                GenState::Complete(r) => {
                    proof {
                        assert(yielded_chain(orig.generator, gpre, rej));
                    }
                    return GenState::Complete(r);
                },
            }
        }
    }
}

/// Every step of a filter node drives its inner computation through one
/// run of values, all rejected by the predicate and dropped in order, and
/// ends at the first accepted value or at the inner completion; this names
/// that run (the inner state the run reaches, and the rejected values).
/// In particular the values that do come out keep their relative order.
pub proof fn lemma_filter_step<G, F>(
    pre: Filter<G, F>,
    post: Filter<G, F>,
    s: GenState<G::Yielding, G::Returning>,
) -> (run: (G, Seq<G::Yielding>)) where G: GenTrait, F: Fn(&G::Yielding) -> bool
    requires
        pre.stepped(post, s),
    ensures
        yielded_chain(pre.generator, run.0, run.1),
        forall|i: int| 0 <= i < run.1.len() ==> call_ensures(pre.pred, (&run.1[i],), false),
        s is Yielded ==> run.0.stepped(post.generator, GenState::Yielded(s->Yielded_0))
            && call_ensures(pre.pred, (&s->Yielded_0,), true),
        s is Complete ==> run.0.stepped(post.generator, GenState::Complete(s->Complete_0)),
{
    match s {
        GenState::Yielded(y) => {
            let (mid, rej) = choose|mid: G, rej: Seq<G::Yielding>|
                {
                    &&& #[trigger] yielded_chain(pre.generator, mid, rej)
                    &&& forall|i: int|
                        0 <= i < rej.len() ==> call_ensures(pre.pred, (&rej[i],), false)
                    &&& mid.stepped(post.generator, GenState::Yielded(y))
                    &&& call_ensures(pre.pred, (&y,), true)
                };
            (mid, rej)
        },
        GenState::Complete(r) => {
            let (mid, rej) = choose|mid: G, rej: Seq<G::Yielding>|
                {
                    &&& #[trigger] yielded_chain(pre.generator, mid, rej)
                    &&& forall|i: int|
                        0 <= i < rej.len() ==> call_ensures(pre.pred, (&rej[i],), false)
                    &&& mid.stepped(post.generator, GenState::Complete(r))
                };
            (mid, rej)
        },
    }
}

/// A pull-protocol adapter over a pinned computation: `new` pins the
/// computation once, and each `next` resumes it in place through the
/// address-stable handle. A computation that completes is discarded, never
/// put back, so resuming after completion is structurally impossible and
/// an exhausted adapter answers `None` forever.
pub struct Iter<G> {
    handle: Option<PinHandle<G>>,
}

impl<G> Iter<G> {
    /// The computation still held, if any.
    pub closed spec fn pinned(&self) -> Option<G> {
        match self.handle {
            Some(h) => Some(h.value()),
            None => None,
        }
    }
}

impl<G: GenTrait> Iter<G> {
    /// Well-formed: a held computation is still live, so it is safe to
    /// resume.
    pub open spec fn wf(&self) -> bool {
        match self.pinned() {
            Some(g) => g.live(),
            None => true,
        }
    }

    /// Pins `generator` and wraps it.
    pub fn new(generator: G) -> (it: Self)
        requires
            generator.live(),
        ensures
            it.pinned() == Some(generator),
            it.wf(),
    {
        Iter { handle: Some(generator.as_pin()) }
    }

    /// Pulls the next value: `None` once and forever after the pinned
    /// computation completes.
    pub fn next(&mut self) -> (r: Option<G::Yielding>)
        requires
            old(self).wf(),
        ensures
            final(self).wf(),
            (match old(self).pinned() {
                None => r is None && final(self).pinned() is None,
                Some(g) => match r {
                    Some(y) => final(self).pinned() matches Some(g2) && g.stepped(
                        g2,
                        GenState::Yielded(y),
                    ),
                    None => final(self).pinned() is None && (exists|g2: G, ret: G::Returning|
                        g.stepped(g2, GenState::Complete(ret))),
                },
            }),
    {
        match self.handle.take() {
            None => None,
            Some(mut h) => {
                let ghost gpre = h.value();
                let gref = h.borrow_mut();
                match gref.resume() {
                    GenState::Yielded(y) => {
                        self.handle = Some(h);
                        Some(y)
                    },
                    GenState::Complete(ret) => {
                        let ghost gret = ret;
                        proof {
                            assert(gpre.stepped(h.value(), GenState::Complete(gret)));
                        }
                        None
                    },
                }
            },
        }
    }
}

} // verus!
