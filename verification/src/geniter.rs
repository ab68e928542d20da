use crate::gentrait::GenState;
use crate::gentrait::GenTrait;
use vstd::prelude::*;

verus! {

/// The lazy sequence wrapper: owns a suspendable computation and exposes
/// it through the pull protocol `next() -> Option<Item>`.
///
/// Its state machine is `Some(computation)` (holding) or `None` (empty).
/// Each `next` takes the computation out, resumes it once, and either puts
/// it back (it yielded) or leaves it discarded (it completed). A completed
/// computation therefore no longer exists to be resumed — the invariant
/// "never resume after completion" holds by construction, with no runtime
/// flag — and once the wrapper is empty, `next` answers `None` forever.
pub struct GenIter<G>(pub Option<G>);

impl<G: GenTrait> GenIter<G> {
    /// Well-formed: a held computation is still live, so it is safe to
    /// resume. Every constructor in this crate establishes this, and
    /// `next` preserves it.
    pub open spec fn wf(&self) -> bool {
        match self.0 {
            Some(g) => g.live(),
            None => true,
        }
    }

    /// Wraps a computation that has not yet completed.
    pub fn new(generator: G) -> (it: Self)
        requires
            generator.live(),
        ensures
            it.0 == Some(generator),
    {
        GenIter(Some(generator))
    }

    /// Borrows the held computation, if any.
    pub fn as_mut(&mut self) -> (r: Option<&mut G>)
        ensures
            (match old(self).0 {
                None => r is None && final(self).0 == old(self).0,
                Some(g) => r matches Some(m) && *m == g && final(self).0 == Some(*final(m)),
            }),
    {
        self.0.as_mut()
    }

    /// Removes and returns the held computation, leaving the wrapper
    /// empty.
    pub fn take(&mut self) -> (r: Option<G>)
        ensures
            r == old(self).0,
            final(self).0 is None,
    {
        self.0.take()
    }

    /// Pulls the next value.
    ///
    /// While a computation is held, this resumes it once: a yielded value
    /// is returned and the computation kept; on completion the computation
    /// is dropped and `None` returned. Once empty, every further call
    /// returns `None` immediately — exhaustion is idempotent.
    pub fn next(&mut self) -> (r: Option<G::Yielding>)
        requires
            old(self).wf(),
        ensures
            final(self).wf(),
            (match old(self).0 {
                None => r is None && final(self).0 is None,
                Some(g) => match r {
                    Some(y) => final(self).0 matches Some(g2) && g.stepped(g2, GenState::Yielded(y)),
                    None => final(self).0 is None && (exists|g2: G, ret: G::Returning|
                        g.stepped(g2, GenState::Complete(ret))),
                },
            }),
    {
        match self.0.take() {
            None => None,
            Some(mut g) => {
                let ghost gpre = g;
                match g.resume() {
                    GenState::Yielded(y) => {
                        self.0 = Some(g);
                        Some(y)
                    },
                    GenState::Complete(ret) => {
                        let ghost gret = ret;
                        let ghost gpost = g;
                        proof {
                            assert(gpre.stepped(gpost, GenState::Complete(gret)));
                        }
                        None
                    },
                }
            },
        }
    }
}

} // verus!
