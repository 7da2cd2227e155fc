//! A lazy adaptor for pull-based sequences that chains a sequence with a
//! sequence built from its last element.
//!
//! [`ChainFromLastExt::chain_from_last`] wraps a source sequence together
//! with a one-shot builder function. The adaptor yields every source element
//! except the last; the pull that detects the last element hands it to the
//! builder, exactly once, and from then on the adaptor yields whatever the
//! built continuation sequence yields. An empty source yields nothing and
//! the builder is never invoked.

pub mod pull;

use vstd::prelude::*;

use crate::pull::PullSequence;

verus! {

/// The two mutually exclusive phases of the adaptor.
///
/// While `Sourcing`, the adaptor still draws from `source`; `pending` is the
/// one-slot lookahead buffer and `builder` the as yet unspent one-shot
/// function. Once the source's last element has been detected, the adaptor
/// moves irrevocably to `Continuing`, which owns only the sequence that the
/// builder produced from that last element.
enum ChainFromLastState<A: PullSequence, B, F> {
    Sourcing { source: A, builder: Option<F>, pending: Option<A::Item> },
    Continuing(B),
}

/// An adaptor that yields every element of a source sequence except the last,
/// then every element of the sequence a one-shot builder makes from that last
/// element.
#[must_use]
pub struct ChainFromLast<A: PullSequence, B, F>(ChainFromLastState<A, B, F>);

impl<A, B, F> ChainFromLast<A, B, F> where
    A: PullSequence,
    B: PullSequence<Item = A::Item>,
    F: FnOnce(A::Item) -> B,
{
    /// True while the adaptor still draws from the source.
    pub closed spec fn in_sourcing(&self) -> bool {
        self.0 is Sourcing
    }

    /// While sourcing: the elements the source side still owes, the lookahead
    /// slot first. The final one is the element the builder will receive.
    pub closed spec fn source_rem(&self) -> Seq<A::Item>
        recommends
            self.in_sourcing(),
    {
        match self.0 {
            ChainFromLastState::Sourcing { source, pending, .. } => {
                match pending {
                    Some(p) => seq![p] + source.rem(),
                    None => source.rem(),
                }
            },
            ChainFromLastState::Continuing(_) => Seq::empty(),
        }
    }

    /// While sourcing: whether the one-shot builder is still unspent.
    pub closed spec fn builder_armed(&self) -> bool {
        &&& self.0 is Sourcing
        &&& self.0->builder is Some
    }

    /// While sourcing: the one-shot builder waiting for the source's last element.
    pub closed spec fn builder(&self) -> F
        recommends
            self.builder_armed(),
    {
        self.0->builder->0
    }

    /// After the transition: the elements the continuation still owes.
    pub closed spec fn cont_rem(&self) -> Seq<A::Item>
        recommends
            !self.in_sourcing(),
    {
        match self.0 {
            ChainFromLastState::Continuing(cont) => cont.rem(),
            ChainFromLastState::Sourcing { .. } => Seq::empty(),
        }
    }

    /// Well-formedness: while the adaptor is sourcing, the builder has not
    /// been spent. The constructor establishes this and every pull keeps it.
    pub closed spec fn wf(&self) -> bool {
        self.in_sourcing() ==> self.builder_armed()
    }

    /// Pull the next element of the chained sequence.
    ///
    /// While sourcing, the front of `source_rem` is emitted as long as at
    /// least one further element stands behind it. The pull that finds the
    /// source's true last element spends the builder on that element, moves
    /// to the continuing phase, and answers from the new continuation within
    /// the same pull, so no empty signal separates the two phases. An empty
    /// source yields `None` at once, with the builder left unspent; an
    /// exhausted adaptor keeps yielding `None` unchanged.
    pub fn next(&mut self) -> (r: Option<A::Item>)
        requires
            old(self).wf(),
            old(self).in_sourcing() && old(self).source_rem().len() == 1
                ==> call_requires(old(self).builder(), (old(self).source_rem().last(),)),
        ensures
            final(self).wf(),
            // the source never yielded anything: stay sourcing, builder unspent
            old(self).in_sourcing() && old(self).source_rem().len() == 0 ==> {
                &&& r is None
                &&& final(self).in_sourcing()
                &&& final(self).source_rem() == old(self).source_rem()
                &&& final(self).builder() == old(self).builder()
            },
            // something follows the candidate: emit the front, keep sourcing
            old(self).in_sourcing() && old(self).source_rem().len() >= 2 ==> {
                &&& r == Some(old(self).source_rem().first())
                &&& final(self).in_sourcing()
                &&& final(self).source_rem() == old(self).source_rem().drop_first()
                &&& final(self).builder() == old(self).builder()
            },
            // the candidate is the source's true last element: spend the builder
            // on it and answer this same pull from the continuation it built
            old(self).in_sourcing() && old(self).source_rem().len() == 1 ==> {
                &&& !final(self).in_sourcing()
                &&& exists |c: B| {
                    &&& #[trigger] call_ensures(old(self).builder(), (old(self).source_rem().last(),), c)
                    &&& if c.rem().len() == 0 {
                        r is None && final(self).cont_rem() == c.rem()
                    } else {
                        r == Some(c.rem().first()) && final(self).cont_rem() == c.rem().drop_first()
                    }
                }
            },
            // continuing: forward the pull to the continuation
            !old(self).in_sourcing() ==> {
                &&& !final(self).in_sourcing()
                &&& if old(self).cont_rem().len() == 0 {
                    r is None && final(self).cont_rem() == old(self).cont_rem()
                } else {
                    r == Some(old(self).cont_rem().first())
                        && final(self).cont_rem() == old(self).cont_rem().drop_first()
                }
            },
    {
        let mut spend: Option<(F, A::Item)> = None;
        let mut out: Option<A::Item> = None;
        match &mut self.0 {
            ChainFromLastState::Sourcing { source, builder, pending } => {
                let candidate = match pending.take() {
                    Some(p) => Some(p),
                    None => source.next(),
                };
                match candidate {
                    None => {},
                    Some(c) => {
                        match source.next() {
                            Some(x) => {
                                *pending = Some(x);
                                out = Some(c);
                            },
                            None => {
                                spend = Some((builder.take().unwrap(), c));
                            },
                        }
                    },
                }
            },
            ChainFromLastState::Continuing(cont) => {
                out = cont.next();
            },
        }
        match spend {
            None => {
                proof {
                    if old(self).in_sourcing() && old(self).source_rem().len() >= 2 {
                        assert(self.source_rem() =~= old(self).source_rem().drop_first());
                    }
                }
                out
            },
            Some((f, last)) => {
                let mut cont = f(last);
                let ghost c = cont;
                let r = cont.next();
                self.0 = ChainFromLastState::Continuing(cont);
                proof {
                    assert(call_ensures(old(self).builder(), (old(self).source_rem().last(),), c));
                }
                r
            },
        }
    }

    /// Drain the adaptor and collect everything it yields.
    ///
    /// This states the seamless-chaining law as a whole: the output is every
    /// element of the source except the last, followed by every element of
    /// the continuation that the builder made from that last element; an
    /// empty source produces an empty output.
    pub fn into_vec(self) -> (r: Vec<A::Item>)
        requires
            self.wf(),
            self.in_sourcing() && self.source_rem().len() >= 1
                ==> call_requires(self.builder(), (self.source_rem().last(),)),
        ensures
            self.in_sourcing() && self.source_rem().len() == 0
                ==> r@ == Seq::<A::Item>::empty(),
            self.in_sourcing() && self.source_rem().len() >= 1 ==> exists |c: B| {
                &&& #[trigger] call_ensures(self.builder(), (self.source_rem().last(),), c)
                &&& r@ == self.source_rem().drop_last() + c.rem()
            },
            !self.in_sourcing() ==> r@ == self.cont_rem(),
    {
        let ghost init = self;
        let mut me = self;
        let mut v: Vec<A::Item> = Vec::new();
        proof {
            assert(v@ + init.source_rem() =~= init.source_rem());
            assert(v@ + init.cont_rem() =~= init.cont_rem());
        }
        loop
            invariant
                me.wf(),
                init.wf(),
                init.in_sourcing() && init.source_rem().len() >= 1
                    ==> call_requires(init.builder(), (init.source_rem().last(),)),
                me.in_sourcing() ==> {
                    &&& init.in_sourcing()
                    &&& v@ + me.source_rem() == init.source_rem()
                    &&& me.builder() == init.builder()
                    &&& (init.source_rem().len() >= 1 ==> me.source_rem().len() >= 1)
                },
                !me.in_sourcing() && init.in_sourcing() ==> {
                    &&& init.source_rem().len() >= 1
                    &&& exists |c: B| {
                        &&& #[trigger] call_ensures(init.builder(), (init.source_rem().last(),), c)
                        &&& v@ + me.cont_rem() == init.source_rem().drop_last() + c.rem()
                    }
                },
                !me.in_sourcing() && !init.in_sourcing()
                    ==> v@ + me.cont_rem() == init.cont_rem(),
            ensures
                me.in_sourcing() ==> me.source_rem().len() == 0,
                !me.in_sourcing() ==> me.cont_rem().len() == 0,
            decreases
                (if me.in_sourcing() { 1int } else { 0int }),
                (if me.in_sourcing() { me.source_rem().len() } else { me.cont_rem().len() }),
        {
            proof {
                if me.in_sourcing() && me.source_rem().len() == 1 {
                    assert(init.source_rem().last()
                        == (v@ + me.source_rem()).last());
                    assert((v@ + me.source_rem()).last() == me.source_rem().last());
                }
            }
            let ghost pre = me;
            let ghost vold = v@;
            let r = me.next();
            let ghost gr = r;
            proof {
                if pre.in_sourcing() && pre.source_rem().len() == 1 {
                    let c = choose |c: B| {
                        &&& #[trigger] call_ensures(pre.builder(), (pre.source_rem().last(),), c)
                        &&& if c.rem().len() == 0 {
                            gr is None && me.cont_rem() == c.rem()
                        } else {
                            gr == Some(c.rem().first())
                                && me.cont_rem() == c.rem().drop_first()
                        }
                    };
                    assert(pre.source_rem().last() == init.source_rem().last());
                    assert(call_ensures(init.builder(), (init.source_rem().last(),), c));
                    assert(v@ + pre.source_rem() == init.source_rem());
                    assert(v@ =~= init.source_rem().drop_last());
                    if c.rem().len() == 0 {
                        assert(v@ + me.cont_rem() =~= init.source_rem().drop_last() + c.rem());
                    }
                }
            }
            match r {
                Some(x) => {
                    v.push(x);
                    proof {
                        if pre.in_sourcing() && pre.source_rem().len() >= 2 {
                            assert(v@ + me.source_rem() =~= init.source_rem());
                        } else if pre.in_sourcing() {
                            // the pull that found the last element
                            let c = choose |c: B| {
                                &&& #[trigger] call_ensures(init.builder(), (init.source_rem().last(),), c)
                                &&& if c.rem().len() == 0 {
                                    gr is None && me.cont_rem() == c.rem()
                                } else {
                                    gr == Some(c.rem().first())
                                        && me.cont_rem() == c.rem().drop_first()
                                }
                            };
                            assert(v@ + me.cont_rem() =~= init.source_rem().drop_last() + c.rem());
                        } else {
                            // the pull was already forwarded to the continuation
                            assert(v@ + me.cont_rem() =~= vold + pre.cont_rem());
                            if init.in_sourcing() {
                                let c = choose |c: B| {
                                    &&& #[trigger] call_ensures(init.builder(), (init.source_rem().last(),), c)
                                    &&& vold + pre.cont_rem() == init.source_rem().drop_last() + c.rem()
                                };
                                assert(call_ensures(init.builder(), (init.source_rem().last(),), c));
                                assert(v@ + me.cont_rem() == init.source_rem().drop_last() + c.rem());
                            }
                        }
                    }
                },
                None => {
                    break;
                },
            }
        }
        proof {
            if init.in_sourcing() && init.source_rem().len() >= 1 {
                let c = choose |c: B| {
                    &&& #[trigger] call_ensures(init.builder(), (init.source_rem().last(),), c)
                    &&& v@ + me.cont_rem() == init.source_rem().drop_last() + c.rem()
                };
                assert(v@ =~= v@ + me.cont_rem());
                assert(v@ == init.source_rem().drop_last() + c.rem());
            } else if init.in_sourcing() {
                assert(v@ =~= Seq::<A::Item>::empty());
            } else {
                assert(v@ =~= v@ + me.cont_rem());
            }
        }
        v
    }
}

/// Law: an emitting pull while sourcing removes only the front of the
/// remaining source elements, so their last one — the element the builder
/// will receive once the source runs out — never changes. The hypotheses are
/// exactly what `ChainFromLast::next` ensures of such a pull.
pub proof fn lemma_sourcing_pull_preserves_last<A, B, F>(
    pre: ChainFromLast<A, B, F>,
    post: ChainFromLast<A, B, F>,
) where
    A: PullSequence,
    B: PullSequence<Item = A::Item>,
    F: FnOnce(A::Item) -> B,
    requires
        pre.in_sourcing(),
        pre.source_rem().len() >= 2,
        post.in_sourcing(),
        post.source_rem() == pre.source_rem().drop_first(),
    ensures
        post.source_rem().last() == pre.source_rem().last(),
        post.source_rem().len() >= 1,
{
}

/// Adds `chain_from_last` to every pull-based sequence.
pub trait ChainFromLastExt: PullSequence {
    /// Wrap this sequence in an adaptor that will yield every element but the
    /// last, then everything `f`, fed the last element, yields.
    ///
    /// Construction is lazy: no element is pulled from `self` and `f` is not
    /// invoked until the adaptor itself is first pulled.
    fn chain_from_last<B, F>(self, f: F) -> (r: ChainFromLast<Self, B, F>) where
        B: PullSequence<Item = Self::Item>,
        F: FnOnce(Self::Item) -> B,
        ensures
            r.wf(),
            r.in_sourcing(),
            r.source_rem() == self.rem(),
            r.builder_armed(),
            r.builder() == f,
    {
        ChainFromLast(ChainFromLastState::Sourcing { source: self, builder: Some(f), pending: None })
    }
}

impl<I: PullSequence> ChainFromLastExt for I {
}

} // verus!
