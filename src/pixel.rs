use crate::geometry::Point;
use vstd::prelude::*;

verus! {

/// One coloured coordinate: the unit every producer emits.
#[derive(Clone, Copy, Debug, PartialEq, Eq)]
pub struct Pixel<C>(pub Point, pub C);

/// A single-pass producer of pixels, described by the sequence it has yet to emit.
pub trait PixelIterator<C>: Sized {
    /// The state invariant of the producer.
    spec fn wf(&self) -> bool;

    /// The pixels still to come, in order.
    spec fn remaining(&self) -> Seq<Pixel<C>>;

    /// Emits the next pixel, or `None` once the sequence is exhausted.
    fn next(&mut self) -> (r: Option<Pixel<C>>)
        requires
            old(self).wf(),
        ensures
            final(self).wf(),
            old(self).remaining().len() == 0 ==> r is None && final(self).remaining() == old(
                self,
            ).remaining(),
            old(self).remaining().len() > 0 ==> r == Some(old(self).remaining()[0])
                && final(self).remaining() == old(self).remaining().drop_first(),
    ;
}

/// Two producers run one after the other: every pixel of `first`, then every pixel of `second`.
pub struct Chain<A, B> {
    pub first: A,
    pub second: B,
}

impl<A, B> Chain<A, B> {
    pub fn new<C>(first: A, second: B) -> (r: Chain<A, B>) where
        A: PixelIterator<C>,
        B: PixelIterator<C>,
    ensures
            r.first == first,
            r.second == second,
            r.remaining() == first.remaining() + second.remaining(),
    {
        Chain { first, second }
    }
}

impl<C, A: PixelIterator<C>, B: PixelIterator<C>> PixelIterator<C> for Chain<A, B> {
    open spec fn wf(&self) -> bool {
        self.first.wf() && self.second.wf()
    }

    open spec fn remaining(&self) -> Seq<Pixel<C>> {
        self.first.remaining() + self.second.remaining()
    }

    fn next(&mut self) -> (r: Option<Pixel<C>>) {
        let ghost a = self.first.remaining();
        let ghost b = self.second.remaining();
        match self.first.next() {
            Some(p) => {
                assert((a + b).drop_first() =~= a.drop_first() + b);
                Some(p)
            },
            None => {
                assert(a + b =~= b);
                let r = self.second.next();
                proof {
                    if b.len() > 0 {
                        assert(self.first.remaining() + self.second.remaining() =~= b.drop_first());
                    } else {
                        assert(self.first.remaining() + self.second.remaining() =~= b);
                    }
                }
                r
            },
        }
    }
}

/// Chaining keeps both sequences whole and in order: the first pixels, as many as `first`
/// has, are exactly those of `first`, and the others are exactly those of `second`.
pub proof fn lemma_chain_order<C, A: PixelIterator<C>, B: PixelIterator<C>>(chain: Chain<A, B>)
    ensures
        chain.remaining().len() == chain.first.remaining().len() + chain.second.remaining().len(),
        chain.remaining().subrange(0, chain.first.remaining().len() as int)
            == chain.first.remaining(),
        chain.remaining().subrange(
            chain.first.remaining().len() as int,
            chain.remaining().len() as int,
        ) == chain.second.remaining(),
{
    let a = chain.first.remaining();
    let b = chain.second.remaining();
    assert((a + b).subrange(0, a.len() as int) =~= a);
    assert((a + b).subrange(a.len() as int, (a + b).len() as int) =~= b);
}

/// Runs a producer to exhaustion and gathers what it emits.
pub fn collect_pixels<C, I: PixelIterator<C>>(it: &mut I) -> (v: Vec<Pixel<C>>)
    requires
        old(it).wf(),
    ensures
        v@ == old(it).remaining(),
        final(it).wf(),
        final(it).remaining().len() == 0,
{
    let ghost all = it.remaining();
    let mut v: Vec<Pixel<C>> = Vec::new();
    assert(v@ + it.remaining() =~= all);
    loop
        invariant
            it.wf(),
            v@ + it.remaining() == all,
        ensures
            it.wf(),
            it.remaining().len() == 0,
            v@ == all,
        decreases it.remaining().len(),
    {
        let ghost before = it.remaining();
        match it.next() {
            Some(p) => {
                v.push(p);
                assert(v@ + it.remaining() =~= all) by {
                    assert(before =~= seq![p] + before.drop_first());
                    assert(all =~= v@.drop_last() + before);
                }
            },
            None => {
                assert(v@ =~= all);
                break;
            },
        }
    }
    v
}

} // verus!
