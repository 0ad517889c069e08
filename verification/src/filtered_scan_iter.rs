//! A lazy, single-pass, stateful filtering scan over a sequence: each input
//! item steps a state and may produce one output item. `next` pulls from the
//! source only until an output is produced or the source is exhausted, and
//! once exhausted the iterator stays exhausted.

use vstd::prelude::*;

verus! {

/// One step of a filtering scan: from a state and one input item, the next
/// state and possibly one output item.
///
/// An implementor chooses a mathematical model for its states
/// (`StateModel`), says how an executable state is read as a model
/// (`state_model`), and gives the step as a function on models
/// (`step_spec`); the executable `step` must realize exactly that function.
pub trait ScanOp: Sized {
    type State;

    type Input: Copy;

    type Output;

    type StateModel;

    /// The well-formed states; `step` may assume it and must preserve it.
    spec fn state_inv(&self, s: Self::State) -> bool;

    spec fn state_model(&self, s: Self::State) -> Self::StateModel;

    spec fn step_spec(&self, s: Self::StateModel, a: Self::Input) -> (
        Self::StateModel,
        Option<Self::Output>,
    );

    fn step(&self, state: &mut Self::State, a: Self::Input) -> (r: Option<Self::Output>)
        requires
            self.state_inv(*old(state)),
        ensures
            self.state_inv(*final(state)),
            (self.state_model(*final(state)), r) == self.step_spec(
                self.state_model(*old(state)),
                a,
            ),
    ;
}

/// All outputs of scanning `items` from state `s`, in order.
pub open spec fn scan_outputs<Op: ScanOp>(op: Op, s: Op::StateModel, items: Seq<Op::Input>) -> Seq<
    Op::Output,
>
    decreases items.len(),
{
    if items.len() == 0 {
        Seq::empty()
    } else {
        let (s2, out) = op.step_spec(s, items[0]);
        match out {
            Some(b) => seq![b] + scan_outputs(op, s2, items.skip(1)),
            None => scan_outputs(op, s2, items.skip(1)),
        }
    }
}

/// The state after scanning all of `items` from state `s`.
pub open spec fn scan_state<Op: ScanOp>(op: Op, s: Op::StateModel, items: Seq<Op::Input>) -> Op::StateModel
    decreases items.len(),
{
    if items.len() == 0 {
        s
    } else {
        scan_state(op, op.step_spec(s, items[0]).0, items.skip(1))
    }
}

/// Scanning one more item extends the outputs by that item's emission and
/// steps the final state once.
pub proof fn lemma_scan_snoc<Op: ScanOp>(
    op: Op,
    s: Op::StateModel,
    items: Seq<Op::Input>,
    x: Op::Input,
)
    ensures
        scan_state(op, s, items.push(x)) == op.step_spec(scan_state(op, s, items), x).0,
        scan_outputs(op, s, items.push(x)) == scan_outputs(op, s, items) + (match op.step_spec(
            scan_state(op, s, items),
            x,
        ).1 {
            Some(b) => seq![b],
            None => Seq::<Op::Output>::empty(),
        }),
    decreases items.len(),
{
    let p = items.push(x);
    if items.len() == 0 {
        reveal_with_fuel(scan_state, 2);
        reveal_with_fuel(scan_outputs, 2);
        assert(p[0] == x);
        assert(p.skip(1) =~= Seq::<Op::Input>::empty());
        match op.step_spec(s, x).1 {
            Some(b) => {
                assert(scan_outputs(op, s, p) =~= scan_outputs(op, s, items) + seq![b]);
            },
            None => {
                assert(scan_outputs(op, s, p) =~= scan_outputs(op, s, items));
            },
        }
    } else {
        let (s2, out) = op.step_spec(s, items[0]);
        assert(p[0] == items[0]);
        assert(p.skip(1) =~= items.skip(1).push(x));
        lemma_scan_snoc(op, s2, items.skip(1), x);
        assert(scan_state(op, s, p) == scan_state(op, s2, p.skip(1)));
        assert(scan_state(op, s, items) == scan_state(op, s2, items.skip(1)));
        let tail_emit = (match op.step_spec(scan_state(op, s, items), x).1 {
            Some(b) => seq![b],
            None => Seq::<Op::Output>::empty(),
        });
        match out {
            Some(b) => {
                assert(scan_outputs(op, s, p) =~= seq![b] + scan_outputs(op, s2, p.skip(1)));
                assert(scan_outputs(op, s, items) =~= seq![b] + scan_outputs(
                    op,
                    s2,
                    items.skip(1),
                ));
                assert(scan_outputs(op, s, p) =~= scan_outputs(op, s, items) + tail_emit);
            },
            None => {
                assert(scan_outputs(op, s, p) =~= scan_outputs(op, s2, p.skip(1)));
                assert(scan_outputs(op, s, p) =~= scan_outputs(op, s, items) + tail_emit);
            },
        }
    }
}

/// A scan filters: it emits at most one output per input item.
pub proof fn lemma_scan_outputs_len<Op: ScanOp>(op: Op, s: Op::StateModel, items: Seq<Op::Input>)
    ensures
        scan_outputs(op, s, items).len() <= items.len(),
    decreases items.len(),
{
    if items.len() > 0 {
        let (s2, out) = op.step_spec(s, items[0]);
        lemma_scan_outputs_len(op, s2, items.skip(1));
    }
}

/// The filtering-scan iterator: a source of items, a cursor into it, the
/// current state, and the step.
pub struct FilteredScanIter<Op: ScanOp> {
    pub iter: Vec<Op::Input>,
    pub pos: usize,
    pub state: Op::State,
    pub func: Op,
}

impl<Op: ScanOp> FilteredScanIter<Op> {
    /// The outputs this iterator has yet to yield.
    pub open spec fn pending(&self) -> Seq<Op::Output> {
        scan_outputs(self.func, self.func.state_model(self.state), self.iter@.skip(self.pos as int))
    }

    pub open spec fn wf(&self) -> bool {
        self.pos <= self.iter.len() && self.func.state_inv(self.state)
    }

    /// Yield the next output: pull source items and step the state until one
    /// step produces an output, or the source is exhausted. Exhaustion is
    /// permanent: after a `None` the cursor rests at the end of the source.
    pub fn next(&mut self) -> (r: Option<Op::Output>)
        requires
            old(self).wf(),
        ensures
            final(self).wf(),
            final(self).func == old(self).func,
            final(self).iter == old(self).iter,
            old(self).pos <= final(self).pos,
            final(self).func.state_model(final(self).state) == scan_state(
                old(self).func,
                old(self).func.state_model(old(self).state),
                old(self).iter@.subrange(old(self).pos as int, final(self).pos as int),
            ),
            match r {
                Some(b) => old(self).pending().len() > 0 && b == old(self).pending()[0]
                    && final(self).pending() == old(self).pending().skip(1)
                    && old(self).pos < final(self).pos && scan_outputs(
                    old(self).func,
                    old(self).func.state_model(old(self).state),
                    old(self).iter@.subrange(old(self).pos as int, final(self).pos - 1),
                ).len() == 0,
                None => old(self).pending().len() == 0 && final(self).pending().len() == 0
                    && final(self).pos == final(self).iter.len(),
            },
    {
        loop
            invariant
                self.wf(),
                old(self).wf(),
                self.func == old(self).func,
                self.iter == old(self).iter,
                old(self).pos <= self.pos,
                self.pending() == old(self).pending(),
                scan_outputs(
                    old(self).func,
                    old(self).func.state_model(old(self).state),
                    old(self).iter@.subrange(old(self).pos as int, self.pos as int),
                ).len() == 0,
                self.func.state_model(self.state) == scan_state(
                    old(self).func,
                    old(self).func.state_model(old(self).state),
                    old(self).iter@.subrange(old(self).pos as int, self.pos as int),
                ),
            decreases self.iter.len() - self.pos,
        {
            if self.pos >= self.iter.len() {
                proof {
                    assert(self.iter@.skip(self.pos as int) =~= Seq::<Op::Input>::empty());
                }
                return None;
            }
            let a = self.iter[self.pos];
            let ghost prev = *self;
            let r = self.func.step(&mut self.state, a);
            self.pos = self.pos + 1;
            proof {
                let m0 = old(self).func.state_model(old(self).state);
                let rem = prev.iter@.skip(prev.pos as int);
                assert(rem[0] == a);
                assert(rem.skip(1) =~= self.iter@.skip(self.pos as int));
                let consumed = old(self).iter@.subrange(old(self).pos as int, prev.pos as int);
                assert(old(self).iter@.subrange(old(self).pos as int, self.pos as int)
                    =~= consumed.push(a));
                lemma_scan_snoc(old(self).func, m0, consumed, a);
            }
            match r {
                Some(b) => {
                    proof {
                        assert(old(self).pending() == seq![b] + self.pending());
                        assert((seq![b] + self.pending()).skip(1) =~= self.pending());
                        assert(old(self).iter@.subrange(old(self).pos as int, self.pos - 1)
                            =~= old(self).iter@.subrange(old(self).pos as int, prev.pos as int));
                    }
                    return Some(b);
                },
                None => {},
            }
        }
    }

    /// Bounds on how many outputs remain: none may come (filtering can
    /// discard everything), and at most one per source item still to be
    /// scanned.
    pub fn size_hint(&self) -> (r: (usize, Option<usize>))
        requires
            self.wf(),
        ensures
            r.0 == 0,
            r.1 == Some((self.iter.len() - self.pos) as usize),
            self.pending().len() <= self.iter.len() - self.pos,
    {
        proof {
            lemma_scan_outputs_len(
                self.func,
                self.func.state_model(self.state),
                self.iter@.skip(self.pos as int),
            );
        }
        (0, Some(self.iter.len() - self.pos))
    }

    /// Run the iterator to exhaustion and return every output, in order.
    pub fn collect(self) -> (r: Vec<Op::Output>)
        requires
            self.wf(),
        ensures
            r@ == self.pending(),
    {
        let ghost orig = self;
        let mut it = self;
        let mut r: Vec<Op::Output> = Vec::new();
        loop
            invariant
                it.wf(),
                r@ + it.pending() == orig.pending(),
            ensures
                r@ + it.pending() == orig.pending(),
                it.pending().len() == 0,
            decreases it.iter.len() - it.pos,
        {
            match it.next() {
                Some(b) => r.push(b),
                None => { break },
            }
        }
        proof {
            assert(r@ =~= orig.pending());
        }
        r
    }
}

/// Build a filtering scan from a source, an initial state and a step.
pub trait FilteredScanIteratorExt<Op: ScanOp>: Sized {
    spec fn source_model(self) -> Seq<Op::Input>;

    fn filtered_scan(self, initial_state: Op::State, func: Op) -> (r: FilteredScanIter<Op>)
        ensures
            r.iter@ == self.source_model(),
            r.pos == 0,
            r.state == initial_state,
            r.func == func,
    ;
}

impl<Op: ScanOp> FilteredScanIteratorExt<Op> for Vec<Op::Input> {
    open spec fn source_model(self) -> Seq<Op::Input> {
        self@
    }

    fn filtered_scan(self, initial_state: Op::State, func: Op) -> (r: FilteredScanIter<Op>) {
        FilteredScanIter { iter: self, pos: 0, state: initial_state, func }
    }
}

} // verus!
