//! Basic blocks: a run of instructions with its label, its place in the control-flow graph and
//! the liveness sets that register allocation computes for it.
use crate::label::Label;
use bitset::BitSet;
use vstd::prelude::*;

verus! {

#[verifier::external_type_specification]
#[verifier::external_body]
pub struct ExBitSet(bitset::BitSet);

/// The bits that a `BitSet` holds, in order.
pub uninterp spec fn bitset_bits(b: BitSet) -> Seq<bool>;

/// A set of no bits (`BitSet::new`, which builds the empty default set).
#[verifier::external_body]
fn empty_bitset() -> (r: BitSet)
    ensures
        bitset_bits(r) == Seq::<bool>::empty(),
{
    BitSet::new()
}

/// What an instruction set offers to the code that handles its instructions generically.
pub trait InstructionTrait: Sized {
    type Val;

    /// Whether the instruction ends a basic block (a jump, branch or return).
    spec fn is_terminator_v(&self) -> bool;

    fn is_terminator(&self) -> (r: bool)
        ensures
            r == self.is_terminator_v(),
    ;

    /// A copy of the instruction.
    fn copy_instr(&self) -> (r: Self)
        ensures
            r == *self,
    ;

    /// The values the instruction defines, in order.
    spec fn defs_v(&self) -> Vec<Self::Val>;

    /// The values the instruction uses, in order.
    spec fn uses_v(&self) -> Vec<Self::Val>;

    /// The values the instruction defines.
    fn defs(&self) -> (r: Vec<Self::Val>)
        ensures
            r@ == self.defs_v()@,
    ;

    /// The values the instruction uses.
    fn uses(&self) -> (r: Vec<Self::Val>)
        ensures
            r@ == self.uses_v()@,
    ;

    /// The values the instruction defines, then those it uses.
    fn values(&self) -> (r: Vec<Self::Val>)
        ensures
            r@ == self.defs_v()@ + self.uses_v()@,
    {
        let mut v = self.defs();
        let mut u = self.uses();
        v.append(&mut u);
        v
    }
}

/// Whether a block's last instruction is a terminator.
pub open spec fn terminated<I: InstructionTrait>(b: BasicBlock<I>) -> bool {
    b.instructions@.len() > 0 && b.instructions@.last().is_terminator_v()
}

/// What to do with an instruction when rewriting a block.
pub enum RewriteAction<I: InstructionTrait> {
    /// Drop the instruction.
    Skip,
    /// Keep the instruction.
    Keep,
    /// Put these instructions in its place.
    Replace(Vec<I>),
    /// Keep it, with these instructions before it.
    InsertBefore(Vec<I>),
    /// Keep it, with these instructions after it.
    InsertAfter(Vec<I>),
}

/// The instructions that `action` makes of the instruction `i`.
pub open spec fn rewritten<I: InstructionTrait>(i: I, action: RewriteAction<I>) -> Seq<I> {
    match action {
        RewriteAction::Skip => Seq::empty(),
        RewriteAction::Keep => seq![i],
        RewriteAction::Replace(v) => v@,
        RewriteAction::InsertBefore(v) => v@.push(i),
        RewriteAction::InsertAfter(v) => seq![i] + v@,
    }
}

/// The instructions that rewriting `old` with `actions`, one action per instruction, makes.
pub open spec fn rewrite_all<I: InstructionTrait>(old: Seq<I>, actions: Seq<RewriteAction<I>>) -> Seq<I>
    decreases old.len(),
{
    if old.len() == 0 {
        Seq::empty()
    } else {
        rewrite_all(old.drop_last(), actions.drop_last()) + rewritten(old.last(), actions.last())
    }
}

/// A basic block.
pub struct BasicBlock<I: InstructionTrait> {
    pub label: Label<I>,
    pub successors: Vec<Label<I>>,
    pub predecessors: Vec<Label<I>>,
    pub fallthrough: Option<Label<I>>,
    pub instructions: Vec<I>,
    pub live_in: BitSet,
    pub live_out: BitSet,
    pub gen_: BitSet,
    pub kill: BitSet,
}

impl<I: InstructionTrait> BasicBlock<I> {
    /// An empty block labelled `label`, with no edges and empty liveness sets.
    pub fn new(label: Label<I>) -> (r: Self)
        ensures
            r.label == label,
            r.successors@.len() == 0,
            r.predecessors@.len() == 0,
            r.fallthrough is None,
            r.instructions@.len() == 0,
            bitset_bits(r.live_in) == Seq::<bool>::empty(),
            bitset_bits(r.live_out) == Seq::<bool>::empty(),
            bitset_bits(r.gen_) == Seq::<bool>::empty(),
            bitset_bits(r.kill) == Seq::<bool>::empty(),
    {
        BasicBlock {
            label,
            successors: Vec::new(),
            predecessors: Vec::new(),
            fallthrough: None,
            instructions: Vec::new(),
            live_in: empty_bitset(),
            live_out: empty_bitset(),
            gen_: empty_bitset(),
            kill: empty_bitset(),
        }
    }

    /// The last instruction, if it is a terminator.
    pub fn terminator(&self) -> (r: Option<&I>)
        ensures
            match r {
                Some(t) => self.instructions@.len() > 0 && *t == self.instructions@.last()
                    && t.is_terminator_v(),
                None => self.instructions@.len() == 0 || !self.instructions@.last().is_terminator_v(),
            },
    {
        let n = self.instructions.len();
        if n == 0 {
            return None;
        }
        let last = &self.instructions[n - 1];
        if last.is_terminator() {
            Some(last)
        } else {
            None
        }
    }

    /// Removes the last instruction if it is a terminator, and returns it.
    pub fn delete_terminator(&mut self) -> (r: Option<I>)
        ensures
            match r {
                Some(t) => old(self).instructions@.len() > 0 && t == old(self).instructions@.last()
                    && t.is_terminator_v() && final(self).instructions@ == old(self).instructions@.drop_last(),
                None => (old(self).instructions@.len() == 0 || !old(self).instructions@.last().is_terminator_v())
                    && final(self).instructions@ == old(self).instructions@,
            },
            final(self).label == old(self).label,
            final(self).successors == old(self).successors,
            final(self).predecessors == old(self).predecessors,
            final(self).fallthrough == old(self).fallthrough,
    {
        let n = self.instructions.len();
        if n == 0 {
            return None;
        }
        if self.instructions[n - 1].is_terminator() {
            self.instructions.pop()
        } else {
            None
        }
    }

    /// Rewrites the block: `rewriter` is called on each instruction in order, and what it
    /// returns says what takes the instruction's place.
    pub fn rewrite<F: Fn(&I) -> RewriteAction<I>>(&mut self, rewriter: F)
        requires
            forall|k: int| 0 <= k < old(self).instructions@.len() ==> call_requires(
                rewriter,
                (&old(self).instructions@[k],),
            ),
        ensures
            exists|actions: Seq<RewriteAction<I>>|
                {
                    &&& actions.len() == old(self).instructions@.len()
                    &&& forall|k: int| 0 <= k < actions.len() ==> call_ensures(
                        rewriter,
                        (&old(self).instructions@[k],),
                        #[trigger] actions[k],
                    )
                    &&& final(self).instructions@ == rewrite_all(old(self).instructions@, actions)
                },
            final(self).label == old(self).label,
            final(self).successors == old(self).successors,
            final(self).predecessors == old(self).predecessors,
            final(self).fallthrough == old(self).fallthrough,
            final(self).live_in == old(self).live_in,
            final(self).live_out == old(self).live_out,
            final(self).gen_ == old(self).gen_,
            final(self).kill == old(self).kill,
    {
        let ghost all = self.instructions@;
        let mut rest: Vec<I> = Vec::new();
        std::mem::swap(&mut rest, &mut self.instructions);
        let mut pending: Vec<I> = Vec::new();
        while rest.len() > 0
            invariant
                pending@ == all.subrange(rest@.len() as int, all.len() as int).reverse(),
                rest@ == all.subrange(0, rest@.len() as int),
                rest@.len() <= all.len(),
            decreases rest@.len(),
        {
            let x = rest.pop().unwrap();
            proof {
                assert(pending@.push(x) =~= all.subrange(rest@.len() as int, all.len() as int).reverse());
                assert(rest@ =~= all.subrange(0, rest@.len() as int));
            }
            pending.push(x);
        }
        let ghost mut actions: Seq<RewriteAction<I>> = Seq::empty();
        let mut out: Vec<I> = Vec::new();
        proof {
            assert(all.subrange(0, 0) =~= Seq::<I>::empty());
            assert(pending@ =~= all.reverse());
        }
        while pending.len() > 0
            invariant
                pending@.len() <= all.len(),
                pending@ == all.subrange(all.len() - pending@.len(), all.len() as int).reverse(),
                actions.len() == all.len() - pending@.len(),
                forall|k: int| 0 <= k < all.len() ==> call_requires(rewriter, (&all[k],)),
                forall|k: int| 0 <= k < actions.len() ==> call_ensures(rewriter, (&all[k],), #[trigger] actions[k]),
                out@ == rewrite_all(all.subrange(0, actions.len() as int), actions),
            decreases pending@.len(),
        {
            let ghost done = actions.len();
            let i = pending.pop().unwrap();
            proof {
                assert(i == all[done as int]);
                assert(pending@ =~= all.subrange(all.len() - pending@.len(), all.len() as int).reverse());
            }
            let action = rewriter(&i);
            let ghost iv = i;
            let ghost av = action;
            match action {
                RewriteAction::Skip => {},
                RewriteAction::Keep => {
                    out.push(i);
                },
                RewriteAction::Replace(mut items) => {
                    out.append(&mut items);
                },
                RewriteAction::InsertBefore(mut items) => {
                    out.append(&mut items);
                    out.push(i);
                },
                RewriteAction::InsertAfter(mut items) => {
                    out.push(i);
                    out.append(&mut items);
                },
            }
            proof {
                let actions2 = actions.push(av);
                let pre = all.subrange(0, done as int + 1);
                assert(pre.drop_last() =~= all.subrange(0, done as int));
                assert(actions2.drop_last() =~= actions);
                assert(out@ =~= rewrite_all(pre, actions2));
                actions = actions2;
            }
        }
        proof {
            assert(all.subrange(0, all.len() as int) =~= all);
        }
        self.instructions = out;
    }
}

} // verus!
