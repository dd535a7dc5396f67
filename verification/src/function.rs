//! Building the control-flow graph of a function: its blocks, the edges between them, and the
//! instructions emitted into them.
use crate::basicblock::{terminated, BasicBlock, InstructionTrait};
use crate::label::Label;
use std::marker::PhantomData;
use vstd::prelude::*;

verus! {

/// A function being built: its blocks, numbered from zero in the order they were created, the
/// block that instructions are emitted into (`cursor`), and its entry block.
pub struct FunctionBuilder<I: InstructionTrait, V, T> {
    name: String,
    cursor: Label<I>,
    args: Vec<(V, T)>,
    return_type: T,
    entrypoint: Label<I>,
    reg_count: usize,
    block_count: usize,
    blocks: Vec<BasicBlock<I>>,
}

/// `l` labels the block at its own number in `bs`.
pub open spec fn valid_label<I: InstructionTrait>(bs: Seq<BasicBlock<I>>, l: Label<I>) -> bool {
    l.1 < bs.len() && bs[l.1 as int].label == l
}

/// The labels are in increasing order of their numbers, so no number occurs twice.
pub open spec fn by_number<I>(s: Seq<Label<I>>) -> bool {
    forall|a: int, b: int| 0 <= a < b < s.len() ==> (#[trigger] s[a]).1 < (#[trigger] s[b]).1
}

/// Block `k` has an edge to block `m`: `m` is a successor or the fallthrough of `k`.
pub open spec fn edge<I: InstructionTrait>(bs: Seq<BasicBlock<I>>, k: int, m: int) -> bool {
    ||| exists|i: int| 0 <= i < bs[k].successors@.len() && #[trigger] bs[k].successors@[i].1 == m
    ||| bs[k].fallthrough matches Some(f) && f.1 == m
}

/// `p` is a path of edges from block `from`.
pub open spec fn is_path<I: InstructionTrait>(bs: Seq<BasicBlock<I>>, p: Seq<int>, from: int) -> bool {
    &&& p.len() > 0
    &&& p[0] == from
    &&& forall|i: int| 0 <= i < p.len() - 1 ==> #[trigger] edge(bs, p[i], p[i + 1])
}

/// Block `k` can be reached from block `from` along edges.
pub open spec fn reachable<I: InstructionTrait>(bs: Seq<BasicBlock<I>>, from: int, k: int) -> bool {
    exists|p: Seq<int>| #[trigger] is_path(bs, p, from) && p.last() == k
}

impl<I: InstructionTrait, V, T> FunctionBuilder<I, V, T> {
    pub closed spec fn blocks_v(&self) -> Seq<BasicBlock<I>> {
        self.blocks@
    }

    pub closed spec fn cursor_v(&self) -> Label<I> {
        self.cursor
    }

    pub closed spec fn entry_v(&self) -> Label<I> {
        self.entrypoint
    }

    pub closed spec fn name_v(&self) -> Seq<char> {
        self.name@
    }

    pub closed spec fn args_v(&self) -> Seq<(V, T)> {
        self.args@
    }

    pub closed spec fn return_type_v(&self) -> T {
        self.return_type
    }

    pub closed spec fn reg_count_v(&self) -> usize {
        self.reg_count
    }

    /// The blocks are numbered by their position, the cursor and the entry label blocks, every
    /// edge leads to a block, and no edge is recorded twice.
    pub closed spec fn wf(&self) -> bool {
        let bs = self.blocks@;
        &&& self.block_count == bs.len()
        &&& forall|k: int| 0 <= k < bs.len() ==> (#[trigger] bs[k]).label.1 == k
        &&& valid_label(bs, self.cursor)
        &&& valid_label(bs, self.entrypoint)
        &&& forall|k: int, i: int|
            0 <= k < bs.len() && 0 <= i < bs[k].successors@.len() ==> valid_label(bs, #[trigger] bs[k].successors@[i])
        &&& forall|k: int, i: int|
            0 <= k < bs.len() && 0 <= i < bs[k].predecessors@.len() ==> valid_label(bs, #[trigger] bs[k].predecessors@[i])
        &&& forall|k: int| 0 <= k < bs.len() ==> ((#[trigger] bs[k]).fallthrough matches Some(f) ==> valid_label(bs, f))
        &&& forall|k: int| 0 <= k < bs.len() ==> by_number((#[trigger] bs[k]).successors@)
        &&& forall|k: int| 0 <= k < bs.len() ==> by_number((#[trigger] bs[k]).predecessors@)
    }

    /// A function with one empty block, `entrypoint`, which is both its entry and the cursor.
    pub fn new(name: String, return_type: T) -> (r: Self)
        ensures
            r.wf(),
            r.name_v() == name@,
            r.return_type_v() == return_type,
            r.blocks_v().len() == 1,
            r.blocks_v()[0].label == r.entry_v(),
            r.entry_v().0@ == "entrypoint"@,
            r.entry_v().1 == 0,
            r.entry_v() == Label::<I>("entrypoint", 0, PhantomData),
            r.cursor_v() == r.entry_v(),
            r.blocks_v()[0].instructions@.len() == 0,
            r.blocks_v()[0].successors@.len() == 0,
            r.blocks_v()[0].predecessors@.len() == 0,
            r.blocks_v()[0].fallthrough is None,
            r.args_v().len() == 0,
            r.reg_count_v() == 0,
    {
        let cursor: Label<I> = Label::new("entrypoint", 0);
        let blocks = vec![BasicBlock::new(cursor)];
        FunctionBuilder {
            cursor,
            name,
            return_type,
            reg_count: 0,
            block_count: 1,
            blocks,
            entrypoint: cursor,
            args: Vec::new(),
        }
    }

    pub fn addArg(&mut self, arg_value: V, arg_type: T)
        requires
            old(self).wf(),
        ensures
            final(self).wf(),
            final(self).args_v() == old(self).args_v().push((arg_value, arg_type)),
            final(self).blocks_v() == old(self).blocks_v(),
            final(self).cursor_v() == old(self).cursor_v(),
            final(self).entry_v() == old(self).entry_v(),
            final(self).reg_count_v() == old(self).reg_count_v(),
    {
        self.args.push((arg_value, arg_type));
    }

    pub fn getRegCount(&self) -> (r: usize)
        ensures
            r == self.reg_count_v(),
    {
        self.reg_count
    }

    pub fn setRegCount(&mut self, new: usize)
        requires
            old(self).wf(),
        ensures
            final(self).wf(),
            final(self).reg_count_v() == new,
            final(self).blocks_v() == old(self).blocks_v(),
            final(self).cursor_v() == old(self).cursor_v(),
            final(self).entry_v() == old(self).entry_v(),
            final(self).args_v() == old(self).args_v(),
    {
        self.reg_count = new;
    }

    /// Makes `block` the block that instructions are emitted into.
    pub fn setInsertPoint(&mut self, block: Label<I>)
        requires
            old(self).wf(),
            valid_label(old(self).blocks_v(), block),
        ensures
            final(self).wf(),
            final(self).cursor_v() == block,
            final(self).blocks_v() == old(self).blocks_v(),
            final(self).entry_v() == old(self).entry_v(),
            final(self).args_v() == old(self).args_v(),
            final(self).reg_count_v() == old(self).reg_count_v(),
    {
        self.cursor = block;
    }

    pub fn getInsertPoint(&mut self) -> (r: Label<I>)
        requires
            old(self).wf(),
        ensures
            r == old(self).cursor_v(),
            valid_label(old(self).blocks_v(), r),
            *final(self) == *old(self),
    {
        self.cursor
    }

    pub fn getReturnType(&self) -> (r: &T)
        ensures
            *r == self.return_type_v(),
    {
        &self.return_type
    }

    /// Adds a new, empty, unnamed block and returns its label.
    pub fn newBlock(&mut self) -> (r: Label<I>)
        requires
            old(self).wf(),
            old(self).blocks_v().len() < usize::MAX,
        ensures
            final(self).wf(),
            r.0@ == ""@,
            r.1 == old(self).blocks_v().len(),
            final(self).blocks_v().len() == old(self).blocks_v().len() + 1,
            final(self).blocks_v().drop_last() == old(self).blocks_v(),
            final(self).blocks_v().last().label == r,
            final(self).blocks_v().last().instructions@.len() == 0,
            final(self).blocks_v().last().successors@.len() == 0,
            final(self).blocks_v().last().predecessors@.len() == 0,
            final(self).blocks_v().last().fallthrough is None,
            final(self).cursor_v() == old(self).cursor_v(),
            final(self).entry_v() == old(self).entry_v(),
    {
        self.newNamedBlock("")
    }

    /// Adds a new, empty block named `block_name` and returns its label.
    pub fn newNamedBlock(&mut self, block_name: &'static str) -> (r: Label<I>)
        requires
            old(self).wf(),
            old(self).blocks_v().len() < usize::MAX,
        ensures
            final(self).args_v() == old(self).args_v(),
            r == Label::<I>(block_name, old(self).blocks_v().len() as usize, PhantomData),
            final(self).reg_count_v() == old(self).reg_count_v(),
            final(self).wf(),
            r.0 == block_name,
            r.1 == old(self).blocks_v().len(),
            final(self).blocks_v().len() == old(self).blocks_v().len() + 1,
            final(self).blocks_v().drop_last() == old(self).blocks_v(),
            final(self).blocks_v().last().label == r,
            final(self).blocks_v().last().instructions@.len() == 0,
            final(self).blocks_v().last().successors@.len() == 0,
            final(self).blocks_v().last().predecessors@.len() == 0,
            final(self).blocks_v().last().fallthrough is None,
            final(self).cursor_v() == old(self).cursor_v(),
            final(self).entry_v() == old(self).entry_v(),
    {
        let id: Label<I> = Label::new(block_name, self.block_count);
        self.block_count += 1;
        self.blocks.push(BasicBlock::new(id));
        proof {
            let bs = self.blocks@;
            let ob = old(self).blocks@;
            assert(bs.drop_last() =~= ob);
            assert forall|k: int, i: int|
                0 <= k < bs.len() && 0 <= i < bs[k].successors@.len() implies valid_label(bs, #[trigger] bs[k].successors@[i]) by {
                assert(k < ob.len());
                assert(valid_label(ob, ob[k].successors@[i]));
            }
            assert forall|k: int, i: int|
                0 <= k < bs.len() && 0 <= i < bs[k].predecessors@.len() implies valid_label(bs, #[trigger] bs[k].predecessors@[i]) by {
                assert(k < ob.len());
                assert(valid_label(ob, ob[k].predecessors@[i]));
            }
            assert forall|k: int| 0 <= k < bs.len() implies ((#[trigger] bs[k]).fallthrough matches Some(f) ==> valid_label(bs, f)) by {
                if k < ob.len() {
                    assert(ob[k] == bs[k]);
                }
            }
            assert forall|k: int| 0 <= k < bs.len() implies by_number((#[trigger] bs[k]).successors@) by {
                if k < ob.len() {
                    assert(ob[k] == bs[k]);
                }
            }
            assert forall|k: int| 0 <= k < bs.len() implies by_number((#[trigger] bs[k]).predecessors@) by {
                if k < ob.len() {
                    assert(ob[k] == bs[k]);
                }
            }
        }
        id
    }

    /// In a well-formed builder the insert point and the entry name blocks.
    pub proof fn lemma_wf_labels(&self)
        requires
            self.wf(),
        ensures
            valid_label(self.blocks_v(), self.cursor_v()),
            valid_label(self.blocks_v(), self.entry_v()),
    {
    }

    /// The function's name.
    pub fn getName(&self) -> (r: &String)
        ensures
            r@ == self.name_v(),
    {
        &self.name
    }

    /// The function's arguments, each a value and its type, in order.
    pub fn getArgs(&self) -> (r: &Vec<(V, T)>)
        ensures
            r@ == self.args_v(),
    {
        &self.args
    }

    /// The block labelled `l`.
    pub fn block(&self, l: Label<I>) -> (r: &BasicBlock<I>)
        requires
            self.wf(),
            valid_label(self.blocks_v(), l),
        ensures
            *r == self.blocks_v()[l.1 as int],
            by_number(r.successors@),
            by_number(r.predecessors@),
    {
        &self.blocks[l.1]
    }

    /// The label of the entry block.
    pub fn getEntryPoint(&self) -> (r: Label<I>)
        requires
            self.wf(),
        ensures
            r == self.entry_v(),
            valid_label(self.blocks_v(), r),
    {
        self.entrypoint
    }

    /// Makes `new_entrypoint` the entry block and returns the previous one.
    pub fn setEntryPoint(&mut self, new_entrypoint: Label<I>) -> (r: Label<I>)
        requires
            old(self).wf(),
            valid_label(old(self).blocks_v(), new_entrypoint),
        ensures
            final(self).wf(),
            r == old(self).entry_v(),
            final(self).entry_v() == new_entrypoint,
            final(self).blocks_v() == old(self).blocks_v(),
            final(self).cursor_v() == old(self).cursor_v(),
    {
        let ret = self.entrypoint;
        self.entrypoint = new_entrypoint;
        ret
    }

    /// Whether the block that instructions go to is terminated.
    pub fn isCurrentTerminated(&self) -> (r: bool)
        requires
            self.wf(),
        ensures
            r == terminated(self.blocks_v()[self.cursor_v().1 as int]),
    {
        self.isTerminated(self.cursor)
    }

    /// Whether block `this` ends with a terminator.
    pub fn isTerminated(&self, this: Label<I>) -> (r: bool)
        requires
            self.wf(),
            valid_label(self.blocks_v(), this),
        ensures
            r == terminated(self.blocks_v()[this.1 as int]),
    {
        self.blocks[this.1].terminator().is_some()
    }

    /// Adds `instr` at the end of the cursor's block, unless that block is terminated already.
    pub fn emit(&mut self, instr: I)
        requires
            old(self).wf(),
        ensures
            final(self).args_v() == old(self).args_v(),
            final(self).reg_count_v() == old(self).reg_count_v(),
            final(self).wf(),
            valid_label(old(self).blocks_v(), old(self).cursor_v()),
            final(self).blocks_v() == if terminated(old(self).blocks_v()[old(self).cursor_v().1 as int]) {
                old(self).blocks_v()
            } else {
                old(self).blocks_v().update(
                    old(self).cursor_v().1 as int,
                    BasicBlock {
                        instructions: final(self).blocks_v()[old(self).cursor_v().1 as int].instructions,
                        ..old(self).blocks_v()[old(self).cursor_v().1 as int]
                    },
                )
            },
            !terminated(old(self).blocks_v()[old(self).cursor_v().1 as int]) ==> final(self).blocks_v()[old(
                self,
            ).cursor_v().1 as int].instructions@ == old(self).blocks_v()[old(self).cursor_v().1 as int].instructions@.push(instr),
            final(self).cursor_v() == old(self).cursor_v(),
            final(self).entry_v() == old(self).entry_v(),
    {
        let c = self.cursor.1;
        if self.blocks[c].terminator().is_some() {
            return;
        }
        let mut block = self.blocks.remove(c);
        block.instructions.push(instr);
        self.blocks.insert(c, block);
        proof {
            self.lemma_same_shape(*old(self), c as int);
        }
    }

    /// With block `c` replaced by a block of the same label and edges, the builder stays
    /// well-formed.
    proof fn lemma_same_shape(&self, before: Self, c: int)
        requires
            before.wf(),
            0 <= c < before.blocks@.len(),
            self.blocks@.len() == before.blocks@.len(),
            forall|k: int| 0 <= k < self.blocks@.len() && k != c ==> self.blocks@[k] == before.blocks@[k],
            self.blocks@[c].label == before.blocks@[c].label,
            forall|i: int| 0 <= i < self.blocks@[c].successors@.len() ==> valid_label(before.blocks@, #[trigger] self.blocks@[c].successors@[i]),
            forall|i: int| 0 <= i < self.blocks@[c].predecessors@.len() ==> valid_label(before.blocks@, #[trigger] self.blocks@[c].predecessors@[i]),
            self.blocks@[c].fallthrough matches Some(f) ==> valid_label(before.blocks@, f),
            by_number(self.blocks@[c].successors@),
            by_number(self.blocks@[c].predecessors@),
            self.cursor == before.cursor,
            self.entrypoint == before.entrypoint,
            self.block_count == before.block_count,
        ensures
            self.wf(),
    {
        let bs = self.blocks@;
        let ob = before.blocks@;
        assert forall|l: Label<I>| valid_label(ob, l) implies valid_label(bs, l) by {
            if l.1 != c {
                assert(bs[l.1 as int] == ob[l.1 as int]);
            }
        }
        assert forall|k: int| 0 <= k < bs.len() implies (#[trigger] bs[k]).label.1 == k by {
            assert(ob[k].label.1 == k);
        }
        assert forall|k: int, i: int|
            0 <= k < bs.len() && 0 <= i < bs[k].successors@.len() implies valid_label(bs, #[trigger] bs[k].successors@[i]) by {
            if k != c {
                assert(valid_label(ob, ob[k].successors@[i]));
            }
        }
        assert forall|k: int, i: int|
            0 <= k < bs.len() && 0 <= i < bs[k].predecessors@.len() implies valid_label(bs, #[trigger] bs[k].predecessors@[i]) by {
            if k != c {
                assert(valid_label(ob, ob[k].predecessors@[i]));
            }
        }
        assert forall|k: int| 0 <= k < bs.len() implies ((#[trigger] bs[k]).fallthrough matches Some(f) ==> valid_label(bs, f)) by {
            if k != c {
                assert(ob[k].fallthrough == bs[k].fallthrough);
            }
        }
        assert forall|k: int| 0 <= k < bs.len() implies by_number((#[trigger] bs[k]).successors@) by {
            if k != c {
                assert(by_number(ob[k].successors@));
            }
        }
        assert forall|k: int| 0 <= k < bs.len() implies by_number((#[trigger] bs[k]).predecessors@) by {
            if k != c {
                assert(by_number(ob[k].predecessors@));
            }
        }
    }
}

/// The successors of a block, as a set.
pub open spec fn succ_set<I: InstructionTrait>(b: BasicBlock<I>) -> Set<Label<I>> {
    b.successors@.to_set()
}

/// The predecessors of a block, as a set.
pub open spec fn pred_set<I: InstructionTrait>(b: BasicBlock<I>) -> Set<Label<I>> {
    b.predecessors@.to_set()
}

/// `nb` has the blocks of `ob`, with the same labels and instructions.
pub open spec fn same_blocks<I: InstructionTrait>(ob: Seq<BasicBlock<I>>, nb: Seq<BasicBlock<I>>) -> bool {
    &&& nb.len() == ob.len()
    &&& forall|k: int| 0 <= k < ob.len() ==> (#[trigger] nb[k]).label == ob[k].label && nb[k].instructions == ob[k].instructions
}

/// Adds `l` to a list of labels ordered by number, in its place, unless a label of its number
/// is there already.
fn insert_label<I>(v: &mut Vec<Label<I>>, l: Label<I>)
    requires
        forall|i: int| 0 <= i < old(v)@.len() && (#[trigger] old(v)@[i]).1 == l.1 ==> old(v)@[i] == l,
        by_number(old(v)@),
    ensures
        final(v)@.to_set() == old(v)@.to_set().insert(l),
        by_number(final(v)@),
{
    let mut i: usize = 0;
    while i < v.len() && v[i].1 < l.1
        invariant
            v@ == old(v)@,
            i <= v@.len(),
            forall|j: int| 0 <= j < i ==> (#[trigger] v@[j]).1 < l.1,
        decreases v@.len() - i,
    {
        i += 1;
    }
    if i < v.len() && v[i].1 == l.1 {
        proof {
            assert(v@[i as int] == l);
            assert(v@.to_set().insert(l) =~= v@.to_set());
        }
        return;
    }
    let ghost ov = v@;
    proof {
        assert forall|j: int| i <= j < ov.len() implies (#[trigger] ov[j]).1 > l.1 by {
            if j > i {
                assert(ov[i as int].1 < ov[j].1);
            }
        }
    }
    v.insert(i, l);
    proof {
        let nv = v@;
        assert(nv =~= ov.insert(i as int, l));
        assert forall|a: int, b: int| 0 <= a < b < nv.len() implies (#[trigger] nv[a]).1 < (#[trigger] nv[b]).1 by {
            if b < i {
                assert(ov[a].1 < ov[b].1);
            } else if b == i {
                assert(ov[a].1 < l.1);
            } else if a < i {
                assert(ov[a].1 < l.1);
                assert(ov[b - 1].1 > l.1);
            } else if a == i {
                assert(ov[b - 1].1 > l.1);
            } else {
                assert(ov[a - 1].1 < ov[b - 1].1);
            }
        }
        assert forall|x: Label<I>| nv.contains(x) <==> ov.contains(x) || x == l by {
            if nv.contains(x) {
                let k = choose|k: int| 0 <= k < nv.len() && nv[k] == x;
                if k < i {
                    assert(ov[k] == x);
                } else if k > i {
                    assert(ov[k - 1] == x);
                }
            }
            if ov.contains(x) {
                let k = choose|k: int| 0 <= k < ov.len() && ov[k] == x;
                if k < i {
                    assert(nv[k] == x);
                } else {
                    assert(nv[k + 1] == x);
                }
            }
            if x == l {
                assert(nv[i as int] == x);
            }
        }
        assert(nv.to_set() =~= ov.to_set().insert(l));
    }
}

impl<I: InstructionTrait, V, T> FunctionBuilder<I, V, T> {
    /// Removes the fallthrough edge of block `this` and returns its target.
    pub fn removeFallthroughFrom(&mut self, this: Label<I>) -> (r: Option<Label<I>>)
        requires
            old(self).wf(),
            valid_label(old(self).blocks_v(), this),
        ensures
            final(self).wf(),
            r == old(self).blocks_v()[this.1 as int].fallthrough,
            same_blocks(old(self).blocks_v(), final(self).blocks_v()),
            forall|k: int| 0 <= k < old(self).blocks_v().len() ==> (#[trigger] final(self).blocks_v()[k]).fallthrough == if k == this.1 {
                None
            } else {
                old(self).blocks_v()[k].fallthrough
            },
            forall|k: int| 0 <= k < old(self).blocks_v().len() ==> (#[trigger] final(self).blocks_v()[k]).successors == old(self).blocks_v()[k].successors
                && final(self).blocks_v()[k].predecessors == old(self).blocks_v()[k].predecessors,
            final(self).cursor_v() == old(self).cursor_v(),
            final(self).entry_v() == old(self).entry_v(),
    {
        let t = this.1;
        let mut block = self.blocks.remove(t);
        let r = block.fallthrough;
        block.fallthrough = None;
        self.blocks.insert(t, block);
        proof {
            self.lemma_same_shape(*old(self), t as int);
        }
        r
    }

    /// Removes the fallthrough edge of the cursor's block and returns its target.
    pub fn removeFallthrough(&mut self) -> (r: Option<Label<I>>)
        requires
            old(self).wf(),
        ensures
            final(self).wf(),
            r == old(self).blocks_v()[old(self).cursor_v().1 as int].fallthrough,
            same_blocks(old(self).blocks_v(), final(self).blocks_v()),
            forall|k: int| 0 <= k < old(self).blocks_v().len() ==> (#[trigger] final(self).blocks_v()[k]).fallthrough == if k == old(self).cursor_v().1 {
                None
            } else {
                old(self).blocks_v()[k].fallthrough
            },
            forall|k: int| 0 <= k < old(self).blocks_v().len() ==> (#[trigger] final(self).blocks_v()[k]).successors == old(self).blocks_v()[k].successors
                && final(self).blocks_v()[k].predecessors == old(self).blocks_v()[k].predecessors,
            final(self).cursor_v() == old(self).cursor_v(),
            final(self).entry_v() == old(self).entry_v(),
    {
        let c = self.cursor;
        self.removeFallthroughFrom(c)
    }

    /// Adds `succ` to the successors of block `this`, and `this` to the predecessors of `succ`.
    fn add_edge(&mut self, this: Label<I>, succ: Label<I>)
        requires
            old(self).wf(),
            valid_label(old(self).blocks_v(), this),
            valid_label(old(self).blocks_v(), succ),
        ensures
            final(self).args_v() == old(self).args_v(),
            final(self).reg_count_v() == old(self).reg_count_v(),
            final(self).wf(),
            same_blocks(old(self).blocks_v(), final(self).blocks_v()),
            forall|k: int| 0 <= k < old(self).blocks_v().len() ==> (#[trigger] final(self).blocks_v()[k]).fallthrough == old(self).blocks_v()[k].fallthrough,
            forall|k: int| 0 <= k < old(self).blocks_v().len() ==> succ_set(#[trigger] final(self).blocks_v()[k]) == if k == this.1 {
                succ_set(old(self).blocks_v()[k]).insert(succ)
            } else {
                succ_set(old(self).blocks_v()[k])
            },
            forall|k: int| 0 <= k < old(self).blocks_v().len() ==> pred_set(#[trigger] final(self).blocks_v()[k]) == if k == succ.1 {
                pred_set(old(self).blocks_v()[k]).insert(this)
            } else {
                pred_set(old(self).blocks_v()[k])
            },
            final(self).cursor_v() == old(self).cursor_v(),
            final(self).entry_v() == old(self).entry_v(),
    {
        let ghost ob = self.blocks@;
        let t = this.1;
        let mut block = self.blocks.remove(t);
        proof {
            assert forall|i: int| 0 <= i < block.successors@.len() && (#[trigger] block.successors@[i]).1 == succ.1 implies block.successors@[i] == succ by {
                assert(valid_label(ob, ob[t as int].successors@[i]));
            }
        }
        insert_label(&mut block.successors, succ);
        proof {
            let os = ob[t as int].successors@;
            assert forall|i: int| 0 <= i < block.successors@.len() implies valid_label(ob, #[trigger] block.successors@[i]) by {
                let x = block.successors@[i];
                assert(block.successors@.to_set().contains(x));
                if x != succ {
                    assert(os.to_set().contains(x));
                    let k = choose|k: int| 0 <= k < os.len() && os[k] == x;
                    assert(valid_label(ob, os[k]));
                }
            }
            assert forall|i: int| 0 <= i < block.predecessors@.len() implies valid_label(ob, #[trigger] block.predecessors@[i]) by {
                assert(valid_label(ob, ob[t as int].predecessors@[i]));
            }
        }
        self.blocks.insert(t, block);
        proof {
            self.lemma_same_shape(*old(self), t as int);
        }
        let ghost mid = *self;
        let ghost mb = self.blocks@;
        let s = succ.1;
        let mut other = self.blocks.remove(s);
        proof {
            assert forall|i: int| 0 <= i < other.predecessors@.len() && (#[trigger] other.predecessors@[i]).1 == this.1 implies other.predecessors@[i] == this by {
                assert(valid_label(mb, mb[s as int].predecessors@[i]));
            }
        }
        insert_label(&mut other.predecessors, this);
        proof {
            let op = mb[s as int].predecessors@;
            assert forall|i: int| 0 <= i < other.predecessors@.len() implies valid_label(mb, #[trigger] other.predecessors@[i]) by {
                let x = other.predecessors@[i];
                assert(other.predecessors@.to_set().contains(x));
                if x != this {
                    assert(op.to_set().contains(x));
                    let k = choose|k: int| 0 <= k < op.len() && op[k] == x;
                    assert(valid_label(mb, op[k]));
                }
            }
            assert forall|i: int| 0 <= i < other.successors@.len() implies valid_label(mb, #[trigger] other.successors@[i]) by {
                assert(valid_label(mb, mb[s as int].successors@[i]));
            }
        }
        self.blocks.insert(s, other);
        proof {
            self.lemma_same_shape(mid, s as int);
        }
    }

    /// Makes `fallthrough` the block that block `this` falls through to, recording the edge.
    pub fn addFallthroughTo(&mut self, this: Label<I>, fallthrough: Label<I>)
        requires
            old(self).wf(),
            valid_label(old(self).blocks_v(), this),
            valid_label(old(self).blocks_v(), fallthrough),
        ensures
            final(self).wf(),
            same_blocks(old(self).blocks_v(), final(self).blocks_v()),
            forall|k: int| 0 <= k < old(self).blocks_v().len() ==> (#[trigger] final(self).blocks_v()[k]).fallthrough == if k == this.1 {
                Some(fallthrough)
            } else {
                old(self).blocks_v()[k].fallthrough
            },
            forall|k: int| 0 <= k < old(self).blocks_v().len() ==> succ_set(#[trigger] final(self).blocks_v()[k]) == if k == this.1 {
                succ_set(old(self).blocks_v()[k]).insert(fallthrough)
            } else {
                succ_set(old(self).blocks_v()[k])
            },
            forall|k: int| 0 <= k < old(self).blocks_v().len() ==> pred_set(#[trigger] final(self).blocks_v()[k]) == if k == fallthrough.1 {
                pred_set(old(self).blocks_v()[k]).insert(this)
            } else {
                pred_set(old(self).blocks_v()[k])
            },
            final(self).cursor_v() == old(self).cursor_v(),
            final(self).entry_v() == old(self).entry_v(),
    {
        let t = this.1;
        let mut block = self.blocks.remove(t);
        block.fallthrough = Some(fallthrough);
        self.blocks.insert(t, block);
        proof {
            let ob = old(self).blocks@;
            assert forall|i: int| 0 <= i < self.blocks@[t as int].successors@.len() implies valid_label(ob, #[trigger] self.blocks@[t as int].successors@[i]) by {
                assert(valid_label(ob, ob[t as int].successors@[i]));
            }
            assert forall|i: int| 0 <= i < self.blocks@[t as int].predecessors@.len() implies valid_label(ob, #[trigger] self.blocks@[t as int].predecessors@[i]) by {
                assert(valid_label(ob, ob[t as int].predecessors@[i]));
            }
            self.lemma_same_shape(*old(self), t as int);
        }
        self.add_edge(this, fallthrough);
    }

    /// Makes `fallthrough` the block that the cursor's block falls through to.
    pub fn addFallthrough(&mut self, fallthrough: Label<I>)
        requires
            old(self).wf(),
            valid_label(old(self).blocks_v(), fallthrough),
        ensures
            final(self).wf(),
            same_blocks(old(self).blocks_v(), final(self).blocks_v()),
            forall|k: int| 0 <= k < old(self).blocks_v().len() ==> (#[trigger] final(self).blocks_v()[k]).fallthrough == if k == old(self).cursor_v().1 {
                Some(fallthrough)
            } else {
                old(self).blocks_v()[k].fallthrough
            },
            forall|k: int| 0 <= k < old(self).blocks_v().len() ==> succ_set(#[trigger] final(self).blocks_v()[k]) == if k == old(self).cursor_v().1 {
                succ_set(old(self).blocks_v()[k]).insert(fallthrough)
            } else {
                succ_set(old(self).blocks_v()[k])
            },
            forall|k: int| 0 <= k < old(self).blocks_v().len() ==> pred_set(#[trigger] final(self).blocks_v()[k]) == if k == fallthrough.1 {
                pred_set(old(self).blocks_v()[k]).insert(old(self).cursor_v())
            } else {
                pred_set(old(self).blocks_v()[k])
            },
            final(self).cursor_v() == old(self).cursor_v(),
            final(self).entry_v() == old(self).entry_v(),
    {
        let c = self.cursor;
        self.addFallthroughTo(c, fallthrough);
    }

    /// Adds each of `successors` to the successors of block `this`, and `this` to the
    /// predecessors of each.
    pub fn addSuccessorsTo(&mut self, this: Label<I>, successors: &[Label<I>])
        requires
            old(self).wf(),
            valid_label(old(self).blocks_v(), this),
            forall|i: int| 0 <= i < successors@.len() ==> valid_label(old(self).blocks_v(), #[trigger] successors@[i]),
        ensures
            final(self).args_v() == old(self).args_v(),
            final(self).reg_count_v() == old(self).reg_count_v(),
            final(self).wf(),
            same_blocks(old(self).blocks_v(), final(self).blocks_v()),
            forall|k: int| 0 <= k < old(self).blocks_v().len() ==> (#[trigger] final(self).blocks_v()[k]).fallthrough == old(self).blocks_v()[k].fallthrough,
            forall|k: int| 0 <= k < old(self).blocks_v().len() ==> succ_set(#[trigger] final(self).blocks_v()[k]) == if k == this.1 {
                succ_set(old(self).blocks_v()[k]).union(successors@.to_set())
            } else {
                succ_set(old(self).blocks_v()[k])
            },
            forall|k: int| 0 <= k < old(self).blocks_v().len() ==> pred_set(#[trigger] final(self).blocks_v()[k]) == if exists|i: int| 0 <= i < successors@.len() && (#[trigger] successors@[i]).1 == k {
                pred_set(old(self).blocks_v()[k]).insert(this)
            } else {
                pred_set(old(self).blocks_v()[k])
            },
            final(self).cursor_v() == old(self).cursor_v(),
            final(self).entry_v() == old(self).entry_v(),
    {
        let ghost ob = self.blocks@;
        let mut j: usize = 0;
        proof {
            assert forall|k: int| 0 <= k < ob.len() implies succ_set(#[trigger] self.blocks@[k]) == if k == this.1 {
                succ_set(ob[k]).union(successors@.subrange(0, 0).to_set())
            } else {
                succ_set(ob[k])
            } by {
                assert(successors@.subrange(0, 0).to_set() =~= Set::<Label<I>>::empty());
                assert(succ_set(ob[k]).union(Set::<Label<I>>::empty()) =~= succ_set(ob[k]));
            }
        }
        while j < successors.len()
            invariant
                self.wf(),
                j <= successors@.len(),
                ob == old(self).blocks@,
                valid_label(ob, this),
                forall|i: int| 0 <= i < successors@.len() ==> valid_label(ob, #[trigger] successors@[i]),
                same_blocks(ob, self.blocks@),
                forall|k: int| 0 <= k < ob.len() ==> (#[trigger] self.blocks@[k]).fallthrough == ob[k].fallthrough,
                forall|k: int| 0 <= k < ob.len() ==> succ_set(#[trigger] self.blocks@[k]) == if k == this.1 {
                    succ_set(ob[k]).union(successors@.subrange(0, j as int).to_set())
                } else {
                    succ_set(ob[k])
                },
                forall|k: int| 0 <= k < ob.len() ==> pred_set(#[trigger] self.blocks@[k]) == if exists|i: int| 0 <= i < j && (#[trigger] successors@[i]).1 == k {
                    pred_set(ob[k]).insert(this)
                } else {
                    pred_set(ob[k])
                },
                self.cursor == old(self).cursor,
                self.reg_count == old(self).reg_count,
                self.args@ == old(self).args@,
                self.entrypoint == old(self).entrypoint,
            decreases successors@.len() - j,
        {
            let ghost before = self.blocks@;
            let s = successors[j];
            proof {
                assert(valid_label(ob, successors@[j as int]));
                assert(valid_label(before, this));
                assert(valid_label(before, s));
            }
            self.add_edge(this, s);
            proof {
                let nb = self.blocks@;
                let pre = successors@.subrange(0, j as int);
                let post = successors@.subrange(0, j as int + 1);
                assert(post =~= pre.push(s));
                pre.lemma_push_to_set_commute(s);
                assert forall|k: int| 0 <= k < ob.len() implies succ_set(#[trigger] nb[k]) == if k == this.1 {
                    succ_set(ob[k]).union(post.to_set())
                } else {
                    succ_set(ob[k])
                } by {
                    assert(succ_set(before[k]) == if k == this.1 {
                        succ_set(ob[k]).union(pre.to_set())
                    } else {
                        succ_set(ob[k])
                    });
                    if k == this.1 {
                        assert(succ_set(ob[k]).union(pre.to_set()).insert(s) =~= succ_set(ob[k]).union(post.to_set()));
                    }
                }
                assert forall|k: int| 0 <= k < ob.len() implies pred_set(#[trigger] nb[k]) == if exists|i: int| 0 <= i < j + 1 && (#[trigger] successors@[i]).1 == k {
                    pred_set(ob[k]).insert(this)
                } else {
                    pred_set(ob[k])
                } by {
                    let was = exists|i: int| 0 <= i < j && (#[trigger] successors@[i]).1 == k;
                    assert(pred_set(before[k]) == if was {
                        pred_set(ob[k]).insert(this)
                    } else {
                        pred_set(ob[k])
                    });
                    if k == s.1 {
                        assert(successors@[j as int].1 == k);
                        if was {
                            assert(pred_set(ob[k]).insert(this).insert(this) =~= pred_set(ob[k]).insert(this));
                        }
                    } else {
                        if exists|i: int| 0 <= i < j + 1 && (#[trigger] successors@[i]).1 == k {
                            let i = choose|i: int| 0 <= i < j + 1 && (#[trigger] successors@[i]).1 == k;
                            assert(i != j);
                        }
                    }
                }
            }
            j += 1;
        }
        proof {
            assert(successors@.subrange(0, successors@.len() as int) =~= successors@);
        }
    }

    /// Adds each of `successors` to the successors of the cursor's block.
    pub fn addSuccessors(&mut self, successors: &[Label<I>])
        requires
            old(self).wf(),
            forall|i: int| 0 <= i < successors@.len() ==> valid_label(old(self).blocks_v(), #[trigger] successors@[i]),
        ensures
            final(self).args_v() == old(self).args_v(),
            final(self).reg_count_v() == old(self).reg_count_v(),
            final(self).wf(),
            same_blocks(old(self).blocks_v(), final(self).blocks_v()),
            forall|k: int| 0 <= k < old(self).blocks_v().len() ==> (#[trigger] final(self).blocks_v()[k]).fallthrough == old(self).blocks_v()[k].fallthrough,
            forall|k: int| 0 <= k < old(self).blocks_v().len() ==> succ_set(#[trigger] final(self).blocks_v()[k]) == if k == old(self).cursor_v().1 {
                succ_set(old(self).blocks_v()[k]).union(successors@.to_set())
            } else {
                succ_set(old(self).blocks_v()[k])
            },
            forall|k: int| 0 <= k < old(self).blocks_v().len() ==> pred_set(#[trigger] final(self).blocks_v()[k]) == if exists|i: int| 0 <= i < successors@.len() && (#[trigger] successors@[i]).1 == k {
                pred_set(old(self).blocks_v()[k]).insert(old(self).cursor_v())
            } else {
                pred_set(old(self).blocks_v()[k])
            },
            final(self).cursor_v() == old(self).cursor_v(),
            final(self).entry_v() == old(self).entry_v(),
    {
        let c = self.cursor;
        self.addSuccessorsTo(c, successors);
    }

    /// Adds each of `predecessors`, which carry the name of block `this`, to the predecessors
    /// of `this`, and `this` to the successors of each.
    pub fn addPredecessorsTo(&mut self, this: Label<I>, predecessors: &[Label<I>])
        requires
            old(self).wf(),
            valid_label(old(self).blocks_v(), this),
            forall|i: int| 0 <= i < predecessors@.len() ==> valid_label(old(self).blocks_v(), #[trigger] predecessors@[i]),
            forall|i: int| 0 <= i < predecessors@.len() ==> (#[trigger] predecessors@[i]).0@ == this.0@,
        ensures
            final(self).wf(),
            same_blocks(old(self).blocks_v(), final(self).blocks_v()),
            forall|k: int| 0 <= k < old(self).blocks_v().len() ==> (#[trigger] final(self).blocks_v()[k]).fallthrough == old(self).blocks_v()[k].fallthrough,
            forall|k: int| 0 <= k < old(self).blocks_v().len() ==> pred_set(#[trigger] final(self).blocks_v()[k]) == if k == this.1 {
                pred_set(old(self).blocks_v()[k]).union(predecessors@.to_set())
            } else {
                pred_set(old(self).blocks_v()[k])
            },
            forall|k: int| 0 <= k < old(self).blocks_v().len() ==> succ_set(#[trigger] final(self).blocks_v()[k]) == if exists|i: int| 0 <= i < predecessors@.len() && (#[trigger] predecessors@[i]).1 == k {
                succ_set(old(self).blocks_v()[k]).insert(this)
            } else {
                succ_set(old(self).blocks_v()[k])
            },
            final(self).cursor_v() == old(self).cursor_v(),
            final(self).entry_v() == old(self).entry_v(),
    {
        let ghost ob = self.blocks@;
        let mut j: usize = 0;
        proof {
            assert forall|k: int| 0 <= k < ob.len() implies pred_set(#[trigger] self.blocks@[k]) == if k == this.1 {
                pred_set(ob[k]).union(predecessors@.subrange(0, 0).to_set())
            } else {
                pred_set(ob[k])
            } by {
                assert(predecessors@.subrange(0, 0).to_set() =~= Set::<Label<I>>::empty());
                assert(pred_set(ob[k]).union(Set::<Label<I>>::empty()) =~= pred_set(ob[k]));
            }
        }
        while j < predecessors.len()
            invariant
                self.wf(),
                j <= predecessors@.len(),
                ob == old(self).blocks@,
                valid_label(ob, this),
                forall|i: int| 0 <= i < predecessors@.len() ==> valid_label(ob, #[trigger] predecessors@[i]),
                same_blocks(ob, self.blocks@),
                forall|k: int| 0 <= k < ob.len() ==> (#[trigger] self.blocks@[k]).fallthrough == ob[k].fallthrough,
                forall|k: int| 0 <= k < ob.len() ==> pred_set(#[trigger] self.blocks@[k]) == if k == this.1 {
                    pred_set(ob[k]).union(predecessors@.subrange(0, j as int).to_set())
                } else {
                    pred_set(ob[k])
                },
                forall|k: int| 0 <= k < ob.len() ==> succ_set(#[trigger] self.blocks@[k]) == if exists|i: int| 0 <= i < j && (#[trigger] predecessors@[i]).1 == k {
                    succ_set(ob[k]).insert(this)
                } else {
                    succ_set(ob[k])
                },
                self.cursor == old(self).cursor,
                self.entrypoint == old(self).entrypoint,
            decreases predecessors@.len() - j,
        {
            let ghost before = self.blocks@;
            let p = predecessors[j];
            proof {
                assert(valid_label(ob, predecessors@[j as int]));
                assert(valid_label(before, this));
                assert(valid_label(before, p));
            }
            self.add_edge(p, this);
            proof {
                let nb = self.blocks@;
                let pre = predecessors@.subrange(0, j as int);
                let post = predecessors@.subrange(0, j as int + 1);
                assert(post =~= pre.push(p));
                pre.lemma_push_to_set_commute(p);
                assert forall|k: int| 0 <= k < ob.len() implies pred_set(#[trigger] nb[k]) == if k == this.1 {
                    pred_set(ob[k]).union(post.to_set())
                } else {
                    pred_set(ob[k])
                } by {
                    assert(pred_set(before[k]) == if k == this.1 {
                        pred_set(ob[k]).union(pre.to_set())
                    } else {
                        pred_set(ob[k])
                    });
                    if k == this.1 {
                        assert(pred_set(ob[k]).union(pre.to_set()).insert(p) =~= pred_set(ob[k]).union(post.to_set()));
                    }
                }
                assert forall|k: int| 0 <= k < ob.len() implies succ_set(#[trigger] nb[k]) == if exists|i: int| 0 <= i < j + 1 && (#[trigger] predecessors@[i]).1 == k {
                    succ_set(ob[k]).insert(this)
                } else {
                    succ_set(ob[k])
                } by {
                    let was = exists|i: int| 0 <= i < j && (#[trigger] predecessors@[i]).1 == k;
                    assert(succ_set(before[k]) == if was {
                        succ_set(ob[k]).insert(this)
                    } else {
                        succ_set(ob[k])
                    });
                    if k == p.1 {
                        assert(predecessors@[j as int].1 == k);
                        if was {
                            assert(succ_set(ob[k]).insert(this).insert(this) =~= succ_set(ob[k]).insert(this));
                        }
                    } else {
                        if exists|i: int| 0 <= i < j + 1 && (#[trigger] predecessors@[i]).1 == k {
                            let i = choose|i: int| 0 <= i < j + 1 && (#[trigger] predecessors@[i]).1 == k;
                            assert(i != j);
                        }
                    }
                }
            }
            j += 1;
        }
        proof {
            assert(predecessors@.subrange(0, predecessors@.len() as int) =~= predecessors@);
        }
    }

    /// Adds each of `predecessors` to the predecessors of the cursor's block.
    pub fn addPredecessors(&mut self, predecessors: &[Label<I>])
        requires
            old(self).wf(),
            forall|i: int| 0 <= i < predecessors@.len() ==> valid_label(old(self).blocks_v(), #[trigger] predecessors@[i]),
            forall|i: int| 0 <= i < predecessors@.len() ==> (#[trigger] predecessors@[i]).0@ == old(self).cursor_v().0@,
        ensures
            final(self).wf(),
            same_blocks(old(self).blocks_v(), final(self).blocks_v()),
            forall|k: int| 0 <= k < old(self).blocks_v().len() ==> (#[trigger] final(self).blocks_v()[k]).fallthrough == old(self).blocks_v()[k].fallthrough,
            forall|k: int| 0 <= k < old(self).blocks_v().len() ==> pred_set(#[trigger] final(self).blocks_v()[k]) == if k == old(self).cursor_v().1 {
                pred_set(old(self).blocks_v()[k]).union(predecessors@.to_set())
            } else {
                pred_set(old(self).blocks_v()[k])
            },
            forall|k: int| 0 <= k < old(self).blocks_v().len() ==> succ_set(#[trigger] final(self).blocks_v()[k]) == if exists|i: int| 0 <= i < predecessors@.len() && (#[trigger] predecessors@[i]).1 == k {
                succ_set(old(self).blocks_v()[k]).insert(old(self).cursor_v())
            } else {
                succ_set(old(self).blocks_v()[k])
            },
            final(self).cursor_v() == old(self).cursor_v(),
            final(self).entry_v() == old(self).entry_v(),
    {
        let c = self.cursor;
        self.addPredecessorsTo(c, predecessors);
    }
}

/// How many entries of `s` are set.
pub open spec fn count_set(s: Seq<bool>) -> nat
    decreases s.len(),
{
    if s.len() == 0 {
        0
    } else {
        count_set(s.drop_last()) + if s.last() {
            1nat
        } else {
            0nat
        }
    }
}

proof fn lemma_count_bound(s: Seq<bool>)
    ensures
        count_set(s) <= s.len(),
    decreases s.len(),
{
    if s.len() > 0 {
        lemma_count_bound(s.drop_last());
    }
}

proof fn lemma_count_mark(s: Seq<bool>, i: int)
    requires
        0 <= i < s.len(),
        !s[i],
    ensures
        count_set(s.update(i, true)) == count_set(s) + 1,
    decreases s.len(),
{
    let t = s.update(i, true);
    if i == s.len() - 1 {
        assert(t.drop_last() =~= s.drop_last());
    } else {
        assert(t.drop_last() =~= s.drop_last().update(i, true));
        lemma_count_mark(s.drop_last(), i);
    }
}

proof fn lemma_push_contains(s: Seq<usize>, x: usize, a: usize)
    ensures
        s.push(x).contains(a) <==> (s.contains(a) || a == x),
{
    if s.contains(a) {
        let i = choose|i: int| 0 <= i < s.len() && s[i] == a;
        assert(s.push(x)[i] == a);
    }
    if a == x {
        assert(s.push(x)[s.len() as int] == a);
    }
    if s.push(x).contains(a) {
        let i = choose|i: int| 0 <= i < s.len() + 1 && s.push(x)[i] == a;
        if i < s.len() {
            assert(s[i] == a);
        }
    }
}

/// Every block reaches itself.
pub proof fn lemma_reach_self<I: InstructionTrait>(bs: Seq<BasicBlock<I>>, from: int)
    ensures
        reachable(bs, from, from),
{
    let p = seq![from];
    assert(is_path(bs, p, from));
}

/// What a block reaches, the targets of its edges reach too.
pub proof fn lemma_reach_step<I: InstructionTrait>(bs: Seq<BasicBlock<I>>, from: int, k: int, m: int)
    requires
        reachable(bs, from, k),
        edge(bs, k, m),
    ensures
        reachable(bs, from, m),
{
    let p = choose|p: Seq<int>| #[trigger] is_path(bs, p, from) && p.last() == k;
    let q = p.push(m);
    assert forall|i: int| 0 <= i < q.len() - 1 implies #[trigger] edge(bs, q[i], q[i + 1]) by {
        if i < p.len() - 1 {
            assert(q[i] == p[i] && q[i + 1] == p[i + 1]);
        } else {
            assert(q[i] == k);
        }
    }
    assert(is_path(bs, q, from));
}

proof fn lemma_path_in_closed<I: InstructionTrait>(bs: Seq<BasicBlock<I>>, seen: Seq<bool>, p: Seq<int>, from: int, i: int)
    requires
        0 <= from < seen.len(),
        seen[from],
        forall|a: int, b: int| 0 <= a < seen.len() && seen[a] && #[trigger] edge(bs, a, b) ==> 0 <= b < seen.len() && seen[b],
        is_path(bs, p, from),
        0 <= i < p.len(),
    ensures
        0 <= p[i] < seen.len(),
        seen[p[i]],
    decreases i,
{
    if i > 0 {
        let h = i - 1;
        lemma_path_in_closed(bs, seen, p, from, h);
        assert(edge(bs, p[h], p[h + 1]));
    }
}

/// A set of blocks that holds `from` and the targets of the edges of each of its blocks holds
/// every block that `from` reaches.
proof fn lemma_closed_holds_reachable<I: InstructionTrait>(bs: Seq<BasicBlock<I>>, seen: Seq<bool>, from: int, k: int)
    requires
        0 <= from < seen.len(),
        seen[from],
        forall|a: int, b: int| 0 <= a < seen.len() && seen[a] && #[trigger] edge(bs, a, b) ==> 0 <= b < seen.len() && seen[b],
        reachable(bs, from, k),
    ensures
        0 <= k < seen.len(),
        seen[k],
{
    let p = choose|p: Seq<int>| #[trigger] is_path(bs, p, from) && p.last() == k;
    lemma_path_in_closed(bs, seen, p, from, p.len() - 1);
}

impl<I: InstructionTrait, V, T> FunctionBuilder<I, V, T> {
    /// Marks, by number, the blocks that the entry block reaches, walking the graph depth first.
    fn reachable_blocks(&self) -> (r: Vec<bool>)
        requires
            self.wf(),
        ensures
            r@.len() == self.blocks@.len(),
            forall|k: int| 0 <= k < r@.len() ==> r@[k] == reachable(self.blocks@, self.entrypoint.1 as int, k),
    {
        let n = self.blocks.len();
        let ghost bs = self.blocks@;
        let ghost e = self.entrypoint.1 as int;
        let mut seen: Vec<bool> = Vec::new();
        while seen.len() < n
            invariant
                seen@.len() <= n,
                forall|k: int| 0 <= k < seen@.len() ==> !seen@[k],
                count_set(seen@) == 0,
            decreases n - seen@.len(),
        {
            proof {
                assert(seen@.push(false).drop_last() =~= seen@);
            }
            seen.push(false);
        }
        let start = self.entrypoint.1;
        proof {
            lemma_count_mark(seen@, e);
            lemma_reach_self(bs, e);
        }
        seen.set(start, true);
        let mut stack: Vec<usize> = Vec::new();
        stack.push(start);
        proof {
            lemma_count_bound(seen@);
            assert forall|a: int, b: int| 0 <= a < n && seen@[a] && !stack@.contains(a as usize) && #[trigger] edge(bs, a, b) implies 0 <= b < n && seen@[b] by {
                assert(a == e);
                assert(stack@[0] == start);
            }
        }
        while stack.len() > 0
            invariant
                bs == self.blocks@,
                self.wf(),
                n == bs.len(),
                e == self.entrypoint.1,
                seen@.len() == n,
                count_set(seen@) <= n,
                0 <= e < n,
                seen@[e],
                forall|j: int| 0 <= j < stack@.len() ==> (#[trigger] stack@[j] as int) < n && seen@[stack@[j] as int],
                forall|k: int| 0 <= k < n && #[trigger] seen@[k] ==> reachable(bs, e, k),
                forall|a: int, b: int| 0 <= a < n && seen@[a] && !stack@.contains(a as usize) && #[trigger] edge(bs, a, b) ==> 0 <= b < n && seen@[b],
            decreases 2 * (n - count_set(seen@)) + stack@.len(),
        {
            let ghost whole = stack@;
            let k = stack.pop().unwrap();
            let ghost st0 = stack@;
            let ghost sn0 = seen@;
            let ghost m0 = 2 * (n - count_set(seen@)) + stack@.len();
            proof {
                assert(whole =~= st0.push(k));
                assert(whole[whole.len() - 1] == k);
                assert forall|a: int, b: int| 0 <= a < n && a != k && seen@[a] && !stack@.contains(a as usize) && #[trigger] edge(bs, a, b) implies 0 <= b < n && seen@[b] by {
                    lemma_push_contains(st0, k, a as usize);
                }
            }
            let nsucc = self.blocks[k].successors.len();
            let mut j: usize = 0;
            while j < nsucc
                invariant
                    bs == self.blocks@,
                    self.wf(),
                    n == bs.len(),
                    e == self.entrypoint.1,
                    seen@.len() == n,
                    count_set(seen@) <= n,
                    0 <= e < n,
                    seen@[e],
                    0 <= k < n,
                    seen@[k as int],
                    nsucc == bs[k as int].successors@.len(),
                    j <= nsucc,
                    forall|j: int| 0 <= j < stack@.len() ==> (#[trigger] stack@[j] as int) < n && seen@[stack@[j] as int],
                    forall|k: int| 0 <= k < n && #[trigger] seen@[k] ==> reachable(bs, e, k),
                    forall|a: int, b: int| 0 <= a < n && a != k && seen@[a] && !stack@.contains(a as usize) && #[trigger] edge(bs, a, b) ==> 0 <= b < n && seen@[b],
                    forall|i: int| 0 <= i < j ==> seen@[(#[trigger] bs[k as int].successors@[i]).1 as int],
                    2 * (n - count_set(seen@)) + stack@.len() <= m0,
                decreases nsucc - j,
            {
                let m = self.blocks[k].successors[j].1;
                proof {
                    assert(valid_label(bs, bs[k as int].successors@[j as int]));
                    assert(edge(bs, k as int, m as int));
                }
                if !seen[m] {
                    let ghost sb = seen@;
                    let ghost stb = stack@;
                    proof {
                        lemma_count_mark(seen@, m as int);
                        lemma_reach_step(bs, e, k as int, m as int);
                    }
                    seen.set(m, true);
                    stack.push(m);
                    proof {
                        lemma_count_bound(seen@);
                        assert forall|a: int, b: int| 0 <= a < n && a != k && seen@[a] && !stack@.contains(a as usize) && #[trigger] edge(bs, a, b) implies 0 <= b < n && seen@[b] by {
                            lemma_push_contains(stb, m, a as usize);
                            assert(sb[a]);
                        }
                        assert forall|k: int| 0 <= k < n && #[trigger] seen@[k] implies reachable(bs, e, k) by {
                            if k != m {
                                assert(sb[k]);
                            }
                        }
                    }
                }
                j += 1;
            }
            match self.blocks[k].fallthrough {
                Some(f) => {
                    let m = f.1;
                    proof {
                        assert(valid_label(bs, f));
                        assert(edge(bs, k as int, m as int));
                    }
                    if !seen[m] {
                        let ghost sb = seen@;
                        let ghost stb = stack@;
                        proof {
                            lemma_count_mark(seen@, m as int);
                            lemma_reach_step(bs, e, k as int, m as int);
                        }
                        seen.set(m, true);
                        stack.push(m);
                        proof {
                            lemma_count_bound(seen@);
                            assert forall|a: int, b: int| 0 <= a < n && a != k && seen@[a] && !stack@.contains(a as usize) && #[trigger] edge(bs, a, b) implies 0 <= b < n && seen@[b] by {
                                lemma_push_contains(stb, m, a as usize);
                                assert(sb[a]);
                            }
                            assert forall|k: int| 0 <= k < n && #[trigger] seen@[k] implies reachable(bs, e, k) by {
                                if k != m {
                                    assert(sb[k]);
                                }
                            }
                            assert forall|i: int| 0 <= i < nsucc implies seen@[(#[trigger] bs[k as int].successors@[i]).1 as int] by {
                                assert(sb[bs[k as int].successors@[i].1 as int]);
                            }
                        }
                    }
                },
                None => {},
            }
            proof {
                assert forall|a: int, b: int| 0 <= a < n && seen@[a] && !stack@.contains(a as usize) && #[trigger] edge(bs, a, b) implies 0 <= b < n && seen@[b] by {
                    if a == k {
                        if exists|i: int| 0 <= i < bs[a].successors@.len() && #[trigger] bs[a].successors@[i].1 == b {
                            let i = choose|i: int| 0 <= i < bs[a].successors@.len() && #[trigger] bs[a].successors@[i].1 == b;
                            assert(valid_label(bs, bs[a].successors@[i]));
                        }
                    }
                }
            }
        }
        proof {
            assert forall|k: int| 0 <= k < n implies seen@[k] == reachable(bs, e, k) by {
                if reachable(bs, e, k) {
                    assert forall|a: int, b: int| 0 <= a < seen@.len() && seen@[a] && #[trigger] edge(bs, a, b) implies 0 <= b < seen@.len() && seen@[b] by {
                        assert(!stack@.contains(a as usize));
                    }
                    lemma_closed_holds_reachable(bs, seen@, e, k);
                }
            }
        }
        seen
    }
}

/// `nb` is `ob` with `d` added at the end of each block that `from` reaches and that has no
/// terminator; nothing else differs.
pub open spec fn filled_with_default<I: InstructionTrait>(ob: Seq<BasicBlock<I>>, nb: Seq<BasicBlock<I>>, from: int, d: I) -> bool {
    &&& nb.len() == ob.len()
    &&& forall|k: int| 0 <= k < ob.len() ==> (#[trigger] nb[k]) == (BasicBlock { instructions: nb[k].instructions, ..ob[k] })
    &&& forall|k: int| 0 <= k < ob.len() ==> (#[trigger] nb[k]).instructions@ == if reachable(ob, from, k) && !terminated(ob[k]) {
        ob[k].instructions@.push(d)
    } else {
        ob[k].instructions@
    }
}

/// Every block that `from` reaches ends with a terminator.
pub open spec fn all_reachable_terminated<I: InstructionTrait>(bs: Seq<BasicBlock<I>>, from: int) -> bool {
    forall|k: int| 0 <= k < bs.len() && #[trigger] reachable(bs, from, k) ==> terminated(bs[k])
}

impl<I: InstructionTrait, V, T> FunctionBuilder<I, V, T> {
    /// Checks that every block reachable from the entry ends with a terminator. Without
    /// `default_return` it reports whether that holds and changes nothing; with one, it adds a
    /// copy of it to each reachable block that lacks a terminator and reports success.
    pub fn verify(&mut self, default_return: Option<I>) -> (r: bool)
        requires
            old(self).wf(),
        ensures
            final(self).args_v() == old(self).args_v(),
            final(self).reg_count_v() == old(self).reg_count_v(),
            final(self).wf(),
            final(self).cursor_v() == old(self).cursor_v(),
            final(self).entry_v() == old(self).entry_v(),
            default_return is None ==> final(self).blocks_v() == old(self).blocks_v()
                && r == all_reachable_terminated(old(self).blocks_v(), old(self).entry_v().1 as int),
            default_return matches Some(d) ==> r && filled_with_default(
                old(self).blocks_v(),
                final(self).blocks_v(),
                old(self).entry_v().1 as int,
                d,
            ),
    {
        let seen = self.reachable_blocks();
        let n = self.blocks.len();
        let ghost ob = self.blocks@;
        let ghost e = self.entrypoint.1 as int;
        match default_return {
            None => {
                let mut k: usize = 0;
                while k < n
                    invariant
                        default_return is None,
                        self.wf(),
                        self.reg_count == old(self).reg_count,
                        self.args@ == old(self).args@,
                        self.blocks@ == ob,
                        n == ob.len(),
                        seen@.len() == n,
                        e == self.entrypoint.1,
                        forall|j: int| 0 <= j < n ==> seen@[j] == reachable(ob, e, j),
                        k <= n,
                        forall|j: int| 0 <= j < k && #[trigger] reachable(ob, e, j) ==> terminated(ob[j]),
                    decreases n - k,
                {
                    if seen[k] && self.blocks[k].terminator().is_none() {
                        proof {
                            assert(reachable(ob, e, k as int));
                        }
                        return false;
                    }
                    k += 1;
                }
                true
            },
            Some(d) => {
                let mut k: usize = 0;
                while k < n
                    invariant
                        self.wf(),
                        self.reg_count == old(self).reg_count,
                        self.args@ == old(self).args@,
                        self.blocks@.len() == n,
                        n == ob.len(),
                        ob == old(self).blocks@,
                        seen@.len() == n,
                        e == self.entrypoint.1,
                        self.cursor == old(self).cursor,
                        self.entrypoint == old(self).entrypoint,
                        forall|j: int| 0 <= j < n ==> seen@[j] == reachable(ob, e, j),
                        k <= n,
                        forall|j: int| k <= j < n ==> #[trigger] self.blocks@[j] == ob[j],
                        forall|j: int| 0 <= j < k ==> (#[trigger] self.blocks@[j]) == (BasicBlock { instructions: self.blocks@[j].instructions, ..ob[j] }),
                        forall|j: int| 0 <= j < k ==> (#[trigger] self.blocks@[j]).instructions@ == if reachable(ob, e, j) && !terminated(ob[j]) {
                            ob[j].instructions@.push(d)
                        } else {
                            ob[j].instructions@
                        },
                    decreases n - k,
                {
                    if seen[k] && self.blocks[k].terminator().is_none() {
                        let ghost before = *self;
                        let c = d.copy_instr();
                        let mut block = self.blocks.remove(k);
                        block.instructions.push(c);
                        self.blocks.insert(k, block);
                        proof {
                            self.lemma_same_shape(before, k as int);
                        }
                    }
                    k += 1;
                }
                true
            },
        }
    }
}

/// Once `verify` has added a terminator `d` to the reachable blocks that lacked one, every block
/// reachable from the entry ends with a terminator, so a second `verify` without a default
/// succeeds.
pub proof fn law_verify_default_terminates<I: InstructionTrait, V, T>(
    before: FunctionBuilder<I, V, T>,
    after: Seq<BasicBlock<I>>,
    d: I,
)
    requires
        before.wf(),
        filled_with_default(before.blocks_v(), after, before.entry_v().1 as int, d),
        d.is_terminator_v(),
    ensures
        all_reachable_terminated(after, before.entry_v().1 as int),
{
    let ob = before.blocks@;
    let e = before.entrypoint.1 as int;
    let n = ob.len();
    let seen = Seq::new(n, |k: int| reachable(ob, e, k));
    lemma_reach_self(ob, e);
    assert forall|a: int, b: int| 0 <= a < seen.len() && seen[a] && #[trigger] edge(after, a, b) implies 0 <= b < seen.len() && seen[b] by {
        assert(after[a].successors == ob[a].successors);
        assert(after[a].fallthrough == ob[a].fallthrough);
        if exists|i: int| 0 <= i < after[a].successors@.len() && #[trigger] after[a].successors@[i].1 == b {
            let i = choose|i: int| 0 <= i < after[a].successors@.len() && #[trigger] after[a].successors@[i].1 == b;
            assert(valid_label(ob, ob[a].successors@[i]));
            assert(ob[a].successors@[i].1 == b);
        }
        assert(edge(ob, a, b));
        lemma_reach_step(ob, e, a, b);
    }
    assert forall|k: int| 0 <= k < after.len() && #[trigger] reachable(after, e, k) implies terminated(after[k]) by {
        lemma_closed_holds_reachable(after, seen, e, k);
        assert(reachable(ob, e, k));
        if !terminated(ob[k]) {
            assert(after[k].instructions@ == ob[k].instructions@.push(d));
        } else {
            assert(after[k].instructions@ == ob[k].instructions@);
        }
    }
}

} // verus!
