//! The bytecode emitter: appends opcodes, allocates local slots, and
//! lowers structured control flow into absolute branches by backpatching.
//!
//! A `break_if` or `break_if_not` reserves a `Nop` placeholder and records
//! its index as pending. A loop combinator patches every placeholder
//! recorded inside its own body to branch past the loop's end, and leaves
//! placeholders recorded before it alone, so loops nest; a placeholder
//! still pending when the emitter is finished is a usage error, which
//! `finish` reports.

use vstd::prelude::*;

use crate::vm::function::{Function, FunctionView};
use crate::vm::instructions::{insts_view, Inst, InstView};

verus! {

/// A usage error detected when the emitter is finished.
#[derive(Debug, PartialEq, Eq)]
pub enum EmitError {
    /// A `break_if` or `break_if_not` placeholder was never consumed by
    /// an enclosing loop.
    UnresolvedBreak,
}

/// The emitter: the instructions so far, the local slots allocated so
/// far, and the pending break placeholders.
#[derive(Debug)]
pub struct Emitter {
    instructions: Vec<Inst>,
    env_locals: usize,
    locals: usize,
    breaks_if: Vec<usize>,
    breaks_if_not: Vec<usize>,
}

/// The view of an emitter.
pub ghost struct EmitterView {
    pub insts: Seq<InstView>,
    pub env_locals: usize,
    pub locals: usize,
    pub breaks_if: Seq<usize>,
    pub breaks_if_not: Seq<usize>,
}

impl View for Emitter {
    type V = EmitterView;

    closed spec fn view(&self) -> EmitterView {
        EmitterView {
            insts: insts_view(self.instructions@),
            env_locals: self.env_locals,
            locals: self.locals,
            breaks_if: self.breaks_if@,
            breaks_if_not: self.breaks_if_not@,
        }
    }
}

/// `v` with one instruction appended.
pub open spec fn emit_view(v: EmitterView, inst: InstView) -> EmitterView {
    EmitterView { insts: v.insts.push(inst), ..v }
}

/// `v` after `break_if`: a `Nop` placeholder appended and its index
/// recorded as a pending conditional break.
pub open spec fn break_if_view(v: EmitterView) -> EmitterView {
    EmitterView {
        insts: v.insts.push(InstView::Nop),
        breaks_if: v.breaks_if.push(v.insts.len() as usize),
        ..v
    }
}

/// `v` after `break_if_not`: a `Nop` placeholder appended and its index
/// recorded as a pending inverted break.
pub open spec fn break_if_not_view(v: EmitterView) -> EmitterView {
    EmitterView {
        insts: v.insts.push(InstView::Nop),
        breaks_if_not: v.breaks_if_not.push(v.insts.len() as usize),
        ..v
    }
}

/// `insts` with the instruction at every listed index replaced by
/// `inst`, indices applied left to right; an index out of range changes
/// nothing.
pub open spec fn patch_all(insts: Seq<InstView>, idxs: Seq<usize>, inst: InstView) -> Seq<
    InstView,
>
    decreases idxs.len(),
{
    if idxs.len() == 0 {
        insts
    } else {
        let rest = patch_all(insts, idxs.drop_last(), inst);
        if idxs.last() < rest.len() {
            rest.update(idxs.last() as int, inst)
        } else {
            rest
        }
    }
}

/// Patching never changes how many instructions there are.
pub proof fn lemma_patch_all_len(insts: Seq<InstView>, idxs: Seq<usize>, inst: InstView)
    ensures
        patch_all(insts, idxs, inst).len() == insts.len(),
    decreases idxs.len(),
{
    if idxs.len() > 0 {
        lemma_patch_all_len(insts, idxs.drop_last(), inst);
    }
}

/// The state a loop combinator leaves behind, given the body's result
/// `mid`, the loop's first instruction index `start`, and how many break
/// placeholders of each kind were already pending before the loop: a
/// branch back to `start` is appended, every break placeholder the body
/// recorded is patched to branch past it, and those placeholders are
/// consumed.
pub open spec fn close_loop_at(
    mid: EmitterView,
    start: usize,
    mark_if: int,
    mark_if_not: int,
) -> EmitterView {
    let with_branch = mid.insts.push(InstView::Branch(start));
    let target = with_branch.len() as usize;
    let keep_if = if mark_if <= mid.breaks_if.len() {
        mark_if
    } else {
        mid.breaks_if.len() as int
    };
    let keep_if_not = if mark_if_not <= mid.breaks_if_not.len() {
        mark_if_not
    } else {
        mid.breaks_if_not.len() as int
    };
    EmitterView {
        insts: patch_all(
            patch_all(with_branch, mid.breaks_if.skip(keep_if), InstView::BranchIf(target)),
            mid.breaks_if_not.skip(keep_if_not),
            InstView::BranchIfNot(target),
        ),
        env_locals: mid.env_locals,
        locals: mid.locals,
        breaks_if: mid.breaks_if.take(keep_if),
        breaks_if_not: mid.breaks_if_not.take(keep_if_not),
    }
}

/// The state a loop combinator leaves behind, given the state `pre` it
/// started from and the state `mid` its body produced.
pub open spec fn close_loop_view(pre: EmitterView, mid: EmitterView) -> EmitterView {
    close_loop_at(
        mid,
        pre.insts.len() as usize,
        pre.breaks_if.len() as int,
        pre.breaks_if_not.len() as int,
    )
}

impl Emitter {
    /// A fresh emitter for a function that captures no environment.
    pub fn new() -> (r: Emitter)
        ensures
            r@.insts =~= Seq::<InstView>::empty(),
            r@.env_locals == 0,
            r@.locals == 0,
            r@.breaks_if =~= Seq::<usize>::empty(),
            r@.breaks_if_not =~= Seq::<usize>::empty(),
    {
        Emitter {
            instructions: Vec::new(),
            env_locals: 0,
            locals: 0,
            breaks_if: Vec::new(),
            breaks_if_not: Vec::new(),
        }
    }

    /// A fresh emitter for a closure body whose captured environment
    /// fills the first `env_locals` slots: newly allocated locals begin
    /// after them.
    pub fn with_env(env_locals: usize) -> (r: Emitter)
        ensures
            r@.insts =~= Seq::<InstView>::empty(),
            r@.env_locals == env_locals,
            r@.locals == 0,
            r@.breaks_if =~= Seq::<usize>::empty(),
            r@.breaks_if_not =~= Seq::<usize>::empty(),
    {
        Emitter {
            instructions: Vec::new(),
            env_locals,
            locals: 0,
            breaks_if: Vec::new(),
            breaks_if_not: Vec::new(),
        }
    }

    /// Appends an instruction and returns its index.
    pub fn emit(&mut self, inst: Inst) -> (idx: usize)
        ensures
            idx == old(self)@.insts.len(),
            final(self)@ == emit_view(old(self)@, inst@),
    {
        let idx = self.instructions.len();
        self.instructions.push(inst);
        proof {
            assert(self@.insts =~= old(self)@.insts.push(inst@));
        }
        idx
    }

    /// The index of the last instruction appended.
    pub fn previous_idx(&self) -> (r: usize)
        requires
            self@.insts.len() > 0,
        ensures
            r == self@.insts.len() - 1,
    {
        self.instructions.len() - 1
    }

    /// The index the next instruction will get.
    pub fn current_idx(&self) -> (r: usize)
        ensures
            r == self@.insts.len(),
    {
        self.instructions.len()
    }

    /// Allocates a fresh local slot and returns its index; captured
    /// environment slots come first.
    pub fn local_new(&mut self) -> (id: usize)
        requires
            old(self)@.locals + old(self)@.env_locals < usize::MAX,
        ensures
            id == old(self)@.locals + old(self)@.env_locals,
            final(self)@ == (EmitterView { locals: (old(self)@.locals + 1) as usize, ..old(self)@ }),
    {
        let id = self.locals + self.env_locals;
        self.locals = self.locals + 1;
        id
    }

    /// Overwrites the instruction at `idx`; an index out of range
    /// changes nothing.
    pub fn patch(&mut self, idx: usize, inst: Inst)
        ensures
            idx < old(self)@.insts.len() ==> final(self)@ == (EmitterView {
                insts: old(self)@.insts.update(idx as int, inst@),
                ..old(self)@
            }),
            idx >= old(self)@.insts.len() ==> final(self)@ == old(self)@,
    {
        if idx < self.instructions.len() {
            self.instructions[idx] = inst;
            proof {
                assert(self@.insts =~= old(self)@.insts.update(idx as int, inst@));
            }
        }
    }

    /// Appends `Nop`.
    pub fn nop(self) -> (r: Emitter)
        ensures
            r@ == emit_view(self@, InstView::Nop),
    {
        let mut e = self;
        e.emit(Inst::Nop);
        e
    }

    /// Appends `Dup`.
    pub fn dup(self) -> (r: Emitter)
        ensures
            r@ == emit_view(self@, InstView::Dup),
    {
        let mut e = self;
        e.emit(Inst::Dup);
        e
    }

    /// Appends `Drop`.
    pub fn drop(self) -> (r: Emitter)
        ensures
            r@ == emit_view(self@, InstView::Drop),
    {
        let mut e = self;
        e.emit(Inst::Drop);
        e
    }

    /// Appends `Swap`.
    pub fn swap(self) -> (r: Emitter)
        ensures
            r@ == emit_view(self@, InstView::Swap),
    {
        let mut e = self;
        e.emit(Inst::Swap);
        e
    }

    /// Appends `PushI` with the given constant.
    pub fn push_int(self, v: i64) -> (r: Emitter)
        ensures
            r@ == emit_view(self@, InstView::PushI(v)),
    {
        let mut e = self;
        e.emit(Inst::PushI(v));
        e
    }

    /// Appends `PushList`.
    pub fn push_list(self) -> (r: Emitter)
        ensures
            r@ == emit_view(self@, InstView::PushList),
    {
        let mut e = self;
        e.emit(Inst::PushList);
        e
    }

    /// Appends `PushFn` with the given function name.
    pub fn push_function_ref(self, name: &str) -> (r: Emitter)
        ensures
            r@ == emit_view(self@, InstView::PushFn(name@)),
    {
        let mut e = self;
        e.emit(Inst::PushFn(name.to_owned()));
        e
    }

    /// Appends `Add`.
    pub fn add(self) -> (r: Emitter)
        ensures
            r@ == emit_view(self@, InstView::Add),
    {
        let mut e = self;
        e.emit(Inst::Add);
        e
    }

    /// Appends `Sub`.
    pub fn sub(self) -> (r: Emitter)
        ensures
            r@ == emit_view(self@, InstView::Sub),
    {
        let mut e = self;
        e.emit(Inst::Sub);
        e
    }

    /// Appends `Mul`.
    pub fn mul(self) -> (r: Emitter)
        ensures
            r@ == emit_view(self@, InstView::Mul),
    {
        let mut e = self;
        e.emit(Inst::Mul);
        e
    }

    /// Appends `Not`.
    pub fn not(self) -> (r: Emitter)
        ensures
            r@ == emit_view(self@, InstView::Not),
    {
        let mut e = self;
        e.emit(Inst::Not);
        e
    }

    /// Appends `ListLen`.
    pub fn list_len(self) -> (r: Emitter)
        ensures
            r@ == emit_view(self@, InstView::ListLen),
    {
        let mut e = self;
        e.emit(Inst::ListLen);
        e
    }

    /// Appends `ListGet`.
    pub fn list_get(self) -> (r: Emitter)
        ensures
            r@ == emit_view(self@, InstView::ListGet),
    {
        let mut e = self;
        e.emit(Inst::ListGet);
        e
    }

    /// Appends `ListSet`.
    pub fn list_set(self) -> (r: Emitter)
        ensures
            r@ == emit_view(self@, InstView::ListSet),
    {
        let mut e = self;
        e.emit(Inst::ListSet);
        e
    }

    /// Appends `ListPush`.
    pub fn list_push(self) -> (r: Emitter)
        ensures
            r@ == emit_view(self@, InstView::ListPush),
    {
        let mut e = self;
        e.emit(Inst::ListPush);
        e
    }

    /// Appends `ListPop`.
    pub fn list_pop(self) -> (r: Emitter)
        ensures
            r@ == emit_view(self@, InstView::ListPop),
    {
        let mut e = self;
        e.emit(Inst::ListPop);
        e
    }

    /// Appends `Call`.
    pub fn call(self) -> (r: Emitter)
        ensures
            r@ == emit_view(self@, InstView::Call),
    {
        let mut e = self;
        e.emit(Inst::Call);
        e
    }

    /// Appends `Bind`.
    pub fn bind(self) -> (r: Emitter)
        ensures
            r@ == emit_view(self@, InstView::Bind),
    {
        let mut e = self;
        e.emit(Inst::Bind);
        e
    }

    /// Appends `LocalLoad` for the given slot.
    pub fn local_load(self, local: usize) -> (r: Emitter)
        ensures
            r@ == emit_view(self@, InstView::LocalLoad(local)),
    {
        let mut e = self;
        e.emit(Inst::LocalLoad(local));
        e
    }

    /// Appends `LocalStore` for the given slot.
    pub fn local_store(self, local: usize) -> (r: Emitter)
        ensures
            r@ == emit_view(self@, InstView::LocalStore(local)),
    {
        let mut e = self;
        e.emit(Inst::LocalStore(local));
        e
    }

    /// Appends `LessThan`.
    pub fn less_than(self) -> (r: Emitter)
        ensures
            r@ == emit_view(self@, InstView::LessThan),
    {
        let mut e = self;
        e.emit(Inst::LessThan);
        e
    }

    /// Appends `GreaterThan`.
    pub fn greater_than(self) -> (r: Emitter)
        ensures
            r@ == emit_view(self@, InstView::GreaterThan),
    {
        let mut e = self;
        e.emit(Inst::GreaterThan);
        e
    }

    /// Appends `Branch` to the given target.
    pub fn branch(self, target: usize) -> (r: Emitter)
        ensures
            r@ == emit_view(self@, InstView::Branch(target)),
    {
        let mut e = self;
        e.emit(Inst::Branch(target));
        e
    }

    /// Appends `BranchIf` to the given target.
    pub fn branch_if(self, target: usize) -> (r: Emitter)
        ensures
            r@ == emit_view(self@, InstView::BranchIf(target)),
    {
        let mut e = self;
        e.emit(Inst::BranchIf(target));
        e
    }

    /// Reserves a placeholder that the enclosing loop will patch into a
    /// branch-on-true past its end.
    pub fn break_if(self) -> (r: Emitter)
        ensures
            r@ == break_if_view(self@),
    {
        let mut e = self;
        let idx = e.emit(Inst::Nop);
        e.breaks_if.push(idx);
        e
    }

    /// Reserves a placeholder that the enclosing loop will patch into a
    /// branch-on-false past its end.
    pub fn break_if_not(self) -> (r: Emitter)
        ensures
            r@ == break_if_not_view(self@),
    {
        let mut e = self;
        let idx = e.emit(Inst::Nop);
        e.breaks_if_not.push(idx);
        e
    }

    /// Appends the branch that closes a loop whose body started at
    /// `start`, patches every break placeholder recorded past the marks
    /// to branch past the loop, and consumes those placeholders.
    #[verifier::loop_isolation(false)]
    #[verifier::rlimit(60)]
    fn finish_loop(self, start: usize, mark_if: usize, mark_if_not: usize) -> (r: Emitter)
        ensures
            r@ == close_loop_at(self@, start, mark_if as int, mark_if_not as int),
    {
        let ghost midv = self@;
        let mut e = self;
        e.emit(Inst::Branch(start));
        let ghost with_branch = midv.insts.push(InstView::Branch(start));
        let target = e.instructions.len();
        proof {
            assert(e@.insts == with_branch);
        }
        let ghost keep_if = if mark_if as int <= midv.breaks_if.len() {
            mark_if as int
        } else {
            midv.breaks_if.len() as int
        };
        let mut i: usize = mark_if;
        while i < e.breaks_if.len()
            invariant
                e@.breaks_if == midv.breaks_if,
                e@.breaks_if_not == midv.breaks_if_not,
                e@.env_locals == midv.env_locals,
                e@.locals == midv.locals,
                keep_if <= i as int,
                i as int <= midv.breaks_if.len() || i == mark_if,
                e@.insts == patch_all(
                    with_branch,
                    midv.breaks_if.subrange(keep_if, if i as int <= midv.breaks_if.len() {
                        i as int
                    } else {
                        keep_if
                    }),
                    InstView::BranchIf(target),
                ),
            decreases e@.breaks_if.len() - i,
        {
            let idx = e.breaks_if[i];
            let ghost before = e@.insts;
            if idx < e.instructions.len() {
                e.instructions[idx] = Inst::BranchIf(target);
                proof {
                    assert(e@.insts =~= before.update(idx as int, InstView::BranchIf(target)));
                }
            }
            i = i + 1;
            proof {
                let sub = midv.breaks_if.subrange(keep_if, i as int);
                assert(sub.drop_last() =~= midv.breaks_if.subrange(keep_if, i as int - 1));
                assert(sub.last() == midv.breaks_if[i as int - 1]);
                lemma_patch_all_len(with_branch, sub.drop_last(), InstView::BranchIf(target));
            }
        }
        proof {
            assert(midv.breaks_if.subrange(keep_if, midv.breaks_if.len() as int)
                =~= midv.breaks_if.skip(keep_if));
        }
        let ghost after_if = patch_all(
            with_branch,
            midv.breaks_if.skip(keep_if),
            InstView::BranchIf(target),
        );
        let ghost keep_if_not = if mark_if_not as int <= midv.breaks_if_not.len() {
            mark_if_not as int
        } else {
            midv.breaks_if_not.len() as int
        };
        let mut j: usize = mark_if_not;
        while j < e.breaks_if_not.len()
            invariant
                e@.breaks_if == midv.breaks_if,
                e@.breaks_if_not == midv.breaks_if_not,
                e@.env_locals == midv.env_locals,
                e@.locals == midv.locals,
                keep_if_not <= j as int,
                j as int <= midv.breaks_if_not.len() || j == mark_if_not,
                e@.insts == patch_all(
                    after_if,
                    midv.breaks_if_not.subrange(
                        keep_if_not,
                        if j as int <= midv.breaks_if_not.len() {
                            j as int
                        } else {
                            keep_if_not
                        },
                    ),
                    InstView::BranchIfNot(target),
                ),
            decreases e@.breaks_if_not.len() - j,
        {
            let idx = e.breaks_if_not[j];
            let ghost before = e@.insts;
            if idx < e.instructions.len() {
                e.instructions[idx] = Inst::BranchIfNot(target);
                proof {
                    assert(e@.insts =~= before.update(idx as int, InstView::BranchIfNot(target)));
                }
            }
            j = j + 1;
            proof {
                let sub = midv.breaks_if_not.subrange(keep_if_not, j as int);
                assert(sub.drop_last() =~= midv.breaks_if_not.subrange(
                    keep_if_not,
                    j as int - 1,
                ));
                assert(sub.last() == midv.breaks_if_not[j as int - 1]);
                lemma_patch_all_len(after_if, sub.drop_last(), InstView::BranchIfNot(target));
            }
        }
        proof {
            assert(midv.breaks_if_not.subrange(keep_if_not, midv.breaks_if_not.len() as int)
                =~= midv.breaks_if_not.skip(keep_if_not));
        }
        let count_if = if mark_if <= e.breaks_if.len() {
            mark_if
        } else {
            e.breaks_if.len()
        };
        e.breaks_if.truncate(count_if);
        let count_if_not = if mark_if_not <= e.breaks_if_not.len() {
            mark_if_not
        } else {
            e.breaks_if_not.len()
        };
        e.breaks_if_not.truncate(count_if_not);
        proof {
            assert(e@.breaks_if =~= midv.breaks_if.take(keep_if));
            assert(e@.breaks_if_not =~= midv.breaks_if_not.take(keep_if_not));
            assert(e@ == close_loop_at(midv, start, mark_if as int, mark_if_not as int));
        }
        e
    }

    /// Emits an endless loop: `block` emits the body, a branch back to
    /// the body's first instruction is appended, and every break
    /// placeholder the body recorded is patched to branch past the loop.
    pub fn infinite_loop<F: FnOnce(Emitter) -> Emitter>(self, block: F) -> (r: Emitter)
        requires
            call_requires(block, (self,)),
        ensures
            exists|mid: Emitter|
                #[trigger] call_ensures(block, (self,), mid) && r@ == close_loop_view(self@, mid@),
    {
        let ghost selfw = self;
        let ghost pre = self@;
        let mark_if = self.breaks_if.len();
        let mark_if_not = self.breaks_if_not.len();
        let start = self.instructions.len();
        let mid = block(self);
        let ghost midw = mid;
        let r = mid.finish_loop(start, mark_if, mark_if_not);
        proof {
            assert(call_ensures(block, (selfw, ), midw) && r@ == close_loop_view(pre, midw@));
        }
        r
    }

    /// Emits a `while` loop, desugared as an endless loop whose body
    /// emits the condition, leaves the loop when it is false, and then
    /// emits the block.
    pub fn while_loop<F1: FnOnce(Emitter) -> Emitter, F2: FnOnce(Emitter) -> Emitter>(
        self,
        cond: F1,
        block: F2,
    ) -> (r: Emitter)
        requires
            call_requires(cond, (self,)),
            forall|m1: Emitter, m2: Emitter|
                #[trigger] call_ensures(cond, (self,), m1) && m2@ == break_if_not_view(m1@)
                    ==> #[trigger] call_requires(block, (m2,)),
        ensures
            exists|m1: Emitter, m2: Emitter, mid: Emitter|
                #[trigger] call_ensures(cond, (self,), m1) && m2@ == break_if_not_view(m1@)
                    && #[trigger] call_ensures(block, (m2,), mid) && r@ == close_loop_view(
                    self@,
                    mid@,
                ),
    {
        let ghost selfw = self;
        let ghost pre = self@;
        let mark_if = self.breaks_if.len();
        let mark_if_not = self.breaks_if_not.len();
        let start = self.instructions.len();
        let e = cond(self);
        let ghost m1 = e;
        let e = e.break_if_not();
        let ghost m2 = e;
        let mid = block(e);
        let ghost midw = mid;
        let r = mid.finish_loop(start, mark_if, mark_if_not);
        proof {
            assert(call_ensures(cond, (selfw, ), m1) && m2@ == break_if_not_view(m1@)
                && call_ensures(block, (m2, ), midw) && r@ == close_loop_view(pre, midw@));
        }
        r
    }

    /// Finishes the emitter into a function, or reports the usage error
    /// of a break placeholder that no loop consumed.
    pub fn finish(self) -> (r: Result<Function, EmitError>)
        ensures
            self@.breaks_if.len() == 0 && self@.breaks_if_not.len() == 0 ==> (r matches Ok(f)
                && f@ == (FunctionView { instructions: self@.insts, locals: self@.locals })),
            self@.breaks_if.len() > 0 || self@.breaks_if_not.len() > 0 ==> r == Err::<
                Function,
                EmitError,
            >(EmitError::UnresolvedBreak),
    {
        if self.breaks_if.len() > 0 || self.breaks_if_not.len() > 0 {
            Err(EmitError::UnresolvedBreak)
        } else {
            Ok(Function { instructions: self.instructions, locals: self.locals })
        }
    }
}

} // verus!
