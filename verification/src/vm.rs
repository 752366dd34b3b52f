//! The virtual machine: runtime errors, the machine itself, and its parts.
//!
//! The interpreter is iterative: a stack of call frames over one shared
//! operand stack, one dispatch per instruction. Every dispatch is proved
//! to perform exactly one `step` of the small-step semantics in
//! [`semantics`], so a whole run realises `steps` from the starting
//! configuration. Execution is bounded by an instruction budget, the
//! cooperative cancellation hook of the machine: a run that neither
//! finishes nor fails within the budget surfaces `BudgetExhausted`.

pub mod emitter;
pub mod env;
pub mod function;
pub mod instructions;
pub mod semantics;
pub mod stack;
pub mod value;

use vstd::prelude::*;

use crate::vm::env::Env;
use crate::vm::function::{Function, Functions};
use crate::vm::instructions::{insts_view, Inst, InstView};
use crate::vm::semantics::{
    init_config, step, steps, ConfigView, ErrorView, FrameView, RegistryView, StepResult,
};
use crate::vm::stack::Stack;
use crate::vm::value::{deep_clone, deep_eq, MetaValue, MetaValueView, Value, ValueView};

verus! {

/// An error surfaced by the machine while executing bytecode.
///
/// Errors carry the observed data that made the instruction fail: the name
/// of the offending kind, the key that was missing, the index that was out
/// of range. They unwind execution; the operand stack is left in whatever
/// state the failing instruction produced.
#[derive(Debug, PartialEq, Eq)]
pub enum RuntimeError {
    /// A pop was attempted on an empty operand stack.
    EmptyStack,
    /// `ListPop` was applied to an empty list.
    EmptyList,
    /// A typed pop observed a value of the named kind instead.
    TypeError(String),
    /// `LocalLoad` read a slot that was never stored.
    LocalNotInitialized,
    /// A local slot index was out of range for the current frame.
    LocalNotFound,
    /// The named operation is not defined on the named operand kind.
    OperationNotDefined(String, String),
    /// A list index was outside the bounds: the fields are the index and
    /// the bounds it missed.
    RangeError(i64, i64, i64),
    /// `TableGet` missed: the field is the key that was looked up.
    KeyNotFound(MetaValue),
    /// `Call` named a function absent from the registry.
    FunctionNotFound(String),
    /// Integer division or remainder by zero.
    DivideByZero,
    /// The instruction budget given to the machine ran out before the
    /// program finished.
    BudgetExhausted,
}

/// Builds the error for an operation applied to an operand kind that does
/// not support it.
pub fn operation_not_defined(op_name: &str, kind_name: &str) -> (r: Result<(), RuntimeError>)
    ensures
        r matches Err(e) && e@ == ErrorView::OperationNotDefined(op_name@, kind_name@),
{
    Err(RuntimeError::OperationNotDefined(op_name.to_owned(), kind_name.to_owned()))
}


/// Reports a container length as a machine integer, with the machine's
/// two's-complement wraparound.
fn len_to_int(n: usize) -> (r: i64)
    ensures
        r == crate::vm::semantics::len_as_int(n as nat),
{
    let m = n as u64;
    if m <= (i64::MAX as u64) {
        m as i64
    } else {
        let d = u64::MAX - m;
        (-(d as i64)) - 1
    }
}

/// One active call of the interpreter: the callee, the program counter,
/// and the frame of local slots.
struct Frame {
    func: Function,
    pc: usize,
    env: Env,
}

/// The view of one active call.
spec fn frame_view(f: Frame) -> FrameView {
    FrameView { insts: insts_view(f.func.instructions@), pc: f.pc as nat, env: f.env@ }
}

/// The view of the call stack, frame by frame.
spec fn frames_view(fs: Seq<Frame>) -> Seq<FrameView> {
    fs.map(|i: int, f: Frame| frame_view(f))
}

/// The view of a machine: its operand stack and its registry.
pub ghost struct VmView {
    pub stack: Seq<MetaValueView>,
    pub functions: RegistryView,
}

/// The machine: an operand stack bound to a read-only registry.
///
/// A host seeds arguments with `push`, runs a function by name, and reads
/// results with `pop`.
#[derive(Debug)]
pub struct VM {
    stack: Stack,
    functions: Functions,
}

impl View for VM {
    type V = VmView;

    closed spec fn view(&self) -> VmView {
        VmView { stack: self.stack@, functions: self.functions@ }
    }
}

impl VM {
    /// A machine over the given registry, with an empty operand stack.
    pub fn new(functions: Functions) -> (r: VM)
        ensures
            r@.stack =~= Seq::<MetaValueView>::empty(),
            r@.functions == functions@,
    {
        VM { stack: Stack::new(), functions }
    }

    /// Seeds the operand stack with a value.
    pub fn push(&mut self, val: MetaValue)
        ensures
            final(self)@.stack == old(self)@.stack.push(val@),
            final(self)@.functions == old(self)@.functions,
    {
        self.stack.push(val)
    }

    /// Pops the top of the operand stack, to observe a result.
    pub fn pop(&mut self) -> (r: Result<MetaValue, RuntimeError>)
        ensures
            final(self)@.functions == old(self)@.functions,
            old(self)@.stack.len() == 0 ==> r == Err::<MetaValue, RuntimeError>(
                RuntimeError::EmptyStack,
            ) && final(self)@.stack == old(self)@.stack,
            old(self)@.stack.len() > 0 ==> (r matches Ok(v) && v@ == old(self)@.stack.last()
                && final(self)@.stack == old(self)@.stack.drop_last()),
    {
        self.stack.pop()
    }

    /// Runs the named function with an effectively unbounded instruction
    /// budget: the run finishes, fails, or exhausts that budget.
    pub fn run(&mut self, name: &str) -> (r: Result<(), RuntimeError>)
        ensures
            final(self)@.functions == old(self)@.functions,
            !old(self)@.functions.contains_key(name@) ==> (r matches Err(e) && e@
                == ErrorView::FunctionNotFound(name@) && final(self)@.stack == old(self)@.stack),
            old(self)@.functions.contains_key(name@) ==> {
                let reg = old(self)@.functions;
                let c0 = init_config(
                    reg[name@],
                    Seq::<Option<MetaValueView>>::empty(),
                    old(self)@.stack,
                );
                match r {
                    Ok(u) => exists|m: nat|
                        steps(reg, c0, m) == StepResult::Done(final(self)@.stack),
                    Err(e) => match e {
                        RuntimeError::BudgetExhausted => steps(reg, c0, u64::MAX as nat) is Next
                            && steps(reg, c0, u64::MAX as nat)->Next_0.stack == final(self)@.stack,
                        _ => exists|m: nat|
                            steps(reg, c0, m) == StepResult::Fail(e@, final(self)@.stack),
                    },
                }
            },
    {
        self.run_with_budget(name, u64::MAX)
    }

    /// Runs the named function, spending at most `budget` steps of the
    /// machine's semantics; one instruction dispatch is one step.
    pub fn run_with_budget(&mut self, name: &str, budget: u64) -> (r: Result<(), RuntimeError>)
        ensures
            final(self)@.functions == old(self)@.functions,
            !old(self)@.functions.contains_key(name@) ==> (r matches Err(e) && e@
                == ErrorView::FunctionNotFound(name@) && final(self)@.stack == old(self)@.stack),
            old(self)@.functions.contains_key(name@) ==> {
                let reg = old(self)@.functions;
                let c0 = init_config(
                    reg[name@],
                    Seq::<Option<MetaValueView>>::empty(),
                    old(self)@.stack,
                );
                match r {
                    Ok(u) => exists|m: nat|
                        steps(reg, c0, m) == StepResult::Done(final(self)@.stack),
                    Err(e) => match e {
                        RuntimeError::BudgetExhausted => steps(reg, c0, budget as nat) is Next
                            && steps(reg, c0, budget as nat)->Next_0.stack == final(self)@.stack,
                        _ => exists|m: nat|
                            steps(reg, c0, m) == StepResult::Fail(e@, final(self)@.stack),
                    },
                }
            },
    {
        let function = match self.functions.get(name) {
            Ok(f) => f,
            Err(e) => {
                return Err(e);
            },
        };
        let env = Env::empty();
        proof {
            assert(env@ =~= Seq::<Option<MetaValueView>>::empty());
        }
        self.execute(function, env, budget)
    }

    /// Executes `function` over the current operand stack, its frame
    /// starting as `env` extended by the function's own uninitialised
    /// locals, for at most `budget` steps of the semantics.
    #[verifier::loop_isolation(false)]
    #[verifier::rlimit(60)]
    fn execute(&mut self, function: Function, env: Env, budget: u64) -> (r: Result<
        (),
        RuntimeError,
    >)
        ensures
            final(self)@.functions == old(self)@.functions,
            ({
                let reg = old(self)@.functions;
                let c0 = init_config(function@, env@, old(self)@.stack);
                match r {
                    Ok(u) => exists|m: nat|
                        steps(reg, c0, m) == StepResult::Done(final(self)@.stack),
                    Err(e) => match e {
                        RuntimeError::BudgetExhausted => steps(reg, c0, budget as nat) is Next
                            && steps(reg, c0, budget as nat)->Next_0.stack == final(self)@.stack,
                        _ => exists|m: nat|
                            steps(reg, c0, m) == StepResult::Fail(e@, final(self)@.stack),
                    },
                }
            }),
    {
        let ghost reg: RegistryView = self.functions@;
        let ghost c0: ConfigView = init_config(function@, env@, self.stack@);
        let mut env = env;
        env.reserve(function.locals);
        let mut frames: Vec<Frame> = Vec::new();
        frames.push(Frame { func: function, pc: 0, env });
        proof {
            assert(frames_view(frames@) =~= c0.frames);
        }
        let mut fuel: u64 = budget;
        let ghost mut n: nat = 0nat;
        while frames.len() > 0
            invariant
                self.functions@ == reg,
                n + fuel == budget,
                steps(reg, c0, n) == StepResult::Next(
                    ConfigView { frames: frames_view(frames@), stack: self.stack@ },
                ),
            decreases fuel,
        {
            let ghost prev = ConfigView { frames: frames_view(frames@), stack: self.stack@ };
            if fuel == 0 {
                return Err(RuntimeError::BudgetExhausted);
            }
            fuel = fuel - 1;
            let ti = frames.len() - 1;
            let pc = frames[ti].pc;
            let flen = frames[ti].func.instructions.len();
            proof {
                assert(prev.frames.last() == frame_view(frames@[ti as int]));
            }
            if pc >= flen {
                frames.pop();
                proof {
                    assert(frames_view(frames@) =~= prev.frames.drop_last());
                    assert(step(reg, prev) == StepResult::Next(
                        ConfigView { frames: frames_view(frames@), stack: self.stack@ },
                    ));
                    n = n + 1;
                }
            } else {
                let inst = frames[ti].func.instructions[pc].clone();
                proof {
                    assert(prev.frames.last().insts[pc as int] == inst@);
                }
                match inst {
                    Inst::Nop => {
                        match op_nop(&mut self.stack, &mut frames, Ghost(reg)) {
                            Ok(u) => {
                                proof {
                                    n = n + 1;
                                }
                            },
                            Err(e) => {
                                proof {
                                    assert(steps(reg, c0, n + 1) == StepResult::Fail(
                                        e@,
                                        self.stack@,
                                    ));
                                }
                                return Err(e);
                            },
                        }
                    },
                    Inst::Dup => {
                        match op_dup(&mut self.stack, &mut frames, Ghost(reg)) {
                            Ok(u) => {
                                proof {
                                    n = n + 1;
                                }
                            },
                            Err(e) => {
                                proof {
                                    assert(steps(reg, c0, n + 1) == StepResult::Fail(
                                        e@,
                                        self.stack@,
                                    ));
                                }
                                return Err(e);
                            },
                        }
                    },
                    Inst::Drop => {
                        match op_drop(&mut self.stack, &mut frames, Ghost(reg)) {
                            Ok(u) => {
                                proof {
                                    n = n + 1;
                                }
                            },
                            Err(e) => {
                                proof {
                                    assert(steps(reg, c0, n + 1) == StepResult::Fail(
                                        e@,
                                        self.stack@,
                                    ));
                                }
                                return Err(e);
                            },
                        }
                    },
                    Inst::Swap => {
                        match op_swap(&mut self.stack, &mut frames, Ghost(reg)) {
                            Ok(u) => {
                                proof {
                                    n = n + 1;
                                }
                            },
                            Err(e) => {
                                proof {
                                    assert(steps(reg, c0, n + 1) == StepResult::Fail(
                                        e@,
                                        self.stack@,
                                    ));
                                }
                                return Err(e);
                            },
                        }
                    },
                    Inst::PushB(v) => {
                        match op_push_b(&mut self.stack, &mut frames, v, Ghost(reg)) {
                            Ok(u) => {
                                proof {
                                    n = n + 1;
                                }
                            },
                            Err(e) => {
                                proof {
                                    assert(steps(reg, c0, n + 1) == StepResult::Fail(
                                        e@,
                                        self.stack@,
                                    ));
                                }
                                return Err(e);
                            },
                        }
                    },
                    Inst::PushI(v) => {
                        match op_push_i(&mut self.stack, &mut frames, v, Ghost(reg)) {
                            Ok(u) => {
                                proof {
                                    n = n + 1;
                                }
                            },
                            Err(e) => {
                                proof {
                                    assert(steps(reg, c0, n + 1) == StepResult::Fail(
                                        e@,
                                        self.stack@,
                                    ));
                                }
                                return Err(e);
                            },
                        }
                    },
                    Inst::PushList => {
                        match op_push_list(&mut self.stack, &mut frames, Ghost(reg)) {
                            Ok(u) => {
                                proof {
                                    n = n + 1;
                                }
                            },
                            Err(e) => {
                                proof {
                                    assert(steps(reg, c0, n + 1) == StepResult::Fail(
                                        e@,
                                        self.stack@,
                                    ));
                                }
                                return Err(e);
                            },
                        }
                    },
                    Inst::PushTable => {
                        match op_push_table(&mut self.stack, &mut frames, Ghost(reg)) {
                            Ok(u) => {
                                proof {
                                    n = n + 1;
                                }
                            },
                            Err(e) => {
                                proof {
                                    assert(steps(reg, c0, n + 1) == StepResult::Fail(
                                        e@,
                                        self.stack@,
                                    ));
                                }
                                return Err(e);
                            },
                        }
                    },
                    Inst::PushFn(name) => {
                        match op_push_fn(&mut self.stack, &mut frames, name, Ghost(reg)) {
                            Ok(u) => {
                                proof {
                                    n = n + 1;
                                }
                            },
                            Err(e) => {
                                proof {
                                    assert(steps(reg, c0, n + 1) == StepResult::Fail(
                                        e@,
                                        self.stack@,
                                    ));
                                }
                                return Err(e);
                            },
                        }
                    },
                    Inst::IntoInt => {
                        match op_into_int(&mut self.stack, &mut frames, Ghost(reg)) {
                            Ok(u) => {
                                proof {
                                    n = n + 1;
                                }
                            },
                            Err(e) => {
                                proof {
                                    assert(steps(reg, c0, n + 1) == StepResult::Fail(
                                        e@,
                                        self.stack@,
                                    ));
                                }
                                return Err(e);
                            },
                        }
                    },
                    Inst::And => {
                        match op_and(&mut self.stack, &mut frames, Ghost(reg)) {
                            Ok(u) => {
                                proof {
                                    n = n + 1;
                                }
                            },
                            Err(e) => {
                                proof {
                                    assert(steps(reg, c0, n + 1) == StepResult::Fail(
                                        e@,
                                        self.stack@,
                                    ));
                                }
                                return Err(e);
                            },
                        }
                    },
                    Inst::Or => {
                        match op_or(&mut self.stack, &mut frames, Ghost(reg)) {
                            Ok(u) => {
                                proof {
                                    n = n + 1;
                                }
                            },
                            Err(e) => {
                                proof {
                                    assert(steps(reg, c0, n + 1) == StepResult::Fail(
                                        e@,
                                        self.stack@,
                                    ));
                                }
                                return Err(e);
                            },
                        }
                    },
                    Inst::Xor => {
                        match op_xor(&mut self.stack, &mut frames, Ghost(reg)) {
                            Ok(u) => {
                                proof {
                                    n = n + 1;
                                }
                            },
                            Err(e) => {
                                proof {
                                    assert(steps(reg, c0, n + 1) == StepResult::Fail(
                                        e@,
                                        self.stack@,
                                    ));
                                }
                                return Err(e);
                            },
                        }
                    },
                    Inst::Not => {
                        match op_not(&mut self.stack, &mut frames, Ghost(reg)) {
                            Ok(u) => {
                                proof {
                                    n = n + 1;
                                }
                            },
                            Err(e) => {
                                proof {
                                    assert(steps(reg, c0, n + 1) == StepResult::Fail(
                                        e@,
                                        self.stack@,
                                    ));
                                }
                                return Err(e);
                            },
                        }
                    },
                    Inst::Add => {
                        match op_add(&mut self.stack, &mut frames, Ghost(reg)) {
                            Ok(u) => {
                                proof {
                                    n = n + 1;
                                }
                            },
                            Err(e) => {
                                proof {
                                    assert(steps(reg, c0, n + 1) == StepResult::Fail(
                                        e@,
                                        self.stack@,
                                    ));
                                }
                                return Err(e);
                            },
                        }
                    },
                    Inst::Sub => {
                        match op_sub(&mut self.stack, &mut frames, Ghost(reg)) {
                            Ok(u) => {
                                proof {
                                    n = n + 1;
                                }
                            },
                            Err(e) => {
                                proof {
                                    assert(steps(reg, c0, n + 1) == StepResult::Fail(
                                        e@,
                                        self.stack@,
                                    ));
                                }
                                return Err(e);
                            },
                        }
                    },
                    Inst::Mul => {
                        match op_mul(&mut self.stack, &mut frames, Ghost(reg)) {
                            Ok(u) => {
                                proof {
                                    n = n + 1;
                                }
                            },
                            Err(e) => {
                                proof {
                                    assert(steps(reg, c0, n + 1) == StepResult::Fail(
                                        e@,
                                        self.stack@,
                                    ));
                                }
                                return Err(e);
                            },
                        }
                    },
                    Inst::Div => {
                        match op_div(&mut self.stack, &mut frames, Ghost(reg)) {
                            Ok(u) => {
                                proof {
                                    n = n + 1;
                                }
                            },
                            Err(e) => {
                                proof {
                                    assert(steps(reg, c0, n + 1) == StepResult::Fail(
                                        e@,
                                        self.stack@,
                                    ));
                                }
                                return Err(e);
                            },
                        }
                    },
                    Inst::Mod => {
                        match op_rem(&mut self.stack, &mut frames, Ghost(reg)) {
                            Ok(u) => {
                                proof {
                                    n = n + 1;
                                }
                            },
                            Err(e) => {
                                proof {
                                    assert(steps(reg, c0, n + 1) == StepResult::Fail(
                                        e@,
                                        self.stack@,
                                    ));
                                }
                                return Err(e);
                            },
                        }
                    },
                    Inst::Equal => {
                        match op_equal(&mut self.stack, &mut frames, Ghost(reg)) {
                            Ok(u) => {
                                proof {
                                    n = n + 1;
                                }
                            },
                            Err(e) => {
                                proof {
                                    assert(steps(reg, c0, n + 1) == StepResult::Fail(
                                        e@,
                                        self.stack@,
                                    ));
                                }
                                return Err(e);
                            },
                        }
                    },
                    Inst::NotEqual => {
                        match op_not_equal(&mut self.stack, &mut frames, Ghost(reg)) {
                            Ok(u) => {
                                proof {
                                    n = n + 1;
                                }
                            },
                            Err(e) => {
                                proof {
                                    assert(steps(reg, c0, n + 1) == StepResult::Fail(
                                        e@,
                                        self.stack@,
                                    ));
                                }
                                return Err(e);
                            },
                        }
                    },
                    Inst::LessThan => {
                        match op_less_than(&mut self.stack, &mut frames, Ghost(reg)) {
                            Ok(u) => {
                                proof {
                                    n = n + 1;
                                }
                            },
                            Err(e) => {
                                proof {
                                    assert(steps(reg, c0, n + 1) == StepResult::Fail(
                                        e@,
                                        self.stack@,
                                    ));
                                }
                                return Err(e);
                            },
                        }
                    },
                    Inst::GreaterThan => {
                        match op_greater_than(&mut self.stack, &mut frames, Ghost(reg)) {
                            Ok(u) => {
                                proof {
                                    n = n + 1;
                                }
                            },
                            Err(e) => {
                                proof {
                                    assert(steps(reg, c0, n + 1) == StepResult::Fail(
                                        e@,
                                        self.stack@,
                                    ));
                                }
                                return Err(e);
                            },
                        }
                    },
                    Inst::LessEqual => {
                        match op_less_equal(&mut self.stack, &mut frames, Ghost(reg)) {
                            Ok(u) => {
                                proof {
                                    n = n + 1;
                                }
                            },
                            Err(e) => {
                                proof {
                                    assert(steps(reg, c0, n + 1) == StepResult::Fail(
                                        e@,
                                        self.stack@,
                                    ));
                                }
                                return Err(e);
                            },
                        }
                    },
                    Inst::GreaterEqual => {
                        match op_greater_equal(&mut self.stack, &mut frames, Ghost(reg)) {
                            Ok(u) => {
                                proof {
                                    n = n + 1;
                                }
                            },
                            Err(e) => {
                                proof {
                                    assert(steps(reg, c0, n + 1) == StepResult::Fail(
                                        e@,
                                        self.stack@,
                                    ));
                                }
                                return Err(e);
                            },
                        }
                    },
                    Inst::Branch(t) => {
                        match op_branch(&mut self.stack, &mut frames, t, Ghost(reg)) {
                            Ok(u) => {
                                proof {
                                    n = n + 1;
                                }
                            },
                            Err(e) => {
                                proof {
                                    assert(steps(reg, c0, n + 1) == StepResult::Fail(
                                        e@,
                                        self.stack@,
                                    ));
                                }
                                return Err(e);
                            },
                        }
                    },
                    Inst::BranchIf(t) => {
                        match op_branch_if(&mut self.stack, &mut frames, t, Ghost(reg)) {
                            Ok(u) => {
                                proof {
                                    n = n + 1;
                                }
                            },
                            Err(e) => {
                                proof {
                                    assert(steps(reg, c0, n + 1) == StepResult::Fail(
                                        e@,
                                        self.stack@,
                                    ));
                                }
                                return Err(e);
                            },
                        }
                    },
                    Inst::BranchIfNot(t) => {
                        match op_branch_if_not(&mut self.stack, &mut frames, t, Ghost(reg)) {
                            Ok(u) => {
                                proof {
                                    n = n + 1;
                                }
                            },
                            Err(e) => {
                                proof {
                                    assert(steps(reg, c0, n + 1) == StepResult::Fail(
                                        e@,
                                        self.stack@,
                                    ));
                                }
                                return Err(e);
                            },
                        }
                    },
                    Inst::Call => {
                        match op_call(&mut self.stack, &mut frames, &self.functions, Ghost(reg)) {
                            Ok(u) => {
                                proof {
                                    n = n + 1;
                                }
                            },
                            Err(e) => {
                                proof {
                                    assert(steps(reg, c0, n + 1) == StepResult::Fail(
                                        e@,
                                        self.stack@,
                                    ));
                                }
                                return Err(e);
                            },
                        }
                    },
                    Inst::Bind => {
                        match op_bind(&mut self.stack, &mut frames, Ghost(reg)) {
                            Ok(u) => {
                                proof {
                                    n = n + 1;
                                }
                            },
                            Err(e) => {
                                proof {
                                    assert(steps(reg, c0, n + 1) == StepResult::Fail(
                                        e@,
                                        self.stack@,
                                    ));
                                }
                                return Err(e);
                            },
                        }
                    },
                    Inst::Return => {
                        match op_return(&mut self.stack, &mut frames, Ghost(reg)) {
                            Ok(u) => {
                                proof {
                                    n = n + 1;
                                }
                            },
                            Err(e) => {
                                proof {
                                    assert(steps(reg, c0, n + 1) == StepResult::Fail(
                                        e@,
                                        self.stack@,
                                    ));
                                }
                                return Err(e);
                            },
                        }
                    },
                    Inst::LocalLoad(idx) => {
                        match op_local_load(&mut self.stack, &mut frames, idx, Ghost(reg)) {
                            Ok(u) => {
                                proof {
                                    n = n + 1;
                                }
                            },
                            Err(e) => {
                                proof {
                                    assert(steps(reg, c0, n + 1) == StepResult::Fail(
                                        e@,
                                        self.stack@,
                                    ));
                                }
                                return Err(e);
                            },
                        }
                    },
                    Inst::LocalStore(idx) => {
                        match op_local_store(&mut self.stack, &mut frames, idx, Ghost(reg)) {
                            Ok(u) => {
                                proof {
                                    n = n + 1;
                                }
                            },
                            Err(e) => {
                                proof {
                                    assert(steps(reg, c0, n + 1) == StepResult::Fail(
                                        e@,
                                        self.stack@,
                                    ));
                                }
                                return Err(e);
                            },
                        }
                    },
                    Inst::ListPush => {
                        match op_list_push(&mut self.stack, &mut frames, Ghost(reg)) {
                            Ok(u) => {
                                proof {
                                    n = n + 1;
                                }
                            },
                            Err(e) => {
                                proof {
                                    assert(steps(reg, c0, n + 1) == StepResult::Fail(
                                        e@,
                                        self.stack@,
                                    ));
                                }
                                return Err(e);
                            },
                        }
                    },
                    Inst::ListPop => {
                        match op_list_pop(&mut self.stack, &mut frames, Ghost(reg)) {
                            Ok(u) => {
                                proof {
                                    n = n + 1;
                                }
                            },
                            Err(e) => {
                                proof {
                                    assert(steps(reg, c0, n + 1) == StepResult::Fail(
                                        e@,
                                        self.stack@,
                                    ));
                                }
                                return Err(e);
                            },
                        }
                    },
                    Inst::ListGet => {
                        match op_list_get(&mut self.stack, &mut frames, Ghost(reg)) {
                            Ok(u) => {
                                proof {
                                    n = n + 1;
                                }
                            },
                            Err(e) => {
                                proof {
                                    assert(steps(reg, c0, n + 1) == StepResult::Fail(
                                        e@,
                                        self.stack@,
                                    ));
                                }
                                return Err(e);
                            },
                        }
                    },
                    Inst::ListSet => {
                        match op_list_set(&mut self.stack, &mut frames, Ghost(reg)) {
                            Ok(u) => {
                                proof {
                                    n = n + 1;
                                }
                            },
                            Err(e) => {
                                proof {
                                    assert(steps(reg, c0, n + 1) == StepResult::Fail(
                                        e@,
                                        self.stack@,
                                    ));
                                }
                                return Err(e);
                            },
                        }
                    },
                    Inst::ListLen => {
                        match op_list_len(&mut self.stack, &mut frames, Ghost(reg)) {
                            Ok(u) => {
                                proof {
                                    n = n + 1;
                                }
                            },
                            Err(e) => {
                                proof {
                                    assert(steps(reg, c0, n + 1) == StepResult::Fail(
                                        e@,
                                        self.stack@,
                                    ));
                                }
                                return Err(e);
                            },
                        }
                    },
                    Inst::TableGet => {
                        match op_table_get(&mut self.stack, &mut frames, Ghost(reg)) {
                            Ok(u) => {
                                proof {
                                    n = n + 1;
                                }
                            },
                            Err(e) => {
                                proof {
                                    assert(steps(reg, c0, n + 1) == StepResult::Fail(
                                        e@,
                                        self.stack@,
                                    ));
                                }
                                return Err(e);
                            },
                        }
                    },
                    Inst::TableSet => {
                        match op_table_set(&mut self.stack, &mut frames, Ghost(reg)) {
                            Ok(u) => {
                                proof {
                                    n = n + 1;
                                }
                            },
                            Err(e) => {
                                proof {
                                    assert(steps(reg, c0, n + 1) == StepResult::Fail(
                                        e@,
                                        self.stack@,
                                    ));
                                }
                                return Err(e);
                            },
                        }
                    },
                    Inst::TableKeys => {
                        match op_table_keys(&mut self.stack, &mut frames, Ghost(reg)) {
                            Ok(u) => {
                                proof {
                                    n = n + 1;
                                }
                            },
                            Err(e) => {
                                proof {
                                    assert(steps(reg, c0, n + 1) == StepResult::Fail(
                                        e@,
                                        self.stack@,
                                    ));
                                }
                                return Err(e);
                            },
                        }
                    },
                    Inst::TableLen => {
                        match op_table_len(&mut self.stack, &mut frames, Ghost(reg)) {
                            Ok(u) => {
                                proof {
                                    n = n + 1;
                                }
                            },
                            Err(e) => {
                                proof {
                                    assert(steps(reg, c0, n + 1) == StepResult::Fail(
                                        e@,
                                        self.stack@,
                                    ));
                                }
                                return Err(e);
                            },
                        }
                    },
                    Inst::LoadMeta => {
                        match op_load_meta(&mut self.stack, &mut frames, Ghost(reg)) {
                            Ok(u) => {
                                proof {
                                    n = n + 1;
                                }
                            },
                            Err(e) => {
                                proof {
                                    assert(steps(reg, c0, n + 1) == StepResult::Fail(
                                        e@,
                                        self.stack@,
                                    ));
                                }
                                return Err(e);
                            },
                        }
                    },
                    Inst::StoreMeta => {
                        match op_store_meta(&mut self.stack, &mut frames, Ghost(reg)) {
                            Ok(u) => {
                                proof {
                                    n = n + 1;
                                }
                            },
                            Err(e) => {
                                proof {
                                    assert(steps(reg, c0, n + 1) == StepResult::Fail(
                                        e@,
                                        self.stack@,
                                    ));
                                }
                                return Err(e);
                            },
                        }
                    },
                }
            }
        }
        proof {
            assert(step(
                reg,
                ConfigView { frames: frames_view(frames@), stack: self.stack@ },
            ) == StepResult::Done(self.stack@));
            assert(steps(reg, c0, n + 1) == StepResult::Done(self.stack@));
        }
        Ok(())
    }
}

/// Performs one `step` of the semantics for `nop`: on success the
/// frames and operand stack hold the next configuration; on failure the
/// operand stack is as the failing instruction left it.
fn op_nop(stack: &mut Stack, frames: &mut Vec<Frame>, Ghost(reg): Ghost<RegistryView>) -> (r: Result<
    (),
    RuntimeError,
>)
    requires
        old(frames)@.len() > 0,
        ({
            let fr = frames_view(old(frames)@).last();
            fr.pc < fr.insts.len() && fr.insts[fr.pc as int] == InstView::Nop
        }),
    ensures
        ({
            let prev = ConfigView { frames: frames_view(old(frames)@), stack: old(stack)@ };
            match r {
                Ok(u) => step(reg, prev) == StepResult::Next(
                    ConfigView { frames: frames_view(final(frames)@), stack: final(stack)@ },
                ),
                Err(e) => step(reg, prev) == StepResult::Fail(e@, final(stack)@),
            }
        }),
{
    let ghost prev = ConfigView { frames: frames_view(frames@), stack: stack@ };
    let ti = frames.len() - 1;
    let pc = frames[ti].pc;
    let flen = frames[ti].func.instructions.len();
    proof {
        assert(prev.frames.last() == frame_view(frames@[ti as int]));
        assert(pc < flen);
    }
    frames[ti].pc = pc + 1;
    proof {
        assert(frames_view(frames@) =~= prev.frames.update(
            ti as int,
            FrameView {
                insts: prev.frames[ti as int].insts,
                pc: (pc + 1) as nat,
                env: prev.frames[ti as int].env,
            },
        ));
        assert(step(reg, prev) == StepResult::Next(
            ConfigView { frames: frames_view(frames@), stack: stack@ },
        ));
    }
    Ok(())
}

/// Performs one `step` of the semantics for `dup`: on success the
/// frames and operand stack hold the next configuration; on failure the
/// operand stack is as the failing instruction left it.
fn op_dup(stack: &mut Stack, frames: &mut Vec<Frame>, Ghost(reg): Ghost<RegistryView>) -> (r: Result<
    (),
    RuntimeError,
>)
    requires
        old(frames)@.len() > 0,
        ({
            let fr = frames_view(old(frames)@).last();
            fr.pc < fr.insts.len() && fr.insts[fr.pc as int] == InstView::Dup
        }),
    ensures
        ({
            let prev = ConfigView { frames: frames_view(old(frames)@), stack: old(stack)@ };
            match r {
                Ok(u) => step(reg, prev) == StepResult::Next(
                    ConfigView { frames: frames_view(final(frames)@), stack: final(stack)@ },
                ),
                Err(e) => step(reg, prev) == StepResult::Fail(e@, final(stack)@),
            }
        }),
{
    let ghost prev = ConfigView { frames: frames_view(frames@), stack: stack@ };
    let ti = frames.len() - 1;
    let pc = frames[ti].pc;
    let flen = frames[ti].func.instructions.len();
    proof {
        assert(prev.frames.last() == frame_view(frames@[ti as int]));
        assert(pc < flen);
    }
    let v = match stack.pop() {
        Ok(v) => v,
        Err(e) => {
            proof {
                assert(step(reg, prev) == StepResult::Fail(e@, stack@));
            }
            return Err(e);
        },
    };
    let copy = deep_clone(&v);
    stack.push(copy);
    stack.push(v);
    frames[ti].pc = pc + 1;
    proof {
        assert(stack@ =~= prev.stack.push(prev.stack.last()));
    }
    proof {
        assert(frames_view(frames@) =~= prev.frames.update(
            ti as int,
            FrameView {
                insts: prev.frames[ti as int].insts,
                pc: (pc + 1) as nat,
                env: prev.frames[ti as int].env,
            },
        ));
        assert(step(reg, prev) == StepResult::Next(
            ConfigView { frames: frames_view(frames@), stack: stack@ },
        ));
    }
    Ok(())
}

/// Performs one `step` of the semantics for `drop`: on success the
/// frames and operand stack hold the next configuration; on failure the
/// operand stack is as the failing instruction left it.
fn op_drop(stack: &mut Stack, frames: &mut Vec<Frame>, Ghost(reg): Ghost<RegistryView>) -> (r: Result<
    (),
    RuntimeError,
>)
    requires
        old(frames)@.len() > 0,
        ({
            let fr = frames_view(old(frames)@).last();
            fr.pc < fr.insts.len() && fr.insts[fr.pc as int] == InstView::Drop
        }),
    ensures
        ({
            let prev = ConfigView { frames: frames_view(old(frames)@), stack: old(stack)@ };
            match r {
                Ok(u) => step(reg, prev) == StepResult::Next(
                    ConfigView { frames: frames_view(final(frames)@), stack: final(stack)@ },
                ),
                Err(e) => step(reg, prev) == StepResult::Fail(e@, final(stack)@),
            }
        }),
{
    let ghost prev = ConfigView { frames: frames_view(frames@), stack: stack@ };
    let ti = frames.len() - 1;
    let pc = frames[ti].pc;
    let flen = frames[ti].func.instructions.len();
    proof {
        assert(prev.frames.last() == frame_view(frames@[ti as int]));
        assert(pc < flen);
    }
    let v = match stack.pop() {
        Ok(v) => v,
        Err(e) => {
            proof {
                assert(step(reg, prev) == StepResult::Fail(e@, stack@));
            }
            return Err(e);
        },
    };
    frames[ti].pc = pc + 1;
    proof {
        assert(frames_view(frames@) =~= prev.frames.update(
            ti as int,
            FrameView {
                insts: prev.frames[ti as int].insts,
                pc: (pc + 1) as nat,
                env: prev.frames[ti as int].env,
            },
        ));
        assert(step(reg, prev) == StepResult::Next(
            ConfigView { frames: frames_view(frames@), stack: stack@ },
        ));
    }
    Ok(())
}

/// Performs one `step` of the semantics for `swap`: on success the
/// frames and operand stack hold the next configuration; on failure the
/// operand stack is as the failing instruction left it.
fn op_swap(stack: &mut Stack, frames: &mut Vec<Frame>, Ghost(reg): Ghost<RegistryView>) -> (r: Result<
    (),
    RuntimeError,
>)
    requires
        old(frames)@.len() > 0,
        ({
            let fr = frames_view(old(frames)@).last();
            fr.pc < fr.insts.len() && fr.insts[fr.pc as int] == InstView::Swap
        }),
    ensures
        ({
            let prev = ConfigView { frames: frames_view(old(frames)@), stack: old(stack)@ };
            match r {
                Ok(u) => step(reg, prev) == StepResult::Next(
                    ConfigView { frames: frames_view(final(frames)@), stack: final(stack)@ },
                ),
                Err(e) => step(reg, prev) == StepResult::Fail(e@, final(stack)@),
            }
        }),
{
    let ghost prev = ConfigView { frames: frames_view(frames@), stack: stack@ };
    let ti = frames.len() - 1;
    let pc = frames[ti].pc;
    let flen = frames[ti].func.instructions.len();
    proof {
        assert(prev.frames.last() == frame_view(frames@[ti as int]));
        assert(pc < flen);
    }
    let a = match stack.pop() {
        Ok(v) => v,
        Err(e) => {
            proof {
                assert(step(reg, prev) == StepResult::Fail(e@, stack@));
            }
            return Err(e);
        },
    };
    let b = match stack.pop() {
        Ok(v) => v,
        Err(e) => {
            proof {
                assert(step(reg, prev) == StepResult::Fail(e@, stack@));
            }
            return Err(e);
        },
    };
    stack.push(a);
    stack.push(b);
    frames[ti].pc = pc + 1;
    proof {
        assert(frames_view(frames@) =~= prev.frames.update(
            ti as int,
            FrameView {
                insts: prev.frames[ti as int].insts,
                pc: (pc + 1) as nat,
                env: prev.frames[ti as int].env,
            },
        ));
        assert(step(reg, prev) == StepResult::Next(
            ConfigView { frames: frames_view(frames@), stack: stack@ },
        ));
    }
    Ok(())
}

/// Performs one `step` of the semantics for `push_b`: on success the
/// frames and operand stack hold the next configuration; on failure the
/// operand stack is as the failing instruction left it.
fn op_push_b(stack: &mut Stack, frames: &mut Vec<Frame>, v: bool, Ghost(reg): Ghost<RegistryView>) -> (r: Result<
    (),
    RuntimeError,
>)
    requires
        old(frames)@.len() > 0,
        ({
            let fr = frames_view(old(frames)@).last();
            fr.pc < fr.insts.len() && fr.insts[fr.pc as int] == InstView::PushB(v)
        }),
    ensures
        ({
            let prev = ConfigView { frames: frames_view(old(frames)@), stack: old(stack)@ };
            match r {
                Ok(u) => step(reg, prev) == StepResult::Next(
                    ConfigView { frames: frames_view(final(frames)@), stack: final(stack)@ },
                ),
                Err(e) => step(reg, prev) == StepResult::Fail(e@, final(stack)@),
            }
        }),
{
    let ghost prev = ConfigView { frames: frames_view(frames@), stack: stack@ };
    let ti = frames.len() - 1;
    let pc = frames[ti].pc;
    let flen = frames[ti].func.instructions.len();
    proof {
        assert(prev.frames.last() == frame_view(frames@[ti as int]));
        assert(pc < flen);
    }
    stack.push_bool(v);
    frames[ti].pc = pc + 1;
    proof {
        assert(frames_view(frames@) =~= prev.frames.update(
            ti as int,
            FrameView {
                insts: prev.frames[ti as int].insts,
                pc: (pc + 1) as nat,
                env: prev.frames[ti as int].env,
            },
        ));
        assert(step(reg, prev) == StepResult::Next(
            ConfigView { frames: frames_view(frames@), stack: stack@ },
        ));
    }
    Ok(())
}

/// Performs one `step` of the semantics for `push_i`: on success the
/// frames and operand stack hold the next configuration; on failure the
/// operand stack is as the failing instruction left it.
fn op_push_i(stack: &mut Stack, frames: &mut Vec<Frame>, v: i64, Ghost(reg): Ghost<RegistryView>) -> (r: Result<
    (),
    RuntimeError,
>)
    requires
        old(frames)@.len() > 0,
        ({
            let fr = frames_view(old(frames)@).last();
            fr.pc < fr.insts.len() && fr.insts[fr.pc as int] == InstView::PushI(v)
        }),
    ensures
        ({
            let prev = ConfigView { frames: frames_view(old(frames)@), stack: old(stack)@ };
            match r {
                Ok(u) => step(reg, prev) == StepResult::Next(
                    ConfigView { frames: frames_view(final(frames)@), stack: final(stack)@ },
                ),
                Err(e) => step(reg, prev) == StepResult::Fail(e@, final(stack)@),
            }
        }),
{
    let ghost prev = ConfigView { frames: frames_view(frames@), stack: stack@ };
    let ti = frames.len() - 1;
    let pc = frames[ti].pc;
    let flen = frames[ti].func.instructions.len();
    proof {
        assert(prev.frames.last() == frame_view(frames@[ti as int]));
        assert(pc < flen);
    }
    stack.push_int(v);
    frames[ti].pc = pc + 1;
    proof {
        assert(frames_view(frames@) =~= prev.frames.update(
            ti as int,
            FrameView {
                insts: prev.frames[ti as int].insts,
                pc: (pc + 1) as nat,
                env: prev.frames[ti as int].env,
            },
        ));
        assert(step(reg, prev) == StepResult::Next(
            ConfigView { frames: frames_view(frames@), stack: stack@ },
        ));
    }
    Ok(())
}

/// Performs one `step` of the semantics for `push_list`: on success the
/// frames and operand stack hold the next configuration; on failure the
/// operand stack is as the failing instruction left it.
fn op_push_list(stack: &mut Stack, frames: &mut Vec<Frame>, Ghost(reg): Ghost<RegistryView>) -> (r: Result<
    (),
    RuntimeError,
>)
    requires
        old(frames)@.len() > 0,
        ({
            let fr = frames_view(old(frames)@).last();
            fr.pc < fr.insts.len() && fr.insts[fr.pc as int] == InstView::PushList
        }),
    ensures
        ({
            let prev = ConfigView { frames: frames_view(old(frames)@), stack: old(stack)@ };
            match r {
                Ok(u) => step(reg, prev) == StepResult::Next(
                    ConfigView { frames: frames_view(final(frames)@), stack: final(stack)@ },
                ),
                Err(e) => step(reg, prev) == StepResult::Fail(e@, final(stack)@),
            }
        }),
{
    let ghost prev = ConfigView { frames: frames_view(frames@), stack: stack@ };
    let ti = frames.len() - 1;
    let pc = frames[ti].pc;
    let flen = frames[ti].func.instructions.len();
    proof {
        assert(prev.frames.last() == frame_view(frames@[ti as int]));
        assert(pc < flen);
    }
    let l: Vec<MetaValue> = Vec::new();
    proof {
        assert(crate::vm::value::list_view(l) =~= Seq::<MetaValueView>::empty());
    }
    stack.push_list(l);
    frames[ti].pc = pc + 1;
    proof {
        assert(frames_view(frames@) =~= prev.frames.update(
            ti as int,
            FrameView {
                insts: prev.frames[ti as int].insts,
                pc: (pc + 1) as nat,
                env: prev.frames[ti as int].env,
            },
        ));
        assert(step(reg, prev) == StepResult::Next(
            ConfigView { frames: frames_view(frames@), stack: stack@ },
        ));
    }
    Ok(())
}

/// Performs one `step` of the semantics for `push_table`: on success the
/// frames and operand stack hold the next configuration; on failure the
/// operand stack is as the failing instruction left it.
fn op_push_table(stack: &mut Stack, frames: &mut Vec<Frame>, Ghost(reg): Ghost<RegistryView>) -> (r: Result<
    (),
    RuntimeError,
>)
    requires
        old(frames)@.len() > 0,
        ({
            let fr = frames_view(old(frames)@).last();
            fr.pc < fr.insts.len() && fr.insts[fr.pc as int] == InstView::PushTable
        }),
    ensures
        ({
            let prev = ConfigView { frames: frames_view(old(frames)@), stack: old(stack)@ };
            match r {
                Ok(u) => step(reg, prev) == StepResult::Next(
                    ConfigView { frames: frames_view(final(frames)@), stack: final(stack)@ },
                ),
                Err(e) => step(reg, prev) == StepResult::Fail(e@, final(stack)@),
            }
        }),
{
    let ghost prev = ConfigView { frames: frames_view(frames@), stack: stack@ };
    let ti = frames.len() - 1;
    let pc = frames[ti].pc;
    let flen = frames[ti].func.instructions.len();
    proof {
        assert(prev.frames.last() == frame_view(frames@[ti as int]));
        assert(pc < flen);
    }
    let t = crate::vm::value::Table::new();
    stack.push_table(t);
    frames[ti].pc = pc + 1;
    proof {
        assert(frames_view(frames@) =~= prev.frames.update(
            ti as int,
            FrameView {
                insts: prev.frames[ti as int].insts,
                pc: (pc + 1) as nat,
                env: prev.frames[ti as int].env,
            },
        ));
        assert(step(reg, prev) == StepResult::Next(
            ConfigView { frames: frames_view(frames@), stack: stack@ },
        ));
    }
    Ok(())
}

/// Performs one `step` of the semantics for `push_fn`: on success the
/// frames and operand stack hold the next configuration; on failure the
/// operand stack is as the failing instruction left it.
fn op_push_fn(stack: &mut Stack, frames: &mut Vec<Frame>, name: String, Ghost(reg): Ghost<RegistryView>) -> (r: Result<
    (),
    RuntimeError,
>)
    requires
        old(frames)@.len() > 0,
        ({
            let fr = frames_view(old(frames)@).last();
            fr.pc < fr.insts.len() && fr.insts[fr.pc as int] == InstView::PushFn(name@)
        }),
    ensures
        ({
            let prev = ConfigView { frames: frames_view(old(frames)@), stack: old(stack)@ };
            match r {
                Ok(u) => step(reg, prev) == StepResult::Next(
                    ConfigView { frames: frames_view(final(frames)@), stack: final(stack)@ },
                ),
                Err(e) => step(reg, prev) == StepResult::Fail(e@, final(stack)@),
            }
        }),
{
    let ghost prev = ConfigView { frames: frames_view(frames@), stack: stack@ };
    let ti = frames.len() - 1;
    let pc = frames[ti].pc;
    let flen = frames[ti].func.instructions.len();
    proof {
        assert(prev.frames.last() == frame_view(frames@[ti as int]));
        assert(pc < flen);
    }
    let f = crate::vm::value::FunctionRef::of_name(name);
    stack.push_function_ref(f);
    frames[ti].pc = pc + 1;
    proof {
        assert(frames_view(frames@) =~= prev.frames.update(
            ti as int,
            FrameView {
                insts: prev.frames[ti as int].insts,
                pc: (pc + 1) as nat,
                env: prev.frames[ti as int].env,
            },
        ));
        assert(step(reg, prev) == StepResult::Next(
            ConfigView { frames: frames_view(frames@), stack: stack@ },
        ));
    }
    Ok(())
}

/// Performs one `step` of the semantics for `into_int`: on success the
/// frames and operand stack hold the next configuration; on failure the
/// operand stack is as the failing instruction left it.
#[verifier::rlimit(60)]
fn op_into_int(stack: &mut Stack, frames: &mut Vec<Frame>, Ghost(reg): Ghost<RegistryView>) -> (r: Result<
    (),
    RuntimeError,
>)
    requires
        old(frames)@.len() > 0,
        ({
            let fr = frames_view(old(frames)@).last();
            fr.pc < fr.insts.len() && fr.insts[fr.pc as int] == InstView::IntoInt
        }),
    ensures
        ({
            let prev = ConfigView { frames: frames_view(old(frames)@), stack: old(stack)@ };
            match r {
                Ok(u) => step(reg, prev) == StepResult::Next(
                    ConfigView { frames: frames_view(final(frames)@), stack: final(stack)@ },
                ),
                Err(e) => step(reg, prev) == StepResult::Fail(e@, final(stack)@),
            }
        }),
{
    let ghost prev = ConfigView { frames: frames_view(frames@), stack: stack@ };
    let ti = frames.len() - 1;
    let pc = frames[ti].pc;
    let flen = frames[ti].func.instructions.len();
    proof {
        assert(prev.frames.last() == frame_view(frames@[ti as int]));
        assert(pc < flen);
    }
    let mv = match stack.pop() {
        Ok(v) => v,
        Err(e) => {
            proof {
                assert(step(reg, prev) == StepResult::Fail(e@, stack@));
            }
            return Err(e);
        },
    };
    match mv.value {
        Value::Bool(b) => {
            stack.push_int(if b { 1 } else { 0 });
            frames[ti].pc = pc + 1;
            proof {
                assert(frames_view(frames@) =~= prev.frames.update(
                    ti as int,
                    FrameView {
                        insts: prev.frames[ti as int].insts,
                        pc: (pc + 1) as nat,
                        env: prev.frames[ti as int].env,
                    },
                ));
                assert(step(reg, prev) == StepResult::Next(
                    ConfigView { frames: frames_view(frames@), stack: stack@ },
                ));
            }
            return Ok(());
        },
        Value::Int(i) => {
            stack.push_int(i);
            frames[ti].pc = pc + 1;
            proof {
                assert(frames_view(frames@) =~= prev.frames.update(
                    ti as int,
                    FrameView {
                        insts: prev.frames[ti as int].insts,
                        pc: (pc + 1) as nat,
                        env: prev.frames[ti as int].env,
                    },
                ));
                assert(step(reg, prev) == StepResult::Next(
                    ConfigView { frames: frames_view(frames@), stack: stack@ },
                ));
            }
            return Ok(());
        },
        Value::List(l) => {
            let ghost lv = crate::vm::value::list_view(l);
            let out = len_to_int(l.len());
            proof {
                assert(lv.len() == l@.len());
                assert(out == crate::vm::semantics::len_as_int(lv.len()));
                assert(prev.stack.last().value == ValueView::List(lv));
            }
            stack.push_int(out);
            frames[ti].pc = pc + 1;
            proof {
                assert(frames_view(frames@) =~= prev.frames.update(
                    ti as int,
                    FrameView {
                        insts: prev.frames[ti as int].insts,
                        pc: (pc + 1) as nat,
                        env: prev.frames[ti as int].env,
                    },
                ));
                assert(step(reg, prev) == StepResult::Next(
                    ConfigView { frames: frames_view(frames@), stack: stack@ },
                ));
            }
            return Ok(());
        },
        Value::Table(t) => {
            stack.push_int(len_to_int(t.len()));
            frames[ti].pc = pc + 1;
            proof {
                assert(frames_view(frames@) =~= prev.frames.update(
                    ti as int,
                    FrameView {
                        insts: prev.frames[ti as int].insts,
                        pc: (pc + 1) as nat,
                        env: prev.frames[ti as int].env,
                    },
                ));
                assert(step(reg, prev) == StepResult::Next(
                    ConfigView { frames: frames_view(frames@), stack: stack@ },
                ));
            }
            return Ok(());
        },
        Value::FunctionRef(_) => {
            let e = RuntimeError::OperationNotDefined("into_int".to_owned(), mv.kind_name());
            proof {
                assert(step(reg, prev) == StepResult::Fail(e@, stack@));
            }
            return Err(e);
        },
    }
}

/// Performs one `step` of the semantics for `and`: on success the
/// frames and operand stack hold the next configuration; on failure the
/// operand stack is as the failing instruction left it.
fn op_and(stack: &mut Stack, frames: &mut Vec<Frame>, Ghost(reg): Ghost<RegistryView>) -> (r: Result<
    (),
    RuntimeError,
>)
    requires
        old(frames)@.len() > 0,
        ({
            let fr = frames_view(old(frames)@).last();
            fr.pc < fr.insts.len() && fr.insts[fr.pc as int] == InstView::And
        }),
    ensures
        ({
            let prev = ConfigView { frames: frames_view(old(frames)@), stack: old(stack)@ };
            match r {
                Ok(u) => step(reg, prev) == StepResult::Next(
                    ConfigView { frames: frames_view(final(frames)@), stack: final(stack)@ },
                ),
                Err(e) => step(reg, prev) == StepResult::Fail(e@, final(stack)@),
            }
        }),
{
    let ghost prev = ConfigView { frames: frames_view(frames@), stack: stack@ };
    let ti = frames.len() - 1;
    let pc = frames[ti].pc;
    let flen = frames[ti].func.instructions.len();
    proof {
        assert(prev.frames.last() == frame_view(frames@[ti as int]));
        assert(pc < flen);
    }
    let b = match stack.pop_bool() {
        Ok(v) => v,
        Err(e) => {
            proof {
                assert(step(reg, prev) == StepResult::Fail(e@, stack@));
            }
            return Err(e);
        },
    };
    let a = match stack.pop_bool() {
        Ok(v) => v,
        Err(e) => {
            proof {
                assert(step(reg, prev) == StepResult::Fail(e@, stack@));
            }
            return Err(e);
        },
    };
    stack.push_bool(a && b);
    frames[ti].pc = pc + 1;
    proof {
        assert(frames_view(frames@) =~= prev.frames.update(
            ti as int,
            FrameView {
                insts: prev.frames[ti as int].insts,
                pc: (pc + 1) as nat,
                env: prev.frames[ti as int].env,
            },
        ));
        assert(step(reg, prev) == StepResult::Next(
            ConfigView { frames: frames_view(frames@), stack: stack@ },
        ));
    }
    Ok(())
}

/// Performs one `step` of the semantics for `or`: on success the
/// frames and operand stack hold the next configuration; on failure the
/// operand stack is as the failing instruction left it.
fn op_or(stack: &mut Stack, frames: &mut Vec<Frame>, Ghost(reg): Ghost<RegistryView>) -> (r: Result<
    (),
    RuntimeError,
>)
    requires
        old(frames)@.len() > 0,
        ({
            let fr = frames_view(old(frames)@).last();
            fr.pc < fr.insts.len() && fr.insts[fr.pc as int] == InstView::Or
        }),
    ensures
        ({
            let prev = ConfigView { frames: frames_view(old(frames)@), stack: old(stack)@ };
            match r {
                Ok(u) => step(reg, prev) == StepResult::Next(
                    ConfigView { frames: frames_view(final(frames)@), stack: final(stack)@ },
                ),
                Err(e) => step(reg, prev) == StepResult::Fail(e@, final(stack)@),
            }
        }),
{
    let ghost prev = ConfigView { frames: frames_view(frames@), stack: stack@ };
    let ti = frames.len() - 1;
    let pc = frames[ti].pc;
    let flen = frames[ti].func.instructions.len();
    proof {
        assert(prev.frames.last() == frame_view(frames@[ti as int]));
        assert(pc < flen);
    }
    let b = match stack.pop_bool() {
        Ok(v) => v,
        Err(e) => {
            proof {
                assert(step(reg, prev) == StepResult::Fail(e@, stack@));
            }
            return Err(e);
        },
    };
    let a = match stack.pop_bool() {
        Ok(v) => v,
        Err(e) => {
            proof {
                assert(step(reg, prev) == StepResult::Fail(e@, stack@));
            }
            return Err(e);
        },
    };
    stack.push_bool(a || b);
    frames[ti].pc = pc + 1;
    proof {
        assert(frames_view(frames@) =~= prev.frames.update(
            ti as int,
            FrameView {
                insts: prev.frames[ti as int].insts,
                pc: (pc + 1) as nat,
                env: prev.frames[ti as int].env,
            },
        ));
        assert(step(reg, prev) == StepResult::Next(
            ConfigView { frames: frames_view(frames@), stack: stack@ },
        ));
    }
    Ok(())
}

/// Performs one `step` of the semantics for `xor`: on success the
/// frames and operand stack hold the next configuration; on failure the
/// operand stack is as the failing instruction left it.
fn op_xor(stack: &mut Stack, frames: &mut Vec<Frame>, Ghost(reg): Ghost<RegistryView>) -> (r: Result<
    (),
    RuntimeError,
>)
    requires
        old(frames)@.len() > 0,
        ({
            let fr = frames_view(old(frames)@).last();
            fr.pc < fr.insts.len() && fr.insts[fr.pc as int] == InstView::Xor
        }),
    ensures
        ({
            let prev = ConfigView { frames: frames_view(old(frames)@), stack: old(stack)@ };
            match r {
                Ok(u) => step(reg, prev) == StepResult::Next(
                    ConfigView { frames: frames_view(final(frames)@), stack: final(stack)@ },
                ),
                Err(e) => step(reg, prev) == StepResult::Fail(e@, final(stack)@),
            }
        }),
{
    let ghost prev = ConfigView { frames: frames_view(frames@), stack: stack@ };
    let ti = frames.len() - 1;
    let pc = frames[ti].pc;
    let flen = frames[ti].func.instructions.len();
    proof {
        assert(prev.frames.last() == frame_view(frames@[ti as int]));
        assert(pc < flen);
    }
    let b = match stack.pop_bool() {
        Ok(v) => v,
        Err(e) => {
            proof {
                assert(step(reg, prev) == StepResult::Fail(e@, stack@));
            }
            return Err(e);
        },
    };
    let a = match stack.pop_bool() {
        Ok(v) => v,
        Err(e) => {
            proof {
                assert(step(reg, prev) == StepResult::Fail(e@, stack@));
            }
            return Err(e);
        },
    };
    stack.push_bool(a ^ b);
    frames[ti].pc = pc + 1;
    proof {
        assert(frames_view(frames@) =~= prev.frames.update(
            ti as int,
            FrameView {
                insts: prev.frames[ti as int].insts,
                pc: (pc + 1) as nat,
                env: prev.frames[ti as int].env,
            },
        ));
        assert(step(reg, prev) == StepResult::Next(
            ConfigView { frames: frames_view(frames@), stack: stack@ },
        ));
    }
    Ok(())
}

/// Performs one `step` of the semantics for `not`: on success the
/// frames and operand stack hold the next configuration; on failure the
/// operand stack is as the failing instruction left it.
fn op_not(stack: &mut Stack, frames: &mut Vec<Frame>, Ghost(reg): Ghost<RegistryView>) -> (r: Result<
    (),
    RuntimeError,
>)
    requires
        old(frames)@.len() > 0,
        ({
            let fr = frames_view(old(frames)@).last();
            fr.pc < fr.insts.len() && fr.insts[fr.pc as int] == InstView::Not
        }),
    ensures
        ({
            let prev = ConfigView { frames: frames_view(old(frames)@), stack: old(stack)@ };
            match r {
                Ok(u) => step(reg, prev) == StepResult::Next(
                    ConfigView { frames: frames_view(final(frames)@), stack: final(stack)@ },
                ),
                Err(e) => step(reg, prev) == StepResult::Fail(e@, final(stack)@),
            }
        }),
{
    let ghost prev = ConfigView { frames: frames_view(frames@), stack: stack@ };
    let ti = frames.len() - 1;
    let pc = frames[ti].pc;
    let flen = frames[ti].func.instructions.len();
    proof {
        assert(prev.frames.last() == frame_view(frames@[ti as int]));
        assert(pc < flen);
    }
    let a = match stack.pop_bool() {
        Ok(v) => v,
        Err(e) => {
            proof {
                assert(step(reg, prev) == StepResult::Fail(e@, stack@));
            }
            return Err(e);
        },
    };
    stack.push_bool(!a);
    frames[ti].pc = pc + 1;
    proof {
        assert(frames_view(frames@) =~= prev.frames.update(
            ti as int,
            FrameView {
                insts: prev.frames[ti as int].insts,
                pc: (pc + 1) as nat,
                env: prev.frames[ti as int].env,
            },
        ));
        assert(step(reg, prev) == StepResult::Next(
            ConfigView { frames: frames_view(frames@), stack: stack@ },
        ));
    }
    Ok(())
}

/// Performs one `step` of the semantics for `add`: on success the
/// frames and operand stack hold the next configuration; on failure the
/// operand stack is as the failing instruction left it.
fn op_add(stack: &mut Stack, frames: &mut Vec<Frame>, Ghost(reg): Ghost<RegistryView>) -> (r: Result<
    (),
    RuntimeError,
>)
    requires
        old(frames)@.len() > 0,
        ({
            let fr = frames_view(old(frames)@).last();
            fr.pc < fr.insts.len() && fr.insts[fr.pc as int] == InstView::Add
        }),
    ensures
        ({
            let prev = ConfigView { frames: frames_view(old(frames)@), stack: old(stack)@ };
            match r {
                Ok(u) => step(reg, prev) == StepResult::Next(
                    ConfigView { frames: frames_view(final(frames)@), stack: final(stack)@ },
                ),
                Err(e) => step(reg, prev) == StepResult::Fail(e@, final(stack)@),
            }
        }),
{
    let ghost prev = ConfigView { frames: frames_view(frames@), stack: stack@ };
    let ti = frames.len() - 1;
    let pc = frames[ti].pc;
    let flen = frames[ti].func.instructions.len();
    proof {
        assert(prev.frames.last() == frame_view(frames@[ti as int]));
        assert(pc < flen);
    }
    let bmv = match stack.pop() {
        Ok(v) => v,
        Err(e) => {
            proof {
                assert(step(reg, prev) == StepResult::Fail(e@, stack@));
            }
            return Err(e);
        },
    };
    match bmv.value {
        Value::Int(b) => {
            let a = match stack.pop_int() {
        Ok(v) => v,
        Err(e) => {
            proof {
                assert(step(reg, prev) == StepResult::Fail(e@, stack@));
            }
            return Err(e);
        },
    };
            stack.push_int(a.wrapping_add(b));
            frames[ti].pc = pc + 1;
            proof {
        assert(frames_view(frames@) =~= prev.frames.update(
            ti as int,
            FrameView {
                insts: prev.frames[ti as int].insts,
                pc: (pc + 1) as nat,
                env: prev.frames[ti as int].env,
            },
        ));
        assert(step(reg, prev) == StepResult::Next(
            ConfigView { frames: frames_view(frames@), stack: stack@ },
        ));
    }
    Ok(())
        },
        _ => {
            let e = RuntimeError::OperationNotDefined("+".to_owned(), bmv.kind_name());
            proof {{
                assert(step(reg, prev) == StepResult::Fail(e@, stack@));
            }}
            return Err(e);
        },
    }
}

/// Performs one `step` of the semantics for `sub`: on success the
/// frames and operand stack hold the next configuration; on failure the
/// operand stack is as the failing instruction left it.
fn op_sub(stack: &mut Stack, frames: &mut Vec<Frame>, Ghost(reg): Ghost<RegistryView>) -> (r: Result<
    (),
    RuntimeError,
>)
    requires
        old(frames)@.len() > 0,
        ({
            let fr = frames_view(old(frames)@).last();
            fr.pc < fr.insts.len() && fr.insts[fr.pc as int] == InstView::Sub
        }),
    ensures
        ({
            let prev = ConfigView { frames: frames_view(old(frames)@), stack: old(stack)@ };
            match r {
                Ok(u) => step(reg, prev) == StepResult::Next(
                    ConfigView { frames: frames_view(final(frames)@), stack: final(stack)@ },
                ),
                Err(e) => step(reg, prev) == StepResult::Fail(e@, final(stack)@),
            }
        }),
{
    let ghost prev = ConfigView { frames: frames_view(frames@), stack: stack@ };
    let ti = frames.len() - 1;
    let pc = frames[ti].pc;
    let flen = frames[ti].func.instructions.len();
    proof {
        assert(prev.frames.last() == frame_view(frames@[ti as int]));
        assert(pc < flen);
    }
    let bmv = match stack.pop() {
        Ok(v) => v,
        Err(e) => {
            proof {
                assert(step(reg, prev) == StepResult::Fail(e@, stack@));
            }
            return Err(e);
        },
    };
    match bmv.value {
        Value::Int(b) => {
            let a = match stack.pop_int() {
        Ok(v) => v,
        Err(e) => {
            proof {
                assert(step(reg, prev) == StepResult::Fail(e@, stack@));
            }
            return Err(e);
        },
    };
            stack.push_int(a.wrapping_sub(b));
            frames[ti].pc = pc + 1;
            proof {
        assert(frames_view(frames@) =~= prev.frames.update(
            ti as int,
            FrameView {
                insts: prev.frames[ti as int].insts,
                pc: (pc + 1) as nat,
                env: prev.frames[ti as int].env,
            },
        ));
        assert(step(reg, prev) == StepResult::Next(
            ConfigView { frames: frames_view(frames@), stack: stack@ },
        ));
    }
    Ok(())
        },
        _ => {
            let e = RuntimeError::OperationNotDefined("-".to_owned(), bmv.kind_name());
            proof {{
                assert(step(reg, prev) == StepResult::Fail(e@, stack@));
            }}
            return Err(e);
        },
    }
}

/// Performs one `step` of the semantics for `mul`: on success the
/// frames and operand stack hold the next configuration; on failure the
/// operand stack is as the failing instruction left it.
fn op_mul(stack: &mut Stack, frames: &mut Vec<Frame>, Ghost(reg): Ghost<RegistryView>) -> (r: Result<
    (),
    RuntimeError,
>)
    requires
        old(frames)@.len() > 0,
        ({
            let fr = frames_view(old(frames)@).last();
            fr.pc < fr.insts.len() && fr.insts[fr.pc as int] == InstView::Mul
        }),
    ensures
        ({
            let prev = ConfigView { frames: frames_view(old(frames)@), stack: old(stack)@ };
            match r {
                Ok(u) => step(reg, prev) == StepResult::Next(
                    ConfigView { frames: frames_view(final(frames)@), stack: final(stack)@ },
                ),
                Err(e) => step(reg, prev) == StepResult::Fail(e@, final(stack)@),
            }
        }),
{
    let ghost prev = ConfigView { frames: frames_view(frames@), stack: stack@ };
    let ti = frames.len() - 1;
    let pc = frames[ti].pc;
    let flen = frames[ti].func.instructions.len();
    proof {
        assert(prev.frames.last() == frame_view(frames@[ti as int]));
        assert(pc < flen);
    }
    let bmv = match stack.pop() {
        Ok(v) => v,
        Err(e) => {
            proof {
                assert(step(reg, prev) == StepResult::Fail(e@, stack@));
            }
            return Err(e);
        },
    };
    match bmv.value {
        Value::Int(b) => {
            let a = match stack.pop_int() {
        Ok(v) => v,
        Err(e) => {
            proof {
                assert(step(reg, prev) == StepResult::Fail(e@, stack@));
            }
            return Err(e);
        },
    };
            stack.push_int(a.wrapping_mul(b));
            frames[ti].pc = pc + 1;
            proof {
        assert(frames_view(frames@) =~= prev.frames.update(
            ti as int,
            FrameView {
                insts: prev.frames[ti as int].insts,
                pc: (pc + 1) as nat,
                env: prev.frames[ti as int].env,
            },
        ));
        assert(step(reg, prev) == StepResult::Next(
            ConfigView { frames: frames_view(frames@), stack: stack@ },
        ));
    }
    Ok(())
        },
        _ => {
            let e = RuntimeError::OperationNotDefined("*".to_owned(), bmv.kind_name());
            proof {{
                assert(step(reg, prev) == StepResult::Fail(e@, stack@));
            }}
            return Err(e);
        },
    }
}

/// Performs one `step` of the semantics for `div`: on success the
/// frames and operand stack hold the next configuration; on failure the
/// operand stack is as the failing instruction left it.
fn op_div(stack: &mut Stack, frames: &mut Vec<Frame>, Ghost(reg): Ghost<RegistryView>) -> (r: Result<
    (),
    RuntimeError,
>)
    requires
        old(frames)@.len() > 0,
        ({
            let fr = frames_view(old(frames)@).last();
            fr.pc < fr.insts.len() && fr.insts[fr.pc as int] == InstView::Div
        }),
    ensures
        ({
            let prev = ConfigView { frames: frames_view(old(frames)@), stack: old(stack)@ };
            match r {
                Ok(u) => step(reg, prev) == StepResult::Next(
                    ConfigView { frames: frames_view(final(frames)@), stack: final(stack)@ },
                ),
                Err(e) => step(reg, prev) == StepResult::Fail(e@, final(stack)@),
            }
        }),
{
    let ghost prev = ConfigView { frames: frames_view(frames@), stack: stack@ };
    let ti = frames.len() - 1;
    let pc = frames[ti].pc;
    let flen = frames[ti].func.instructions.len();
    proof {
        assert(prev.frames.last() == frame_view(frames@[ti as int]));
        assert(pc < flen);
    }
    let bmv = match stack.pop() {
        Ok(v) => v,
        Err(e) => {
            proof {
                assert(step(reg, prev) == StepResult::Fail(e@, stack@));
            }
            return Err(e);
        },
    };
    match bmv.value {
        Value::Int(b) => {
            let a = match stack.pop_int() {
        Ok(v) => v,
        Err(e) => {
            proof {
                assert(step(reg, prev) == StepResult::Fail(e@, stack@));
            }
            return Err(e);
        },
    };
            if b == 0 {
                let e = RuntimeError::DivideByZero;
                proof {{
                assert(step(reg, prev) == StepResult::Fail(e@, stack@));
            }}
            return Err(e);
            }
            let q = match a.checked_div(b) {
                Some(q) => q,
                None => i64::MIN,
            };
            proof {
                assert(q == crate::vm::semantics::vm_div(a, b));
            }
            stack.push_int(q);
            frames[ti].pc = pc + 1;
            proof {
        assert(frames_view(frames@) =~= prev.frames.update(
            ti as int,
            FrameView {
                insts: prev.frames[ti as int].insts,
                pc: (pc + 1) as nat,
                env: prev.frames[ti as int].env,
            },
        ));
        assert(step(reg, prev) == StepResult::Next(
            ConfigView { frames: frames_view(frames@), stack: stack@ },
        ));
    }
    Ok(())
        },
        _ => {
            let e = RuntimeError::OperationNotDefined("/".to_owned(), bmv.kind_name());
            proof {{
                assert(step(reg, prev) == StepResult::Fail(e@, stack@));
            }}
            return Err(e);
        },
    }
}

/// Performs one `step` of the semantics for `rem`: on success the
/// frames and operand stack hold the next configuration; on failure the
/// operand stack is as the failing instruction left it.
fn op_rem(stack: &mut Stack, frames: &mut Vec<Frame>, Ghost(reg): Ghost<RegistryView>) -> (r: Result<
    (),
    RuntimeError,
>)
    requires
        old(frames)@.len() > 0,
        ({
            let fr = frames_view(old(frames)@).last();
            fr.pc < fr.insts.len() && fr.insts[fr.pc as int] == InstView::Mod
        }),
    ensures
        ({
            let prev = ConfigView { frames: frames_view(old(frames)@), stack: old(stack)@ };
            match r {
                Ok(u) => step(reg, prev) == StepResult::Next(
                    ConfigView { frames: frames_view(final(frames)@), stack: final(stack)@ },
                ),
                Err(e) => step(reg, prev) == StepResult::Fail(e@, final(stack)@),
            }
        }),
{
    let ghost prev = ConfigView { frames: frames_view(frames@), stack: stack@ };
    let ti = frames.len() - 1;
    let pc = frames[ti].pc;
    let flen = frames[ti].func.instructions.len();
    proof {
        assert(prev.frames.last() == frame_view(frames@[ti as int]));
        assert(pc < flen);
    }
    let bmv = match stack.pop() {
        Ok(v) => v,
        Err(e) => {
            proof {
                assert(step(reg, prev) == StepResult::Fail(e@, stack@));
            }
            return Err(e);
        },
    };
    match bmv.value {
        Value::Int(b) => {
            let a = match stack.pop_int() {
        Ok(v) => v,
        Err(e) => {
            proof {
                assert(step(reg, prev) == StepResult::Fail(e@, stack@));
            }
            return Err(e);
        },
    };
            if b == 0 {
                let e = RuntimeError::DivideByZero;
                proof {{
                assert(step(reg, prev) == StepResult::Fail(e@, stack@));
            }}
            return Err(e);
            }
            let q = match a.checked_rem(b) {
                Some(q) => q,
                None => 0,
            };
            proof {
                assert(q == crate::vm::semantics::vm_rem(a, b));
            }
            stack.push_int(q);
            frames[ti].pc = pc + 1;
            proof {
        assert(frames_view(frames@) =~= prev.frames.update(
            ti as int,
            FrameView {
                insts: prev.frames[ti as int].insts,
                pc: (pc + 1) as nat,
                env: prev.frames[ti as int].env,
            },
        ));
        assert(step(reg, prev) == StepResult::Next(
            ConfigView { frames: frames_view(frames@), stack: stack@ },
        ));
    }
    Ok(())
        },
        _ => {
            let e = RuntimeError::OperationNotDefined("mod".to_owned(), bmv.kind_name());
            proof {{
                assert(step(reg, prev) == StepResult::Fail(e@, stack@));
            }}
            return Err(e);
        },
    }
}

/// Performs one `step` of the semantics for `equal`: on success the
/// frames and operand stack hold the next configuration; on failure the
/// operand stack is as the failing instruction left it.
fn op_equal(stack: &mut Stack, frames: &mut Vec<Frame>, Ghost(reg): Ghost<RegistryView>) -> (r: Result<
    (),
    RuntimeError,
>)
    requires
        old(frames)@.len() > 0,
        ({
            let fr = frames_view(old(frames)@).last();
            fr.pc < fr.insts.len() && fr.insts[fr.pc as int] == InstView::Equal
        }),
    ensures
        ({
            let prev = ConfigView { frames: frames_view(old(frames)@), stack: old(stack)@ };
            match r {
                Ok(u) => step(reg, prev) == StepResult::Next(
                    ConfigView { frames: frames_view(final(frames)@), stack: final(stack)@ },
                ),
                Err(e) => step(reg, prev) == StepResult::Fail(e@, final(stack)@),
            }
        }),
{
    let ghost prev = ConfigView { frames: frames_view(frames@), stack: stack@ };
    let ti = frames.len() - 1;
    let pc = frames[ti].pc;
    let flen = frames[ti].func.instructions.len();
    proof {
        assert(prev.frames.last() == frame_view(frames@[ti as int]));
        assert(pc < flen);
    }
    let b = match stack.pop() {
        Ok(v) => v,
        Err(e) => {
            proof {
                assert(step(reg, prev) == StepResult::Fail(e@, stack@));
            }
            return Err(e);
        },
    };
    let a = match stack.pop() {
        Ok(v) => v,
        Err(e) => {
            proof {
                assert(step(reg, prev) == StepResult::Fail(e@, stack@));
            }
            return Err(e);
        },
    };
    stack.push_bool(deep_eq(&a, &b));
    frames[ti].pc = pc + 1;
    proof {
        assert(frames_view(frames@) =~= prev.frames.update(
            ti as int,
            FrameView {
                insts: prev.frames[ti as int].insts,
                pc: (pc + 1) as nat,
                env: prev.frames[ti as int].env,
            },
        ));
        assert(step(reg, prev) == StepResult::Next(
            ConfigView { frames: frames_view(frames@), stack: stack@ },
        ));
    }
    Ok(())
}

/// Performs one `step` of the semantics for `not_equal`: on success the
/// frames and operand stack hold the next configuration; on failure the
/// operand stack is as the failing instruction left it.
fn op_not_equal(stack: &mut Stack, frames: &mut Vec<Frame>, Ghost(reg): Ghost<RegistryView>) -> (r: Result<
    (),
    RuntimeError,
>)
    requires
        old(frames)@.len() > 0,
        ({
            let fr = frames_view(old(frames)@).last();
            fr.pc < fr.insts.len() && fr.insts[fr.pc as int] == InstView::NotEqual
        }),
    ensures
        ({
            let prev = ConfigView { frames: frames_view(old(frames)@), stack: old(stack)@ };
            match r {
                Ok(u) => step(reg, prev) == StepResult::Next(
                    ConfigView { frames: frames_view(final(frames)@), stack: final(stack)@ },
                ),
                Err(e) => step(reg, prev) == StepResult::Fail(e@, final(stack)@),
            }
        }),
{
    let ghost prev = ConfigView { frames: frames_view(frames@), stack: stack@ };
    let ti = frames.len() - 1;
    let pc = frames[ti].pc;
    let flen = frames[ti].func.instructions.len();
    proof {
        assert(prev.frames.last() == frame_view(frames@[ti as int]));
        assert(pc < flen);
    }
    let b = match stack.pop() {
        Ok(v) => v,
        Err(e) => {
            proof {
                assert(step(reg, prev) == StepResult::Fail(e@, stack@));
            }
            return Err(e);
        },
    };
    let a = match stack.pop() {
        Ok(v) => v,
        Err(e) => {
            proof {
                assert(step(reg, prev) == StepResult::Fail(e@, stack@));
            }
            return Err(e);
        },
    };
    stack.push_bool(!deep_eq(&a, &b));
    frames[ti].pc = pc + 1;
    proof {
        assert(frames_view(frames@) =~= prev.frames.update(
            ti as int,
            FrameView {
                insts: prev.frames[ti as int].insts,
                pc: (pc + 1) as nat,
                env: prev.frames[ti as int].env,
            },
        ));
        assert(step(reg, prev) == StepResult::Next(
            ConfigView { frames: frames_view(frames@), stack: stack@ },
        ));
    }
    Ok(())
}

/// Performs one `step` of the semantics for `less_than`: on success the
/// frames and operand stack hold the next configuration; on failure the
/// operand stack is as the failing instruction left it.
fn op_less_than(stack: &mut Stack, frames: &mut Vec<Frame>, Ghost(reg): Ghost<RegistryView>) -> (r: Result<
    (),
    RuntimeError,
>)
    requires
        old(frames)@.len() > 0,
        ({
            let fr = frames_view(old(frames)@).last();
            fr.pc < fr.insts.len() && fr.insts[fr.pc as int] == InstView::LessThan
        }),
    ensures
        ({
            let prev = ConfigView { frames: frames_view(old(frames)@), stack: old(stack)@ };
            match r {
                Ok(u) => step(reg, prev) == StepResult::Next(
                    ConfigView { frames: frames_view(final(frames)@), stack: final(stack)@ },
                ),
                Err(e) => step(reg, prev) == StepResult::Fail(e@, final(stack)@),
            }
        }),
{
    let ghost prev = ConfigView { frames: frames_view(frames@), stack: stack@ };
    let ti = frames.len() - 1;
    let pc = frames[ti].pc;
    let flen = frames[ti].func.instructions.len();
    proof {
        assert(prev.frames.last() == frame_view(frames@[ti as int]));
        assert(pc < flen);
    }
    let b = match stack.pop_int() {
        Ok(v) => v,
        Err(e) => {
            proof {
                assert(step(reg, prev) == StepResult::Fail(e@, stack@));
            }
            return Err(e);
        },
    };
    let a = match stack.pop_int() {
        Ok(v) => v,
        Err(e) => {
            proof {
                assert(step(reg, prev) == StepResult::Fail(e@, stack@));
            }
            return Err(e);
        },
    };
    stack.push_bool(a < b);
    frames[ti].pc = pc + 1;
    proof {
        assert(frames_view(frames@) =~= prev.frames.update(
            ti as int,
            FrameView {
                insts: prev.frames[ti as int].insts,
                pc: (pc + 1) as nat,
                env: prev.frames[ti as int].env,
            },
        ));
        assert(step(reg, prev) == StepResult::Next(
            ConfigView { frames: frames_view(frames@), stack: stack@ },
        ));
    }
    Ok(())
}

/// Performs one `step` of the semantics for `greater_than`: on success the
/// frames and operand stack hold the next configuration; on failure the
/// operand stack is as the failing instruction left it.
fn op_greater_than(stack: &mut Stack, frames: &mut Vec<Frame>, Ghost(reg): Ghost<RegistryView>) -> (r: Result<
    (),
    RuntimeError,
>)
    requires
        old(frames)@.len() > 0,
        ({
            let fr = frames_view(old(frames)@).last();
            fr.pc < fr.insts.len() && fr.insts[fr.pc as int] == InstView::GreaterThan
        }),
    ensures
        ({
            let prev = ConfigView { frames: frames_view(old(frames)@), stack: old(stack)@ };
            match r {
                Ok(u) => step(reg, prev) == StepResult::Next(
                    ConfigView { frames: frames_view(final(frames)@), stack: final(stack)@ },
                ),
                Err(e) => step(reg, prev) == StepResult::Fail(e@, final(stack)@),
            }
        }),
{
    let ghost prev = ConfigView { frames: frames_view(frames@), stack: stack@ };
    let ti = frames.len() - 1;
    let pc = frames[ti].pc;
    let flen = frames[ti].func.instructions.len();
    proof {
        assert(prev.frames.last() == frame_view(frames@[ti as int]));
        assert(pc < flen);
    }
    let b = match stack.pop_int() {
        Ok(v) => v,
        Err(e) => {
            proof {
                assert(step(reg, prev) == StepResult::Fail(e@, stack@));
            }
            return Err(e);
        },
    };
    let a = match stack.pop_int() {
        Ok(v) => v,
        Err(e) => {
            proof {
                assert(step(reg, prev) == StepResult::Fail(e@, stack@));
            }
            return Err(e);
        },
    };
    stack.push_bool(a > b);
    frames[ti].pc = pc + 1;
    proof {
        assert(frames_view(frames@) =~= prev.frames.update(
            ti as int,
            FrameView {
                insts: prev.frames[ti as int].insts,
                pc: (pc + 1) as nat,
                env: prev.frames[ti as int].env,
            },
        ));
        assert(step(reg, prev) == StepResult::Next(
            ConfigView { frames: frames_view(frames@), stack: stack@ },
        ));
    }
    Ok(())
}

/// Performs one `step` of the semantics for `less_equal`: on success the
/// frames and operand stack hold the next configuration; on failure the
/// operand stack is as the failing instruction left it.
fn op_less_equal(stack: &mut Stack, frames: &mut Vec<Frame>, Ghost(reg): Ghost<RegistryView>) -> (r: Result<
    (),
    RuntimeError,
>)
    requires
        old(frames)@.len() > 0,
        ({
            let fr = frames_view(old(frames)@).last();
            fr.pc < fr.insts.len() && fr.insts[fr.pc as int] == InstView::LessEqual
        }),
    ensures
        ({
            let prev = ConfigView { frames: frames_view(old(frames)@), stack: old(stack)@ };
            match r {
                Ok(u) => step(reg, prev) == StepResult::Next(
                    ConfigView { frames: frames_view(final(frames)@), stack: final(stack)@ },
                ),
                Err(e) => step(reg, prev) == StepResult::Fail(e@, final(stack)@),
            }
        }),
{
    let ghost prev = ConfigView { frames: frames_view(frames@), stack: stack@ };
    let ti = frames.len() - 1;
    let pc = frames[ti].pc;
    let flen = frames[ti].func.instructions.len();
    proof {
        assert(prev.frames.last() == frame_view(frames@[ti as int]));
        assert(pc < flen);
    }
    let b = match stack.pop_int() {
        Ok(v) => v,
        Err(e) => {
            proof {
                assert(step(reg, prev) == StepResult::Fail(e@, stack@));
            }
            return Err(e);
        },
    };
    let a = match stack.pop_int() {
        Ok(v) => v,
        Err(e) => {
            proof {
                assert(step(reg, prev) == StepResult::Fail(e@, stack@));
            }
            return Err(e);
        },
    };
    stack.push_bool(a <= b);
    frames[ti].pc = pc + 1;
    proof {
        assert(frames_view(frames@) =~= prev.frames.update(
            ti as int,
            FrameView {
                insts: prev.frames[ti as int].insts,
                pc: (pc + 1) as nat,
                env: prev.frames[ti as int].env,
            },
        ));
        assert(step(reg, prev) == StepResult::Next(
            ConfigView { frames: frames_view(frames@), stack: stack@ },
        ));
    }
    Ok(())
}

/// Performs one `step` of the semantics for `greater_equal`: on success the
/// frames and operand stack hold the next configuration; on failure the
/// operand stack is as the failing instruction left it.
fn op_greater_equal(stack: &mut Stack, frames: &mut Vec<Frame>, Ghost(reg): Ghost<RegistryView>) -> (r: Result<
    (),
    RuntimeError,
>)
    requires
        old(frames)@.len() > 0,
        ({
            let fr = frames_view(old(frames)@).last();
            fr.pc < fr.insts.len() && fr.insts[fr.pc as int] == InstView::GreaterEqual
        }),
    ensures
        ({
            let prev = ConfigView { frames: frames_view(old(frames)@), stack: old(stack)@ };
            match r {
                Ok(u) => step(reg, prev) == StepResult::Next(
                    ConfigView { frames: frames_view(final(frames)@), stack: final(stack)@ },
                ),
                Err(e) => step(reg, prev) == StepResult::Fail(e@, final(stack)@),
            }
        }),
{
    let ghost prev = ConfigView { frames: frames_view(frames@), stack: stack@ };
    let ti = frames.len() - 1;
    let pc = frames[ti].pc;
    let flen = frames[ti].func.instructions.len();
    proof {
        assert(prev.frames.last() == frame_view(frames@[ti as int]));
        assert(pc < flen);
    }
    let b = match stack.pop_int() {
        Ok(v) => v,
        Err(e) => {
            proof {
                assert(step(reg, prev) == StepResult::Fail(e@, stack@));
            }
            return Err(e);
        },
    };
    let a = match stack.pop_int() {
        Ok(v) => v,
        Err(e) => {
            proof {
                assert(step(reg, prev) == StepResult::Fail(e@, stack@));
            }
            return Err(e);
        },
    };
    stack.push_bool(a >= b);
    frames[ti].pc = pc + 1;
    proof {
        assert(frames_view(frames@) =~= prev.frames.update(
            ti as int,
            FrameView {
                insts: prev.frames[ti as int].insts,
                pc: (pc + 1) as nat,
                env: prev.frames[ti as int].env,
            },
        ));
        assert(step(reg, prev) == StepResult::Next(
            ConfigView { frames: frames_view(frames@), stack: stack@ },
        ));
    }
    Ok(())
}

/// Performs one `step` of the semantics for `branch`: on success the
/// frames and operand stack hold the next configuration; on failure the
/// operand stack is as the failing instruction left it.
fn op_branch(stack: &mut Stack, frames: &mut Vec<Frame>, t: usize, Ghost(reg): Ghost<RegistryView>) -> (r: Result<
    (),
    RuntimeError,
>)
    requires
        old(frames)@.len() > 0,
        ({
            let fr = frames_view(old(frames)@).last();
            fr.pc < fr.insts.len() && fr.insts[fr.pc as int] == InstView::Branch(t)
        }),
    ensures
        ({
            let prev = ConfigView { frames: frames_view(old(frames)@), stack: old(stack)@ };
            match r {
                Ok(u) => step(reg, prev) == StepResult::Next(
                    ConfigView { frames: frames_view(final(frames)@), stack: final(stack)@ },
                ),
                Err(e) => step(reg, prev) == StepResult::Fail(e@, final(stack)@),
            }
        }),
{
    let ghost prev = ConfigView { frames: frames_view(frames@), stack: stack@ };
    let ti = frames.len() - 1;
    let pc = frames[ti].pc;
    let flen = frames[ti].func.instructions.len();
    proof {
        assert(prev.frames.last() == frame_view(frames@[ti as int]));
        assert(pc < flen);
    }
    frames[ti].pc = t;
    proof {
        assert(frames_view(frames@) =~= prev.frames.update(
            ti as int,
            FrameView {
                insts: prev.frames[ti as int].insts,
                pc: t as nat,
                env: prev.frames[ti as int].env,
            },
        ));
        assert(step(reg, prev) == StepResult::Next(
            ConfigView { frames: frames_view(frames@), stack: stack@ },
        ));
    }
    Ok(())
}

/// Performs one `step` of the semantics for `branch_if`: on success the
/// frames and operand stack hold the next configuration; on failure the
/// operand stack is as the failing instruction left it.
fn op_branch_if(stack: &mut Stack, frames: &mut Vec<Frame>, t: usize, Ghost(reg): Ghost<RegistryView>) -> (r: Result<
    (),
    RuntimeError,
>)
    requires
        old(frames)@.len() > 0,
        ({
            let fr = frames_view(old(frames)@).last();
            fr.pc < fr.insts.len() && fr.insts[fr.pc as int] == InstView::BranchIf(t)
        }),
    ensures
        ({
            let prev = ConfigView { frames: frames_view(old(frames)@), stack: old(stack)@ };
            match r {
                Ok(u) => step(reg, prev) == StepResult::Next(
                    ConfigView { frames: frames_view(final(frames)@), stack: final(stack)@ },
                ),
                Err(e) => step(reg, prev) == StepResult::Fail(e@, final(stack)@),
            }
        }),
{
    let ghost prev = ConfigView { frames: frames_view(frames@), stack: stack@ };
    let ti = frames.len() - 1;
    let pc = frames[ti].pc;
    let flen = frames[ti].func.instructions.len();
    proof {
        assert(prev.frames.last() == frame_view(frames@[ti as int]));
        assert(pc < flen);
    }
    let v = match stack.pop_bool() {
        Ok(v) => v,
        Err(e) => {
            proof {
                assert(step(reg, prev) == StepResult::Fail(e@, stack@));
            }
            return Err(e);
        },
    };
    frames[ti].pc = if v { t } else { pc + 1 };
    proof {
        assert(frames_view(frames@) =~= prev.frames.update(
            ti as int,
            FrameView {
                insts: prev.frames[ti as int].insts,
                pc: (if v { t as nat } else { (pc + 1) as nat }) as nat,
                env: prev.frames[ti as int].env,
            },
        ));
        assert(step(reg, prev) == StepResult::Next(
            ConfigView { frames: frames_view(frames@), stack: stack@ },
        ));
    }
    Ok(())
}

/// Performs one `step` of the semantics for `branch_if_not`: on success the
/// frames and operand stack hold the next configuration; on failure the
/// operand stack is as the failing instruction left it.
fn op_branch_if_not(stack: &mut Stack, frames: &mut Vec<Frame>, t: usize, Ghost(reg): Ghost<RegistryView>) -> (r: Result<
    (),
    RuntimeError,
>)
    requires
        old(frames)@.len() > 0,
        ({
            let fr = frames_view(old(frames)@).last();
            fr.pc < fr.insts.len() && fr.insts[fr.pc as int] == InstView::BranchIfNot(t)
        }),
    ensures
        ({
            let prev = ConfigView { frames: frames_view(old(frames)@), stack: old(stack)@ };
            match r {
                Ok(u) => step(reg, prev) == StepResult::Next(
                    ConfigView { frames: frames_view(final(frames)@), stack: final(stack)@ },
                ),
                Err(e) => step(reg, prev) == StepResult::Fail(e@, final(stack)@),
            }
        }),
{
    let ghost prev = ConfigView { frames: frames_view(frames@), stack: stack@ };
    let ti = frames.len() - 1;
    let pc = frames[ti].pc;
    let flen = frames[ti].func.instructions.len();
    proof {
        assert(prev.frames.last() == frame_view(frames@[ti as int]));
        assert(pc < flen);
    }
    let v = match stack.pop_bool() {
        Ok(v) => v,
        Err(e) => {
            proof {
                assert(step(reg, prev) == StepResult::Fail(e@, stack@));
            }
            return Err(e);
        },
    };
    frames[ti].pc = if !v { t } else { pc + 1 };
    proof {
        assert(frames_view(frames@) =~= prev.frames.update(
            ti as int,
            FrameView {
                insts: prev.frames[ti as int].insts,
                pc: (if !v { t as nat } else { (pc + 1) as nat }) as nat,
                env: prev.frames[ti as int].env,
            },
        ));
        assert(step(reg, prev) == StepResult::Next(
            ConfigView { frames: frames_view(frames@), stack: stack@ },
        ));
    }
    Ok(())
}

/// Performs one `step` of the semantics for `call`: on success the
/// frames and operand stack hold the next configuration; on failure the
/// operand stack is as the failing instruction left it.
fn op_call(stack: &mut Stack, frames: &mut Vec<Frame>, functions: &Functions, Ghost(reg): Ghost<RegistryView>) -> (r: Result<
    (),
    RuntimeError,
>)
    requires
        old(frames)@.len() > 0,
        ({
            let fr = frames_view(old(frames)@).last();
            fr.pc < fr.insts.len() && fr.insts[fr.pc as int] == InstView::Call
        }),
        functions@ == reg,
    ensures
        ({
            let prev = ConfigView { frames: frames_view(old(frames)@), stack: old(stack)@ };
            match r {
                Ok(u) => step(reg, prev) == StepResult::Next(
                    ConfigView { frames: frames_view(final(frames)@), stack: final(stack)@ },
                ),
                Err(e) => step(reg, prev) == StepResult::Fail(e@, final(stack)@),
            }
        }),
{
    let ghost prev = ConfigView { frames: frames_view(frames@), stack: stack@ };
    let ti = frames.len() - 1;
    let pc = frames[ti].pc;
    let flen = frames[ti].func.instructions.len();
    proof {
        assert(prev.frames.last() == frame_view(frames@[ti as int]));
        assert(pc < flen);
    }
    let fref = match stack.pop_function_ref() {
        Ok(v) => v,
        Err(e) => {
            proof {
                assert(step(reg, prev) == StepResult::Fail(e@, stack@));
            }
            return Err(e);
        },
    };
    let func = match functions.get(fref.name.as_str()) {
        Ok(f) => f,
        Err(e) => {
            proof {{
                assert(step(reg, prev) == StepResult::Fail(e@, stack@));
            }}
            return Err(e);
        },
    };
    frames[ti].pc = pc + 1;
    let ghost fname = fref.name@;
    let ghost fenv = fref.env@;
    let mut cenv = fref.env;
    cenv.reserve(func.locals);
    let ghost callee_frame = FrameView {
        insts: reg[fname].instructions,
        pc: 0nat,
        env: fenv + Seq::new(reg[fname].locals as nat, |k: int| None::<MetaValueView>),
    };
    frames.push(Frame { func, pc: 0, env: cenv });
    proof {
        assert(frames_view(frames@) =~= prev.frames.update(
            ti as int,
            FrameView {
                insts: prev.frames[ti as int].insts,
                pc: (pc + 1) as nat,
                env: prev.frames[ti as int].env,
            },
        ).push(callee_frame));
        assert(step(reg, prev) == StepResult::Next(
            ConfigView { frames: frames_view(frames@), stack: stack@ },
        ));
    }
    Ok(())
}

/// Performs one `step` of the semantics for `bind`: on success the
/// frames and operand stack hold the next configuration; on failure the
/// operand stack is as the failing instruction left it.
fn op_bind(stack: &mut Stack, frames: &mut Vec<Frame>, Ghost(reg): Ghost<RegistryView>) -> (r: Result<
    (),
    RuntimeError,
>)
    requires
        old(frames)@.len() > 0,
        ({
            let fr = frames_view(old(frames)@).last();
            fr.pc < fr.insts.len() && fr.insts[fr.pc as int] == InstView::Bind
        }),
    ensures
        ({
            let prev = ConfigView { frames: frames_view(old(frames)@), stack: old(stack)@ };
            match r {
                Ok(u) => step(reg, prev) == StepResult::Next(
                    ConfigView { frames: frames_view(final(frames)@), stack: final(stack)@ },
                ),
                Err(e) => step(reg, prev) == StepResult::Fail(e@, final(stack)@),
            }
        }),
{
    let ghost prev = ConfigView { frames: frames_view(frames@), stack: stack@ };
    let ti = frames.len() - 1;
    let pc = frames[ti].pc;
    let flen = frames[ti].func.instructions.len();
    proof {
        assert(prev.frames.last() == frame_view(frames@[ti as int]));
        assert(pc < flen);
    }
    let l = match stack.pop_list() {
        Ok(v) => v,
        Err(e) => {
            proof {
                assert(step(reg, prev) == StepResult::Fail(e@, stack@));
            }
            return Err(e);
        },
    };
    let fref = match stack.pop_function_ref() {
        Ok(v) => v,
        Err(e) => {
            proof {
                assert(step(reg, prev) == StepResult::Fail(e@, stack@));
            }
            return Err(e);
        },
    };
    let mut captured: Vec<Option<MetaValue>> = Vec::new();
    let cnt = l.len();
    let mut i: usize = 0;
    while i < cnt
        invariant
            cnt == l@.len(),
            i <= cnt,
            captured@.len() == i as int,
            forall|j: int|
                0 <= j < i as int ==> #[trigger] captured@[j] is Some
                    && crate::vm::value::mv_view(captured@[j]->0) == crate::vm::value::mv_view(
                    l@[j],
                ),
        decreases cnt - i,
    {
        captured.push(Some(deep_clone(&l[i])));
        i = i + 1;
    }
    let f2 = crate::vm::value::FunctionRef { name: fref.name, env: Env::new(captured) };
    proof {
        assert(f2@.env =~= crate::vm::value::list_view(l).map(
            |k: int, v: MetaValueView| Some(v),
        ));
    }
    stack.push_function_ref(f2);
    frames[ti].pc = pc + 1;
    proof {
        assert(frames_view(frames@) =~= prev.frames.update(
            ti as int,
            FrameView {
                insts: prev.frames[ti as int].insts,
                pc: (pc + 1) as nat,
                env: prev.frames[ti as int].env,
            },
        ));
        assert(step(reg, prev) == StepResult::Next(
            ConfigView { frames: frames_view(frames@), stack: stack@ },
        ));
    }
    Ok(())
}

/// Performs one `step` of the semantics for `local_load`: on success the
/// frames and operand stack hold the next configuration; on failure the
/// operand stack is as the failing instruction left it.
fn op_local_load(stack: &mut Stack, frames: &mut Vec<Frame>, idx: usize, Ghost(reg): Ghost<RegistryView>) -> (r: Result<
    (),
    RuntimeError,
>)
    requires
        old(frames)@.len() > 0,
        ({
            let fr = frames_view(old(frames)@).last();
            fr.pc < fr.insts.len() && fr.insts[fr.pc as int] == InstView::LocalLoad(idx)
        }),
    ensures
        ({
            let prev = ConfigView { frames: frames_view(old(frames)@), stack: old(stack)@ };
            match r {
                Ok(u) => step(reg, prev) == StepResult::Next(
                    ConfigView { frames: frames_view(final(frames)@), stack: final(stack)@ },
                ),
                Err(e) => step(reg, prev) == StepResult::Fail(e@, final(stack)@),
            }
        }),
{
    let ghost prev = ConfigView { frames: frames_view(frames@), stack: stack@ };
    let ti = frames.len() - 1;
    let pc = frames[ti].pc;
    let flen = frames[ti].func.instructions.len();
    proof {
        assert(prev.frames.last() == frame_view(frames@[ti as int]));
        assert(pc < flen);
    }
    let v = match frames[ti].env.get_local(idx) {
        Ok(v) => v,
        Err(e) => {
            proof {
                assert(frames_view(frames@) =~= prev.frames);
                assert(step(reg, prev) == StepResult::Fail(e@, stack@));
            }
            return Err(e);
        },
    };
    stack.push(v);
    frames[ti].pc = pc + 1;
    proof {
        assert(frames_view(frames@) =~= prev.frames.update(
            ti as int,
            FrameView {
                insts: prev.frames[ti as int].insts,
                pc: (pc + 1) as nat,
                env: prev.frames[ti as int].env,
            },
        ));
        assert(step(reg, prev) == StepResult::Next(
            ConfigView { frames: frames_view(frames@), stack: stack@ },
        ));
    }
    Ok(())
}

/// Performs one `step` of the semantics for `local_store`: on success the
/// frames and operand stack hold the next configuration; on failure the
/// operand stack is as the failing instruction left it.
fn op_local_store(stack: &mut Stack, frames: &mut Vec<Frame>, idx: usize, Ghost(reg): Ghost<RegistryView>) -> (r: Result<
    (),
    RuntimeError,
>)
    requires
        old(frames)@.len() > 0,
        ({
            let fr = frames_view(old(frames)@).last();
            fr.pc < fr.insts.len() && fr.insts[fr.pc as int] == InstView::LocalStore(idx)
        }),
    ensures
        ({
            let prev = ConfigView { frames: frames_view(old(frames)@), stack: old(stack)@ };
            match r {
                Ok(u) => step(reg, prev) == StepResult::Next(
                    ConfigView { frames: frames_view(final(frames)@), stack: final(stack)@ },
                ),
                Err(e) => step(reg, prev) == StepResult::Fail(e@, final(stack)@),
            }
        }),
{
    let ghost prev = ConfigView { frames: frames_view(frames@), stack: stack@ };
    let ti = frames.len() - 1;
    let pc = frames[ti].pc;
    let flen = frames[ti].func.instructions.len();
    proof {
        assert(prev.frames.last() == frame_view(frames@[ti as int]));
        assert(pc < flen);
    }
    let v = match stack.pop() {
        Ok(v) => v,
        Err(e) => {
            proof {
                assert(step(reg, prev) == StepResult::Fail(e@, stack@));
            }
            return Err(e);
        },
    };
    let ghost vv = v@;
    match frames[ti].env.set_local(idx, v) {
        Ok(u) => {
            frames[ti].pc = pc + 1;
            proof {
        assert(frames_view(frames@) =~= prev.frames.update(
            ti as int,
            FrameView {
                insts: prev.frames[ti as int].insts,
                pc: (pc + 1) as nat,
                env: prev.frames[ti as int].env.update(idx as int, Some(vv)),
            },
        ));
        assert(step(reg, prev) == StepResult::Next(
            ConfigView { frames: frames_view(frames@), stack: stack@ },
        ));
    }
    Ok(())
        },
        Err(e) => {
            proof {
                assert(frames_view(frames@) =~= prev.frames);
                assert(step(reg, prev) == StepResult::Fail(e@, stack@));
            }
            return Err(e);
        },
    }
}

/// Performs one `step` of the semantics for `list_push`: on success the
/// frames and operand stack hold the next configuration; on failure the
/// operand stack is as the failing instruction left it.
fn op_list_push(stack: &mut Stack, frames: &mut Vec<Frame>, Ghost(reg): Ghost<RegistryView>) -> (r: Result<
    (),
    RuntimeError,
>)
    requires
        old(frames)@.len() > 0,
        ({
            let fr = frames_view(old(frames)@).last();
            fr.pc < fr.insts.len() && fr.insts[fr.pc as int] == InstView::ListPush
        }),
    ensures
        ({
            let prev = ConfigView { frames: frames_view(old(frames)@), stack: old(stack)@ };
            match r {
                Ok(u) => step(reg, prev) == StepResult::Next(
                    ConfigView { frames: frames_view(final(frames)@), stack: final(stack)@ },
                ),
                Err(e) => step(reg, prev) == StepResult::Fail(e@, final(stack)@),
            }
        }),
{
    let ghost prev = ConfigView { frames: frames_view(frames@), stack: stack@ };
    let ti = frames.len() - 1;
    let pc = frames[ti].pc;
    let flen = frames[ti].func.instructions.len();
    proof {
        assert(prev.frames.last() == frame_view(frames@[ti as int]));
        assert(pc < flen);
    }
    let v = match stack.pop() {
        Ok(v) => v,
        Err(e) => {
            proof {
                assert(step(reg, prev) == StepResult::Fail(e@, stack@));
            }
            return Err(e);
        },
    };
    let l = match stack.pop_list() {
        Ok(v) => v,
        Err(e) => {
            proof {
                assert(step(reg, prev) == StepResult::Fail(e@, stack@));
            }
            return Err(e);
        },
    };
    let ghost lv = crate::vm::value::list_view(l);
    let ghost vv = v@;
    let mut l = l;
    l.push(v);
    proof {
        assert(crate::vm::value::list_view(l) =~= lv.push(vv));
    }
    stack.push_list(l);
    frames[ti].pc = pc + 1;
    proof {
        assert(frames_view(frames@) =~= prev.frames.update(
            ti as int,
            FrameView {
                insts: prev.frames[ti as int].insts,
                pc: (pc + 1) as nat,
                env: prev.frames[ti as int].env,
            },
        ));
        assert(step(reg, prev) == StepResult::Next(
            ConfigView { frames: frames_view(frames@), stack: stack@ },
        ));
    }
    Ok(())
}

/// Performs one `step` of the semantics for `list_pop`: on success the
/// frames and operand stack hold the next configuration; on failure the
/// operand stack is as the failing instruction left it.
fn op_list_pop(stack: &mut Stack, frames: &mut Vec<Frame>, Ghost(reg): Ghost<RegistryView>) -> (r: Result<
    (),
    RuntimeError,
>)
    requires
        old(frames)@.len() > 0,
        ({
            let fr = frames_view(old(frames)@).last();
            fr.pc < fr.insts.len() && fr.insts[fr.pc as int] == InstView::ListPop
        }),
    ensures
        ({
            let prev = ConfigView { frames: frames_view(old(frames)@), stack: old(stack)@ };
            match r {
                Ok(u) => step(reg, prev) == StepResult::Next(
                    ConfigView { frames: frames_view(final(frames)@), stack: final(stack)@ },
                ),
                Err(e) => step(reg, prev) == StepResult::Fail(e@, final(stack)@),
            }
        }),
{
    let ghost prev = ConfigView { frames: frames_view(frames@), stack: stack@ };
    let ti = frames.len() - 1;
    let pc = frames[ti].pc;
    let flen = frames[ti].func.instructions.len();
    proof {
        assert(prev.frames.last() == frame_view(frames@[ti as int]));
        assert(pc < flen);
    }
    let l = match stack.pop_list() {
        Ok(v) => v,
        Err(e) => {
            proof {
                assert(step(reg, prev) == StepResult::Fail(e@, stack@));
            }
            return Err(e);
        },
    };
    let ghost lv = crate::vm::value::list_view(l);
    let mut l = l;
    match l.pop() {
        None => {
            let e = RuntimeError::EmptyList;
            proof {{
                assert(step(reg, prev) == StepResult::Fail(e@, stack@));
            }}
            return Err(e);
        },
        Some(v) => {
            proof {
                assert(crate::vm::value::list_view(l) =~= lv.drop_last());
                assert(v@ == lv.last());
            }
            stack.push_list(l);
            stack.push(v);
            frames[ti].pc = pc + 1;
            proof {
        assert(frames_view(frames@) =~= prev.frames.update(
            ti as int,
            FrameView {
                insts: prev.frames[ti as int].insts,
                pc: (pc + 1) as nat,
                env: prev.frames[ti as int].env,
            },
        ));
        assert(step(reg, prev) == StepResult::Next(
            ConfigView { frames: frames_view(frames@), stack: stack@ },
        ));
    }
    Ok(())
        },
    }
}

/// Performs one `step` of the semantics for `list_get`: on success the
/// frames and operand stack hold the next configuration; on failure the
/// operand stack is as the failing instruction left it.
fn op_list_get(stack: &mut Stack, frames: &mut Vec<Frame>, Ghost(reg): Ghost<RegistryView>) -> (r: Result<
    (),
    RuntimeError,
>)
    requires
        old(frames)@.len() > 0,
        ({
            let fr = frames_view(old(frames)@).last();
            fr.pc < fr.insts.len() && fr.insts[fr.pc as int] == InstView::ListGet
        }),
    ensures
        ({
            let prev = ConfigView { frames: frames_view(old(frames)@), stack: old(stack)@ };
            match r {
                Ok(u) => step(reg, prev) == StepResult::Next(
                    ConfigView { frames: frames_view(final(frames)@), stack: final(stack)@ },
                ),
                Err(e) => step(reg, prev) == StepResult::Fail(e@, final(stack)@),
            }
        }),
{
    let ghost prev = ConfigView { frames: frames_view(frames@), stack: stack@ };
    let ti = frames.len() - 1;
    let pc = frames[ti].pc;
    let flen = frames[ti].func.instructions.len();
    proof {
        assert(prev.frames.last() == frame_view(frames@[ti as int]));
        assert(pc < flen);
    }
    let i = match stack.pop_int() {
        Ok(v) => v,
        Err(e) => {
            proof {
                assert(step(reg, prev) == StepResult::Fail(e@, stack@));
            }
            return Err(e);
        },
    };
    let l = match stack.pop_list() {
        Ok(v) => v,
        Err(e) => {
            proof {
                assert(step(reg, prev) == StepResult::Fail(e@, stack@));
            }
            return Err(e);
        },
    };
    if i >= 0 && (i as u64) < (l.len() as u64) {
        let v = deep_clone(&l[i as usize]);
        stack.push(v);
        frames[ti].pc = pc + 1;
        proof {
        assert(frames_view(frames@) =~= prev.frames.update(
            ti as int,
            FrameView {
                insts: prev.frames[ti as int].insts,
                pc: (pc + 1) as nat,
                env: prev.frames[ti as int].env,
            },
        ));
        assert(step(reg, prev) == StepResult::Next(
            ConfigView { frames: frames_view(frames@), stack: stack@ },
        ));
    }
    Ok(())
    } else {
        let e = RuntimeError::RangeError(i, 0, len_to_int(l.len()));
        proof {{
                assert(step(reg, prev) == StepResult::Fail(e@, stack@));
            }}
            return Err(e);
    }
}

/// Performs one `step` of the semantics for `list_set`: on success the
/// frames and operand stack hold the next configuration; on failure the
/// operand stack is as the failing instruction left it.
fn op_list_set(stack: &mut Stack, frames: &mut Vec<Frame>, Ghost(reg): Ghost<RegistryView>) -> (r: Result<
    (),
    RuntimeError,
>)
    requires
        old(frames)@.len() > 0,
        ({
            let fr = frames_view(old(frames)@).last();
            fr.pc < fr.insts.len() && fr.insts[fr.pc as int] == InstView::ListSet
        }),
    ensures
        ({
            let prev = ConfigView { frames: frames_view(old(frames)@), stack: old(stack)@ };
            match r {
                Ok(u) => step(reg, prev) == StepResult::Next(
                    ConfigView { frames: frames_view(final(frames)@), stack: final(stack)@ },
                ),
                Err(e) => step(reg, prev) == StepResult::Fail(e@, final(stack)@),
            }
        }),
{
    let ghost prev = ConfigView { frames: frames_view(frames@), stack: stack@ };
    let ti = frames.len() - 1;
    let pc = frames[ti].pc;
    let flen = frames[ti].func.instructions.len();
    proof {
        assert(prev.frames.last() == frame_view(frames@[ti as int]));
        assert(pc < flen);
    }
    let v = match stack.pop() {
        Ok(v) => v,
        Err(e) => {
            proof {
                assert(step(reg, prev) == StepResult::Fail(e@, stack@));
            }
            return Err(e);
        },
    };
    let i = match stack.pop_int() {
        Ok(v) => v,
        Err(e) => {
            proof {
                assert(step(reg, prev) == StepResult::Fail(e@, stack@));
            }
            return Err(e);
        },
    };
    let l = match stack.pop_list() {
        Ok(v) => v,
        Err(e) => {
            proof {
                assert(step(reg, prev) == StepResult::Fail(e@, stack@));
            }
            return Err(e);
        },
    };
    if i >= 0 && (i as u64) < (l.len() as u64) {
        let ghost lv = crate::vm::value::list_view(l);
        let ghost vv = v@;
        let mut l = l;
        l[i as usize] = v;
        proof {
            assert(crate::vm::value::list_view(l) =~= lv.update(i as int, vv));
        }
        stack.push_list(l);
        frames[ti].pc = pc + 1;
        proof {
        assert(frames_view(frames@) =~= prev.frames.update(
            ti as int,
            FrameView {
                insts: prev.frames[ti as int].insts,
                pc: (pc + 1) as nat,
                env: prev.frames[ti as int].env,
            },
        ));
        assert(step(reg, prev) == StepResult::Next(
            ConfigView { frames: frames_view(frames@), stack: stack@ },
        ));
    }
    Ok(())
    } else {
        let e = RuntimeError::RangeError(i, 0, len_to_int(l.len()));
        proof {{
                assert(step(reg, prev) == StepResult::Fail(e@, stack@));
            }}
            return Err(e);
    }
}

/// Performs one `step` of the semantics for `list_len`: on success the
/// frames and operand stack hold the next configuration; on failure the
/// operand stack is as the failing instruction left it.
fn op_list_len(stack: &mut Stack, frames: &mut Vec<Frame>, Ghost(reg): Ghost<RegistryView>) -> (r: Result<
    (),
    RuntimeError,
>)
    requires
        old(frames)@.len() > 0,
        ({
            let fr = frames_view(old(frames)@).last();
            fr.pc < fr.insts.len() && fr.insts[fr.pc as int] == InstView::ListLen
        }),
    ensures
        ({
            let prev = ConfigView { frames: frames_view(old(frames)@), stack: old(stack)@ };
            match r {
                Ok(u) => step(reg, prev) == StepResult::Next(
                    ConfigView { frames: frames_view(final(frames)@), stack: final(stack)@ },
                ),
                Err(e) => step(reg, prev) == StepResult::Fail(e@, final(stack)@),
            }
        }),
{
    let ghost prev = ConfigView { frames: frames_view(frames@), stack: stack@ };
    let ti = frames.len() - 1;
    let pc = frames[ti].pc;
    let flen = frames[ti].func.instructions.len();
    proof {
        assert(prev.frames.last() == frame_view(frames@[ti as int]));
        assert(pc < flen);
    }
    let l = match stack.pop_list() {
        Ok(v) => v,
        Err(e) => {
            proof {
                assert(step(reg, prev) == StepResult::Fail(e@, stack@));
            }
            return Err(e);
        },
    };
    stack.push_int(len_to_int(l.len()));
    frames[ti].pc = pc + 1;
    proof {
        assert(frames_view(frames@) =~= prev.frames.update(
            ti as int,
            FrameView {
                insts: prev.frames[ti as int].insts,
                pc: (pc + 1) as nat,
                env: prev.frames[ti as int].env,
            },
        ));
        assert(step(reg, prev) == StepResult::Next(
            ConfigView { frames: frames_view(frames@), stack: stack@ },
        ));
    }
    Ok(())
}

/// Performs one `step` of the semantics for `table_get`: on success the
/// frames and operand stack hold the next configuration; on failure the
/// operand stack is as the failing instruction left it.
fn op_table_get(stack: &mut Stack, frames: &mut Vec<Frame>, Ghost(reg): Ghost<RegistryView>) -> (r: Result<
    (),
    RuntimeError,
>)
    requires
        old(frames)@.len() > 0,
        ({
            let fr = frames_view(old(frames)@).last();
            fr.pc < fr.insts.len() && fr.insts[fr.pc as int] == InstView::TableGet
        }),
    ensures
        ({
            let prev = ConfigView { frames: frames_view(old(frames)@), stack: old(stack)@ };
            match r {
                Ok(u) => step(reg, prev) == StepResult::Next(
                    ConfigView { frames: frames_view(final(frames)@), stack: final(stack)@ },
                ),
                Err(e) => step(reg, prev) == StepResult::Fail(e@, final(stack)@),
            }
        }),
{
    let ghost prev = ConfigView { frames: frames_view(frames@), stack: stack@ };
    let ti = frames.len() - 1;
    let pc = frames[ti].pc;
    let flen = frames[ti].func.instructions.len();
    proof {
        assert(prev.frames.last() == frame_view(frames@[ti as int]));
        assert(pc < flen);
    }
    let k = match stack.pop() {
        Ok(v) => v,
        Err(e) => {
            proof {
                assert(step(reg, prev) == StepResult::Fail(e@, stack@));
            }
            return Err(e);
        },
    };
    let t = match stack.pop_table() {
        Ok(v) => v,
        Err(e) => {
            proof {
                assert(step(reg, prev) == StepResult::Fail(e@, stack@));
            }
            return Err(e);
        },
    };
    match t.get(&k) {
        Some(v) => {
            let c = deep_clone(v);
            stack.push(c);
            frames[ti].pc = pc + 1;
            proof {
        assert(frames_view(frames@) =~= prev.frames.update(
            ti as int,
            FrameView {
                insts: prev.frames[ti as int].insts,
                pc: (pc + 1) as nat,
                env: prev.frames[ti as int].env,
            },
        ));
        assert(step(reg, prev) == StepResult::Next(
            ConfigView { frames: frames_view(frames@), stack: stack@ },
        ));
    }
    Ok(())
        },
        None => {
            let e = RuntimeError::KeyNotFound(k);
            proof {{
                assert(step(reg, prev) == StepResult::Fail(e@, stack@));
            }}
            return Err(e);
        },
    }
}

/// Performs one `step` of the semantics for `table_set`: on success the
/// frames and operand stack hold the next configuration; on failure the
/// operand stack is as the failing instruction left it.
fn op_table_set(stack: &mut Stack, frames: &mut Vec<Frame>, Ghost(reg): Ghost<RegistryView>) -> (r: Result<
    (),
    RuntimeError,
>)
    requires
        old(frames)@.len() > 0,
        ({
            let fr = frames_view(old(frames)@).last();
            fr.pc < fr.insts.len() && fr.insts[fr.pc as int] == InstView::TableSet
        }),
    ensures
        ({
            let prev = ConfigView { frames: frames_view(old(frames)@), stack: old(stack)@ };
            match r {
                Ok(u) => step(reg, prev) == StepResult::Next(
                    ConfigView { frames: frames_view(final(frames)@), stack: final(stack)@ },
                ),
                Err(e) => step(reg, prev) == StepResult::Fail(e@, final(stack)@),
            }
        }),
{
    let ghost prev = ConfigView { frames: frames_view(frames@), stack: stack@ };
    let ti = frames.len() - 1;
    let pc = frames[ti].pc;
    let flen = frames[ti].func.instructions.len();
    proof {
        assert(prev.frames.last() == frame_view(frames@[ti as int]));
        assert(pc < flen);
    }
    let v = match stack.pop() {
        Ok(v) => v,
        Err(e) => {
            proof {
                assert(step(reg, prev) == StepResult::Fail(e@, stack@));
            }
            return Err(e);
        },
    };
    let k = match stack.pop() {
        Ok(v) => v,
        Err(e) => {
            proof {
                assert(step(reg, prev) == StepResult::Fail(e@, stack@));
            }
            return Err(e);
        },
    };
    let t = match stack.pop_table() {
        Ok(v) => v,
        Err(e) => {
            proof {
                assert(step(reg, prev) == StepResult::Fail(e@, stack@));
            }
            return Err(e);
        },
    };
    let mut t = t;
    t.insert(k, v);
    stack.push_table(t);
    frames[ti].pc = pc + 1;
    proof {
        assert(frames_view(frames@) =~= prev.frames.update(
            ti as int,
            FrameView {
                insts: prev.frames[ti as int].insts,
                pc: (pc + 1) as nat,
                env: prev.frames[ti as int].env,
            },
        ));
        assert(step(reg, prev) == StepResult::Next(
            ConfigView { frames: frames_view(frames@), stack: stack@ },
        ));
    }
    Ok(())
}

/// Performs one `step` of the semantics for `table_keys`: on success the
/// frames and operand stack hold the next configuration; on failure the
/// operand stack is as the failing instruction left it.
fn op_table_keys(stack: &mut Stack, frames: &mut Vec<Frame>, Ghost(reg): Ghost<RegistryView>) -> (r: Result<
    (),
    RuntimeError,
>)
    requires
        old(frames)@.len() > 0,
        ({
            let fr = frames_view(old(frames)@).last();
            fr.pc < fr.insts.len() && fr.insts[fr.pc as int] == InstView::TableKeys
        }),
    ensures
        ({
            let prev = ConfigView { frames: frames_view(old(frames)@), stack: old(stack)@ };
            match r {
                Ok(u) => step(reg, prev) == StepResult::Next(
                    ConfigView { frames: frames_view(final(frames)@), stack: final(stack)@ },
                ),
                Err(e) => step(reg, prev) == StepResult::Fail(e@, final(stack)@),
            }
        }),
{
    let ghost prev = ConfigView { frames: frames_view(frames@), stack: stack@ };
    let ti = frames.len() - 1;
    let pc = frames[ti].pc;
    let flen = frames[ti].func.instructions.len();
    proof {
        assert(prev.frames.last() == frame_view(frames@[ti as int]));
        assert(pc < flen);
    }
    let t = match stack.pop_table() {
        Ok(v) => v,
        Err(e) => {
            proof {
                assert(step(reg, prev) == StepResult::Fail(e@, stack@));
            }
            return Err(e);
        },
    };
    let ks = t.keys();
    stack.push_list(ks);
    frames[ti].pc = pc + 1;
    proof {
        assert(frames_view(frames@) =~= prev.frames.update(
            ti as int,
            FrameView {
                insts: prev.frames[ti as int].insts,
                pc: (pc + 1) as nat,
                env: prev.frames[ti as int].env,
            },
        ));
        assert(step(reg, prev) == StepResult::Next(
            ConfigView { frames: frames_view(frames@), stack: stack@ },
        ));
    }
    Ok(())
}

/// Performs one `step` of the semantics for `table_len`: on success the
/// frames and operand stack hold the next configuration; on failure the
/// operand stack is as the failing instruction left it.
fn op_table_len(stack: &mut Stack, frames: &mut Vec<Frame>, Ghost(reg): Ghost<RegistryView>) -> (r: Result<
    (),
    RuntimeError,
>)
    requires
        old(frames)@.len() > 0,
        ({
            let fr = frames_view(old(frames)@).last();
            fr.pc < fr.insts.len() && fr.insts[fr.pc as int] == InstView::TableLen
        }),
    ensures
        ({
            let prev = ConfigView { frames: frames_view(old(frames)@), stack: old(stack)@ };
            match r {
                Ok(u) => step(reg, prev) == StepResult::Next(
                    ConfigView { frames: frames_view(final(frames)@), stack: final(stack)@ },
                ),
                Err(e) => step(reg, prev) == StepResult::Fail(e@, final(stack)@),
            }
        }),
{
    let ghost prev = ConfigView { frames: frames_view(frames@), stack: stack@ };
    let ti = frames.len() - 1;
    let pc = frames[ti].pc;
    let flen = frames[ti].func.instructions.len();
    proof {
        assert(prev.frames.last() == frame_view(frames@[ti as int]));
        assert(pc < flen);
    }
    let t = match stack.pop_table() {
        Ok(v) => v,
        Err(e) => {
            proof {
                assert(step(reg, prev) == StepResult::Fail(e@, stack@));
            }
            return Err(e);
        },
    };
    stack.push_int(len_to_int(t.len()));
    frames[ti].pc = pc + 1;
    proof {
        assert(frames_view(frames@) =~= prev.frames.update(
            ti as int,
            FrameView {
                insts: prev.frames[ti as int].insts,
                pc: (pc + 1) as nat,
                env: prev.frames[ti as int].env,
            },
        ));
        assert(step(reg, prev) == StepResult::Next(
            ConfigView { frames: frames_view(frames@), stack: stack@ },
        ));
    }
    Ok(())
}

/// Performs one `step` of the semantics for `load_meta`: on success the
/// frames and operand stack hold the next configuration; on failure the
/// operand stack is as the failing instruction left it.
fn op_load_meta(stack: &mut Stack, frames: &mut Vec<Frame>, Ghost(reg): Ghost<RegistryView>) -> (r: Result<
    (),
    RuntimeError,
>)
    requires
        old(frames)@.len() > 0,
        ({
            let fr = frames_view(old(frames)@).last();
            fr.pc < fr.insts.len() && fr.insts[fr.pc as int] == InstView::LoadMeta
        }),
    ensures
        ({
            let prev = ConfigView { frames: frames_view(old(frames)@), stack: old(stack)@ };
            match r {
                Ok(u) => step(reg, prev) == StepResult::Next(
                    ConfigView { frames: frames_view(final(frames)@), stack: final(stack)@ },
                ),
                Err(e) => step(reg, prev) == StepResult::Fail(e@, final(stack)@),
            }
        }),
{
    let ghost prev = ConfigView { frames: frames_view(frames@), stack: stack@ };
    let ti = frames.len() - 1;
    let pc = frames[ti].pc;
    let flen = frames[ti].func.instructions.len();
    proof {
        assert(prev.frames.last() == frame_view(frames@[ti as int]));
        assert(pc < flen);
    }
    let v = match stack.pop() {
        Ok(v) => v,
        Err(e) => {
            proof {
                assert(step(reg, prev) == StepResult::Fail(e@, stack@));
            }
            return Err(e);
        },
    };
    stack.push_table(v.meta);
    frames[ti].pc = pc + 1;
    proof {
        assert(frames_view(frames@) =~= prev.frames.update(
            ti as int,
            FrameView {
                insts: prev.frames[ti as int].insts,
                pc: (pc + 1) as nat,
                env: prev.frames[ti as int].env,
            },
        ));
        assert(step(reg, prev) == StepResult::Next(
            ConfigView { frames: frames_view(frames@), stack: stack@ },
        ));
    }
    Ok(())
}

/// Performs one `step` of the semantics for `store_meta`: on success the
/// frames and operand stack hold the next configuration; on failure the
/// operand stack is as the failing instruction left it.
fn op_store_meta(stack: &mut Stack, frames: &mut Vec<Frame>, Ghost(reg): Ghost<RegistryView>) -> (r: Result<
    (),
    RuntimeError,
>)
    requires
        old(frames)@.len() > 0,
        ({
            let fr = frames_view(old(frames)@).last();
            fr.pc < fr.insts.len() && fr.insts[fr.pc as int] == InstView::StoreMeta
        }),
    ensures
        ({
            let prev = ConfigView { frames: frames_view(old(frames)@), stack: old(stack)@ };
            match r {
                Ok(u) => step(reg, prev) == StepResult::Next(
                    ConfigView { frames: frames_view(final(frames)@), stack: final(stack)@ },
                ),
                Err(e) => step(reg, prev) == StepResult::Fail(e@, final(stack)@),
            }
        }),
{
    let ghost prev = ConfigView { frames: frames_view(frames@), stack: stack@ };
    let ti = frames.len() - 1;
    let pc = frames[ti].pc;
    let flen = frames[ti].func.instructions.len();
    proof {
        assert(prev.frames.last() == frame_view(frames@[ti as int]));
        assert(pc < flen);
    }
    let t = match stack.pop_table() {
        Ok(v) => v,
        Err(e) => {
            proof {
                assert(step(reg, prev) == StepResult::Fail(e@, stack@));
            }
            return Err(e);
        },
    };
    let v = match stack.pop() {
        Ok(v) => v,
        Err(e) => {
            proof {
                assert(step(reg, prev) == StepResult::Fail(e@, stack@));
            }
            return Err(e);
        },
    };
    let mut v = v;
    v.meta = t;
    stack.push(v);
    frames[ti].pc = pc + 1;
    proof {
        assert(frames_view(frames@) =~= prev.frames.update(
            ti as int,
            FrameView {
                insts: prev.frames[ti as int].insts,
                pc: (pc + 1) as nat,
                env: prev.frames[ti as int].env,
            },
        ));
        assert(step(reg, prev) == StepResult::Next(
            ConfigView { frames: frames_view(frames@), stack: stack@ },
        ));
    }
    Ok(())
}

/// Performs one `step` of the semantics for `return`: on success the
/// frames and operand stack hold the next configuration; on failure the
/// operand stack is as the failing instruction left it.
fn op_return(stack: &mut Stack, frames: &mut Vec<Frame>, Ghost(reg): Ghost<RegistryView>) -> (r: Result<
    (),
    RuntimeError,
>)
    requires
        old(frames)@.len() > 0,
        ({
            let fr = frames_view(old(frames)@).last();
            fr.pc < fr.insts.len() && fr.insts[fr.pc as int] == InstView::Return
        }),
    ensures
        ({
            let prev = ConfigView { frames: frames_view(old(frames)@), stack: old(stack)@ };
            match r {
                Ok(u) => step(reg, prev) == StepResult::Next(
                    ConfigView { frames: frames_view(final(frames)@), stack: final(stack)@ },
                ),
                Err(e) => step(reg, prev) == StepResult::Fail(e@, final(stack)@),
            }
        }),
{
    let ghost prev = ConfigView { frames: frames_view(frames@), stack: stack@ };
    let ti = frames.len() - 1;
    let pc = frames[ti].pc;
    let flen = frames[ti].func.instructions.len();
    proof {
        assert(prev.frames.last() == frame_view(frames@[ti as int]));
        assert(pc < flen);
    }
    frames.pop();
    proof {
        assert(frames_view(frames@) =~= prev.frames.drop_last());
        assert(step(reg, prev) == StepResult::Next(
            ConfigView { frames: frames_view(frames@), stack: stack@ },
        ));
    }
    Ok(())
}


} // verus!
