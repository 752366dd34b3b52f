//! The small-step operational semantics of the machine, stated over
//! mathematical models of values, frames and configurations.
//!
//! A configuration is a stack of call frames over one shared operand
//! stack. `step` is the transition function: it either produces the next
//! configuration, reports that execution is done, or fails with an error,
//! leaving the operand stack in whatever state the failing instruction
//! produced. `steps` iterates it. The interpreter is proved to realise
//! exactly this relation, one `step` per dispatch.
//!
//! Integer arithmetic follows two's-complement wraparound; integer
//! division and remainder truncate toward zero and fail on a zero divisor.

use vstd::prelude::*;

use crate::vm::instructions::InstView;
use crate::vm::function::FunctionView;
use crate::vm::value::{
    kind_name_of, table_get, table_keys_of, table_set, FunctionRefView, MetaValueView, ValueView,
};
use crate::vm::RuntimeError;

verus! {

/// The view of a runtime error.
pub ghost enum ErrorView {
    EmptyStack,
    EmptyList,
    TypeError(Seq<char>),
    LocalNotInitialized,
    LocalNotFound,
    OperationNotDefined(Seq<char>, Seq<char>),
    RangeError(i64, i64, i64),
    KeyNotFound(MetaValueView),
    FunctionNotFound(Seq<char>),
    DivideByZero,
    BudgetExhausted,
}

impl View for RuntimeError {
    type V = ErrorView;

    open spec fn view(&self) -> ErrorView {
        match *self {
            RuntimeError::EmptyStack => ErrorView::EmptyStack,
            RuntimeError::EmptyList => ErrorView::EmptyList,
            RuntimeError::TypeError(t) => ErrorView::TypeError(t@),
            RuntimeError::LocalNotInitialized => ErrorView::LocalNotInitialized,
            RuntimeError::LocalNotFound => ErrorView::LocalNotFound,
            RuntimeError::OperationNotDefined(o, t) => ErrorView::OperationNotDefined(o@, t@),
            RuntimeError::RangeError(i, lo, hi) => ErrorView::RangeError(i, lo, hi),
            RuntimeError::KeyNotFound(k) => ErrorView::KeyNotFound(k@),
            RuntimeError::FunctionNotFound(n) => ErrorView::FunctionNotFound(n@),
            RuntimeError::DivideByZero => ErrorView::DivideByZero,
            RuntimeError::BudgetExhausted => ErrorView::BudgetExhausted,
        }
    }
}

/// The registry a machine executes against: names to functions.
pub type RegistryView = Map<Seq<char>, FunctionView>;

/// One active call: the callee's instructions, the program counter, and
/// the frame of local slots.
pub ghost struct FrameView {
    pub insts: Seq<InstView>,
    pub pc: nat,
    pub env: Seq<Option<MetaValueView>>,
}

/// A configuration: the stack of active calls (the last is the current
/// one) over the shared operand stack (the last element is the top).
pub ghost struct ConfigView {
    pub frames: Seq<FrameView>,
    pub stack: Seq<MetaValueView>,
}

/// The outcome of one step: the next configuration; or done, with the
/// final operand stack; or failed, with the error and the operand stack
/// as the failing instruction left it.
pub ghost enum StepResult {
    Next(ConfigView),
    Done(Seq<MetaValueView>),
    Fail(ErrorView, Seq<MetaValueView>),
}

/// Wraps a bare value with an empty meta-table, as every push of a
/// freshly produced value does.
pub open spec fn plain(v: ValueView) -> MetaValueView {
    MetaValueView { value: v, meta: Seq::<(MetaValueView, MetaValueView)>::empty() }
}

/// The type error carried when a typed pop observes kind `v`.
pub open spec fn type_err(v: ValueView) -> ErrorView {
    ErrorView::TypeError(kind_name_of(v))
}

/// Truncated division of mathematical integers, `d != 0`: rounds toward
/// zero, as the machine's integer `Div` does.
pub open spec fn int_div_trunc(x: int, d: int) -> int {
    if x == 0 {
        0
    } else if x > 0 && d > 0 {
        x / d
    } else if x < 0 && d < 0 {
        (x * -1) / (d * -1)
    } else if x < 0 {
        ((x * -1) / d) * -1
    } else {
        (x / (d * -1)) * -1
    }
}

/// Truncated remainder of mathematical integers, `d != 0`: the sign
/// follows the dividend, as the machine's integer `Mod` does.
pub open spec fn int_rem_trunc(x: int, d: int) -> int {
    if x == 0 {
        0
    } else if x > 0 && d > 0 {
        x % d
    } else if x < 0 && d < 0 {
        ((x * -1) % (d * -1)) * -1
    } else if x < 0 {
        ((x * -1) % d) * -1
    } else {
        x % (d * -1)
    }
}

/// The machine's integer division, `b != 0`: truncated, wrapping on the
/// one overflowing case.
pub open spec fn vm_div(a: i64, b: i64) -> i64 {
    let q = int_div_trunc(a as int, b as int);
    if q < i64::MIN || q > i64::MAX {
        i64::MIN
    } else {
        q as i64
    }
}

/// The machine's integer remainder, `b != 0`: truncated, wrapping on the
/// one overflowing case.
pub open spec fn vm_rem(a: i64, b: i64) -> i64 {
    if a == i64::MIN && b == -1 {
        0
    } else {
        int_rem_trunc(a as int, b as int) as i64
    }
}

/// A length reported as a machine integer: two's-complement wraparound,
/// like all the machine's integer arithmetic.
pub open spec fn len_as_int(n: nat) -> i64 {
    vstd::wrapping::i64_specs::signed_crop(n as int)
}

/// The configuration after the current frame continues at `pc` with
/// frame `env` and operand stack `stack`.
pub open spec fn continue_at(
    c: ConfigView,
    pc: nat,
    env: Seq<Option<MetaValueView>>,
    stack: Seq<MetaValueView>,
) -> StepResult {
    let i = c.frames.len() - 1;
    StepResult::Next(
        ConfigView {
            frames: c.frames.update(i, FrameView { insts: c.frames[i].insts, pc, env }),
            stack,
        },
    )
}

/// One step of the machine under registry `reg`.
///
/// The current frame is the last of `c.frames`; a program counter at or
/// past the end of the instruction sequence returns from the frame. With
/// no frame left, execution is done and the operand stack holds the
/// results.
pub open spec fn step(reg: RegistryView, c: ConfigView) -> StepResult {
    if c.frames.len() == 0 {
        StepResult::Done(c.stack)
    } else {
        let fr = c.frames.last();
        let stack = c.stack;
        if fr.pc >= fr.insts.len() {
            StepResult::Next(ConfigView { frames: c.frames.drop_last(), stack })
        } else {
            let pc1 = fr.pc + 1;
            let env = fr.env;
            match fr.insts[fr.pc as int] {
                InstView::Nop => continue_at(c, pc1, env, stack),
                InstView::Dup => {
                    if stack.len() == 0 {
                        StepResult::Fail(ErrorView::EmptyStack, stack)
                    } else {
                        continue_at(c, pc1, env, stack.push(stack.last()))
                    }
                },
                InstView::Drop => {
                    if stack.len() == 0 {
                        StepResult::Fail(ErrorView::EmptyStack, stack)
                    } else {
                        continue_at(c, pc1, env, stack.drop_last())
                    }
                },
                InstView::Swap => {
                    if stack.len() == 0 {
                        StepResult::Fail(ErrorView::EmptyStack, stack)
                    } else if stack.len() == 1 {
                        StepResult::Fail(ErrorView::EmptyStack, stack.drop_last())
                    } else {
                        let a = stack.last();
                        let b = stack.drop_last().last();
                        continue_at(
                            c,
                            pc1,
                            env,
                            stack.drop_last().drop_last().push(a).push(b),
                        )
                    }
                },
                InstView::PushB(b) => continue_at(c, pc1, env, stack.push(plain(ValueView::Bool(b)))),
                InstView::PushI(i) => continue_at(c, pc1, env, stack.push(plain(ValueView::Int(i)))),
                InstView::PushList => continue_at(
                    c,
                    pc1,
                    env,
                    stack.push(plain(ValueView::List(Seq::empty()))),
                ),
                InstView::PushTable => continue_at(
                    c,
                    pc1,
                    env,
                    stack.push(plain(ValueView::Table(Seq::empty()))),
                ),
                InstView::PushFn(name) => continue_at(
                    c,
                    pc1,
                    env,
                    stack.push(
                        plain(
                            ValueView::FunctionRef(
                                FunctionRefView { name, env: Seq::empty() },
                            ),
                        ),
                    ),
                ),
                InstView::IntoInt => {
                    if stack.len() == 0 {
                        StepResult::Fail(ErrorView::EmptyStack, stack)
                    } else {
                        let mv = stack.last();
                        let rest = stack.drop_last();
                        match mv.value {
                            ValueView::Bool(b) => continue_at(
                                c,
                                pc1,
                                env,
                                rest.push(plain(ValueView::Int(if b { 1i64 } else { 0i64 }))),
                            ),
                            ValueView::Int(i) => continue_at(
                                c,
                                pc1,
                                env,
                                rest.push(plain(ValueView::Int(i))),
                            ),
                            ValueView::List(l) => continue_at(
                                c,
                                pc1,
                                env,
                                rest.push(plain(ValueView::Int(len_as_int(l.len())))),
                            ),
                            ValueView::Table(t) => continue_at(
                                c,
                                pc1,
                                env,
                                rest.push(plain(ValueView::Int(len_as_int(t.len())))),
                            ),
                            ValueView::FunctionRef(_) => StepResult::Fail(
                                ErrorView::OperationNotDefined(
                                    "into_int"@,
                                    "FunctionRef"@,
                                ),
                                rest,
                            ),
                        }
                    }
                },
                InstView::And => step_bool_binop(c, |a: bool, b: bool| a && b),
                InstView::Or => step_bool_binop(c, |a: bool, b: bool| a || b),
                InstView::Xor => step_bool_binop(c, |a: bool, b: bool| a ^ b),
                InstView::Not => {
                    if stack.len() == 0 {
                        StepResult::Fail(ErrorView::EmptyStack, stack)
                    } else {
                        match stack.last().value {
                            ValueView::Bool(a) => continue_at(
                                c,
                                pc1,
                                env,
                                stack.drop_last().push(plain(ValueView::Bool(!a))),
                            ),
                            v => StepResult::Fail(type_err(v), stack.drop_last()),
                        }
                    }
                },
                InstView::Add => step_arith(c, "+"@, |a: i64, b: i64|
                    vstd::wrapping::i64_specs::wrapping_add(a, b)),
                InstView::Sub => step_arith(c, "-"@, |a: i64, b: i64|
                    vstd::wrapping::i64_specs::wrapping_sub(a, b)),
                InstView::Mul => step_arith(c, "*"@, |a: i64, b: i64|
                    vstd::wrapping::i64_specs::wrapping_mul(a, b)),
                InstView::Div => step_arith_div(c, "/"@, |a: i64, b: i64| vm_div(a, b)),
                InstView::Mod => step_arith_div(c, "mod"@, |a: i64, b: i64| vm_rem(a, b)),
                InstView::Equal => {
                    if stack.len() == 0 {
                        StepResult::Fail(ErrorView::EmptyStack, stack)
                    } else if stack.len() == 1 {
                        StepResult::Fail(ErrorView::EmptyStack, stack.drop_last())
                    } else {
                        let b = stack.last();
                        let a = stack.drop_last().last();
                        continue_at(
                            c,
                            pc1,
                            env,
                            stack.drop_last().drop_last().push(plain(ValueView::Bool(a == b))),
                        )
                    }
                },
                InstView::NotEqual => {
                    if stack.len() == 0 {
                        StepResult::Fail(ErrorView::EmptyStack, stack)
                    } else if stack.len() == 1 {
                        StepResult::Fail(ErrorView::EmptyStack, stack.drop_last())
                    } else {
                        let b = stack.last();
                        let a = stack.drop_last().last();
                        continue_at(
                            c,
                            pc1,
                            env,
                            stack.drop_last().drop_last().push(plain(ValueView::Bool(a != b))),
                        )
                    }
                },
                InstView::LessThan => step_compare(c, |a: i64, b: i64| a < b),
                InstView::GreaterThan => step_compare(c, |a: i64, b: i64| a > b),
                InstView::LessEqual => step_compare(c, |a: i64, b: i64| a <= b),
                InstView::GreaterEqual => step_compare(c, |a: i64, b: i64| a >= b),
                InstView::Branch(t) => continue_at(c, t as nat, env, stack),
                InstView::BranchIf(t) => {
                    if stack.len() == 0 {
                        StepResult::Fail(ErrorView::EmptyStack, stack)
                    } else {
                        match stack.last().value {
                            ValueView::Bool(v) => continue_at(
                                c,
                                if v { t as nat } else { pc1 },
                                env,
                                stack.drop_last(),
                            ),
                            v => StepResult::Fail(type_err(v), stack.drop_last()),
                        }
                    }
                },
                InstView::BranchIfNot(t) => {
                    if stack.len() == 0 {
                        StepResult::Fail(ErrorView::EmptyStack, stack)
                    } else {
                        match stack.last().value {
                            ValueView::Bool(v) => continue_at(
                                c,
                                if !v { t as nat } else { pc1 },
                                env,
                                stack.drop_last(),
                            ),
                            v => StepResult::Fail(type_err(v), stack.drop_last()),
                        }
                    }
                },
                InstView::Call => {
                    if stack.len() == 0 {
                        StepResult::Fail(ErrorView::EmptyStack, stack)
                    } else {
                        match stack.last().value {
                            ValueView::FunctionRef(f) => {
                                let rest = stack.drop_last();
                                if reg.contains_key(f.name) {
                                    let callee = reg[f.name];
                                    let i = c.frames.len() - 1;
                                    let caller = FrameView {
                                        insts: fr.insts,
                                        pc: pc1,
                                        env,
                                    };
                                    let callee_frame = FrameView {
                                        insts: callee.instructions,
                                        pc: 0,
                                        env: f.env + Seq::new(
                                            callee.locals as nat,
                                            |k: int| None::<MetaValueView>,
                                        ),
                                    };
                                    StepResult::Next(
                                        ConfigView {
                                            frames: c.frames.update(i, caller).push(callee_frame),
                                            stack: rest,
                                        },
                                    )
                                } else {
                                    StepResult::Fail(ErrorView::FunctionNotFound(f.name), rest)
                                }
                            },
                            v => StepResult::Fail(type_err(v), stack.drop_last()),
                        }
                    }
                },
                InstView::Bind => {
                    if stack.len() == 0 {
                        StepResult::Fail(ErrorView::EmptyStack, stack)
                    } else {
                        match stack.last().value {
                            ValueView::List(captured) => {
                                let rest = stack.drop_last();
                                if rest.len() == 0 {
                                    StepResult::Fail(ErrorView::EmptyStack, rest)
                                } else {
                                    match rest.last().value {
                                        ValueView::FunctionRef(f) => continue_at(
                                            c,
                                            pc1,
                                            env,
                                            rest.drop_last().push(
                                                plain(
                                                    ValueView::FunctionRef(
                                                        FunctionRefView {
                                                            name: f.name,
                                                            env: captured.map(
                                                                |k: int, v: MetaValueView|
                                                                    Some(v),
                                                            ),
                                                        },
                                                    ),
                                                ),
                                            ),
                                        ),
                                        v => StepResult::Fail(type_err(v), rest.drop_last()),
                                    }
                                }
                            },
                            v => StepResult::Fail(type_err(v), stack.drop_last()),
                        }
                    }
                },
                InstView::Return => StepResult::Next(
                    ConfigView { frames: c.frames.drop_last(), stack },
                ),
                InstView::LocalLoad(idx) => {
                    if idx < env.len() {
                        match env[idx as int] {
                            Some(v) => continue_at(c, pc1, env, stack.push(v)),
                            None => StepResult::Fail(ErrorView::LocalNotInitialized, stack),
                        }
                    } else {
                        StepResult::Fail(ErrorView::LocalNotFound, stack)
                    }
                },
                InstView::LocalStore(idx) => {
                    if stack.len() == 0 {
                        StepResult::Fail(ErrorView::EmptyStack, stack)
                    } else {
                        let v = stack.last();
                        let rest = stack.drop_last();
                        if idx < env.len() {
                            continue_at(c, pc1, env.update(idx as int, Some(v)), rest)
                        } else {
                            StepResult::Fail(ErrorView::LocalNotFound, rest)
                        }
                    }
                },
                InstView::ListPush => {
                    if stack.len() == 0 {
                        StepResult::Fail(ErrorView::EmptyStack, stack)
                    } else {
                        let v = stack.last();
                        let rest = stack.drop_last();
                        if rest.len() == 0 {
                            StepResult::Fail(ErrorView::EmptyStack, rest)
                        } else {
                            match rest.last().value {
                                ValueView::List(l) => continue_at(
                                    c,
                                    pc1,
                                    env,
                                    rest.drop_last().push(plain(ValueView::List(l.push(v)))),
                                ),
                                w => StepResult::Fail(type_err(w), rest.drop_last()),
                            }
                        }
                    }
                },
                InstView::ListPop => {
                    if stack.len() == 0 {
                        StepResult::Fail(ErrorView::EmptyStack, stack)
                    } else {
                        match stack.last().value {
                            ValueView::List(l) => {
                                let rest = stack.drop_last();
                                if l.len() == 0 {
                                    StepResult::Fail(ErrorView::EmptyList, rest)
                                } else {
                                    continue_at(
                                        c,
                                        pc1,
                                        env,
                                        rest.push(plain(ValueView::List(l.drop_last()))).push(
                                            l.last(),
                                        ),
                                    )
                                }
                            },
                            v => StepResult::Fail(type_err(v), stack.drop_last()),
                        }
                    }
                },
                InstView::ListGet => {
                    if stack.len() == 0 {
                        StepResult::Fail(ErrorView::EmptyStack, stack)
                    } else {
                        match stack.last().value {
                            ValueView::Int(i) => {
                                let rest = stack.drop_last();
                                if rest.len() == 0 {
                                    StepResult::Fail(ErrorView::EmptyStack, rest)
                                } else {
                                    match rest.last().value {
                                        ValueView::List(l) => {
                                            if 0 <= i < l.len() {
                                                continue_at(
                                                    c,
                                                    pc1,
                                                    env,
                                                    rest.drop_last().push(l[i as int]),
                                                )
                                            } else {
                                                StepResult::Fail(
                                                    ErrorView::RangeError(
                                                        i,
                                                        0,
                                                        len_as_int(l.len()),
                                                    ),
                                                    rest.drop_last(),
                                                )
                                            }
                                        },
                                        v => StepResult::Fail(type_err(v), rest.drop_last()),
                                    }
                                }
                            },
                            v => StepResult::Fail(type_err(v), stack.drop_last()),
                        }
                    }
                },
                InstView::ListSet => {
                    if stack.len() == 0 {
                        StepResult::Fail(ErrorView::EmptyStack, stack)
                    } else {
                        let v = stack.last();
                        let rest1 = stack.drop_last();
                        if rest1.len() == 0 {
                            StepResult::Fail(ErrorView::EmptyStack, rest1)
                        } else {
                            match rest1.last().value {
                                ValueView::Int(i) => {
                                    let rest2 = rest1.drop_last();
                                    if rest2.len() == 0 {
                                        StepResult::Fail(ErrorView::EmptyStack, rest2)
                                    } else {
                                        match rest2.last().value {
                                            ValueView::List(l) => {
                                                if 0 <= i < l.len() {
                                                    continue_at(
                                                        c,
                                                        pc1,
                                                        env,
                                                        rest2.drop_last().push(
                                                            plain(
                                                                ValueView::List(
                                                                    l.update(i as int, v),
                                                                ),
                                                            ),
                                                        ),
                                                    )
                                                } else {
                                                    StepResult::Fail(
                                                        ErrorView::RangeError(
                                                            i,
                                                            0,
                                                            len_as_int(l.len()),
                                                        ),
                                                        rest2.drop_last(),
                                                    )
                                                }
                                            },
                                            w => StepResult::Fail(
                                                type_err(w),
                                                rest2.drop_last(),
                                            ),
                                        }
                                    }
                                },
                                w => StepResult::Fail(type_err(w), rest1.drop_last()),
                            }
                        }
                    }
                },
                InstView::ListLen => {
                    if stack.len() == 0 {
                        StepResult::Fail(ErrorView::EmptyStack, stack)
                    } else {
                        match stack.last().value {
                            ValueView::List(l) => continue_at(
                                c,
                                pc1,
                                env,
                                stack.drop_last().push(
                                    plain(ValueView::Int(len_as_int(l.len()))),
                                ),
                            ),
                            v => StepResult::Fail(type_err(v), stack.drop_last()),
                        }
                    }
                },
                InstView::TableGet => {
                    if stack.len() == 0 {
                        StepResult::Fail(ErrorView::EmptyStack, stack)
                    } else {
                        let k = stack.last();
                        let rest = stack.drop_last();
                        if rest.len() == 0 {
                            StepResult::Fail(ErrorView::EmptyStack, rest)
                        } else {
                            match rest.last().value {
                                ValueView::Table(t) => {
                                    match table_get(t, k) {
                                        Some(v) => continue_at(
                                            c,
                                            pc1,
                                            env,
                                            rest.drop_last().push(v),
                                        ),
                                        None => StepResult::Fail(
                                            ErrorView::KeyNotFound(k),
                                            rest.drop_last(),
                                        ),
                                    }
                                },
                                v => StepResult::Fail(type_err(v), rest.drop_last()),
                            }
                        }
                    }
                },
                InstView::TableSet => {
                    if stack.len() == 0 {
                        StepResult::Fail(ErrorView::EmptyStack, stack)
                    } else {
                        let v = stack.last();
                        let rest1 = stack.drop_last();
                        if rest1.len() == 0 {
                            StepResult::Fail(ErrorView::EmptyStack, rest1)
                        } else {
                            let k = rest1.last();
                            let rest2 = rest1.drop_last();
                            if rest2.len() == 0 {
                                StepResult::Fail(ErrorView::EmptyStack, rest2)
                            } else {
                                match rest2.last().value {
                                    ValueView::Table(t) => continue_at(
                                        c,
                                        pc1,
                                        env,
                                        rest2.drop_last().push(
                                            plain(ValueView::Table(table_set(t, k, v))),
                                        ),
                                    ),
                                    w => StepResult::Fail(type_err(w), rest2.drop_last()),
                                }
                            }
                        }
                    }
                },
                InstView::TableKeys => {
                    if stack.len() == 0 {
                        StepResult::Fail(ErrorView::EmptyStack, stack)
                    } else {
                        match stack.last().value {
                            ValueView::Table(t) => continue_at(
                                c,
                                pc1,
                                env,
                                stack.drop_last().push(
                                    plain(ValueView::List(table_keys_of(t))),
                                ),
                            ),
                            v => StepResult::Fail(type_err(v), stack.drop_last()),
                        }
                    }
                },
                InstView::TableLen => {
                    if stack.len() == 0 {
                        StepResult::Fail(ErrorView::EmptyStack, stack)
                    } else {
                        match stack.last().value {
                            ValueView::Table(t) => continue_at(
                                c,
                                pc1,
                                env,
                                stack.drop_last().push(
                                    plain(ValueView::Int(len_as_int(t.len()))),
                                ),
                            ),
                            v => StepResult::Fail(type_err(v), stack.drop_last()),
                        }
                    }
                },
                InstView::LoadMeta => {
                    if stack.len() == 0 {
                        StepResult::Fail(ErrorView::EmptyStack, stack)
                    } else {
                        let v = stack.last();
                        continue_at(
                            c,
                            pc1,
                            env,
                            stack.drop_last().push(plain(ValueView::Table(v.meta))),
                        )
                    }
                },
                InstView::StoreMeta => {
                    if stack.len() == 0 {
                        StepResult::Fail(ErrorView::EmptyStack, stack)
                    } else {
                        match stack.last().value {
                            ValueView::Table(t) => {
                                let rest = stack.drop_last();
                                if rest.len() == 0 {
                                    StepResult::Fail(ErrorView::EmptyStack, rest)
                                } else {
                                    let v = rest.last();
                                    continue_at(
                                        c,
                                        pc1,
                                        env,
                                        rest.drop_last().push(
                                            MetaValueView { value: v.value, meta: t },
                                        ),
                                    )
                                }
                            },
                            v => StepResult::Fail(type_err(v), stack.drop_last()),
                        }
                    }
                },
            }
        }
    }
}

/// One step of a boolean binary operation: pops the right then the left
/// operand, both booleans, and pushes the operation's result.
pub open spec fn step_bool_binop(c: ConfigView, op: spec_fn(bool, bool) -> bool) -> StepResult {
    let fr = c.frames.last();
    let stack = c.stack;
    let pc1 = fr.pc + 1;
    if stack.len() == 0 {
        StepResult::Fail(ErrorView::EmptyStack, stack)
    } else {
        match stack.last().value {
            ValueView::Bool(b) => {
                let rest = stack.drop_last();
                if rest.len() == 0 {
                    StepResult::Fail(ErrorView::EmptyStack, rest)
                } else {
                    match rest.last().value {
                        ValueView::Bool(a) => continue_at(
                            c,
                            pc1,
                            fr.env,
                            rest.drop_last().push(plain(ValueView::Bool(op(a, b)))),
                        ),
                        v => StepResult::Fail(type_err(v), rest.drop_last()),
                    }
                }
            },
            v => StepResult::Fail(type_err(v), stack.drop_last()),
        }
    }
}

/// One step of an integer comparison: pops the right then the left
/// operand, both integers, and pushes the comparison's result.
pub open spec fn step_compare(c: ConfigView, op: spec_fn(i64, i64) -> bool) -> StepResult {
    let fr = c.frames.last();
    let stack = c.stack;
    let pc1 = fr.pc + 1;
    if stack.len() == 0 {
        StepResult::Fail(ErrorView::EmptyStack, stack)
    } else {
        match stack.last().value {
            ValueView::Int(b) => {
                let rest = stack.drop_last();
                if rest.len() == 0 {
                    StepResult::Fail(ErrorView::EmptyStack, rest)
                } else {
                    match rest.last().value {
                        ValueView::Int(a) => continue_at(
                            c,
                            pc1,
                            fr.env,
                            rest.drop_last().push(plain(ValueView::Bool(op(a, b)))),
                        ),
                        v => StepResult::Fail(type_err(v), rest.drop_last()),
                    }
                }
            },
            v => StepResult::Fail(type_err(v), stack.drop_last()),
        }
    }
}

/// One step of an arithmetic operation: pops the right operand and
/// dispatches on its kind; an integer makes the left operand an integer
/// pop too, and the result is pushed. Any other right operand fails with
/// the operation's name and the operand's kind.
pub open spec fn step_arith(
    c: ConfigView,
    op_name: Seq<char>,
    op: spec_fn(i64, i64) -> i64,
) -> StepResult {
    let fr = c.frames.last();
    let stack = c.stack;
    let pc1 = fr.pc + 1;
    if stack.len() == 0 {
        StepResult::Fail(ErrorView::EmptyStack, stack)
    } else {
        let bv = stack.last();
        let rest = stack.drop_last();
        match bv.value {
            ValueView::Int(b) => {
                if rest.len() == 0 {
                    StepResult::Fail(ErrorView::EmptyStack, rest)
                } else {
                    match rest.last().value {
                        ValueView::Int(a) => continue_at(
                            c,
                            pc1,
                            fr.env,
                            rest.drop_last().push(plain(ValueView::Int(op(a, b)))),
                        ),
                        v => StepResult::Fail(type_err(v), rest.drop_last()),
                    }
                }
            },
            v => StepResult::Fail(
                ErrorView::OperationNotDefined(op_name, kind_name_of(v)),
                rest,
            ),
        }
    }
}

/// One step of integer division or remainder: as `step_arith`, but a
/// zero right operand fails with `DivideByZero` after both operands are
/// consumed.
pub open spec fn step_arith_div(
    c: ConfigView,
    op_name: Seq<char>,
    op: spec_fn(i64, i64) -> i64,
) -> StepResult {
    let fr = c.frames.last();
    let stack = c.stack;
    let pc1 = fr.pc + 1;
    if stack.len() == 0 {
        StepResult::Fail(ErrorView::EmptyStack, stack)
    } else {
        let bv = stack.last();
        let rest = stack.drop_last();
        match bv.value {
            ValueView::Int(b) => {
                if rest.len() == 0 {
                    StepResult::Fail(ErrorView::EmptyStack, rest)
                } else {
                    match rest.last().value {
                        ValueView::Int(a) => {
                            if b == 0 {
                                StepResult::Fail(ErrorView::DivideByZero, rest.drop_last())
                            } else {
                                continue_at(
                                    c,
                                    pc1,
                                    fr.env,
                                    rest.drop_last().push(plain(ValueView::Int(op(a, b)))),
                                )
                            }
                        },
                        v => StepResult::Fail(type_err(v), rest.drop_last()),
                    }
                }
            },
            v => StepResult::Fail(
                ErrorView::OperationNotDefined(op_name, kind_name_of(v)),
                rest,
            ),
        }
    }
}

/// The machine after `n` steps from `c`: the current configuration, or
/// the done or failed outcome it reached within those steps.
pub open spec fn steps(reg: RegistryView, c: ConfigView, n: nat) -> StepResult
    decreases n,
{
    if n == 0 {
        StepResult::Next(c)
    } else {
        match steps(reg, c, (n - 1) as nat) {
            StepResult::Next(c2) => step(reg, c2),
            done_or_failed => done_or_failed,
        }
    }
}

/// The starting configuration for running function `f` over operand
/// stack `stack`: one frame at its first instruction, the frame's slots
/// being `env` extended by the function's own uninitialised locals.
pub open spec fn init_config(
    f: FunctionView,
    env: Seq<Option<MetaValueView>>,
    stack: Seq<MetaValueView>,
) -> ConfigView {
    ConfigView {
        frames: seq![
            FrameView {
                insts: f.instructions,
                pc: 0,
                env: env + Seq::new(f.locals as nat, |k: int| None::<MetaValueView>),
            },
        ],
        stack,
    }
}

// ---------------------------------------------------------------------------
// Laws of the machine.
// ---------------------------------------------------------------------------

/// The documented stack effect of an opcode: how many operands it pops
/// and how many results it pushes. `Call` has none of its own, its
/// effect being the callee's.
pub open spec fn stack_effect(i: InstView) -> Option<(nat, nat)> {
    match i {
        InstView::Nop => Some((0nat, 0nat)),
        InstView::Dup => Some((1nat, 2nat)),
        InstView::Drop => Some((1nat, 0nat)),
        InstView::Swap => Some((2nat, 2nat)),
        InstView::PushB(_) => Some((0nat, 1nat)),
        InstView::PushI(_) => Some((0nat, 1nat)),
        InstView::PushList => Some((0nat, 1nat)),
        InstView::PushTable => Some((0nat, 1nat)),
        InstView::PushFn(_) => Some((0nat, 1nat)),
        InstView::IntoInt => Some((1nat, 1nat)),
        InstView::ListPush => Some((2nat, 1nat)),
        InstView::ListPop => Some((1nat, 2nat)),
        InstView::ListGet => Some((2nat, 1nat)),
        InstView::ListSet => Some((3nat, 1nat)),
        InstView::ListLen => Some((1nat, 1nat)),
        InstView::TableGet => Some((2nat, 1nat)),
        InstView::TableSet => Some((3nat, 1nat)),
        InstView::TableKeys => Some((1nat, 1nat)),
        InstView::TableLen => Some((1nat, 1nat)),
        InstView::LoadMeta => Some((1nat, 1nat)),
        InstView::StoreMeta => Some((2nat, 1nat)),
        InstView::LocalLoad(_) => Some((0nat, 1nat)),
        InstView::LocalStore(_) => Some((1nat, 0nat)),
        InstView::And => Some((2nat, 1nat)),
        InstView::Or => Some((2nat, 1nat)),
        InstView::Xor => Some((2nat, 1nat)),
        InstView::Not => Some((1nat, 1nat)),
        InstView::Add => Some((2nat, 1nat)),
        InstView::Sub => Some((2nat, 1nat)),
        InstView::Mul => Some((2nat, 1nat)),
        InstView::Div => Some((2nat, 1nat)),
        InstView::Mod => Some((2nat, 1nat)),
        InstView::Equal => Some((2nat, 1nat)),
        InstView::NotEqual => Some((2nat, 1nat)),
        InstView::LessThan => Some((2nat, 1nat)),
        InstView::GreaterThan => Some((2nat, 1nat)),
        InstView::LessEqual => Some((2nat, 1nat)),
        InstView::GreaterEqual => Some((2nat, 1nat)),
        InstView::Branch(_) => Some((0nat, 0nat)),
        InstView::BranchIf(_) => Some((1nat, 0nat)),
        InstView::BranchIfNot(_) => Some((1nat, 0nat)),
        InstView::Call => None,
        InstView::Bind => Some((2nat, 1nat)),
        InstView::Return => Some((0nat, 0nat)),
    }
}

/// The instruction the current frame of `c` is about to execute; only
/// meaningful when a frame is active and its program counter is in
/// range.
pub open spec fn current_inst(c: ConfigView) -> InstView {
    c.frames.last().insts[c.frames.last().pc as int]
}

/// Whether `c` has an active frame whose program counter is in range.
pub open spec fn at_inst(c: ConfigView) -> bool {
    c.frames.len() > 0 && c.frames.last().pc < c.frames.last().insts.len()
}

/// Every opcode with a documented stack effect `(n_in, n_out)` that
/// steps without error leaves the operand stack exactly `n_in` shorter
/// and `n_out` longer.
#[verifier::rlimit(100)]
#[verifier::spinoff_prover]
pub proof fn lemma_stack_effect(reg: RegistryView, c: ConfigView, n_in: nat, n_out: nat)
    requires
        at_inst(c),
        stack_effect(current_inst(c)) == Some((n_in, n_out)),
        step(reg, c) is Next,
    ensures
        step(reg, c)->Next_0.stack.len() == c.stack.len() - n_in + n_out,
{
    let goal = step(reg, c)->Next_0.stack.len() == c.stack.len() - n_in + n_out;
    match current_inst(c) {
        InstView::Nop => assert(goal),
        InstView::Dup => assert(goal),
        InstView::Drop => assert(goal),
        InstView::Swap => assert(goal),
        InstView::PushB(_) => assert(goal),
        InstView::PushI(_) => assert(goal),
        InstView::PushList => assert(goal),
        InstView::PushTable => assert(goal),
        InstView::PushFn(_) => assert(goal),
        InstView::IntoInt => assert(goal),
        InstView::ListPush => assert(goal),
        InstView::ListPop => assert(goal),
        InstView::ListGet => assert(goal),
        InstView::ListSet => assert(goal),
        InstView::ListLen => assert(goal),
        InstView::TableGet => assert(goal),
        InstView::TableSet => assert(goal),
        InstView::TableKeys => assert(goal),
        InstView::TableLen => assert(goal),
        InstView::LoadMeta => assert(goal),
        InstView::StoreMeta => assert(goal),
        InstView::LocalLoad(_) => assert(goal),
        InstView::LocalStore(_) => assert(goal),
        InstView::And => assert(goal),
        InstView::Or => assert(goal),
        InstView::Xor => assert(goal),
        InstView::Not => assert(goal),
        InstView::Add => assert(goal),
        InstView::Sub => assert(goal),
        InstView::Mul => assert(goal),
        InstView::Div => assert(goal),
        InstView::Mod => assert(goal),
        InstView::Equal => assert(goal),
        InstView::NotEqual => assert(goal),
        InstView::LessThan => assert(goal),
        InstView::GreaterThan => assert(goal),
        InstView::LessEqual => assert(goal),
        InstView::GreaterEqual => assert(goal),
        InstView::Branch(_) => assert(goal),
        InstView::BranchIf(_) => assert(goal),
        InstView::BranchIfNot(_) => assert(goal),
        InstView::Call => assert(goal),
        InstView::Bind => assert(goal),
        InstView::Return => assert(goal),
    }
}

/// `Dup` preserves ordering: on a stack ending in `v` it leaves the
/// stack ending in `v v`, all below unchanged.
#[verifier::spinoff_prover]
pub proof fn lemma_dup(reg: RegistryView, c: ConfigView)
    requires
        at_inst(c),
        current_inst(c) == InstView::Dup,
        c.stack.len() > 0,
    ensures
        step(reg, c) is Next,
        step(reg, c)->Next_0.stack == c.stack.push(c.stack.last()),
{
}

/// Pushing any value and then executing `Dup; Equal` leaves `true` on
/// top: a value always equals itself.
#[verifier::spinoff_prover]
pub proof fn lemma_dup_equal_true(reg: RegistryView, c: ConfigView, v: MetaValueView)
    requires
        at_inst(c),
        c.frames.last().pc + 1 < c.frames.last().insts.len(),
        current_inst(c) == InstView::Dup,
        c.frames.last().insts[c.frames.last().pc + 1int] == InstView::Equal,
        c.stack.len() > 0,
        c.stack.last() == v,
    ensures
        steps(reg, c, 2) is Next,
        steps(reg, c, 2)->Next_0.stack == c.stack.drop_last().push(
            plain(ValueView::Bool(true)),
        ),
{
    reveal_with_fuel(steps, 3);
    let i = c.frames.len() - 1;
    let fr = c.frames.last();
    let s1 = c.stack.push(v);
    let f1 = c.frames.update(i, FrameView { insts: fr.insts, pc: fr.pc + 1, env: fr.env });
    let c1 = ConfigView { frames: f1, stack: s1 };
    assert(step(reg, c) == StepResult::Next(c1));
    assert(steps(reg, c, 1) == StepResult::Next(c1));
    let s2 = s1.drop_last().drop_last().push(plain(ValueView::Bool(true)));
    let f2 = f1.update(i, FrameView { insts: fr.insts, pc: fr.pc + 2, env: fr.env });
    let c2 = ConfigView { frames: f2, stack: s2 };
    assert(step(reg, c1) == StepResult::Next(c2));
    assert(steps(reg, c, 2) == StepResult::Next(c2));
    assert(c2.stack =~= c.stack.drop_last().push(plain(ValueView::Bool(true))));
}

/// `Swap; Swap` is the identity on the operand stack, and moves the
/// program counter past the two instructions.
#[verifier::spinoff_prover]
pub proof fn lemma_swap_swap_identity(reg: RegistryView, c: ConfigView)
    requires
        at_inst(c),
        c.frames.last().pc + 1 < c.frames.last().insts.len(),
        current_inst(c) == InstView::Swap,
        c.frames.last().insts[c.frames.last().pc + 1int] == InstView::Swap,
        c.stack.len() >= 2,
    ensures
        steps(reg, c, 2) is Next,
        steps(reg, c, 2)->Next_0.stack == c.stack,
        steps(reg, c, 2)->Next_0.frames == c.frames.update(
            c.frames.len() - 1,
            FrameView { pc: c.frames.last().pc + 2, ..c.frames.last() },
        ),
{
    reveal_with_fuel(steps, 3);
    let i = c.frames.len() - 1;
    let fr = c.frames.last();
    let a = c.stack.last();
    let b = c.stack.drop_last().last();
    let s1 = c.stack.drop_last().drop_last().push(a).push(b);
    let f1 = c.frames.update(i, FrameView { insts: fr.insts, pc: fr.pc + 1, env: fr.env });
    let c1 = ConfigView { frames: f1, stack: s1 };
    assert(step(reg, c) == StepResult::Next(c1));
    assert(steps(reg, c, 1) == StepResult::Next(c1));
    let s2 = s1.drop_last().drop_last().push(s1.last()).push(s1.drop_last().last());
    let f2 = f1.update(i, FrameView { insts: fr.insts, pc: fr.pc + 2, env: fr.env });
    let c2 = ConfigView { frames: f2, stack: s2 };
    assert(step(reg, c1) == StepResult::Next(c2));
    assert(steps(reg, c, 2) == StepResult::Next(c2));
    assert(c2.stack =~= c.stack);
    assert(c2.frames =~= c.frames.update(
        i,
        FrameView { pc: fr.pc + 2, ..fr },
    ));
}

/// `Dup; Drop` is the identity on the operand stack, and moves the
/// program counter past the two instructions.
#[verifier::spinoff_prover]
pub proof fn lemma_dup_drop_identity(reg: RegistryView, c: ConfigView)
    requires
        at_inst(c),
        c.frames.last().pc + 1 < c.frames.last().insts.len(),
        current_inst(c) == InstView::Dup,
        c.frames.last().insts[c.frames.last().pc + 1int] == InstView::Drop,
        c.stack.len() >= 1,
    ensures
        steps(reg, c, 2) is Next,
        steps(reg, c, 2)->Next_0.stack == c.stack,
        steps(reg, c, 2)->Next_0.frames == c.frames.update(
            c.frames.len() - 1,
            FrameView { pc: c.frames.last().pc + 2, ..c.frames.last() },
        ),
{
    reveal_with_fuel(steps, 3);
    let i = c.frames.len() - 1;
    let fr = c.frames.last();
    let s1 = c.stack.push(c.stack.last());
    let f1 = c.frames.update(i, FrameView { insts: fr.insts, pc: fr.pc + 1, env: fr.env });
    let c1 = ConfigView { frames: f1, stack: s1 };
    assert(step(reg, c) == StepResult::Next(c1));
    assert(steps(reg, c, 1) == StepResult::Next(c1));
    let s2 = s1.drop_last();
    let f2 = f1.update(i, FrameView { insts: fr.insts, pc: fr.pc + 2, env: fr.env });
    let c2 = ConfigView { frames: f2, stack: s2 };
    assert(step(reg, c1) == StepResult::Next(c2));
    assert(steps(reg, c, 2) == StepResult::Next(c2));
    assert(c2.stack =~= c.stack);
    assert(c2.frames =~= c.frames.update(
        i,
        FrameView { pc: fr.pc + 2, ..fr },
    ));
}

/// `ListPush; ListPop` restores the pre-push list on top and the pushed
/// element above it. The machine re-wraps the list it produces with an
/// empty meta-table, so the law speaks of lists carried that way, which
/// is how every machine-produced list arrives on the stack.
#[verifier::spinoff_prover]
pub proof fn lemma_list_push_pop(
    reg: RegistryView,
    c: ConfigView,
    l: Seq<MetaValueView>,
    v: MetaValueView,
)
    requires
        at_inst(c),
        c.frames.last().pc + 1 < c.frames.last().insts.len(),
        current_inst(c) == InstView::ListPush,
        c.frames.last().insts[c.frames.last().pc + 1int] == InstView::ListPop,
        c.stack.len() >= 2,
        c.stack.last() == v,
        c.stack.drop_last().last() == plain(ValueView::List(l)),
    ensures
        steps(reg, c, 2) is Next,
        steps(reg, c, 2)->Next_0.stack == c.stack.drop_last().drop_last().push(
            plain(ValueView::List(l)),
        ).push(v),
{
    reveal_with_fuel(steps, 3);
    let i = c.frames.len() - 1;
    let fr = c.frames.last();
    let s1 = c.stack.drop_last().drop_last().push(plain(ValueView::List(l.push(v))));
    let f1 = c.frames.update(i, FrameView { insts: fr.insts, pc: fr.pc + 1, env: fr.env });
    let c1 = ConfigView { frames: f1, stack: s1 };
    assert(step(reg, c) == StepResult::Next(c1));
    assert(steps(reg, c, 1) == StepResult::Next(c1));
    assert(s1.last().value == ValueView::List(l.push(v)));
    let s2 = s1.drop_last().push(plain(ValueView::List(l.push(v).drop_last()))).push(
        l.push(v).last(),
    );
    let f2 = f1.update(i, FrameView { insts: fr.insts, pc: fr.pc + 2, env: fr.env });
    let c2 = ConfigView { frames: f2, stack: s2 };
    assert(step(reg, c1) == StepResult::Next(c2));
    assert(steps(reg, c, 2) == StepResult::Next(c2));
    assert(l.push(v).drop_last() =~= l);
    assert(c2.stack =~= c.stack.drop_last().drop_last().push(
        plain(ValueView::List(l)),
    ).push(v));
}

/// `ListLen` reports exactly the length of the list on top of the
/// stack, as a machine integer.
#[verifier::spinoff_prover]
pub proof fn lemma_list_len(reg: RegistryView, c: ConfigView, l: Seq<MetaValueView>)
    requires
        at_inst(c),
        current_inst(c) == InstView::ListLen,
        c.stack.len() >= 1,
        c.stack.last().value == ValueView::List(l),
    ensures
        step(reg, c) is Next,
        step(reg, c)->Next_0.stack == c.stack.drop_last().push(
            plain(ValueView::Int(len_as_int(l.len()))),
        ),
        l.len() <= i64::MAX ==> len_as_int(l.len()) == l.len(),
{
}

/// `Bind` then `Call` presents the captured list as the leading locals
/// of the callee's frame: element `i` sits initialised at slot `i`, and
/// the callee's own locals follow uninitialised.
#[verifier::spinoff_prover]
pub proof fn lemma_bind_call(
    reg: RegistryView,
    c: ConfigView,
    f: FunctionRefView,
    captured: Seq<MetaValueView>,
)
    requires
        at_inst(c),
        c.frames.last().pc + 1 < c.frames.last().insts.len(),
        current_inst(c) == InstView::Bind,
        c.frames.last().insts[c.frames.last().pc + 1int] == InstView::Call,
        c.stack.len() >= 2,
        c.stack.last().value == ValueView::List(captured),
        c.stack.drop_last().last().value == ValueView::FunctionRef(f),
        reg.contains_key(f.name),
    ensures
        steps(reg, c, 2) is Next,
        ({
            let env = steps(reg, c, 2)->Next_0.frames.last().env;
            &&& steps(reg, c, 2)->Next_0.frames.len() == c.frames.len() + 1
            &&& env.len() == captured.len() + reg[f.name].locals
            &&& forall|i: int|
                0 <= i < captured.len() ==> env[i] == Some(captured[i])
            &&& forall|i: int|
                captured.len() <= i < env.len() ==> env[i] is None
        }),
        steps(reg, c, 2)->Next_0.stack == c.stack.drop_last().drop_last(),
{
    reveal_with_fuel(steps, 3);
    let i = c.frames.len() - 1;
    let fr = c.frames.last();
    let bound = FunctionRefView {
        name: f.name,
        env: captured.map(|k: int, v: MetaValueView| Some(v)),
    };
    let s1 = c.stack.drop_last().drop_last().push(plain(ValueView::FunctionRef(bound)));
    let f1 = c.frames.update(i, FrameView { insts: fr.insts, pc: fr.pc + 1, env: fr.env });
    let c1 = ConfigView { frames: f1, stack: s1 };
    assert(step(reg, c) == StepResult::Next(c1));
    assert(steps(reg, c, 1) == StepResult::Next(c1));
    assert(s1.last().value == ValueView::FunctionRef(bound));
    let callee = reg[f.name];
    let callee_frame = FrameView {
        insts: callee.instructions,
        pc: 0,
        env: bound.env + Seq::new(callee.locals as nat, |k: int| None::<MetaValueView>),
    };
    let f2 = f1.update(i, FrameView { insts: fr.insts, pc: fr.pc + 2, env: fr.env }).push(
        callee_frame,
    );
    let c2 = ConfigView { frames: f2, stack: s1.drop_last() };
    assert(step(reg, c1) == StepResult::Next(c2));
    assert(steps(reg, c, 2) == StepResult::Next(c2));
    assert(c2.stack =~= c.stack.drop_last().drop_last());
    let env = callee_frame.env;
    assert forall|k: int| 0 <= k < captured.len() implies env[k] == Some(captured[k]) by {
        assert(bound.env[k] == Some(captured[k]));
    }
    assert forall|k: int| captured.len() <= k < env.len() implies env[k] is None by {}
}

/// `BranchIf` pops exactly one boolean, branching on its value;
/// `Branch` pops nothing.
#[verifier::spinoff_prover]
pub proof fn lemma_branch_effects(reg: RegistryView, c: ConfigView)
    requires
        at_inst(c),
    ensures
        ({
            let fr = c.frames.last();
            match current_inst(c) {
                InstView::Branch(t) => step(reg, c) == continue_at(
                    c,
                    t as nat,
                    fr.env,
                    c.stack,
                ),
                InstView::BranchIf(t) => (c.stack.len() > 0 && c.stack.last().value is Bool)
                    ==> step(reg, c) == continue_at(
                    c,
                    if c.stack.last().value->Bool_0 {
                        t as nat
                    } else {
                        fr.pc + 1
                    },
                    fr.env,
                    c.stack.drop_last(),
                ),
                _ => true,
            }
        }),
{
}

/// Integer `Add`, `Sub` and `Mul` follow two's-complement wraparound:
/// the pushed result is congruent to the exact sum, difference or
/// product modulo `2^64`, and equals it whenever it fits.
#[verifier::spinoff_prover]
pub proof fn lemma_arith_wraps(reg: RegistryView, c: ConfigView, a: i64, b: i64)
    requires
        at_inst(c),
        current_inst(c) is Add || current_inst(c) is Sub || current_inst(c) is Mul,
        c.stack.len() >= 2,
        c.stack.last() == plain(ValueView::Int(b)),
        c.stack.drop_last().last() == plain(ValueView::Int(a)),
    ensures
        step(reg, c) is Next,
        ({
            let exact: int = match current_inst(c) {
                InstView::Add => a + b,
                InstView::Sub => a - b,
                _ => a * b,
            };
            let top = step(reg, c)->Next_0.stack.last();
            &&& top.value is Int
            &&& (top.value->Int_0 as int - exact) % 0x1_0000_0000_0000_0000 == 0
            &&& (i64::MIN <= exact <= i64::MAX ==> top.value->Int_0 == exact)
        }),
{
    let top = step(reg, c)->Next_0.stack.last();
    let exact: int = match current_inst(c) {
        InstView::Add => a + b,
        InstView::Sub => a - b,
        _ => a * b,
    };
    match current_inst(c) {
        InstView::Add => {
            assert(top.value->Int_0 == vstd::wrapping::i64_specs::wrapping_add(a, b));
            assert((top.value->Int_0 as int - exact) % 0x1_0000_0000_0000_0000 == 0);
        },
        InstView::Sub => {
            assert(top.value->Int_0 == vstd::wrapping::i64_specs::wrapping_sub(a, b));
            assert((top.value->Int_0 as int - exact) % 0x1_0000_0000_0000_0000 == 0);
        },
        _ => {
            assert(top.value->Int_0 == vstd::wrapping::i64_specs::wrapping_mul(a, b));
            let m = a * b;
            assert(vstd::wrapping::i64_specs::wrapping_mul(a, b)
                == vstd::wrapping::i64_specs::signed_crop(m));
            lemma_signed_crop_congruent(m);
        },
    }
}

/// `signed_crop` keeps its argument's residue modulo `2^64`, and is the
/// identity on values already in range.
#[verifier::spinoff_prover]
proof fn lemma_signed_crop_congruent(m: int)
    ensures
        (vstd::wrapping::i64_specs::signed_crop(m) as int - m) % 0x1_0000_0000_0000_0000 == 0,
        i64::MIN <= m <= i64::MAX ==> vstd::wrapping::i64_specs::signed_crop(m) == m,
{
    let range: int = 0x1_0000_0000_0000_0000;
    vstd::arithmetic::div_mod::lemma_fundamental_div_mod(m, range);
    let q = m / range;
    let crop = vstd::wrapping::i64_specs::signed_crop(m) as int;
    vstd::arithmetic::mul::lemma_mul_is_commutative(range, q);
    vstd::arithmetic::mul::lemma_mul_unary_negation(q, range);
    vstd::arithmetic::mul::lemma_mul_is_commutative(-q, range);
    if crop == m % range {
        assert(crop - m == range * (-q));
        vstd::arithmetic::mul::lemma_mul_is_commutative(range, -q);
        vstd::arithmetic::div_mod::lemma_mod_multiples_basic(-q, range);
    } else {
        vstd::arithmetic::mul::lemma_mul_is_distributive_add(range, -q, -1);
        assert(range * -1 == -range) by (nonlinear_arith);
        assert(crop - m == range * (-q + -1));
        vstd::arithmetic::mul::lemma_mul_is_commutative(range, -q + -1);
        vstd::arithmetic::div_mod::lemma_mod_multiples_basic(-q + -1, range);
    }
    if i64::MIN <= m <= i64::MAX {
        if m >= 0 {
            vstd::arithmetic::div_mod::lemma_small_mod(m as nat, range as nat);
        } else {
            assert(m == (-1) * range + (m + range)) by (nonlinear_arith);
            vstd::arithmetic::div_mod::lemma_fundamental_div_mod_converse(
                m,
                range,
                -1,
                m + range,
            );
        }
    }
}

/// Two function references with the same name but different captured
/// environments are not `Equal`: the comparison pushes `false`.
#[verifier::spinoff_prover]
pub proof fn lemma_closure_inequality(
    reg: RegistryView,
    c: ConfigView,
    f1: FunctionRefView,
    f2: FunctionRefView,
)
    requires
        at_inst(c),
        current_inst(c) == InstView::Equal,
        c.stack.len() >= 2,
        c.stack.last().value == ValueView::FunctionRef(f2),
        c.stack.drop_last().last().value == ValueView::FunctionRef(f1),
        f1.env != f2.env,
    ensures
        step(reg, c) is Next,
        step(reg, c)->Next_0.stack.last() == plain(ValueView::Bool(false)),
{
    assert(c.stack.drop_last().last() != c.stack.last());
}


/// Stepping `m + n` times is stepping `m` times and then `n` more.
pub proof fn lemma_steps_add(reg: RegistryView, c: ConfigView, m: nat, n: nat)
    ensures
        steps(reg, c, m + n) == (match steps(reg, c, m) {
            StepResult::Next(c2) => steps(reg, c2, n),
            done_or_failed => done_or_failed,
        }),
    decreases n,
{
    if n == 0 {
        match steps(reg, c, m) {
            StepResult::Next(c2) => {
                assert(steps(reg, c2, 0) == StepResult::Next(c2));
            },
            _ => {},
        }
    } else {
        lemma_steps_add(reg, c, m, (n - 1) as nat);
        assert(steps(reg, c, m + n) == (match steps(reg, c, (m + n - 1) as nat) {
            StepResult::Next(c2) => step(reg, c2),
            done_or_failed => done_or_failed,
        }));
        match steps(reg, c, m) {
            StepResult::Next(c2) => {
                assert(steps(reg, c2, n) == (match steps(reg, c2, (n - 1) as nat) {
                    StepResult::Next(c3) => step(reg, c3),
                    done_or_failed => done_or_failed,
                }));
            },
            _ => {},
        }
    }
}

/// The instruction pairs that append the given integers to a list on
/// top of the stack, one `PushI` and one `ListPush` for each.
pub open spec fn push_pairs(vs: Seq<i64>) -> Seq<InstView>
    decreases vs.len(),
{
    if vs.len() == 0 {
        Seq::<InstView>::empty()
    } else {
        push_pairs(vs.drop_last()) + seq![
            InstView::PushI(vs.last()),
            InstView::ListPush,
        ]
    }
}

/// Two instructions per appended integer.
pub proof fn lemma_push_pairs_len(vs: Seq<i64>)
    ensures
        push_pairs(vs).len() == 2 * vs.len(),
    decreases vs.len(),
{
    if vs.len() > 0 {
        lemma_push_pairs_len(vs.drop_last());
    }
}

/// The given integers as machine values.
pub open spec fn ints_as_values(vs: Seq<i64>) -> Seq<MetaValueView> {
    vs.map(|i: int, x: i64| plain(ValueView::Int(x)))
}

/// Running the `push_pairs` instructions for `vs` from a stack topped
/// by a list appends exactly those integers to it, in order.
#[verifier::spinoff_prover]
#[verifier::rlimit(100)]
pub proof fn lemma_push_pairs(
    reg: RegistryView,
    c: ConfigView,
    vs: Seq<i64>,
    l0: Seq<MetaValueView>,
)
    requires
        c.frames.len() > 0,
        c.frames.last().pc + 2 * vs.len() <= c.frames.last().insts.len(),
        forall|k: int|
            0 <= k < 2 * vs.len() ==> c.frames.last().insts[c.frames.last().pc + k as int]
                == push_pairs(vs)[k],
        c.stack.len() > 0,
        c.stack.last() == plain(ValueView::List(l0)),
    ensures
        steps(reg, c, 2 * vs.len()) == StepResult::Next(
            ConfigView {
                frames: c.frames.update(
                    c.frames.len() - 1,
                    FrameView {
                        pc: c.frames.last().pc + 2 * vs.len(),
                        ..c.frames.last()
                    },
                ),
                stack: c.stack.drop_last().push(
                    plain(ValueView::List(l0 + ints_as_values(vs))),
                ),
            },
        ),
    decreases vs.len(),
{
    let i = c.frames.len() - 1;
    let fr = c.frames.last();
    if vs.len() == 0 {
        assert(c.frames.update(i, FrameView { pc: fr.pc + 0, ..fr }) =~= c.frames);
        assert(l0 + ints_as_values(vs) =~= l0);
        assert(c.stack.drop_last().push(plain(ValueView::List(l0))) =~= c.stack);
    } else {
        let front = vs.drop_last();
        lemma_push_pairs_len(front);
        lemma_push_pairs_len(vs);
        let tail2 = seq![InstView::PushI(vs.last()), InstView::ListPush];
        assert(push_pairs(vs) == push_pairs(front) + tail2);
        assert forall|k: int| 0 <= k < 2 * front.len() implies fr.insts[fr.pc + k]
            == push_pairs(front)[k] by {
            assert((push_pairs(front) + tail2)[k] == push_pairs(front)[k]);
            assert(push_pairs(vs)[k] == push_pairs(front)[k]);
        }
        lemma_push_pairs(reg, c, front, l0);
        let mid_list = l0 + ints_as_values(front);
        let c1 = ConfigView {
            frames: c.frames.update(i, FrameView { pc: fr.pc + 2 * front.len(), ..fr }),
            stack: c.stack.drop_last().push(plain(ValueView::List(mid_list))),
        };
        assert(steps(reg, c, 2 * front.len()) == StepResult::Next(c1));
        // One `PushI`, then one `ListPush`.
        assert((push_pairs(front) + tail2)[2 * front.len() as int] == tail2[0]);
        assert((push_pairs(front) + tail2)[2 * front.len() + 1int] == tail2[1]);
        assert(push_pairs(vs)[2 * front.len() as int] == InstView::PushI(vs.last()));
        assert(push_pairs(vs)[2 * front.len() + 1int] == InstView::ListPush);
        assert(c1.frames.last().insts[c1.frames.last().pc as int] == InstView::PushI(
            vs.last(),
        ));
        let s2 = c1.stack.push(plain(ValueView::Int(vs.last())));
        let c2 = ConfigView {
            frames: c.frames.update(
                i,
                FrameView { pc: fr.pc + 2 * front.len() + 1, ..fr },
            ),
            stack: s2,
        };
        assert(step(reg, c1) == StepResult::Next(c2)) by {
            assert(c1.frames.update(i, FrameView { pc: fr.pc + 2 * front.len() + 1, ..fr })
                =~= c2.frames);
        }
        assert(c2.frames.last().insts[c2.frames.last().pc as int] == InstView::ListPush);
        let s3 = s2.drop_last().drop_last().push(
            plain(ValueView::List(mid_list.push(plain(ValueView::Int(vs.last()))))),
        );
        let c3 = ConfigView {
            frames: c.frames.update(i, FrameView { pc: fr.pc + 2 * vs.len(), ..fr }),
            stack: s3,
        };
        assert(step(reg, c2) == StepResult::Next(c3)) by {
            assert(s2.last().value == ValueView::Int(vs.last()));
            assert(s2.drop_last().last().value == ValueView::List(mid_list));
            assert(c2.frames.update(i, FrameView { pc: fr.pc + 2 * vs.len(), ..fr })
                =~= c3.frames);
        }
        lemma_steps_add(reg, c, 2 * front.len(), 2);
        reveal_with_fuel(steps, 3);
        assert(steps(reg, c1, 2) == StepResult::Next(c3));
        assert(steps(reg, c, 2 * vs.len()) == StepResult::Next(c3));
        assert(mid_list.push(plain(ValueView::Int(vs.last()))) =~= l0 + ints_as_values(vs));
        assert(s3 =~= c.stack.drop_last().push(plain(ValueView::List(l0 + ints_as_values(
            vs,
        )))));
        assert(s3 == c.stack.drop_last().push(plain(ValueView::List(l0 + ints_as_values(
            vs,
        )))));
    }
}

/// `ListLen` of `PushList` followed by `n` pushed elements is `n`: the
/// program that makes an empty list, appends `n` integers and takes the
/// length leaves `n` on top of the stack.
#[verifier::spinoff_prover]
#[verifier::rlimit(100)]
pub proof fn lemma_push_list_n_len(reg: RegistryView, c: ConfigView, vs: Seq<i64>)
    requires
        c.frames.len() > 0,
        c.frames.last().pc + 2 * vs.len() + 2 <= c.frames.last().insts.len(),
        c.frames.last().insts[c.frames.last().pc as int] == InstView::PushList,
        forall|k: int|
            0 <= k < 2 * vs.len() ==> c.frames.last().insts[c.frames.last().pc + 1 + k as int]
                == push_pairs(vs)[k],
        c.frames.last().insts[c.frames.last().pc + 2 * vs.len() + 1int] == InstView::ListLen,
        vs.len() <= i64::MAX,
    ensures
        steps(reg, c, 2 * vs.len() + 2) is Next,
        steps(reg, c, 2 * vs.len() + 2)->Next_0.stack == c.stack.push(
            plain(ValueView::Int(vs.len() as i64)),
        ),
{
    let i = c.frames.len() - 1;
    let fr = c.frames.last();
    lemma_push_pairs_len(vs);
    let c1 = ConfigView {
        frames: c.frames.update(i, FrameView { pc: fr.pc + 1, ..fr }),
        stack: c.stack.push(plain(ValueView::List(Seq::empty()))),
    };
    assert(step(reg, c) == StepResult::Next(c1)) by {
        assert(c.frames.update(i, FrameView { insts: fr.insts, pc: fr.pc + 1, env: fr.env })
            =~= c1.frames);
    }
    reveal_with_fuel(steps, 2);
    assert(steps(reg, c, 1) == StepResult::Next(c1));
    lemma_push_pairs(reg, c1, vs, Seq::empty());
    let built = Seq::<MetaValueView>::empty() + ints_as_values(vs);
    let c2 = ConfigView {
        frames: c1.frames.update(i, FrameView { pc: fr.pc + 1 + 2 * vs.len(), ..fr }),
        stack: c.stack.push(plain(ValueView::List(built))),
    };
    assert(steps(reg, c1, 2 * vs.len()) == StepResult::Next(c2)) by {
        assert(c1.frames.update(
            i,
            FrameView { pc: c1.frames.last().pc + 2 * vs.len(), ..c1.frames.last() },
        ) =~= c2.frames);
        assert(c1.stack.drop_last().push(plain(ValueView::List(built))) =~= c2.stack);
    }
    lemma_steps_add(reg, c, 1, 2 * vs.len());
    assert(steps(reg, c, 1 + 2 * vs.len()) == StepResult::Next(c2));
    assert(c2.frames.last().insts[c2.frames.last().pc as int] == InstView::ListLen);
    assert(built.len() == vs.len());
    lemma_signed_crop_small(vs.len() as int);
    let c3 = ConfigView {
        frames: c2.frames.update(i, FrameView { pc: fr.pc + 2 * vs.len() + 2, ..fr }),
        stack: c.stack.push(plain(ValueView::Int(vs.len() as i64))),
    };
    assert(step(reg, c2) == StepResult::Next(c3)) by {
        assert(c2.stack.drop_last().push(plain(ValueView::Int(len_as_int(built.len()))))
            =~= c3.stack);
        assert(c2.frames.update(
            i,
            FrameView {
                insts: c2.frames.last().insts,
                pc: c2.frames.last().pc + 1,
                env: c2.frames.last().env,
            },
        ) =~= c3.frames);
    }
    lemma_steps_add(reg, c, 1 + 2 * vs.len(), 1);
    reveal_with_fuel(steps, 2);
    assert(steps(reg, c2, 1) == StepResult::Next(c3));
    assert(steps(reg, c, 2 * vs.len() + 2) == StepResult::Next(c3));
}

/// `signed_crop` is the identity on lengths that fit the machine's
/// integers.
proof fn lemma_signed_crop_small(m: int)
    requires
        0 <= m <= i64::MAX,
    ensures
        vstd::wrapping::i64_specs::signed_crop(m) == m,
{
    vstd::arithmetic::div_mod::lemma_small_mod(m as nat, 0x1_0000_0000_0000_0000nat);
}


} // verus!
