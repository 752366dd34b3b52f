//! The instruction set, and its mathematical view.
//!
//! Opcodes carry their operands inline: integer constants, booleans,
//! function names, and slot or branch-target indices. Branch targets are
//! absolute indices into the same function's instruction sequence.

use vstd::prelude::*;

verus! {

/// One opcode of the machine.
#[derive(Debug, PartialEq, Eq)]
pub enum Inst {
    Nop,
    // Stack
    Dup,
    Drop,
    Swap,
    // Primitives
    PushB(bool),
    PushI(i64),
    PushList,
    PushTable,
    PushFn(String),
    IntoInt,
    // List
    ListPush,
    ListPop,
    ListGet,
    ListSet,
    ListLen,
    // Table
    TableGet,
    TableSet,
    TableKeys,
    TableLen,
    // Meta
    LoadMeta,
    StoreMeta,
    // Locals
    LocalLoad(usize),
    LocalStore(usize),
    // Boolean operations
    And,
    Or,
    Xor,
    Not,
    // Arithmetic operations
    Add,
    Sub,
    Mul,
    Div,
    Mod,
    // Comparisons
    Equal,
    NotEqual,
    LessThan,
    GreaterThan,
    LessEqual,
    GreaterEqual,
    // Control flow
    Branch(usize),
    BranchIf(usize),
    BranchIfNot(usize),
    // Functions
    Call,
    Bind,
    Return,
}

/// The view of one opcode: identical to the opcode itself, except that a
/// function name is a sequence of characters.
pub ghost enum InstView {
    Nop,
    Dup,
    Drop,
    Swap,
    PushB(bool),
    PushI(i64),
    PushList,
    PushTable,
    PushFn(Seq<char>),
    IntoInt,
    ListPush,
    ListPop,
    ListGet,
    ListSet,
    ListLen,
    TableGet,
    TableSet,
    TableKeys,
    TableLen,
    LoadMeta,
    StoreMeta,
    LocalLoad(usize),
    LocalStore(usize),
    And,
    Or,
    Xor,
    Not,
    Add,
    Sub,
    Mul,
    Div,
    Mod,
    Equal,
    NotEqual,
    LessThan,
    GreaterThan,
    LessEqual,
    GreaterEqual,
    Branch(usize),
    BranchIf(usize),
    BranchIfNot(usize),
    Call,
    Bind,
    Return,
}

impl View for Inst {
    type V = InstView;

    open spec fn view(&self) -> InstView {
        match *self {
            Inst::Nop => InstView::Nop,
            Inst::Dup => InstView::Dup,
            Inst::Drop => InstView::Drop,
            Inst::Swap => InstView::Swap,
            Inst::PushB(b) => InstView::PushB(b),
            Inst::PushI(i) => InstView::PushI(i),
            Inst::PushList => InstView::PushList,
            Inst::PushTable => InstView::PushTable,
            Inst::PushFn(name) => InstView::PushFn(name@),
            Inst::IntoInt => InstView::IntoInt,
            Inst::ListPush => InstView::ListPush,
            Inst::ListPop => InstView::ListPop,
            Inst::ListGet => InstView::ListGet,
            Inst::ListSet => InstView::ListSet,
            Inst::ListLen => InstView::ListLen,
            Inst::TableGet => InstView::TableGet,
            Inst::TableSet => InstView::TableSet,
            Inst::TableKeys => InstView::TableKeys,
            Inst::TableLen => InstView::TableLen,
            Inst::LoadMeta => InstView::LoadMeta,
            Inst::StoreMeta => InstView::StoreMeta,
            Inst::LocalLoad(idx) => InstView::LocalLoad(idx),
            Inst::LocalStore(idx) => InstView::LocalStore(idx),
            Inst::And => InstView::And,
            Inst::Or => InstView::Or,
            Inst::Xor => InstView::Xor,
            Inst::Not => InstView::Not,
            Inst::Add => InstView::Add,
            Inst::Sub => InstView::Sub,
            Inst::Mul => InstView::Mul,
            Inst::Div => InstView::Div,
            Inst::Mod => InstView::Mod,
            Inst::Equal => InstView::Equal,
            Inst::NotEqual => InstView::NotEqual,
            Inst::LessThan => InstView::LessThan,
            Inst::GreaterThan => InstView::GreaterThan,
            Inst::LessEqual => InstView::LessEqual,
            Inst::GreaterEqual => InstView::GreaterEqual,
            Inst::Branch(t) => InstView::Branch(t),
            Inst::BranchIf(t) => InstView::BranchIf(t),
            Inst::BranchIfNot(t) => InstView::BranchIfNot(t),
            Inst::Call => InstView::Call,
            Inst::Bind => InstView::Bind,
            Inst::Return => InstView::Return,
        }
    }
}


impl Clone for Inst {
    /// Copies the opcode; the view is preserved exactly.
    fn clone(&self) -> (r: Self)
        ensures
            r@ == self@,
    {
        match self {
            Inst::Nop => Inst::Nop,
            Inst::Dup => Inst::Dup,
            Inst::Drop => Inst::Drop,
            Inst::Swap => Inst::Swap,
            Inst::PushB(b) => Inst::PushB(*b),
            Inst::PushI(i) => Inst::PushI(*i),
            Inst::PushList => Inst::PushList,
            Inst::PushTable => Inst::PushTable,
            Inst::PushFn(name) => Inst::PushFn(name.clone()),
            Inst::IntoInt => Inst::IntoInt,
            Inst::ListPush => Inst::ListPush,
            Inst::ListPop => Inst::ListPop,
            Inst::ListGet => Inst::ListGet,
            Inst::ListSet => Inst::ListSet,
            Inst::ListLen => Inst::ListLen,
            Inst::TableGet => Inst::TableGet,
            Inst::TableSet => Inst::TableSet,
            Inst::TableKeys => Inst::TableKeys,
            Inst::TableLen => Inst::TableLen,
            Inst::LoadMeta => Inst::LoadMeta,
            Inst::StoreMeta => Inst::StoreMeta,
            Inst::LocalLoad(idx) => Inst::LocalLoad(*idx),
            Inst::LocalStore(idx) => Inst::LocalStore(*idx),
            Inst::And => Inst::And,
            Inst::Or => Inst::Or,
            Inst::Xor => Inst::Xor,
            Inst::Not => Inst::Not,
            Inst::Add => Inst::Add,
            Inst::Sub => Inst::Sub,
            Inst::Mul => Inst::Mul,
            Inst::Div => Inst::Div,
            Inst::Mod => Inst::Mod,
            Inst::Equal => Inst::Equal,
            Inst::NotEqual => Inst::NotEqual,
            Inst::LessThan => Inst::LessThan,
            Inst::GreaterThan => Inst::GreaterThan,
            Inst::LessEqual => Inst::LessEqual,
            Inst::GreaterEqual => Inst::GreaterEqual,
            Inst::Branch(t) => Inst::Branch(*t),
            Inst::BranchIf(t) => Inst::BranchIf(*t),
            Inst::BranchIfNot(t) => Inst::BranchIfNot(*t),
            Inst::Call => Inst::Call,
            Inst::Bind => Inst::Bind,
            Inst::Return => Inst::Return,
        }
    }
}

/// The view of an instruction sequence, opcode by opcode.
pub open spec fn insts_view(insts: Seq<Inst>) -> Seq<InstView> {
    insts.map(|i: int, inst: Inst| inst@)
}

} // verus!
