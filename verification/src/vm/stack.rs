//! The operand stack: a single LIFO of values shared by every call frame
//! of one machine, with typed pop helpers that fail cleanly on a type
//! mismatch. A typed pop consumes the value even when its tag is wrong.

use vstd::prelude::*;

use crate::vm::value::{
    kind_name_of, list_view, FunctionRef, FunctionRefView, List, MetaValue, MetaValueView, Table,
    Value, ValueView,
};
use crate::vm::RuntimeError;

verus! {

/// The operand stack. The last element of the view is the top.
#[derive(Debug)]
pub struct Stack {
    stack: Vec<MetaValue>,
}

impl View for Stack {
    type V = Seq<MetaValueView>;

    closed spec fn view(&self) -> Seq<MetaValueView> {
        list_view(self.stack)
    }
}

impl Stack {
    /// The empty stack.
    pub fn new() -> (r: Stack)
        ensures
            r@ =~= Seq::<MetaValueView>::empty(),
    {
        Stack { stack: Vec::new() }
    }

    /// Pushes a value on top.
    pub fn push(&mut self, val: MetaValue)
        ensures
            final(self)@ == old(self)@.push(val@),
    {
        self.stack.push(val);
        proof {
            assert(self@ =~= old(self)@.push(val@));
        }
    }

    /// Pushes a boolean wrapped with an empty meta-table.
    pub fn push_bool(&mut self, val: bool)
        ensures
            final(self)@ == old(self)@.push(
                MetaValueView {
                    value: ValueView::Bool(val),
                    meta: Seq::<(MetaValueView, MetaValueView)>::empty(),
                },
            ),
    {
        self.push(MetaValue::bool(val));
    }

    /// Pushes an integer wrapped with an empty meta-table.
    pub fn push_int(&mut self, val: i64)
        ensures
            final(self)@ == old(self)@.push(
                MetaValueView {
                    value: ValueView::Int(val),
                    meta: Seq::<(MetaValueView, MetaValueView)>::empty(),
                },
            ),
    {
        self.push(MetaValue::integer(val));
    }

    /// Pushes a list wrapped with an empty meta-table.
    pub fn push_list(&mut self, val: List)
        ensures
            final(self)@ == old(self)@.push(
                MetaValueView {
                    value: ValueView::List(list_view(val)),
                    meta: Seq::<(MetaValueView, MetaValueView)>::empty(),
                },
            ),
    {
        self.push(MetaValue::list(val));
    }

    /// Pushes a table wrapped with an empty meta-table.
    pub fn push_table(&mut self, val: Table)
        ensures
            final(self)@ == old(self)@.push(
                MetaValueView {
                    value: ValueView::Table(val@),
                    meta: Seq::<(MetaValueView, MetaValueView)>::empty(),
                },
            ),
    {
        self.push(MetaValue::table(val));
    }

    /// Pushes a function reference wrapped with an empty meta-table.
    pub fn push_function_ref(&mut self, val: FunctionRef)
        ensures
            final(self)@ == old(self)@.push(
                MetaValueView {
                    value: ValueView::FunctionRef(val@),
                    meta: Seq::<(MetaValueView, MetaValueView)>::empty(),
                },
            ),
    {
        self.push(MetaValue::function_ref(val));
    }

    /// Pops the top value, or fails on an empty stack.
    pub fn pop(&mut self) -> (r: Result<MetaValue, RuntimeError>)
        ensures
            old(self)@.len() == 0 ==> r == Err::<MetaValue, RuntimeError>(RuntimeError::EmptyStack)
                && final(self)@ == old(self)@,
            old(self)@.len() > 0 ==> (r matches Ok(v) && v@ == old(self)@.last() && final(self)@
                == old(self)@.drop_last()),
    {
        match self.stack.pop() {
            Some(v) => {
                proof {
                    assert(self@ =~= old(self)@.drop_last());
                    assert(v@ == old(self)@.last());
                }
                Ok(v)
            },
            None => Err(RuntimeError::EmptyStack),
        }
    }

    /// Pops a boolean. A value of any other kind is consumed and reported
    /// as a type error carrying its kind's name.
    pub fn pop_bool(&mut self) -> (r: Result<bool, RuntimeError>)
        ensures
            old(self)@.len() == 0 ==> r == Err::<bool, RuntimeError>(RuntimeError::EmptyStack)
                && final(self)@ == old(self)@,
            old(self)@.len() > 0 ==> final(self)@ == old(self)@.drop_last() && (match old(
                self,
            )@.last().value {
                ValueView::Bool(b) => r == Ok::<bool, RuntimeError>(b),
                v => r matches Err(e) && e matches RuntimeError::TypeError(t) && t@ == kind_name_of(
                    v,
                ),
            }),
    {
        let v = self.pop()?;
        match v.value {
            Value::Bool(b) => Ok(b),
            _ => Err(RuntimeError::TypeError(v.kind_name())),
        }
    }

    /// Pops an integer; any other kind is consumed and reported.
    pub fn pop_int(&mut self) -> (r: Result<i64, RuntimeError>)
        ensures
            old(self)@.len() == 0 ==> r == Err::<i64, RuntimeError>(RuntimeError::EmptyStack)
                && final(self)@ == old(self)@,
            old(self)@.len() > 0 ==> final(self)@ == old(self)@.drop_last() && (match old(
                self,
            )@.last().value {
                ValueView::Int(i) => r == Ok::<i64, RuntimeError>(i),
                v => r matches Err(e) && e matches RuntimeError::TypeError(t) && t@ == kind_name_of(
                    v,
                ),
            }),
    {
        let v = self.pop()?;
        match v.value {
            Value::Int(i) => Ok(i),
            _ => Err(RuntimeError::TypeError(v.kind_name())),
        }
    }

    /// Pops a list; any other kind is consumed and reported.
    pub fn pop_list(&mut self) -> (r: Result<List, RuntimeError>)
        ensures
            old(self)@.len() == 0 ==> r == Err::<List, RuntimeError>(RuntimeError::EmptyStack)
                && final(self)@ == old(self)@,
            old(self)@.len() > 0 ==> final(self)@ == old(self)@.drop_last() && (match old(
                self,
            )@.last().value {
                ValueView::List(l) => r matches Ok(v) && list_view(v) == l,
                v => r matches Err(e) && e matches RuntimeError::TypeError(t) && t@ == kind_name_of(
                    v,
                ),
            }),
    {
        let v = self.pop()?;
        match v.value {
            Value::List(l) => Ok(l),
            _ => Err(RuntimeError::TypeError(v.kind_name())),
        }
    }

    /// Pops a table; any other kind is consumed and reported.
    pub fn pop_table(&mut self) -> (r: Result<Table, RuntimeError>)
        ensures
            old(self)@.len() == 0 ==> r == Err::<Table, RuntimeError>(RuntimeError::EmptyStack)
                && final(self)@ == old(self)@,
            old(self)@.len() > 0 ==> final(self)@ == old(self)@.drop_last() && (match old(
                self,
            )@.last().value {
                ValueView::Table(t) => r matches Ok(v) && v@ == t,
                v => r matches Err(e) && e matches RuntimeError::TypeError(t) && t@ == kind_name_of(
                    v,
                ),
            }),
    {
        let v = self.pop()?;
        match v.value {
            Value::Table(t) => Ok(t),
            _ => Err(RuntimeError::TypeError(v.kind_name())),
        }
    }

    /// Pops a function reference; any other kind is consumed and reported.
    pub fn pop_function_ref(&mut self) -> (r: Result<FunctionRef, RuntimeError>)
        ensures
            old(self)@.len() == 0 ==> r == Err::<FunctionRef, RuntimeError>(
                RuntimeError::EmptyStack,
            ) && final(self)@ == old(self)@,
            old(self)@.len() > 0 ==> final(self)@ == old(self)@.drop_last() && (match old(
                self,
            )@.last().value {
                ValueView::FunctionRef(f) => r matches Ok(v) && v@ == f,
                v => r matches Err(e) && e matches RuntimeError::TypeError(t) && t@ == kind_name_of(
                    v,
                ),
            }),
    {
        let v = self.pop()?;
        match v.value {
            Value::FunctionRef(f) => Ok(f),
            _ => Err(RuntimeError::TypeError(v.kind_name())),
        }
    }
}

} // verus!
