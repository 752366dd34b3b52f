//! The local-variable frame of one active call: an ordered vector of
//! optional slots. A slot is `None` until first stored.

use vstd::prelude::*;

use crate::vm::value::{locals_view, MetaValue, MetaValueView};
use crate::vm::RuntimeError;

verus! {

/// The frame of local slots owned by one active call.
#[derive(Debug, PartialEq, Eq, Hash)]
pub struct Env {
    pub locals: Vec<Option<MetaValue>>,
}

impl View for Env {
    type V = Seq<Option<MetaValueView>>;

    open spec fn view(&self) -> Seq<Option<MetaValueView>> {
        locals_view(self.locals)
    }
}

impl Default for Env {
    /// The empty frame, with no slots at all.
    fn default() -> (r: Env)
        ensures
            r@ =~= Seq::<Option<MetaValueView>>::empty(),
    {
        Env { locals: Vec::new() }
    }
}

impl Env {
    /// The empty frame, with no slots at all.
    pub fn empty() -> (r: Env)
        ensures
            r@ =~= Seq::<Option<MetaValueView>>::empty(),
    {
        Env { locals: Vec::new() }
    }

    /// Builds a frame whose slots are exactly the given ones.
    pub fn new(locals: Vec<Option<MetaValue>>) -> (r: Env)
        ensures
            r@ =~= locals_view(locals),
    {
        Env { locals }
    }

    /// Appends `count` uninitialised slots to the frame.
    pub fn reserve(&mut self, count: usize)
        ensures
            final(self)@ =~= old(self)@ + Seq::new(count as nat, |i: int| None::<MetaValueView>),
    {
        let mut i: usize = 0;
        while i < count
            invariant
                i <= count,
                self.locals@.len() == old(self).locals@.len() + i,
                forall|j: int|
                    0 <= j < old(self).locals@.len() ==> #[trigger] self.locals@[j] == old(
                        self,
                    ).locals@[j],
                forall|j: int|
                    old(self).locals@.len() <= j < self.locals@.len() ==> #[trigger] self.locals@[j]
                        is None,
            decreases count - i,
        {
            self.locals.push(None);
            i = i + 1;
        }
        proof {
            assert(self@ =~= old(self)@ + Seq::new(count as nat, |i: int| None::<MetaValueView>));
        }
    }

    /// Reads the slot at `idx`: the stored value, or an error when the slot
    /// is out of range or was never stored.
    pub fn get_local(&mut self, idx: usize) -> (r: Result<MetaValue, RuntimeError>)
        ensures
            final(self)@ == old(self)@,
            idx < old(self)@.len() && old(self)@[idx as int] is Some ==> (r matches Ok(v) && Some(
                v@,
            ) == old(self)@[idx as int]),
            idx < old(self)@.len() && old(self)@[idx as int] is None ==> r == Err::<
                MetaValue,
                RuntimeError,
            >(RuntimeError::LocalNotInitialized),
            idx >= old(self)@.len() ==> r == Err::<MetaValue, RuntimeError>(
                RuntimeError::LocalNotFound,
            ),
    {
        if idx < self.locals.len() {
            match &self.locals[idx] {
                Some(v) => Ok(crate::vm::value::deep_clone(v)),
                None => Err(RuntimeError::LocalNotInitialized),
            }
        } else {
            Err(RuntimeError::LocalNotFound)
        }
    }

    /// Stores a value into the slot at `idx`, or fails when the slot is out
    /// of range; the value is consumed either way.
    pub fn set_local(&mut self, idx: usize, val: MetaValue) -> (r: Result<(), RuntimeError>)
        ensures
            idx < old(self)@.len() ==> (r == Ok::<(), RuntimeError>(()) && final(self)@ =~= old(
                self,
            )@.update(idx as int, Some(val@))),
            idx >= old(self)@.len() ==> (r == Err::<(), RuntimeError>(RuntimeError::LocalNotFound)
                && final(self)@ == old(self)@),
    {
        if idx < self.locals.len() {
            self.locals[idx] = Some(val);
            Ok(())
        } else {
            Err(RuntimeError::LocalNotFound)
        }
    }
}

} // verus!
