//! A function of the machine, and the registry that maps names to
//! functions. The registry is populated before execution and read-only
//! thereafter.

use vstd::prelude::*;

use crate::vm::instructions::{insts_view, Inst, InstView};
use crate::vm::RuntimeError;

verus! {

/// One function: a flat instruction sequence, and the count of local
/// slots its frame needs beyond any captured environment.
#[derive(Debug, PartialEq, Eq)]
pub struct Function {
    pub instructions: Vec<Inst>,
    pub locals: usize,
}

/// The view of a function.
pub ghost struct FunctionView {
    pub instructions: Seq<InstView>,
    pub locals: usize,
}

impl View for Function {
    type V = FunctionView;

    open spec fn view(&self) -> FunctionView {
        FunctionView { instructions: insts_view(self.instructions@), locals: self.locals }
    }
}

impl Clone for Function {
    /// Copies the function; the view is preserved exactly.
    fn clone(&self) -> (r: Self)
        ensures
            r@ == self@,
    {
        let mut instructions: Vec<Inst> = Vec::new();
        let n = self.instructions.len();
        let mut i: usize = 0;
        while i < n
            invariant
                n == self.instructions@.len(),
                i <= n,
                instructions@.len() == i as int,
                forall|j: int|
                    0 <= j < i as int ==> (#[trigger] instructions@[j])@ == self.instructions@[j]@,
            decreases n - i,
        {
            instructions.push(self.instructions[i].clone());
            i = i + 1;
        }
        let r = Function { instructions, locals: self.locals };
        proof {
            assert(r@.instructions =~= self@.instructions);
        }
        r
    }
}

/// The registry: a mapping from names to functions. Registering a name
/// again replaces what it maps to.
#[derive(Debug)]
pub struct Functions {
    entries: Vec<(String, Function)>,
}

/// The position of the last entry whose name is `k`, or `-1` when no
/// entry has that name.
spec fn find_last(es: Seq<(String, Function)>, k: Seq<char>) -> int
    decreases es.len(),
{
    if es.len() == 0 {
        -1
    } else if es.last().0@ == k {
        es.len() - 1
    } else {
        find_last(es.drop_last(), k)
    }
}

/// The mapping the entries denote: a later entry for a name wins.
spec fn entries_map(es: Seq<(String, Function)>) -> Map<Seq<char>, FunctionView>
    decreases es.len(),
{
    if es.len() == 0 {
        Map::empty()
    } else {
        entries_map(es.drop_last()).insert(es.last().0@, es.last().1@)
    }
}

proof fn lemma_entries_map(es: Seq<(String, Function)>, k: Seq<char>)
    ensures
        entries_map(es).contains_key(k) <==> find_last(es, k) >= 0,
        find_last(es, k) < 0 ==> forall|j: int| 0 <= j < es.len() ==> (#[trigger] es[j]).0@ != k,
        find_last(es, k) >= 0 ==> find_last(es, k) < es.len() && es[find_last(es, k)].0@ == k
            && entries_map(es)[k] == es[find_last(es, k)].1@ && forall|j: int|
            find_last(es, k) < j < es.len() ==> (#[trigger] es[j]).0@ != k,
    decreases es.len(),
{
    if es.len() > 0 && es.last().0@ != k {
        lemma_entries_map(es.drop_last(), k);
        assert forall|j: int| 0 <= j < es.len() - 1 implies (#[trigger] es[j])
            == es.drop_last()[j] by {}
    }
}

impl View for Functions {
    type V = Map<Seq<char>, FunctionView>;

    closed spec fn view(&self) -> Map<Seq<char>, FunctionView> {
        entries_map(self.entries@)
    }
}

impl Functions {
    /// The empty registry.
    pub fn new() -> (r: Functions)
        ensures
            r@ =~= Map::<Seq<char>, FunctionView>::empty(),
    {
        Functions { entries: Vec::new() }
    }

    /// Registers `function` under `name`, replacing any earlier
    /// registration of that name.
    pub fn insert(&mut self, name: String, function: Function)
        ensures
            final(self)@ == old(self)@.insert(name@, function@),
    {
        self.entries.push((name, function));
        proof {
            assert(self.entries@.drop_last() =~= old(self).entries@);
        }
    }

    /// Looks a name up: a copy of the registered function, or the
    /// function-not-found error carrying the name.
    pub fn get(&self, name: &str) -> (r: Result<Function, RuntimeError>)
        ensures
            self@.contains_key(name@) ==> (r matches Ok(f) && f@ == self@[name@]),
            !self@.contains_key(name@) ==> (r matches Err(e) && e matches
                RuntimeError::FunctionNotFound(n) && n@ == name@),
    {
        proof {
            lemma_entries_map(self.entries@, name@);
        }
        let owned: String = name.to_owned();
        let n = self.entries.len();
        let mut i: usize = n;
        while i > 0
            invariant
                n == self.entries@.len(),
                i <= n,
                owned@ == name@,
                forall|j: int| i as int <= j < n as int ==> (#[trigger] self.entries@[j]).0@
                    != name@,
                entries_map(self.entries@).contains_key(name@) <==> find_last(
                    self.entries@,
                    name@,
                ) >= 0,
                find_last(self.entries@, name@) < 0 ==> forall|j: int|
                    0 <= j < self.entries@.len() ==> (#[trigger] self.entries@[j]).0@ != name@,
                find_last(self.entries@, name@) >= 0 ==> find_last(self.entries@, name@)
                    < self.entries@.len() && self.entries@[find_last(self.entries@, name@)].0@
                    == name@ && entries_map(self.entries@)[name@] == self.entries@[find_last(
                    self.entries@,
                    name@,
                )].1@ && forall|j: int|
                    find_last(self.entries@, name@) < j < self.entries@.len() ==> (
                    #[trigger] self.entries@[j]).0@ != name@,
            decreases i,
        {
            i = i - 1;
            let entry = &self.entries[i];
            if entry.0.eq(&owned) {
                proof {
                    assert(find_last(self.entries@, name@) == i as int);
                }
                return Ok(entry.1.clone());
            }
        }
        Err(RuntimeError::FunctionNotFound(name.to_owned()))
    }
}

} // verus!
