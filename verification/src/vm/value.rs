//! The machine's value model: tagged values, each carrying a meta-table,
//! together with the mathematical view every contract is stated over.
//!
//! Values are booleans, signed 64-bit integers, ordered lists, keyed tables
//! and function references. Containers are value-typed: mutation produces a
//! new container, so aliasing does not exist at the language level. Every
//! runtime value carries a meta-table, the empty table when never set.
//! Tables keep their entries in insertion order, which makes `TableKeys`
//! deterministic; a key occurs at most once.

use vstd::prelude::*;

use crate::vm::env::Env;

verus! {

/// An ordered sequence of values, indexable from zero.
pub type List = Vec<MetaValue>;

/// A first-class reference to a registered function together with a
/// captured environment: the initial local frame presented at call time.
#[derive(Debug, PartialEq, Eq, Hash)]
pub struct FunctionRef {
    pub name: String,
    pub env: Env,
}

/// A mapping from values to values, kept in insertion order.
#[derive(Debug, PartialEq, Eq, Hash)]
pub struct Table {
    pub entries: Vec<(MetaValue, MetaValue)>,
}

/// A runtime value without its meta-table.
#[derive(Debug, PartialEq, Eq, Hash)]
pub enum Value {
    Bool(bool),
    Int(i64),
    List(Vec<MetaValue>),
    Table(Table),
    FunctionRef(FunctionRef),
}

/// A runtime value together with its attached meta-table. Equality is over
/// both parts, so two otherwise-equal values with different meta-tables are
/// distinct.
#[derive(Debug, PartialEq, Eq, Hash)]
pub struct MetaValue {
    pub value: Value,
    pub meta: Table,
}

// ---------------------------------------------------------------------------
// The mathematical view of values.
// ---------------------------------------------------------------------------

/// The view of a function reference: its name and captured frame.
pub ghost struct FunctionRefView {
    pub name: Seq<char>,
    pub env: Seq<Option<MetaValueView>>,
}

/// The view of a value without its meta-table. A table is the sequence of
/// its entries in insertion order.
pub ghost enum ValueView {
    Bool(bool),
    Int(i64),
    List(Seq<MetaValueView>),
    Table(Seq<(MetaValueView, MetaValueView)>),
    FunctionRef(FunctionRefView),
}

/// The view of a value together with its meta-table.
pub ghost struct MetaValueView {
    pub value: ValueView,
    pub meta: Seq<(MetaValueView, MetaValueView)>,
}

/// The view of one value with its meta-table.
pub open spec fn mv_view(mv: MetaValue) -> MetaValueView
    decreases mv,
{
    MetaValueView { value: value_view(mv.value), meta: entries_view(mv.meta.entries) }
}

/// The view of a bare value.
pub open spec fn value_view(v: Value) -> ValueView
    decreases v,
{
    match v {
        Value::Bool(b) => ValueView::Bool(b),
        Value::Int(i) => ValueView::Int(i),
        Value::List(l) => ValueView::List(list_view(l)),
        Value::Table(t) => ValueView::Table(entries_view(t.entries)),
        Value::FunctionRef(f) => ValueView::FunctionRef(
            FunctionRefView { name: f.name@, env: locals_view(f.env.locals) },
        ),
    }
}

/// The view of a list of values, element by element.
pub open spec fn list_view(l: Vec<MetaValue>) -> Seq<MetaValueView>
    decreases l,
{
    Seq::new(
        l@.len(),
        |i: int|
            if 0 <= i < l@.len() {
                mv_view(l@[i])
            } else {
                arbitrary()
            },
    )
}

/// The view of a table's entries, pair by pair.
pub open spec fn entries_view(es: Vec<(MetaValue, MetaValue)>) -> Seq<
    (MetaValueView, MetaValueView),
>
    decreases es,
{
    Seq::new(
        es@.len(),
        |i: int|
            if 0 <= i < es@.len() {
                (mv_view(es@[i].0), mv_view(es@[i].1))
            } else {
                arbitrary()
            },
    )
}

/// The view of a frame's slots, slot by slot.
pub open spec fn locals_view(locals: Vec<Option<MetaValue>>) -> Seq<Option<MetaValueView>>
    decreases locals,
{
    Seq::new(
        locals@.len(),
        |i: int|
            if 0 <= i < locals@.len() {
                match locals@[i] {
                    Some(mv) => Some(mv_view(mv)),
                    None => None,
                }
            } else {
                arbitrary()
            },
    )
}

impl View for MetaValue {
    type V = MetaValueView;

    open spec fn view(&self) -> MetaValueView {
        mv_view(*self)
    }
}

impl View for Value {
    type V = ValueView;

    open spec fn view(&self) -> ValueView {
        value_view(*self)
    }
}

impl View for FunctionRef {
    type V = FunctionRefView;

    open spec fn view(&self) -> FunctionRefView {
        FunctionRefView { name: self.name@, env: locals_view(self.env.locals) }
    }
}

impl View for Table {
    type V = Seq<(MetaValueView, MetaValueView)>;

    open spec fn view(&self) -> Seq<(MetaValueView, MetaValueView)> {
        entries_view(self.entries)
    }
}

// ---------------------------------------------------------------------------
// Structural copying.
// ---------------------------------------------------------------------------

/// Copies a value structurally. The machine's containers are value-typed,
/// so duplicating a value on the stack copies the whole structure.
pub fn deep_clone(mv: &MetaValue) -> (r: MetaValue)
    ensures
        r@ == mv@,
    decreases *mv,
{
    MetaValue {
        value: clone_value(&mv.value),
        meta: Table { entries: clone_entries(&mv.meta.entries) },
    }
}

fn clone_value(v: &Value) -> (r: Value)
    ensures
        value_view(r) == value_view(*v),
    decreases *v,
{
    match v {
        Value::Bool(b) => Value::Bool(*b),
        Value::Int(i) => Value::Int(*i),
        Value::List(l) => Value::List(clone_list(l)),
        Value::Table(t) => Value::Table(Table { entries: clone_entries(&t.entries) }),
        Value::FunctionRef(f) => Value::FunctionRef(
            FunctionRef { name: f.name.clone(), env: Env { locals: clone_locals(&f.env.locals) } },
        ),
    }
}

fn clone_list(l: &Vec<MetaValue>) -> (r: Vec<MetaValue>)
    ensures
        list_view(r) == list_view(*l),
    decreases *l,
{
    let mut r: Vec<MetaValue> = Vec::new();
    let mut i: usize = 0;
    while i < l.len()
        invariant
            i <= l@.len(),
            r@.len() == i as int,
            forall|j: int| 0 <= j < i as int ==> mv_view(#[trigger] r@[j]) == mv_view(l@[j]),
        decreases l@.len() - i,
    {
        r.push(deep_clone(&l[i]));
        i = i + 1;
    }
    proof {
        assert(list_view(r) =~= list_view(*l));
    }
    r
}

fn clone_entries(es: &Vec<(MetaValue, MetaValue)>) -> (r: Vec<(MetaValue, MetaValue)>)
    ensures
        entries_view(r) == entries_view(*es),
    decreases *es,
{
    let mut r: Vec<(MetaValue, MetaValue)> = Vec::new();
    let mut i: usize = 0;
    while i < es.len()
        invariant
            i <= es@.len(),
            r@.len() == i as int,
            forall|j: int|
                0 <= j < i as int ==> mv_view(#[trigger] r@[j].0) == mv_view(es@[j].0) && mv_view(
                    r@[j].1,
                ) == mv_view(es@[j].1),
        decreases es@.len() - i,
    {
        let pair = &es[i];
        r.push((deep_clone(&pair.0), deep_clone(&pair.1)));
        i = i + 1;
    }
    proof {
        assert(entries_view(r) =~= entries_view(*es));
    }
    r
}

fn clone_locals(locals: &Vec<Option<MetaValue>>) -> (r: Vec<Option<MetaValue>>)
    ensures
        locals_view(r) == locals_view(*locals),
    decreases *locals,
{
    let mut r: Vec<Option<MetaValue>> = Vec::new();
    let mut i: usize = 0;
    while i < locals.len()
        invariant
            i <= locals@.len(),
            r@.len() == i as int,
            forall|j: int|
                0 <= j < i as int ==> (match (#[trigger] r@[j], locals@[j]) {
                    (Some(a), Some(b)) => mv_view(a) == mv_view(b),
                    (None, None) => true,
                    _ => false,
                }),
        decreases locals@.len() - i,
    {
        match &locals[i] {
            Some(mv) => r.push(Some(deep_clone(mv))),
            None => r.push(None),
        }
        i = i + 1;
    }
    proof {
        assert(locals_view(r) =~= locals_view(*locals));
    }
    r
}

// ---------------------------------------------------------------------------
// Structural equality.
// ---------------------------------------------------------------------------

/// Decides structural equality of two values, meta-tables included: the
/// result is exactly whether the two views are equal.
pub fn deep_eq(a: &MetaValue, b: &MetaValue) -> (r: bool)
    ensures
        r == (a@ == b@),
    decreases *a,
{
    let r = value_eq(&a.value, &b.value) && entries_eq(&a.meta.entries, &b.meta.entries);
    proof {
        if r {
            assert(a@ == b@);
        }
    }
    r
}

fn value_eq(a: &Value, b: &Value) -> (r: bool)
    ensures
        r == (value_view(*a) == value_view(*b)),
    decreases *a,
{
    match (a, b) {
        (Value::Bool(x), Value::Bool(y)) => *x == *y,
        (Value::Int(x), Value::Int(y)) => *x == *y,
        (Value::List(l1), Value::List(l2)) => list_eq(l1, l2),
        (Value::Table(t1), Value::Table(t2)) => entries_eq(&t1.entries, &t2.entries),
        (Value::FunctionRef(f1), Value::FunctionRef(f2)) => {
            let r = f1.name == f2.name && locals_eq(&f1.env.locals, &f2.env.locals);
            proof {
                if r {
                    assert(value_view(*a) == value_view(*b));
                }
            }
            r
        },
        _ => {
            proof {
                assert(value_view(*a) != value_view(*b));
            }
            false
        },
    }
}

fn list_eq(l1: &Vec<MetaValue>, l2: &Vec<MetaValue>) -> (r: bool)
    ensures
        r == (list_view(*l1) == list_view(*l2)),
    decreases *l1,
{
    if l1.len() != l2.len() {
        proof {
            assert(list_view(*l1).len() != list_view(*l2).len());
        }
        return false;
    }
    let mut i: usize = 0;
    while i < l1.len()
        invariant
            l1@.len() == l2@.len(),
            i <= l1@.len(),
            forall|j: int| 0 <= j < i as int ==> mv_view(#[trigger] l1@[j]) == mv_view(l2@[j]),
        decreases l1@.len() - i,
    {
        if !deep_eq(&l1[i], &l2[i]) {
            proof {
                assert(list_view(*l1)[i as int] != list_view(*l2)[i as int]);
            }
            return false;
        }
        i = i + 1;
    }
    proof {
        assert(list_view(*l1) =~= list_view(*l2));
    }
    true
}

fn entries_eq(e1: &Vec<(MetaValue, MetaValue)>, e2: &Vec<(MetaValue, MetaValue)>) -> (r: bool)
    ensures
        r == (entries_view(*e1) == entries_view(*e2)),
    decreases *e1,
{
    if e1.len() != e2.len() {
        proof {
            assert(entries_view(*e1).len() != entries_view(*e2).len());
        }
        return false;
    }
    let mut i: usize = 0;
    while i < e1.len()
        invariant
            e1@.len() == e2@.len(),
            i <= e1@.len(),
            forall|j: int|
                0 <= j < i as int ==> mv_view(#[trigger] e1@[j].0) == mv_view(e2@[j].0) && mv_view(
                    e1@[j].1,
                ) == mv_view(e2@[j].1),
        decreases e1@.len() - i,
    {
        let p1 = &e1[i];
        let p2 = &e2[i];
        if !deep_eq(&p1.0, &p2.0) {
            proof {
                assert(entries_view(*e1)[i as int] != entries_view(*e2)[i as int]);
            }
            return false;
        }
        if !deep_eq(&p1.1, &p2.1) {
            proof {
                assert(entries_view(*e1)[i as int] != entries_view(*e2)[i as int]);
            }
            return false;
        }
        i = i + 1;
    }
    proof {
        assert(entries_view(*e1) =~= entries_view(*e2));
    }
    true
}

fn locals_eq(l1: &Vec<Option<MetaValue>>, l2: &Vec<Option<MetaValue>>) -> (r: bool)
    ensures
        r == (locals_view(*l1) == locals_view(*l2)),
    decreases *l1,
{
    if l1.len() != l2.len() {
        proof {
            assert(locals_view(*l1).len() != locals_view(*l2).len());
        }
        return false;
    }
    let mut i: usize = 0;
    while i < l1.len()
        invariant
            l1@.len() == l2@.len(),
            i <= l1@.len(),
            forall|j: int|
                0 <= j < i as int ==> (match (#[trigger] l1@[j], l2@[j]) {
                    (Some(a), Some(b)) => mv_view(a) == mv_view(b),
                    (None, None) => true,
                    _ => false,
                }),
        decreases l1@.len() - i,
    {
        let same = match (&l1[i], &l2[i]) {
            (Some(a), Some(b)) => deep_eq(a, b),
            (None, None) => true,
            _ => false,
        };
        if !same {
            proof {
                assert(locals_view(*l1)[i as int] != locals_view(*l2)[i as int]);
            }
            return false;
        }
        i = i + 1;
    }
    proof {
        assert(locals_view(*l1) =~= locals_view(*l2));
    }
    true
}

// ---------------------------------------------------------------------------
// Kind names.
// ---------------------------------------------------------------------------

/// The name of a value's kind, as carried by type errors.
pub open spec fn kind_name_of(v: ValueView) -> Seq<char> {
    match v {
        ValueView::Bool(_) => "Bool"@,
        ValueView::Int(_) => "Int"@,
        ValueView::List(_) => "List"@,
        ValueView::Table(_) => "Table"@,
        ValueView::FunctionRef(_) => "FunctionRef"@,
    }
}

// ---------------------------------------------------------------------------
// Association-sequence semantics of tables.
// ---------------------------------------------------------------------------

/// The position of the first entry whose key equals `k`, or `-1` when no
/// entry has that key.
pub open spec fn table_find(
    t: Seq<(MetaValueView, MetaValueView)>,
    k: MetaValueView,
) -> int
    decreases t.len(),
{
    if t.len() == 0 {
        -1
    } else if t[0].0 == k {
        0
    } else {
        let rest = table_find(t.skip(1), k);
        if rest < 0 {
            -1
        } else {
            rest + 1
        }
    }
}

/// The value stored under `k`, when present.
pub open spec fn table_get(
    t: Seq<(MetaValueView, MetaValueView)>,
    k: MetaValueView,
) -> Option<MetaValueView> {
    if table_find(t, k) >= 0 {
        Some(t[table_find(t, k)].1)
    } else {
        None
    }
}

/// `t` after storing `v` under `k`: the existing entry is replaced in
/// place, or a new entry is appended.
pub open spec fn table_set(
    t: Seq<(MetaValueView, MetaValueView)>,
    k: MetaValueView,
    v: MetaValueView,
) -> Seq<(MetaValueView, MetaValueView)> {
    if table_find(t, k) >= 0 {
        t.update(table_find(t, k), (k, v))
    } else {
        t.push((k, v))
    }
}

/// The keys of `t`, in entry order.
pub open spec fn table_keys_of(t: Seq<(MetaValueView, MetaValueView)>) -> Seq<MetaValueView> {
    t.map(|i: int, p: (MetaValueView, MetaValueView)| p.0)
}

/// `table_find` names the first position holding the key: every earlier
/// entry has a different key, and `-1` means no entry has it.
pub proof fn lemma_table_find(t: Seq<(MetaValueView, MetaValueView)>, k: MetaValueView)
    ensures
        table_find(t, k) < 0 ==> forall|i: int| 0 <= i < t.len() ==> (#[trigger] t[i]).0 != k,
        table_find(t, k) >= 0 ==> 0 <= table_find(t, k) < t.len() && t[table_find(t, k)].0 == k
            && forall|i: int| 0 <= i < table_find(t, k) ==> (#[trigger] t[i]).0 != k,
    decreases t.len(),
{
    if t.len() > 0 && t[0].0 != k {
        lemma_table_find(t.skip(1), k);
        assert forall|i: int| 1 <= i < t.len() implies t.skip(1)[i - 1] == t[i] by {}
    }
}

impl Table {
    /// The empty table.
    pub fn new() -> (r: Table)
        ensures
            r@ =~= Seq::<(MetaValueView, MetaValueView)>::empty(),
    {
        Table { entries: Vec::new() }
    }

    /// The number of entries.
    pub fn len(&self) -> (r: usize)
        ensures
            r == self@.len(),
    {
        self.entries.len()
    }

    /// Looks the key up: a reference to the stored value, or `None` when no
    /// entry has this key.
    pub fn get(&self, k: &MetaValue) -> (r: Option<&MetaValue>)
        ensures
            match r {
                Some(v) => table_get(self@, k@) == Some(v@),
                None => table_get(self@, k@) is None,
            },
    {
        proof {
            lemma_table_find(self@, k@);
        }
        let n = self.entries.len();
        let mut i: usize = 0;
        while i < n
            invariant
                n == self.entries@.len(),
                i <= n,
                forall|j: int| 0 <= j < i as int ==> (#[trigger] self@[j]).0 != k@,
                table_find(self@, k@) < 0 ==> forall|j: int|
                    0 <= j < self@.len() ==> (#[trigger] self@[j]).0 != k@,
                table_find(self@, k@) >= 0 ==> 0 <= table_find(self@, k@) < self@.len() && self@[
                    table_find(self@, k@)
                ].0 == k@ && forall|j: int|
                    0 <= j < table_find(self@, k@) ==> (#[trigger] self@[j]).0 != k@,
            decreases n - i,
        {
            let pair = &self.entries[i];
            if deep_eq(&pair.0, k) {
                proof {
                    assert(self@[i as int].0 == k@);
                    assert(table_find(self@, k@) == i as int);
                }
                return Some(&self.entries[i].1);
            }
            i = i + 1;
        }
        None
    }

    /// Stores `v` under `k`: an existing entry with this key is replaced in
    /// place, otherwise the entry is appended.
    pub fn insert(&mut self, k: MetaValue, v: MetaValue)
        ensures
            final(self)@ =~= table_set(old(self)@, k@, v@),
    {
        proof {
            lemma_table_find(old(self)@, k@);
        }
        let n = self.entries.len();
        let mut i: usize = 0;
        while i < n
            invariant
                n == self.entries@.len(),
                i <= n,
                *self == *old(self),
                forall|j: int| 0 <= j < i as int ==> (#[trigger] self@[j]).0 != k@,
                table_find(old(self)@, k@) < 0 ==> forall|j: int|
                    0 <= j < old(self)@.len() ==> (#[trigger] old(self)@[j]).0 != k@,
                table_find(old(self)@, k@) >= 0 ==> 0 <= table_find(old(self)@, k@) < old(
                    self,
                )@.len() && old(self)@[table_find(old(self)@, k@)].0 == k@ && forall|j: int|
                    0 <= j < table_find(old(self)@, k@) ==> (#[trigger] old(self)@[j]).0 != k@,
            decreases n - i,
        {
            let pair = &self.entries[i];
            if deep_eq(&pair.0, &k) {
                proof {
                    assert(old(self)@[i as int].0 == k@);
                    assert(table_find(old(self)@, k@) == i as int);
                }
                self.entries[i] = (k, v);
                proof {
                    assert(self@ =~= old(self)@.update(i as int, (k@, v@)));
                }
                return;
            }
            i = i + 1;
        }
        self.entries.push((k, v));
        proof {
            assert(self@ =~= old(self)@.push((k@, v@)));
        }
    }

    /// The keys, as a list of copies in entry order.
    pub fn keys(&self) -> (r: Vec<MetaValue>)
        ensures
            list_view(r) =~= table_keys_of(self@),
    {
        let mut r: Vec<MetaValue> = Vec::new();
        let n = self.entries.len();
        let mut i: usize = 0;
        while i < n
            invariant
                n == self.entries@.len(),
                i <= n,
                r@.len() == i as int,
                forall|j: int|
                    0 <= j < i as int ==> mv_view(#[trigger] r@[j]) == (self@[j]).0,
            decreases n - i,
        {
            r.push(deep_clone(&self.entries[i].0));
            i = i + 1;
        }
        r
    }
}

impl MetaValue {
    /// Wraps a bare value with an empty meta-table.
    pub fn new(value: Value) -> (r: MetaValue)
        ensures
            r@ == (MetaValueView {
                value: value@,
                meta: Seq::<(MetaValueView, MetaValueView)>::empty(),
            }),
    {
        let r = MetaValue { value, meta: Table::new() };
        proof {
            assert(r@.meta =~= Seq::<(MetaValueView, MetaValueView)>::empty());
        }
        r
    }

    /// The name of this value's kind, as carried by type errors.
    pub fn kind_name(&self) -> (r: String)
        ensures
            r@ == kind_name_of(self@.value),
    {
        match &self.value {
            Value::Bool(_) => "Bool".to_owned(),
            Value::Int(_) => "Int".to_owned(),
            Value::List(_) => "List".to_owned(),
            Value::Table(_) => "Table".to_owned(),
            Value::FunctionRef(_) => "FunctionRef".to_owned(),
        }
    }

    /// A boolean with an empty meta-table.
    pub fn bool(val: bool) -> (r: MetaValue)
        ensures
            r@ == (MetaValueView {
                value: ValueView::Bool(val),
                meta: Seq::<(MetaValueView, MetaValueView)>::empty(),
            }),
    {
        Self::new(Value::Bool(val))
    }

    /// An integer with an empty meta-table.
    pub fn integer(val: i64) -> (r: MetaValue)
        ensures
            r@ == (MetaValueView {
                value: ValueView::Int(val),
                meta: Seq::<(MetaValueView, MetaValueView)>::empty(),
            }),
    {
        Self::new(Value::Int(val))
    }

    /// A list with an empty meta-table.
    pub fn list(val: List) -> (r: MetaValue)
        ensures
            r@ == (MetaValueView {
                value: ValueView::List(list_view(val)),
                meta: Seq::<(MetaValueView, MetaValueView)>::empty(),
            }),
    {
        Self::new(Value::List(val))
    }

    /// A table with an empty meta-table.
    pub fn table(val: Table) -> (r: MetaValue)
        ensures
            r@ == (MetaValueView {
                value: ValueView::Table(val@),
                meta: Seq::<(MetaValueView, MetaValueView)>::empty(),
            }),
    {
        Self::new(Value::Table(val))
    }

    /// A function reference with an empty meta-table.
    pub fn function_ref(val: FunctionRef) -> (r: MetaValue)
        ensures
            r@ == (MetaValueView {
                value: ValueView::FunctionRef(val@),
                meta: Seq::<(MetaValueView, MetaValueView)>::empty(),
            }),
    {
        Self::new(Value::FunctionRef(val))
    }

    /// Whether the value is a boolean.
    pub fn is_bool(&self) -> (r: bool)
        ensures
            r == (self@.value is Bool),
    {
        matches!(self.value, Value::Bool(_))
    }

    /// Whether the value is an integer.
    pub fn is_int(&self) -> (r: bool)
        ensures
            r == (self@.value is Int),
    {
        matches!(self.value, Value::Int(_))
    }
}

impl FunctionRef {
    /// A reference to the named function, with no captured environment.
    pub fn of_name(name: String) -> (r: FunctionRef)
        ensures
            r@ == (FunctionRefView { name: name@, env: Seq::<Option<MetaValueView>>::empty() }),
    {
        let r = FunctionRef { name, env: Env::empty() };
        proof {
            assert(r@.env =~= Seq::<Option<MetaValueView>>::empty());
        }
        r
    }
}


// ---------------------------------------------------------------------------
// Rendering.
// ---------------------------------------------------------------------------

/// The decimal digit character for `d`, `0 <= d <= 9`.
pub open spec fn digit_char(d: int) -> char {
    if d == 0 {
        '0'
    } else if d == 1 {
        '1'
    } else if d == 2 {
        '2'
    } else if d == 3 {
        '3'
    } else if d == 4 {
        '4'
    } else if d == 5 {
        '5'
    } else if d == 6 {
        '6'
    } else if d == 7 {
        '7'
    } else if d == 8 {
        '8'
    } else {
        '9'
    }
}

/// The decimal text of a natural number, most significant digit first.
pub open spec fn nat_text(n: nat) -> Seq<char>
    decreases n,
{
    if n < 10 {
        seq![digit_char(n as int)]
    } else {
        nat_text(n / 10) + seq![digit_char((n % 10) as int)]
    }
}

/// The decimal text of an integer: a minus sign for negatives.
pub open spec fn int_text(i: int) -> Seq<char> {
    if i < 0 {
        seq!['-'] + nat_text((-i) as nat)
    } else {
        nat_text(i as nat)
    }
}

/// The text of a value: booleans and integers literally, a list as its
/// comma-separated elements in brackets, a table as comma-separated
/// `key:value` pairs in brackets, a function reference as its name. A
/// meta-table is not shown.
pub open spec fn text_of(v: ValueView) -> Seq<char>
    decreases v,
{
    match v {
        ValueView::Bool(b) => if b {
            "true"@
        } else {
            "false"@
        },
        ValueView::Int(i) => int_text(i as int),
        ValueView::List(l) => seq!['['] + list_text(l) + seq![']'],
        ValueView::Table(t) => seq!['['] + entries_text(t) + seq![']'],
        ValueView::FunctionRef(f) => f.name,
    }
}

/// The texts of list elements, joined with commas.
pub open spec fn list_text(l: Seq<MetaValueView>) -> Seq<char>
    decreases l,
{
    if l.len() == 0 {
        Seq::<char>::empty()
    } else if l.len() == 1 {
        text_of(l.last().value)
    } else {
        list_text(l.drop_last()) + seq![','] + text_of(l.last().value)
    }
}

/// The `key:value` texts of table entries, joined with commas.
pub open spec fn entries_text(t: Seq<(MetaValueView, MetaValueView)>) -> Seq<char>
    decreases t,
{
    if t.len() == 0 {
        Seq::<char>::empty()
    } else if t.len() == 1 {
        text_of(t.last().0.value) + seq![':'] + text_of(t.last().1.value)
    } else {
        entries_text(t.drop_last()) + seq![','] + text_of(t.last().0.value) + seq![':']
            + text_of(t.last().1.value)
    }
}

/// The decimal digit as a string slice.
fn digit_str(d: u64) -> (r: &'static str)
    requires
        d < 10,
    ensures
        r@ =~= seq![digit_char(d as int)],
{
    proof {
        reveal_strlit("0");
        reveal_strlit("1");
        reveal_strlit("2");
        reveal_strlit("3");
        reveal_strlit("4");
        reveal_strlit("5");
        reveal_strlit("6");
        reveal_strlit("7");
        reveal_strlit("8");
        reveal_strlit("9");
    }
    if d == 0 {
        "0"
    } else if d == 1 {
        "1"
    } else if d == 2 {
        "2"
    } else if d == 3 {
        "3"
    } else if d == 4 {
        "4"
    } else if d == 5 {
        "5"
    } else if d == 6 {
        "6"
    } else if d == 7 {
        "7"
    } else if d == 8 {
        "8"
    } else {
        "9"
    }
}

/// Renders a natural number in decimal.
fn nat_to_text(n: u64) -> (r: String)
    ensures
        r@ == nat_text(n as nat),
    decreases n,
{
    if n < 10 {
        digit_str(n).to_owned()
    } else {
        let mut s = nat_to_text(n / 10);
        s.append(digit_str(n % 10));
        proof {
            assert(s@ =~= nat_text(n as nat));
        }
        s
    }
}

/// Renders a machine integer in decimal.
fn int_to_text(v: i64) -> (r: String)
    ensures
        r@ == int_text(v as int),
{
    if v >= 0 {
        nat_to_text(v as u64)
    } else {
        let m: u64 = if v == i64::MIN {
            9223372036854775808u64
        } else {
            (-v) as u64
        };
        let mut s = String::new();
        proof {
            reveal_strlit("-");
        }
        s.append("-");
        let digits = nat_to_text(m);
        s.append(digits.as_str());
        proof {
            assert(s@ =~= int_text(v as int));
        }
        s
    }
}

impl MetaValue {
    /// Renders the value for a reader: its meta-table is not shown.
    pub fn to_text(&self) -> (r: String)
        ensures
            r@ == text_of(self@.value),
        decreases *self,
    {
        value_to_text(&self.value)
    }
}

/// Renders a bare value.
#[verifier::loop_isolation(false)]
pub fn value_to_text(v: &Value) -> (r: String)
    ensures
        r@ == text_of(value_view(*v)),
    decreases *v,
{
    match v {
        Value::Bool(b) => {
            proof {
                reveal_strlit("true");
                reveal_strlit("false");
            }
            if *b {
                "true".to_owned()
            } else {
                "false".to_owned()
            }
        },
        Value::Int(i) => int_to_text(*i),
        Value::List(l) => {
            let mut s = String::new();
            proof {
                reveal_strlit("[");
                reveal_strlit("]");
                reveal_strlit(",");
            }
            s.append("[");
            let n = l.len();
            let mut i: usize = 0;
            while i < n
                invariant
                    n == l@.len(),
                    i <= n,
                    s@ =~= seq!['['] + list_text(list_view(*l).take(i as int)),
                decreases n - i,
            {
                if i > 0 {
                    s.append(",");
                }
                proof {
                    assert(decreases_to!(*v => *l));
                    assert(decreases_to!(*l => l@[i as int]));
                }
                let t = l[i].to_text();
                s.append(t.as_str());
                i = i + 1;
                proof {
                    let lv = list_view(*l);
                    assert(lv.take(i as int).drop_last() =~= lv.take(i as int - 1));
                    assert(lv.take(i as int).last() == lv[i as int - 1]);
                    assert(s@ =~= seq!['['] + list_text(lv.take(i as int)));
                }
            }
            s.append("]");
            proof {
                assert(list_view(*l).take(n as int) =~= list_view(*l));
                assert(s@ =~= text_of(value_view(*v)));
            }
            s
        },
        Value::Table(t) => {
            let mut s = String::new();
            proof {
                reveal_strlit("[");
                reveal_strlit("]");
                reveal_strlit(",");
                reveal_strlit(":");
            }
            s.append("[");
            let n = t.entries.len();
            let mut i: usize = 0;
            while i < n
                invariant
                    n == t.entries@.len(),
                    i <= n,
                    s@ =~= seq!['['] + entries_text(entries_view(t.entries).take(i as int)),
                decreases n - i,
            {
                if i > 0 {
                    s.append(",");
                }
                proof {
                    assert(decreases_to!(*v => t.entries));
                    assert(decreases_to!(t.entries => t.entries@[i as int]));
                    assert(decreases_to!(t.entries@[i as int] => t.entries@[i as int].0));
                    assert(decreases_to!(t.entries@[i as int] => t.entries@[i as int].1));
                }
                let pair = &t.entries[i];
                let k = pair.0.to_text();
                s.append(k.as_str());
                s.append(":");
                let val = pair.1.to_text();
                s.append(val.as_str());
                i = i + 1;
                proof {
                    let tv = entries_view(t.entries);
                    assert(tv.take(i as int).drop_last() =~= tv.take(i as int - 1));
                    assert(tv.take(i as int).last() == tv[i as int - 1]);
                    assert(s@ =~= seq!['['] + entries_text(tv.take(i as int)));
                }
            }
            s.append("]");
            proof {
                assert(entries_view(t.entries).take(n as int) =~= entries_view(t.entries));
                assert(s@ =~= text_of(value_view(*v)));
            }
            s
        },
        Value::FunctionRef(f) => {
            let r = f.name.clone();
            r
        },
    }
}


} // verus!
