//! Internal items of the crate: values, argument definitions, closures, the
//! stack, and the token and expression trees.
use crate::error::{LineRange, RuntimeErrorKind, StckError};
use crate::runtime::Frame as RuntimeFrame;
pub use crate::runtime::Context as RuntimeContext;
use crate::text::string_eq;
use crate::types::{clone_tt, tt_view, DefinedGenericBuilder, TypeTester, TypeV};
use vstd::prelude::*;

verus! {

pub type ArgName = String;

pub type FnName = String;

// ---------------------------------------------------------------------------
// Values

/// A value of the language.
#[derive(Debug, PartialEq)]
pub enum Value {
    Char(char),
    Str(String),
    Num(isize),
    Bool(bool),
    Array(Vec<Value>),
    Mapping(ValueMap),
    Result(Box<Result<Value, Value>>),
    Option(Option<Box<Value>>),
    Closure(Box<Closure>),
}

/// A map from names to values: a list of entries, the first entry of a
/// name being its binding.
#[derive(Debug, PartialEq)]
pub struct ValueMap {
    pub entries: Vec<(String, Value)>,
}

/// A function argument bound to a value.
#[derive(Debug, PartialEq)]
pub struct FnArg(pub Value);

/// The declaration of one argument: its name and optionally its type.
#[derive(Debug, PartialEq)]
pub struct FnArgDef {
    pub name: String,
    pub type_check: Option<TypeTester>,
}

/// The arguments a function takes: a list, or the entire stack.
#[derive(Debug, PartialEq)]
pub enum FnArgs {
    Args(Vec<FnArgDef>),
    AllStack,
}

/// The declared output types of a function or closure.
#[derive(Debug, PartialEq)]
pub struct TypedOutputs {
    pub outputs: Vec<Option<TypeTester>>,
}

/// The arguments of a closure: those still to be filled (the next one last),
/// those filled so far, and the arguments of the function it was made in.
#[derive(Debug, PartialEq)]
pub struct ClosurePartialArgs {
    pub next: Vec<FnArgDef>,
    pub filled: Vec<(ArgName, Value)>,
    pub parent: Option<ValueMap>,
}

/// A closure: code with arguments that are filled one by one.
#[derive(Debug, PartialEq)]
pub struct Closure {
    pub code: Vec<Expr>,
    pub request_args: ClosurePartialArgs,
    pub output_types: Option<TypedOutputs>,
}

/// A closure whose arguments are all filled, ready to run.
pub struct FullClosure {
    pub code: Vec<Expr>,
    pub request_args: ValueMap,
    pub output_types: Option<TypedOutputs>,
}

/// The outcome of filling one argument of a closure.
pub enum ClosureCurry {
    Full(FullClosure),
    Partial(Closure),
}

/// The model of a [`Value`].
pub enum ValueV {
    Char(char),
    Str(Seq<char>),
    Num(isize),
    Bool(bool),
    Array(Seq<ValueV>),
    Mapping(Seq<(Seq<char>, ValueV)>),
    Result(bool, Box<ValueV>),
    Option(Option<Box<ValueV>>),
    Closure(Box<ClosureV>),
}

/// The model of an argument declaration.
pub struct ArgDefV {
    pub name: Seq<char>,
    pub ty: Option<TypeV>,
}

/// The model of a [`Closure`]: the arguments it waits for (the next last),
/// those it has, those of the function it was made in, its declared
/// outputs and its code.
pub struct ClosureV {
    pub next: Seq<ArgDefV>,
    pub filled: Seq<(Seq<char>, ValueV)>,
    pub parent: Option<Seq<(Seq<char>, ValueV)>>,
    pub outputs: Option<Seq<Option<TypeV>>>,
    pub code: Seq<crate::parse::ExprM>,
}

pub open spec fn opt_tt_view(t: Option<TypeTester>) -> Option<TypeV> {
    match t {
        Some(t) => Some(t@),
        None => None,
    }
}

pub open spec fn argdef_view(a: FnArgDef) -> ArgDefV {
    ArgDefV { name: a.name@, ty: opt_tt_view(a.type_check) }
}

pub open spec fn argdefs_view(s: Seq<FnArgDef>) -> Seq<ArgDefV> {
    s.map_values(|a: FnArgDef| argdef_view(a))
}

pub open spec fn outputs_view(s: Seq<Option<TypeTester>>) -> Seq<Option<TypeV>> {
    s.map_values(|t: Option<TypeTester>| opt_tt_view(t))
}

impl View for FnArgDef {
    type V = ArgDefV;

    open spec fn view(&self) -> ArgDefV {
        argdef_view(*self)
    }
}

impl View for TypedOutputs {
    type V = Seq<Option<TypeV>>;

    open spec fn view(&self) -> Seq<Option<TypeV>> {
        outputs_view(self.outputs@)
    }
}

pub open spec fn value_view(v: Value) -> ValueV
    decreases v, 0nat,
{
    match v {
        Value::Char(c) => ValueV::Char(c),
        Value::Str(s) => ValueV::Str(s@),
        Value::Num(n) => ValueV::Num(n),
        Value::Bool(b) => ValueV::Bool(b),
        Value::Array(a) => ValueV::Array(values_view(a@)),
        Value::Mapping(m) => ValueV::Mapping(entries_view(m.entries@)),
        Value::Result(r) => match *r {
            Ok(x) => ValueV::Result(true, Box::new(value_view(x))),
            Err(x) => ValueV::Result(false, Box::new(value_view(x))),
        },
        Value::Option(o) => match o {
            Some(x) => ValueV::Option(Some(Box::new(value_view(*x)))),
            None => ValueV::Option(None),
        },
        Value::Closure(c) => ValueV::Closure(Box::new(closure_view(*c))),
    }
}

pub open spec fn values_view(s: Seq<Value>) -> Seq<ValueV>
    decreases s, 1nat,
{
    if s.len() == 0 {
        Seq::empty()
    } else {
        values_view(s.drop_last()).push(value_view(s.last()))
    }
}

pub open spec fn entries_view(s: Seq<(String, Value)>) -> Seq<(Seq<char>, ValueV)>
    decreases s, 1nat,
{
    if s.len() == 0 {
        Seq::empty()
    } else {
        entries_view(s.drop_last()).push((s.last().0@, value_view(s.last().1)))
    }
}

pub open spec fn closure_view(c: Closure) -> ClosureV
    decreases c, 1nat,
{
    ClosureV {
        next: argdefs_view(c.request_args.next@),
        filled: entries_view(c.request_args.filled@),
        parent: match c.request_args.parent {
            Some(m) => Some(entries_view(m.entries@)),
            None => None,
        },
        outputs: match c.output_types {
            Some(o) => Some(o@),
            None => None,
        },
        code: {
            proof {
                broadcast use vstd::std_specs::vec::axiom_vec_decreases_to_view;

                assert(decreases_to!(c => c.code@));
            }
            crate::parse::exprs_model(c.code@)
        },
    }
}

impl View for Value {
    type V = ValueV;

    open spec fn view(&self) -> ValueV {
        value_view(*self)
    }
}

impl View for Closure {
    type V = ClosureV;

    open spec fn view(&self) -> ClosureV {
        closure_view(*self)
    }
}

impl View for ValueMap {
    type V = Seq<(Seq<char>, ValueV)>;

    open spec fn view(&self) -> Seq<(Seq<char>, ValueV)> {
        entries_view(self.entries@)
    }
}

pub proof fn lemma_values_view(s: Seq<Value>)
    ensures
        values_view(s).len() == s.len(),
        forall|i: int| 0 <= i < s.len() ==> #[trigger] values_view(s)[i] == value_view(s[i]),
    decreases s.len(),
{
    if s.len() > 0 {
        lemma_values_view(s.drop_last());
    }
}

pub proof fn lemma_entries_view(s: Seq<(String, Value)>)
    ensures
        entries_view(s).len() == s.len(),
        forall|i: int|
            0 <= i < s.len() ==> #[trigger] entries_view(s)[i] == (s[i].0@, value_view(s[i].1)),
    decreases s.len(),
{
    if s.len() > 0 {
        lemma_entries_view(s.drop_last());
    }
}

pub proof fn lemma_values_view_push(s: Seq<Value>, v: Value)
    ensures
        values_view(s.push(v)) == values_view(s).push(value_view(v)),
{
    assert(s.push(v).drop_last() =~= s);
}

pub proof fn lemma_values_view_take(s: Seq<Value>, i: int)
    requires
        0 <= i <= s.len(),
    ensures
        values_view(s.take(i)) == values_view(s).take(i),
{
    lemma_values_view(s);
    lemma_values_view(s.take(i));
    assert(values_view(s.take(i)) =~= values_view(s).take(i));
}

pub proof fn lemma_values_view_skip(s: Seq<Value>, i: int)
    requires
        0 <= i <= s.len(),
    ensures
        values_view(s.skip(i)) == values_view(s).skip(i),
{
    lemma_values_view(s);
    lemma_values_view(s.skip(i));
    assert(values_view(s.skip(i)) =~= values_view(s).skip(i));
}

pub proof fn lemma_values_view_add(s: Seq<Value>, t: Seq<Value>)
    ensures
        values_view(s + t) == values_view(s) + values_view(t),
{
    lemma_values_view(s);
    lemma_values_view(t);
    lemma_values_view(s + t);
    assert(values_view(s + t) =~= values_view(s) + values_view(t));
}

pub proof fn lemma_entries_view_push(s: Seq<(String, Value)>, e: (String, Value))
    ensures
        entries_view(s.push(e)) == entries_view(s).push((e.0@, value_view(e.1))),
{
    assert(s.push(e).drop_last() =~= s);
}

impl Value {
    /// The value as a option, or the value itself when it is not one.
    pub fn get_option(self) -> (r: Result<Option<Box<Value>>, Value>)
        ensures
            self is Option ==> r == Ok::<Option<Box<Value>>, Value>(self->Option_0),
            !(self is Option) ==> r == Err::<Option<Box<Value>>, Value>(self),
    {
        match self {
            Value::Option(x) => Ok(x),
            o => Err(o),
        }
    }

    /// The value as a closure, or the value itself when it is not one.
    pub fn get_closure(self) -> (r: Result<Closure, Value>)
        ensures
            self is Closure ==> r == Ok::<Closure, Value>(*self->Closure_0),
            !(self is Closure) ==> r == Err::<Closure, Value>(self),
    {
        match self {
            Value::Closure(x) => Ok(*x),
            o => Err(o),
        }
    }

    /// The value as a str, or the value itself when it is not one.
    pub fn get_str(self) -> (r: Result<String, Value>)
        ensures
            self is Str ==> r == Ok::<String, Value>(self->Str_0),
            !(self is Str) ==> r == Err::<String, Value>(self),
    {
        match self {
            Value::Str(x) => Ok(x),
            o => Err(o),
        }
    }

    /// The value as a num, or the value itself when it is not one.
    pub fn get_num(self) -> (r: Result<isize, Value>)
        ensures
            self is Num ==> r == Ok::<isize, Value>(self->Num_0),
            !(self is Num) ==> r == Err::<isize, Value>(self),
    {
        match self {
            Value::Num(x) => Ok(x),
            o => Err(o),
        }
    }

    /// The value as a bool, or the value itself when it is not one.
    pub fn get_bool(self) -> (r: Result<bool, Value>)
        ensures
            self is Bool ==> r == Ok::<bool, Value>(self->Bool_0),
            !(self is Bool) ==> r == Err::<bool, Value>(self),
    {
        match self {
            Value::Bool(x) => Ok(x),
            o => Err(o),
        }
    }

    /// The value as a arr, or the value itself when it is not one.
    pub fn get_arr(self) -> (r: Result<Vec<Value>, Value>)
        ensures
            self is Array ==> r == Ok::<Vec<Value>, Value>(self->Array_0),
            !(self is Array) ==> r == Err::<Vec<Value>, Value>(self),
    {
        match self {
            Value::Array(x) => Ok(x),
            o => Err(o),
        }
    }

    /// The value as a map, or the value itself when it is not one.
    pub fn get_map(self) -> (r: Result<ValueMap, Value>)
        ensures
            self is Mapping ==> r == Ok::<ValueMap, Value>(self->Mapping_0),
            !(self is Mapping) ==> r == Err::<ValueMap, Value>(self),
    {
        match self {
            Value::Mapping(x) => Ok(x),
            o => Err(o),
        }
    }

    /// The value as a result, or the value itself when it is not one.
    pub fn get_result(self) -> (r: Result<Result<Value, Value>, Value>)
        ensures
            self is Result ==> r == Ok::<Result<Value, Value>, Value>(*self->Result_0),
            !(self is Result) ==> r == Err::<Result<Value, Value>, Value>(self),
    {
        match self {
            Value::Result(x) => Ok(*x),
            o => Err(o),
        }
    }

    /// A reference to the value as a option, or to the value itself.
    pub fn get_ref_option(&self) -> (r: Result<&Option<Box<Value>>, &Value>)
        ensures
            self is Option ==> r == Ok::<&Option<Box<Value>>, &Value>(&self->Option_0),
            !(self is Option) ==> r == Err::<&Option<Box<Value>>, &Value>(self),
    {
        match self {
            Value::Option(x) => Ok(x),
            o => Err(o),
        }
    }

    /// A reference to the value as a str, or to the value itself.
    pub fn get_ref_str(&self) -> (r: Result<&String, &Value>)
        ensures
            self is Str ==> r == Ok::<&String, &Value>(&self->Str_0),
            !(self is Str) ==> r == Err::<&String, &Value>(self),
    {
        match self {
            Value::Str(x) => Ok(x),
            o => Err(o),
        }
    }

    /// A reference to the value as a num, or to the value itself.
    pub fn get_ref_num(&self) -> (r: Result<&isize, &Value>)
        ensures
            self is Num ==> r == Ok::<&isize, &Value>(&self->Num_0),
            !(self is Num) ==> r == Err::<&isize, &Value>(self),
    {
        match self {
            Value::Num(x) => Ok(x),
            o => Err(o),
        }
    }

    /// A reference to the value as a bool, or to the value itself.
    pub fn get_ref_bool(&self) -> (r: Result<&bool, &Value>)
        ensures
            self is Bool ==> r == Ok::<&bool, &Value>(&self->Bool_0),
            !(self is Bool) ==> r == Err::<&bool, &Value>(self),
    {
        match self {
            Value::Bool(x) => Ok(x),
            o => Err(o),
        }
    }

    /// A reference to the value as a arr, or to the value itself.
    pub fn get_ref_arr(&self) -> (r: Result<&Vec<Value>, &Value>)
        ensures
            self is Array ==> r == Ok::<&Vec<Value>, &Value>(&self->Array_0),
            !(self is Array) ==> r == Err::<&Vec<Value>, &Value>(self),
    {
        match self {
            Value::Array(x) => Ok(x),
            o => Err(o),
        }
    }

    /// A reference to the value as a map, or to the value itself.
    pub fn get_ref_map(&self) -> (r: Result<&ValueMap, &Value>)
        ensures
            self is Mapping ==> r == Ok::<&ValueMap, &Value>(&self->Mapping_0),
            !(self is Mapping) ==> r == Err::<&ValueMap, &Value>(self),
    {
        match self {
            Value::Mapping(x) => Ok(x),
            o => Err(o),
        }
    }

    /// A reference to the value as a result, or to the value itself.
    pub fn get_ref_result(&self) -> (r: Result<&Result<Value, Value>, &Value>)
        ensures
            self is Result ==> r == Ok::<&Result<Value, Value>, &Value>(&*self->Result_0),
            !(self is Result) ==> r == Err::<&Result<Value, Value>, &Value>(self),
    {
        match self {
            Value::Result(x) => Ok(&**x),
            o => Err(o),
        }
    }

    /// A reference to the value as a closure, or to the value itself.
    pub fn get_ref_closure(&self) -> (r: Result<&Closure, &Value>)
        ensures
            self is Closure ==> r == Ok::<&Closure, &Value>(&*self->Closure_0),
            !(self is Closure) ==> r == Err::<&Closure, &Value>(self),
    {
        match self {
            Value::Closure(x) => Ok(&**x),
            o => Err(o),
        }
    }
}

// ---------------------------------------------------------------------------
// Maps

/// The index of the first entry named `k`, at or after `i`.
pub open spec fn key_index(s: Seq<(Seq<char>, ValueV)>, k: Seq<char>, i: int) -> Option<int>
    decreases s.len() - i,
{
    if i < 0 || i >= s.len() {
        None
    } else if s[i].0 == k {
        Some(i)
    } else {
        key_index(s, k, i + 1)
    }
}

/// The value of the first entry named `k`.
pub open spec fn lookup(s: Seq<(Seq<char>, ValueV)>, k: Seq<char>) -> Option<ValueV> {
    match key_index(s, k, 0) {
        Some(i) => Some(s[i].1),
        None => None,
    }
}

/// Whether no name occurs twice in a list of entries.
pub open spec fn keys_unique(s: Seq<(Seq<char>, ValueV)>) -> bool {
    forall|i: int, j: int| 0 <= i < j < s.len() ==> s[i].0 != s[j].0
}

/// The entries after binding `k` to `v`: the first entry named `k` is
/// replaced in place, or the binding is appended when `k` was not bound.
pub open spec fn insert_entry(s: Seq<(Seq<char>, ValueV)>, k: Seq<char>, v: ValueV) -> Seq<
    (Seq<char>, ValueV),
> {
    match key_index(s, k, 0) {
        Some(i) => s.update(i, (k, v)),
        None => s.push((k, v)),
    }
}

pub proof fn lemma_key_index(s: Seq<(Seq<char>, ValueV)>, k: Seq<char>, i: int)
    requires
        0 <= i,
    ensures
        key_index(s, k, i) matches Some(j) ==> i <= j < s.len() && s[j].0 == k && forall|m: int|
            i <= m < j ==> s[m].0 != k,
        key_index(s, k, i) is None ==> forall|m: int| i <= m < s.len() ==> s[m].0 != k,
    decreases s.len() - i,
{
    if i < s.len() && s[i].0 != k {
        lemma_key_index(s, k, i + 1);
    }
}

/// Binding a name keeps the names of a list unique.
pub proof fn lemma_insert_keeps_unique(s: Seq<(Seq<char>, ValueV)>, k: Seq<char>, v: ValueV)
    requires
        keys_unique(s),
    ensures
        keys_unique(insert_entry(s, k, v)),
        lookup(insert_entry(s, k, v), k) == Some(v),
{
    lemma_key_index(s, k, 0);
    let t = insert_entry(s, k, v);
    lemma_key_index(t, k, 0);
    match key_index(s, k, 0) {
        Some(i) => {
            assert(t[i].0 == k);
            assert forall|m: int| 0 <= m < i implies t[m].0 != k by {
                assert(t[m] == s[m]);
            }
        },
        None => {
            assert(t[s.len() as int].0 == k);
            assert forall|m: int| 0 <= m < s.len() implies t[m].0 != k by {
                assert(t[m] == s[m]);
            }
        },
    }
}

impl ValueMap {
    /// An empty map.
    pub fn new() -> (r: ValueMap)
        ensures
            r@ == Seq::<(Seq<char>, ValueV)>::empty(),
    {
        ValueMap { entries: Vec::new() }
    }

    /// The number of entries.
    pub fn len(&self) -> (r: usize)
        ensures
            r == self@.len(),
    {
        proof {
            lemma_entries_view(self.entries@);
        }
        self.entries.len()
    }

    /// The name and value of the `i`-th entry.
    pub fn entry(&self, i: usize) -> (r: (&String, &Value))
        requires
            i < self@.len(),
        ensures
            (r.0@, r.1@) == self@[i as int],
    {
        proof {
            lemma_entries_view(self.entries@);
        }
        let e = &self.entries[i];
        (&e.0, &e.1)
    }

    /// The index of the first entry named `key`, if any.
    pub fn index_of(&self, key: &String) -> (r: Option<usize>)
        ensures
            r matches Some(i) ==> key_index(self@, key@, 0) == Some(i as int),
            r is None ==> key_index(self@, key@, 0) is None,
            r matches Some(i) ==> i < self@.len(),
    {
        proof {
            lemma_entries_view(self.entries@);
            lemma_key_index(self@, key@, 0);
        }
        let mut i: usize = 0;
        while i < self.entries.len()
            invariant
                i <= self.entries@.len(),
                self@ == entries_view(self.entries@),
                entries_view(self.entries@).len() == self.entries@.len(),
                forall|j: int|
                    0 <= j < self.entries@.len() ==> #[trigger] entries_view(self.entries@)[j] == (
                    self.entries@[j].0@,
                    value_view(self.entries@[j].1),
                ),
                key_index(self@, key@, 0) == key_index(self@, key@, i as int),
            decreases self.entries@.len() - i,
        {
            if string_eq(&self.entries[i].0, key) {
                return Some(i);
            }
            i += 1;
        }
        None
    }

    /// The value of the first entry named `key`.
    pub fn get(&self, key: &String) -> (r: Option<&Value>)
        ensures
            match r {
                Some(v) => lookup(self@, key@) == Some(v@),
                None => lookup(self@, key@) is None,
            },
    {
        proof {
            lemma_entries_view(self.entries@);
        }
        match self.index_of(key) {
            Some(i) => Some(&self.entries[i].1),
            None => None,
        }
    }

    /// Binds `key` to `v`, replacing the first entry named `key`.
    pub fn insert(&mut self, key: String, v: Value)
        ensures
            final(self)@ == insert_entry(old(self)@, key@, v@),
    {
        proof {
            lemma_entries_view(self.entries@);
        }
        let ghost old_view = self@;
        let idx = self.index_of(&key);
        match idx {
            Some(i) => {
                let ghost kv = key@;
                let ghost vv = v@;
                self.entries.set(i, (key, v));
                proof {
                    lemma_entries_view(self.entries@);
                    assert(entries_view(self.entries@) =~= old_view.update(i as int, (kv, vv)));
                }
            },
            None => {
                let ghost e = (key, v);
                self.entries.push((key, v));
                proof {
                    lemma_entries_view_push(old(self).entries@, e);
                }
            },
        }
    }

    /// A copy of the map.
    pub fn clone_map(&self) -> (r: ValueMap)
        ensures
            r@ == self@,
        decreases self, 0nat,
    {
        let entries = clone_entries(&self.entries);
        ValueMap { entries }
    }
}

/// A copy of a list of named values.
pub fn clone_entries(s: &Vec<(String, Value)>) -> (r: Vec<(String, Value)>)
    ensures
        entries_view(r@) == entries_view(s@),
    decreases s, 1nat,
{
    let mut out: Vec<(String, Value)> = Vec::new();
    let mut i: usize = 0;
    while i < s.len()
        invariant
            i <= s.len(),
            entries_view(out@) == entries_view(s@.take(i as int)),
        decreases s.len() - i,
    {
        proof {
            broadcast use vstd::std_specs::vec::axiom_vec_decreases_to_view;

            assert(decreases_to!(*s => s@));
            assert(decreases_to!(s@ => s@[i as int]));
            assert(decreases_to!(s@[i as int] => s@[i as int].1));
        }
        let k = s[i].0.clone();
        let v = clone_value(&s[i].1);
        let ghost old_out = out@;
        out.push((k, v));
        proof {
            lemma_entries_view_push(old_out, (k, v));
            assert(s@.take(i + 1).drop_last() =~= s@.take(i as int));
        }
        i += 1;
    }
    assert(s@.take(s.len() as int) =~= s@);
    out
}

/// A copy of a list of values.
pub fn clone_values(s: &Vec<Value>) -> (r: Vec<Value>)
    ensures
        values_view(r@) == values_view(s@),
    decreases s, 1nat,
{
    let mut out: Vec<Value> = Vec::new();
    let mut i: usize = 0;
    while i < s.len()
        invariant
            i <= s.len(),
            values_view(out@) == values_view(s@.take(i as int)),
        decreases s.len() - i,
    {
        proof {
            broadcast use vstd::std_specs::vec::axiom_vec_decreases_to_view;

            assert(decreases_to!(*s => s@));
            assert(decreases_to!(s@ => s@[i as int]));
        }
        let v = clone_value(&s[i]);
        let ghost old_out = out@;
        out.push(v);
        proof {
            lemma_values_view_push(old_out, v);
            assert(s@.take(i + 1).drop_last() =~= s@.take(i as int));
        }
        i += 1;
    }
    assert(s@.take(s.len() as int) =~= s@);
    out
}

/// A copy of a value.
pub fn clone_value(v: &Value) -> (r: Value)
    ensures
        r@ == v@,
        v matches Value::Closure(c) ==> (r matches Value::Closure(d) && crate::parse::exprs_model(d.code@)
            == crate::parse::exprs_model(c.code@)),
    decreases v, 2nat,
{
    match v {
        Value::Char(c) => Value::Char(*c),
        Value::Str(s) => Value::Str(s.clone()),
        Value::Num(n) => Value::Num(*n),
        Value::Bool(b) => Value::Bool(*b),
        Value::Array(a) => Value::Array(clone_values(a)),
        Value::Mapping(m) => Value::Mapping(m.clone_map()),
        Value::Result(r) => match &**r {
            Ok(x) => Value::Result(Box::new(Ok(clone_value(x)))),
            Err(x) => Value::Result(Box::new(Err(clone_value(x)))),
        },
        Value::Option(o) => match o {
            Some(x) => Value::Option(Some(Box::new(clone_value(x)))),
            None => Value::Option(None),
        },
        Value::Closure(c) => Value::Closure(Box::new(clone_closure(c))),
    }
}

/// A copy of a closure.
pub fn clone_closure(c: &Closure) -> (r: Closure)
    ensures
        r@ == c@,
        crate::parse::exprs_model(r.code@) == crate::parse::exprs_model(c.code@),
    decreases c, 2nat,
{
    let next = clone_argdefs(&c.request_args.next);
    let filled = clone_entries(&c.request_args.filled);
    let parent = match &c.request_args.parent {
        Some(m) => Some(m.clone_map()),
        None => None,
    };
    let output_types = match &c.output_types {
        Some(o) => Some(o.clone_outputs()),
        None => None,
    };
    let r = Closure {
        code: clone_exprs(&c.code),
        request_args: ClosurePartialArgs { next, filled, parent },
        output_types,
    };
    proof {
        assert(r@.next == c@.next);
    }
    r
}

impl Clone for Value {
    fn clone(&self) -> (r: Self)
        ensures
            r@ == self@,
    {
        clone_value(self)
    }
}

impl Clone for ValueMap {
    fn clone(&self) -> (r: Self)
        ensures
            r@ == self@,
    {
        self.clone_map()
    }
}

impl Clone for Closure {
    fn clone(&self) -> (r: Self)
        ensures
            r@ == self@,
    {
        clone_closure(self)
    }
}

impl Clone for FnArg {
    fn clone(&self) -> (r: Self)
        ensures
            r.0@ == self.0@,
    {
        FnArg(clone_value(&self.0))
    }
}

impl Clone for FnArgDef {
    fn clone(&self) -> (r: Self)
        ensures
            r@ == self@,
    {
        clone_argdef(self)
    }
}

impl Clone for TypedOutputs {
    fn clone(&self) -> (r: Self)
        ensures
            r@ == self@,
    {
        self.clone_outputs()
    }
}

impl Clone for ClosurePartialArgs {
    fn clone(&self) -> (r: Self)
        ensures
            argdefs_view(r.next@) == argdefs_view(self.next@),
            entries_view(r.filled@) == entries_view(self.filled@),
            r.parent.is_some() == self.parent.is_some(),
            r.parent.is_some() ==> r.parent->0@ == self.parent->0@,
    {
        ClosurePartialArgs {
            next: clone_argdefs(&self.next),
            filled: clone_entries(&self.filled),
            parent: match &self.parent {
                Some(m) => Some(m.clone_map()),
                None => None,
            },
        }
    }
}

/// A copy of an argument declaration.
pub fn clone_argdef(a: &FnArgDef) -> (r: FnArgDef)
    ensures
        r@ == a@,
{
    FnArgDef {
        name: a.name.clone(),
        type_check: match &a.type_check {
            Some(t) => Some(clone_tt(t)),
            None => None,
        },
    }
}

/// A copy of a list of argument declarations.
pub fn clone_argdefs(s: &Vec<FnArgDef>) -> (r: Vec<FnArgDef>)
    ensures
        argdefs_view(r@) == argdefs_view(s@),
{
    let mut out: Vec<FnArgDef> = Vec::new();
    let mut i: usize = 0;
    while i < s.len()
        invariant
            i <= s.len(),
            out@.len() == i,
            forall|j: int| 0 <= j < i ==> #[trigger] argdef_view(out@[j]) == argdef_view(s@[j]),
        decreases s.len() - i,
    {
        let a = clone_argdef(&s[i]);
        out.push(a);
        i += 1;
    }
    assert(argdefs_view(out@) =~= argdefs_view(s@));
    out
}

impl Clone for FnArgs {
    fn clone(&self) -> (r: Self)
        ensures
            match (r, *self) {
                (FnArgs::Args(a), FnArgs::Args(b)) => argdefs_view(a@) == argdefs_view(b@),
                (FnArgs::AllStack, FnArgs::AllStack) => true,
                _ => false,
            },
    {
        match self {
            FnArgs::Args(a) => FnArgs::Args(clone_argdefs(a)),
            FnArgs::AllStack => FnArgs::AllStack,
        }
    }
}

impl TypedOutputs {
    /// The output types declared by a list of argument declarations.
    pub fn new(v: Vec<FnArgDef>) -> (r: TypedOutputs)
        ensures
            r@ == crate::check::arg_types(argdefs_view(v@)),
    {
        let mut outputs: Vec<Option<TypeTester>> = Vec::new();
        let mut i: usize = 0;
        while i < v.len()
            invariant
                i <= v.len(),
                outputs@.len() == i,
                forall|j: int| 0 <= j < i ==> #[trigger] opt_tt_view(outputs@[j]) == opt_tt_view(v@[j].type_check),
            decreases v.len() - i,
        {
            let t = match &v[i].type_check {
                Some(t) => Some(clone_tt(t)),
                None => None,
            };
            outputs.push(t);
            i += 1;
        }
        assert(outputs_view(outputs@) =~= crate::check::arg_types(argdefs_view(v@)));
        TypedOutputs { outputs }
    }

    /// The number of declared outputs.
    pub fn len(&self) -> (r: usize)
        ensures
            r == self@.len(),
    {
        self.outputs.len()
    }

    /// A copy of the declared outputs.
    pub fn clone_outputs(&self) -> (r: TypedOutputs)
        ensures
            r@ == self@,
    {
        let mut outputs: Vec<Option<TypeTester>> = Vec::new();
        let mut i: usize = 0;
        while i < self.outputs.len()
            invariant
                i <= self.outputs.len(),
                outputs@.len() == i,
                forall|j: int| 0 <= j < i ==> #[trigger] opt_tt_view(outputs@[j]) == opt_tt_view(self.outputs@[j]),
            decreases self.outputs.len() - i,
        {
            let t = match &self.outputs[i] {
                Some(t) => Some(clone_tt(t)),
                None => None,
            };
            outputs.push(t);
            i += 1;
        }
        assert(outputs_view(outputs@) =~= outputs_view(self.outputs@));
        TypedOutputs { outputs }
    }
}


// ---------------------------------------------------------------------------
// Argument declarations

impl FnArgDef {
    /// An argument without a type.
    pub fn new_untyped(name: String) -> (r: FnArgDef)
        ensures
            r.name == name,
            r.type_check is None,
    {
        FnArgDef { name, type_check: None }
    }

    /// An argument with a type.
    pub fn new_typed(name: String, type_check: TypeTester) -> (r: FnArgDef)
        ensures
            r.name == name,
            r.type_check == Some(type_check),
    {
        FnArgDef { name, type_check: Some(type_check) }
    }

    /// An argument with an optional type.
    pub fn new(name: String, type_check: Option<TypeTester>) -> (r: FnArgDef)
        ensures
            r.name == name,
            r.type_check == type_check,
    {
        FnArgDef { name, type_check }
    }

    /// The argument's name.
    pub fn get_name(&self) -> (r: &String)
        ensures
            r == self.name,
    {
        &self.name
    }

    /// The argument's type, if declared.
    pub fn get_type(&self) -> (r: Option<&TypeTester>)
        ensures
            match r {
                Some(t) => self.type_check == Some(*t),
                None => self.type_check is None,
            },
    {
        match &self.type_check {
            Some(t) => Some(t),
            None => None,
        }
    }

    /// The argument's type, consuming the declaration.
    pub fn take_type(self) -> (r: Option<TypeTester>)
        ensures
            r == self.type_check,
    {
        self.type_check
    }

    /// The argument's name, consuming the declaration.
    pub fn take_name(self) -> (r: String)
        ensures
            r == self.name,
    {
        self.name
    }
}

impl FnArgs {
    /// The declared arguments; none when the function takes the whole stack.
    pub fn into_vec(self) -> (r: Vec<FnArgDef>)
        ensures
            match self {
                FnArgs::Args(xs) => r == xs,
                FnArgs::AllStack => r@.len() == 0,
            },
    {
        match self {
            FnArgs::AllStack => Vec::new(),
            FnArgs::Args(xs) => xs,
        }
    }

    /// The names of the declared arguments.
    pub fn into_needs(self) -> (r: Vec<String>)
        ensures
            match self {
                FnArgs::Args(xs) => r@.len() == xs@.len() && forall|i: int|
                    0 <= i < xs@.len() ==> #[trigger] r@[i] == xs@[i].name,
                FnArgs::AllStack => r@.len() == 0,
            },
    {
        match self {
            FnArgs::AllStack => Vec::new(),
            FnArgs::Args(xs) => {
                let mut out: Vec<String> = Vec::new();
                let ghost orig = xs@;
                let mut xs = reverse_vec(xs);
                while xs.len() > 0
                    invariant
                        out@.len() + xs@.len() == orig.len(),
                        forall|k: int| 0 <= k < xs@.len() ==> xs@[k] == orig[orig.len() - 1 - k],
                        forall|k: int| 0 <= k < out@.len() ==> #[trigger] out@[k] == orig[k].name,
                    decreases xs@.len(),
                {
                    let a = xs.pop().unwrap();
                    out.push(a.name);
                }
                out
            },
        }
    }
}


/// The elements of `v` in reverse order.
pub fn reverse_vec<T>(v: Vec<T>) -> (r: Vec<T>)
    ensures
        r@ == v@.reverse(),
{
    let ghost orig = v@;
    let mut v = v;
    let mut out: Vec<T> = Vec::new();
    while v.len() > 0
        invariant
            v@ == orig.take(v@.len() as int),
            v@.len() <= orig.len(),
            out@ == orig.skip(v@.len() as int).reverse(),
        decreases v@.len(),
    {
        let ghost n = v@.len();
        let x = v.pop().unwrap();
        out.push(x);
        proof {
            assert(v@ =~= orig.take(n - 1));
            assert(out@ =~= orig.skip(n - 1).reverse());
        }
    }
    assert(orig.skip(0) =~= orig);
    out
}

// ---------------------------------------------------------------------------
// Closures

/// Why an argument could not be filled.
pub enum ClosureFillError {
    OutOfBound,
    TypeError(TypeTester, Value),
}

impl ClosurePartialArgs {
    /// The arguments still to be filled; the next one is last.
    pub fn get_unfilled_args(&self) -> (r: &[FnArgDef])
        ensures
            r@ == self.next@,
    {
        self.next.as_slice()
    }

    /// The arguments still to be filled, consuming the list.
    pub fn take_unfilled_args(self) -> (r: Vec<FnArgDef>)
        ensures
            r == self.next,
    {
        self.next
    }

    /// How many arguments are still to be filled.
    pub fn get_unfilled_args_count(&self) -> (r: usize)
        ensures
            r == self.next@.len(),
    {
        self.next.len()
    }

    /// Records the arguments of the function the closure was made in; this
    /// can be done once: a second call hands the given arguments back.
    pub fn set_parent(&mut self, args: ValueMap) -> (r: Result<(), ValueMap>)
        ensures
            old(self).parent is None ==> r is Ok && final(self).parent == Some(args),
            old(self).parent is Some ==> r == Err::<(), ValueMap>(args) && *final(self) == *old(self),
            final(self).next == old(self).next,
            final(self).filled == old(self).filled,
    {
        if self.parent.is_some() {
            Err(args)
        } else {
            self.parent = Some(args);
            Ok(())
        }
    }

    /// Argument lists keep the next argument to fill last.
    pub fn new(arg_list: Vec<FnArgDef>) -> (r: ClosurePartialArgs)
        ensures
            r.next@ == arg_list@.reverse(),
            r.filled@.len() == 0,
            r.parent is None,
    {
        ClosurePartialArgs { filled: Vec::new(), next: reverse_vec(arg_list), parent: None }
    }

    /// The arguments of a closure written in a script; a closure needs at
    /// least one argument.
    pub fn parse(arg_list: Vec<FnArgDef>, span: LineRange) -> (r: Result<ClosurePartialArgs, StckError>)
        ensures
            arg_list@.len() == 0 <==> r is Err,
            r matches Err(e) ==> e == (StckError::CantInstanceClosureZeroArgs { span }),
            r matches Ok(a) ==> a.next@ == arg_list@.reverse() && a.filled@.len() == 0
                && a.parent is None,
    {
        if arg_list.len() == 0 {
            Err(StckError::CantInstanceClosureZeroArgs { span })
        } else {
            Ok(Self::new(arg_list))
        }
    }

    /// The arguments of a closure made from a function; a closure needs at
    /// least one argument.
    pub fn convert(arg_list: Vec<FnArgDef>, fn_name: &String) -> (r: Result<ClosurePartialArgs, RuntimeErrorKind>)
        ensures
            arg_list@.len() == 0 <==> r is Err,
            r matches Err(e) ==> e is CantMakeFnIntoClosureZeroArgs && e->CantMakeFnIntoClosureZeroArgs_fn_name@ == fn_name@,
            r matches Ok(a) ==> a.next@ == arg_list@.reverse() && a.filled@.len() == 0
                && a.parent is None,
    {
        if arg_list.len() == 0 {
            Err(RuntimeErrorKind::CantMakeFnIntoClosureZeroArgs { fn_name: fn_name.clone() })
        } else {
            Ok(Self::new(arg_list))
        }
    }

    /// Whether every argument is filled.
    pub fn is_full(&self) -> (r: bool)
        ensures
            r == (self.next@.len() == 0),
    {
        self.next.len() == 0
    }
}

/// The bindings `base` with the entries `es` inserted in order.
pub open spec fn insert_all(base: Seq<(Seq<char>, ValueV)>, es: Seq<(Seq<char>, ValueV)>) -> Seq<(Seq<char>, ValueV)>
    decreases es.len(),
{
    if es.len() == 0 {
        base
    } else {
        insert_entry(insert_all(base, es.drop_last()), es.last().0, es.last().1)
    }
}

/// The arguments a closure runs with: those of the function it was made in,
/// if any, with its own arguments bound over them.
pub open spec fn closure_bindings(c: ClosureV) -> Seq<(Seq<char>, ValueV)> {
    insert_all(
        match c.parent {
            Some(p) => p,
            None => Seq::empty(),
        },
        c.filled,
    )
}

impl Closure {
    /// Sets the arguments of the function the closure was made in, unless
    /// they are set already; then they are given back.
    pub fn set_parent_args(&mut self, args: ValueMap) -> (r: Result<(), ValueMap>)
        ensures
            old(self).request_args.parent is None ==> r is Ok && final(self).request_args.parent == Some(args),
            old(self).request_args.parent is Some ==> r == Err::<(), ValueMap>(args) && *final(self) == *old(self),
            final(self).code == old(self).code,
            final(self).output_types == old(self).output_types,
            final(self).request_args.next == old(self).request_args.next,
            final(self).request_args.filled == old(self).request_args.filled,
    {
        self.request_args.set_parent(args)
    }

    /// Fills the next argument of the closure with a value: the value must
    /// have the argument's declared type. When it was the last argument, the
    /// closure is ready to run with its arguments bound (over those of the
    /// function it was made in).
    pub fn fill(self, value: Value) -> (r: Result<ClosureCurry, RuntimeErrorKind>)
        ensures
            self.request_args.next@.len() == 0 ==> (r matches Err(e) && e is DEVFillFullClosure),
            self.request_args.next@.len() > 0 ==> ({
                let d = self.request_args.next@.last();
                if d.type_check is Some && crate::check::tt_check(d.type_check->0@, value@) is Some {
                    r matches Err(RuntimeErrorKind::Type(t, v)) && crate::check::tt_check(
                        d.type_check->0@,
                        value@,
                    ) == Some(t@) && v@ == value@
                } else if self.request_args.next@.len() == 1 {
                    r matches Ok(ClosureCurry::Full(fc)) && fc.request_args@ == closure_bindings(
                        ClosureV {
                            filled: entries_view(self.request_args.filled@).push((d.name@, value@)),
                            ..self@
                        },
                    ) && fc.code == self.code && fc.output_types == self.output_types
                } else {
                    r matches Ok(ClosureCurry::Partial(c)) && c.request_args.next@
                        == self.request_args.next@.drop_last() && entries_view(c.request_args.filled@)
                        == entries_view(self.request_args.filled@).push((d.name@, value@))
                        && c.request_args.parent == self.request_args.parent && c.code == self.code
                        && c.output_types == self.output_types
                }
            }),
    {
        let mut s = self;
        let next = match s.request_args.next.pop() {
            None => {
                return Err(RuntimeErrorKind::DEVFillFullClosure { closure_args: s.request_args });
            },
            Some(n) => n,
        };
        match &next.type_check {
            Some(tt) => match tt.check(&value) {
                Err(t) => {
                    return Err(RuntimeErrorKind::Type(t, Box::new(value)));
                },
                Ok(()) => {},
            },
            None => {},
        }
        let ghost e = (next.name, value);
        proof {
            lemma_entries_view_push(s.request_args.filled@, e);
        }
        s.request_args.filled.push((next.name, value));
        if s.request_args.next.len() == 0 {
            let mut args = match &s.request_args.parent {
                Some(p) => p.clone_map(),
                None => ValueMap::new(),
            };
            let ghost base = args@;
            let ghost fv = entries_view(s.request_args.filled@);
            proof {
                lemma_entries_view(s.request_args.filled@);
            }
            let mut i: usize = 0;
            while i < s.request_args.filled.len()
                invariant
                    i <= s.request_args.filled@.len(),
                    fv == entries_view(s.request_args.filled@),
                    fv.len() == s.request_args.filled@.len(),
                    forall|k: int| 0 <= k < fv.len() ==> #[trigger] fv[k] == (s.request_args.filled@[k].0@, value_view(s.request_args.filled@[k].1)),
                    args@ == insert_all(base, fv.take(i as int)),
                decreases s.request_args.filled@.len() - i,
            {
                let k = s.request_args.filled[i].0.clone();
                let v = clone_value(&s.request_args.filled[i].1);
                args.insert(k, v);
                proof {
                    assert(fv.take(i + 1).drop_last() =~= fv.take(i as int));
                }
                i += 1;
            }
            assert(fv.take(fv.len() as int) =~= fv);
            Ok(ClosureCurry::Full(FullClosure { code: s.code, request_args: args, output_types: s.output_types }))
        } else {
            Ok(ClosureCurry::Partial(s))
        }
    }
}

// ---------------------------------------------------------------------------
// Functions, scopes and control flow

/// How a function sees the variables of its caller.
#[derive(Clone, Copy, Debug, PartialEq, Eq, Structural)]
pub enum FnScope {
    /// reads and writes the caller's variables
    Global,
    /// reads the caller's variables
    Local,
    /// sees no variable of the caller
    Isolated,
}

/// A user-defined function.
#[derive(Debug)]
pub struct FnDef {
    pub scope: FnScope,
    pub code: Vec<Expr>,
    pub args: FnArgs,
    pub output_types: Option<TypedOutputs>,
}

impl FnDef {
    pub fn new(scope: FnScope, code: Vec<Expr>, args: FnArgs, output_types: Option<TypedOutputs>) -> (r: FnDef)
        ensures
            r.scope == scope,
            r.code == code,
            r.args == args,
            r.output_types == output_types,
    {
        FnDef { scope, code, args, output_types }
    }

    /// A closure that runs the function's code; the function must take a
    /// non-empty argument list.
    pub fn into_closure(self, name: &String) -> (r: Result<Closure, RuntimeErrorKind>)
        ensures
            match self.args {
                FnArgs::AllStack => r matches Err(e) && e is CantMakeFnIntoClosureAllStack
                    && e->CantMakeFnIntoClosureAllStack_fn_name@ == name@,
                FnArgs::Args(a) => if a@.len() == 0 {
                    r matches Err(e) && e is CantMakeFnIntoClosureZeroArgs
                        && e->CantMakeFnIntoClosureZeroArgs_fn_name@ == name@
                } else {
                    r matches Ok(c) && c.code == self.code && c.request_args.next@ == a@.reverse()
                        && c.request_args.filled@.len() == 0 && c.request_args.parent is None
                        && c.output_types == self.output_types
                },
            },
    {
        let args = match self.args {
            FnArgs::AllStack => {
                return Err(RuntimeErrorKind::CantMakeFnIntoClosureAllStack { fn_name: name.clone() });
            },
            FnArgs::Args(a) => a,
        };
        let request_args = ClosurePartialArgs::convert(args, name)?;
        Ok(Closure { code: self.code, request_args, output_types: self.output_types })
    }
}

/// What a piece of code asks its caller to do when it ends.
#[derive(Clone, Copy, Debug, PartialEq, Eq, Structural)]
pub enum ControlFlow {
    Continue,
    Break,
    Return,
}

// ---------------------------------------------------------------------------
// Expressions

/// A checked branch of an `(ifs)`.
#[derive(Debug, PartialEq)]
pub struct CondBranch {
    pub check: Vec<Expr>,
    pub code: Vec<Expr>,
}

/// A case of a `(switch)`.
#[derive(Debug, PartialEq)]
pub struct SwitchCase {
    pub test: Value,
    pub code: Vec<Expr>,
}

/// The keywords of the language, parsed.
#[derive(Debug, PartialEq)]
pub enum KeywordKind {
    IntoClosure { fn_name: FnName },
    Break,
    Return,
    BubbleError,
    Ifs { branches: Vec<CondBranch> },
    While { check: Vec<Expr>, code: Vec<Expr> },
    FnDef {
        name: FnName,
        scope: FnScope,
        code: Vec<Expr>,
        args: FnArgs,
        out_args: Option<Vec<FnArgDef>>,
    },
    Switch { cases: Vec<SwitchCase>, default: Option<Vec<Expr>> },
    DefinedGeneric(DefinedGenericBuilder),
}

/// An expression and the lines it spans.
#[derive(Debug, PartialEq)]
pub struct Expr {
    pub span: LineRange,
    pub cont: ExprCont,
}

/// What an expression does.
#[derive(Debug, PartialEq)]
pub enum ExprCont {
    Immediate(Value),
    FnCall(FnName),
    Keyword(KeywordKind),
    IncludedCode(Code),
}

/// Parsed code and the name of its source.
#[derive(Debug, PartialEq)]
pub struct Code {
    pub source: String,
    pub exprs: Vec<Expr>,
}

impl Code {
    pub fn new(source: String, exprs: Vec<Expr>) -> (r: Code)
        ensures
            r.source == source,
            r.exprs == exprs,
    {
        Code { source, exprs }
    }

    /// The number of top-level expressions.
    pub fn expr_count(&self) -> (r: usize)
        ensures
            r == self.exprs@.len(),
    {
        self.exprs.len()
    }

    /// The top-level expressions.
    pub fn iter(&self) -> (r: &[Expr])
        ensures
            r@ == self.exprs@,
    {
        self.exprs.as_slice()
    }
}

/// A copy of a list of expressions.
pub fn clone_exprs(code: &Vec<Expr>) -> (r: Vec<Expr>)
    ensures
        r@.len() == code@.len(),
        forall|i: int| 0 <= i < code@.len() ==> #[trigger] r@[i].span == code@[i].span,
        crate::parse::exprs_model(r@) == crate::parse::exprs_model(code@),
    decreases code, 1nat,
{
    let mut out: Vec<Expr> = Vec::new();
    let mut i: usize = 0;
    assert(code@.take(0) =~= Seq::<Expr>::empty());
    while i < code.len()
        invariant
            i <= code@.len(),
            out@.len() == i,
            forall|j: int| 0 <= j < i ==> #[trigger] out@[j].span == code@[j].span,
            crate::parse::exprs_model(out@) == crate::parse::exprs_model(code@.take(i as int)),
        decreases code@.len() - i,
    {
        proof {
            broadcast use vstd::std_specs::vec::axiom_vec_decreases_to_view;

            assert(decreases_to!(*code => code@));
            assert(decreases_to!(code@ => code@[i as int]));
        }
        let e = clone_expr(&code[i]);
        let ghost before = out@;
        out.push(e);
        proof {
            assert(out@.drop_last() =~= before);
            assert(code@.take(i + 1).drop_last() =~= code@.take(i as int));
            assert(code@.take(i + 1).last() == code@[i as int]);
        }
        i += 1;
    }
    assert(code@.take(code@.len() as int) =~= code@);
    out
}

/// A copy of an expression.
pub fn clone_expr(e: &Expr) -> (r: Expr)
    ensures
        r.span == e.span,
        crate::parse::expr_model(r) == crate::parse::expr_model(*e),
    decreases e, 3nat,
{
    let cont = match &e.cont {
        ExprCont::Immediate(v) => ExprCont::Immediate(clone_value(v)),
        ExprCont::FnCall(n) => ExprCont::FnCall(n.clone()),
        ExprCont::Keyword(k) => ExprCont::Keyword(clone_keyword(k)),
        ExprCont::IncludedCode(c) => ExprCont::IncludedCode(
            Code { source: c.source.clone(), exprs: clone_exprs(&c.exprs) },
        ),
    };
    Expr { span: e.span, cont }
}

/// A copy of an optional list of expressions.
fn clone_opt_exprs(code: &Option<Vec<Expr>>) -> (r: Option<Vec<Expr>>)
    ensures
        r is Some <==> code is Some,
        r matches Some(a) ==> crate::parse::exprs_model(a@) == crate::parse::exprs_model(code->0@),
    decreases code, 2nat,
{
    match code {
        Some(c) => Some(clone_exprs(c)),
        None => None,
    }
}

/// A copy of a parsed keyword.
pub fn clone_keyword(k: &KeywordKind) -> (r: KeywordKind)
    ensures
        crate::parse::kw_model(r) == crate::parse::kw_model(*k),
    decreases k, 3nat,
{
    match k {
        KeywordKind::IntoClosure { fn_name } => {
            let r = KeywordKind::IntoClosure { fn_name: fn_name.clone() };
            assert(crate::parse::kw_model(r) == crate::parse::kw_model(*k));
            r
        },
        KeywordKind::Break => KeywordKind::Break,
        KeywordKind::Return => KeywordKind::Return,
        KeywordKind::BubbleError => KeywordKind::BubbleError,
        KeywordKind::Ifs { branches } => {
            let mut out: Vec<CondBranch> = Vec::new();
            let mut i: usize = 0;
            assert(branches@.take(0) =~= Seq::<CondBranch>::empty());
            while i < branches.len()
                invariant
                    i <= branches@.len(),
                    *k == (KeywordKind::Ifs { branches: *branches }),
                    crate::parse::branches_model(out@) == crate::parse::branches_model(branches@.take(i as int)),
                decreases branches@.len() - i,
            {
                proof {
                    broadcast use vstd::std_specs::vec::axiom_vec_decreases_to_view;

                    assert(decreases_to!(*k => (*k)->branches));
                    assert(decreases_to!(*branches => branches@));
                    assert(decreases_to!(branches@ => branches@[i as int]));
                    assert(decreases_to!(branches@[i as int] => branches@[i as int].check));
                    assert(decreases_to!(branches@[i as int] => branches@[i as int].code));
                }
                let b = &branches[i];
                let ghost before = out@;
                out.push(CondBranch { check: clone_exprs(&b.check), code: clone_exprs(&b.code) });
                proof {
                    assert(out@.drop_last() =~= before);
                    assert(branches@.take(i + 1).drop_last() =~= branches@.take(i as int));
                    assert(branches@.take(i + 1).last() == branches@[i as int]);
                }
                i += 1;
            }
            assert(branches@.take(branches@.len() as int) =~= branches@);
            let r = KeywordKind::Ifs { branches: out };
            assert(crate::parse::kw_model(r) == crate::parse::kw_model(*k));
            r
        },
        KeywordKind::While { check, code } => {
            let r = KeywordKind::While { check: clone_exprs(check), code: clone_exprs(code) };
            assert(crate::parse::kw_model(r) == crate::parse::kw_model(*k));
            r
        },
        KeywordKind::FnDef { name, scope, code, args, out_args } => {
            let r = KeywordKind::FnDef {
                name: name.clone(),
                scope: *scope,
                code: clone_exprs(code),
                args: args.clone(),
                out_args: match out_args {
                    Some(o) => Some(clone_argdefs(o)),
                    None => None,
                },
            };
            assert(crate::parse::kw_model(r) == crate::parse::kw_model(*k));
            r
        },
        KeywordKind::Switch { cases, default } => {
            let mut out: Vec<SwitchCase> = Vec::new();
            let mut i: usize = 0;
            assert(cases@.take(0) =~= Seq::<SwitchCase>::empty());
            while i < cases.len()
                invariant
                    i <= cases@.len(),
                    *k == (KeywordKind::Switch { cases: *cases, default: *default }),
                    crate::parse::cases_model(out@) == crate::parse::cases_model(cases@.take(i as int)),
                decreases cases@.len() - i,
            {
                proof {
                    broadcast use vstd::std_specs::vec::axiom_vec_decreases_to_view;

                    assert(decreases_to!(*k => (*k)->cases));
                    assert(decreases_to!(*cases => cases@));
                    assert(decreases_to!(cases@ => cases@[i as int]));
                    assert(decreases_to!(cases@[i as int] => cases@[i as int].test));
                    assert(decreases_to!(cases@[i as int] => cases@[i as int].code));
                }
                let c = &cases[i];
                let ghost before = out@;
                out.push(SwitchCase { test: clone_value(&c.test), code: clone_exprs(&c.code) });
                proof {
                    assert(out@.drop_last() =~= before);
                    assert(cases@.take(i + 1).drop_last() =~= cases@.take(i as int));
                    assert(cases@.take(i + 1).last() == cases@[i as int]);
                }
                i += 1;
            }
            assert(cases@.take(cases@.len() as int) =~= cases@);
            let r = KeywordKind::Switch { cases: out, default: clone_opt_exprs(default) };
            assert(crate::parse::kw_model(r) == crate::parse::kw_model(*k));
            r
        },
        KeywordKind::DefinedGeneric(g) => {
            let r = KeywordKind::DefinedGeneric(g.clone());
            assert(crate::parse::kw_model(r) == crate::parse::kw_model(*k));
            r
        },
    }
}

impl Clone for Expr {
    fn clone(&self) -> (r: Self)
        ensures
            r.span == self.span,
            crate::parse::expr_model(r) == crate::parse::expr_model(*self),
    {
        clone_expr(self)
    }
}

impl Clone for KeywordKind {
    fn clone(&self) -> (r: Self)
        ensures
            crate::parse::kw_model(r) == crate::parse::kw_model(*self),
    {
        clone_keyword(self)
    }
}

impl Clone for Code {
    fn clone(&self) -> (r: Self)
        ensures
            r.source == self.source,
            r.exprs@.len() == self.exprs@.len(),
            crate::parse::exprs_model(r.exprs@) == crate::parse::exprs_model(self.exprs@),
    {
        Code { source: self.source.clone(), exprs: clone_exprs(&self.exprs) }
    }
}

impl Clone for FnDef {
    fn clone(&self) -> (r: Self)
        ensures
            r.scope == self.scope,
            r.code@.len() == self.code@.len(),
            crate::parse::exprs_model(r.code@) == crate::parse::exprs_model(self.code@),
            match (r.output_types, self.output_types) {
                (Some(a), Some(b)) => a@ == b@,
                (None, None) => true,
                _ => false,
            },
            match (r.args, self.args) {
                (FnArgs::Args(a), FnArgs::Args(b)) => argdefs_view(a@) == argdefs_view(b@),
                (FnArgs::AllStack, FnArgs::AllStack) => true,
                _ => false,
            },
    {
        FnDef {
            scope: self.scope,
            code: clone_exprs(&self.code),
            args: self.args.clone(),
            output_types: match &self.output_types {
                Some(o) => Some(o.clone_outputs()),
                None => None,
            },
        }
    }
}

// ---------------------------------------------------------------------------
// Tokens

/// A keyword as the tokenizer reads it.
#[derive(Debug, PartialEq)]
pub enum RawKeyword {
    FnIntoClosure { fn_name: FnName },
    BubbleError,
    Return,
    Fn(FnScope),
    Ifs,
    While,
    Include { path: String },
    Pragma { command: String },
    Switch,
    Break,
    TRC(DefinedGenericBuilder),
}

/// A token and the lines it spans.
#[derive(Debug, PartialEq)]
pub struct Token {
    pub cont: TokenCont,
    pub span: LineRange,
}

/// What a token holds.
#[derive(Debug, PartialEq)]
pub enum TokenCont {
    Char(char),
    Ident(String),
    Str(String),
    Number(isize),
    Keyword(RawKeyword),
    FnArgs(Vec<FnArgDef>),
    Block(Vec<Token>),
    IncludedBlock(TokenBlock),
    EndOfBlock,
}

/// An array of tokens and the name of their source. The array ends with a
/// [`TokenCont::EndOfBlock`] token, which marks the end of the source text
/// or the `}` that closed a code block.
#[derive(Debug, PartialEq)]
pub struct TokenBlock {
    pub source: String,
    pub tokens: Vec<Token>,
}

pub open spec fn is_eob(t: Token) -> bool {
    t.cont is EndOfBlock
}

impl TokenBlock {
    /// Whether the last token is the end of the block.
    pub fn last_is_eof(&self) -> (r: bool)
        ensures
            r == (self.tokens@.len() > 0 && is_eob(self.tokens@.last())),
    {
        if self.tokens.len() == 0 {
            false
        } else {
            match self.tokens[self.tokens.len() - 1].cont {
                TokenCont::EndOfBlock => true,
                _ => false,
            }
        }
    }

    /// The number of tokens, not counting a final end of block.
    pub fn token_count(&self) -> (r: usize)
        ensures
            r == self.tokens@.len() - (if self.tokens@.len() > 0 && is_eob(self.tokens@.last()) {
                1int
            } else {
                0int
            }),
    {
        let e = self.last_is_eof();
        if e {
            self.tokens.len() - 1
        } else {
            self.tokens.len()
        }
    }

    /// The tokens.
    pub fn iter(&self) -> (r: &[Token])
        ensures
            r@ == self.tokens@,
    {
        self.tokens.as_slice()
    }

    /// The token at `index`, if any.
    pub fn get(&self, index: usize) -> (r: Option<&Token>)
        ensures
            index < self.tokens@.len() ==> r == Some(&self.tokens@[index as int]),
            index >= self.tokens@.len() ==> r is None,
    {
        if index < self.tokens.len() {
            Some(&self.tokens[index])
        } else {
            None
        }
    }
}

// ---------------------------------------------------------------------------
// Rust hooks

/// Rust code that a script can call by name. What it does to the context is
/// up to it: `effect` is what an implementor says its call does to the
/// context, given the name of the source that called it; one that says
/// nothing leaves it `true`.
pub trait RustHook {
    open spec fn effect(&self, source: Seq<char>, before: RuntimeFrame, after: RuntimeFrame) -> bool {
        true
    }

    fn call(&self, ctx: &mut RuntimeFrame, source: &String)
        ensures
            self.effect(source@, *old(ctx), *final(ctx)),
    ;
}

/// A named Rust hook.
pub struct RustStckFn {
    pub name: String,
    pub code: std::rc::Rc<dyn RustHook + 'static>,
}

impl RustStckFn {
    /// The name scripts call the hook by.
    pub fn get_name(&self) -> (r: &String)
        ensures
            r == self.name,
    {
        &self.name
    }

    /// Runs the hook on a context: it hands the context and the source to
    /// the hook's code, once, and does nothing else.
    pub fn call(&self, ctx: &mut RuntimeFrame, source: &String)
        ensures
            self.code.effect(source@, *old(ctx), *final(ctx)),
    {
        self.code.call(ctx, source);
    }
}

} // verus!

verus! {

/// A value holding `v`.
impl From<char> for Value {
    fn from(v: char) -> Value {
        Value::Char(v)
    }
}

impl vstd::std_specs::convert::FromSpecImpl<char> for Value {
    open spec fn obeys_from_spec() -> bool {
        true
    }

    open spec fn from_spec(v: char) -> Value {
        Value::Char(v)
    }
}

/// A value holding `v`.
impl From<String> for Value {
    fn from(v: String) -> Value {
        Value::Str(v)
    }
}

impl vstd::std_specs::convert::FromSpecImpl<String> for Value {
    open spec fn obeys_from_spec() -> bool {
        true
    }

    open spec fn from_spec(v: String) -> Value {
        Value::Str(v)
    }
}

/// A value holding `v`.
impl From<isize> for Value {
    fn from(v: isize) -> Value {
        Value::Num(v)
    }
}

impl vstd::std_specs::convert::FromSpecImpl<isize> for Value {
    open spec fn obeys_from_spec() -> bool {
        true
    }

    open spec fn from_spec(v: isize) -> Value {
        Value::Num(v)
    }
}

/// A value holding `v`.
impl From<bool> for Value {
    fn from(v: bool) -> Value {
        Value::Bool(v)
    }
}

impl vstd::std_specs::convert::FromSpecImpl<bool> for Value {
    open spec fn obeys_from_spec() -> bool {
        true
    }

    open spec fn from_spec(v: bool) -> Value {
        Value::Bool(v)
    }
}

/// A value holding `v`.
impl From<Vec<Value>> for Value {
    fn from(v: Vec<Value>) -> Value {
        Value::Array(v)
    }
}

impl vstd::std_specs::convert::FromSpecImpl<Vec<Value>> for Value {
    open spec fn obeys_from_spec() -> bool {
        true
    }

    open spec fn from_spec(v: Vec<Value>) -> Value {
        Value::Array(v)
    }
}

/// A value holding `v`.
impl From<ValueMap> for Value {
    fn from(v: ValueMap) -> Value {
        Value::Mapping(v)
    }
}

impl vstd::std_specs::convert::FromSpecImpl<ValueMap> for Value {
    open spec fn obeys_from_spec() -> bool {
        true
    }

    open spec fn from_spec(v: ValueMap) -> Value {
        Value::Mapping(v)
    }
}

/// A value holding `v`.
impl From<Result<Value, Value>> for Value {
    fn from(v: Result<Value, Value>) -> Value {
        Value::Result(Box::new(v))
    }
}

impl vstd::std_specs::convert::FromSpecImpl<Result<Value, Value>> for Value {
    open spec fn obeys_from_spec() -> bool {
        true
    }

    open spec fn from_spec(v: Result<Value, Value>) -> Value {
        Value::Result(Box::new(v))
    }
}

/// A value holding `v`.
impl From<Closure> for Value {
    fn from(v: Closure) -> Value {
        Value::Closure(Box::new(v))
    }
}

impl vstd::std_specs::convert::FromSpecImpl<Closure> for Value {
    open spec fn obeys_from_spec() -> bool {
        true
    }

    open spec fn from_spec(v: Closure) -> Value {
        Value::Closure(Box::new(v))
    }
}

/// An optional value holding `v`.
impl From<Option<Value>> for Value {
    fn from(v: Option<Value>) -> Value {
        match v {
            Some(x) => Value::Option(Some(Box::new(x))),
            None => Value::Option(None),
        }
    }
}

impl vstd::std_specs::convert::FromSpecImpl<Option<Value>> for Value {
    open spec fn obeys_from_spec() -> bool {
        true
    }

    open spec fn from_spec(v: Option<Value>) -> Value {
        match v {
            Some(x) => Value::Option(Some(Box::new(x))),
            None => Value::Option(None),
        }
    }
}

} // verus!
