//! Checking values against type testers, without generic types.
use crate::internals::{
    lemma_entries_view, lemma_values_view, Closure, FnArgDef, TypedOutputs, Value, ValueV,
    ClosureV, argdef_view, opt_tt_view, value_view, values_view, entries_view,
};
use crate::types::{clone_tt, part_view, tt_view, tts_view, lemma_tts_view, type_matches, PartV, TypeTester, TypeV, TypedFnPart};
use vstd::prelude::*;

verus! {

/// The outcome of checking value `v` against type `t`: `None` when `t`
/// accepts `v`, else the type that refused it (`t` itself or a part of it).
pub open spec fn tt_check(t: TypeV, v: ValueV) -> Option<TypeV>
    decreases v, 1nat,
{
    match (t, v) {
        (TypeV::Any, _) => None,
        (TypeV::Char, ValueV::Char(_)) => None,
        (TypeV::Str, ValueV::Str(_)) => None,
        (TypeV::Num, ValueV::Num(_)) => None,
        (TypeV::Bool, ValueV::Bool(_)) => None,
        (TypeV::ArrayAny, ValueV::Array(_)) => None,
        (TypeV::MapAny, ValueV::Mapping(_)) => None,
        (TypeV::ResultAny, ValueV::Result(_, _)) => None,
        (TypeV::OptionAny, ValueV::Option(_)) => None,
        (TypeV::ClosureAny, ValueV::Closure(_)) => None,
        (TypeV::Array(tt), ValueV::Array(vs)) => list_check(*tt, vs),
        (TypeV::Mapping(tt), ValueV::Mapping(es)) => entries_check(*tt, es),
        (TypeV::Result(tok, terr), ValueV::Result(ok, x)) => if ok {
            tt_check(*tok, *x)
        } else {
            tt_check(*terr, *x)
        },
        (TypeV::Option(_), ValueV::Option(None)) => None,
        (TypeV::Option(tt), ValueV::Option(Some(x))) => tt_check(*tt, *x),
        (TypeV::Closure(tin, tout), ValueV::Closure(c)) => closure_check(t, tin, tout, *c),
        (_, _) => Some(t),
    }
}

/// The first refusal of `tt` among the values `vs`, in order.
pub open spec fn list_check(tt: TypeV, vs: Seq<ValueV>) -> Option<TypeV>
    decreases vs, 0nat,
{
    if vs.len() == 0 {
        None
    } else {
        match tt_check(tt, vs[0]) {
            Some(e) => Some(e),
            None => list_check(tt, vs.subrange(1, vs.len() as int)),
        }
    }
}

/// The first refusal of `tt` among the values of the entries `es`, in order.
pub open spec fn entries_check(tt: TypeV, es: Seq<(Seq<char>, ValueV)>) -> Option<TypeV>
    decreases es, 0nat,
{
    if es.len() == 0 {
        None
    } else {
        match tt_check(tt, es[0].1) {
            Some(e) => Some(e),
            None => entries_check(tt, es.subrange(1, es.len() as int)),
        }
    }
}

/// The first position `j >= i` where declared type `ds[j]` is refused by
/// `ts[j]`.
pub open spec fn first_type_refusal(ts: Seq<TypeV>, ds: Seq<Option<TypeV>>, i: int) -> Option<int>
    decreases ts.len() - i,
{
    if i < 0 || i >= ts.len() || i >= ds.len() {
        None
    } else if ds[i] matches Some(d) && !type_matches(ts[i], d) {
        Some(i)
    } else {
        first_type_refusal(ts, ds, i + 1)
    }
}

/// A closure type against a closure value: the declared types of the
/// arguments still to fill (in the order the closure keeps them) and of the
/// outputs must be accepted by the expected types.
/// The declared types of closure arguments.
pub open spec fn arg_types(s: Seq<crate::internals::ArgDefV>) -> Seq<Option<TypeV>> {
    s.map_values(|a: crate::internals::ArgDefV| a.ty)
}

/// Declared types viewed.
pub open spec fn opt_types_view(s: Seq<Option<TypeTester>>) -> Seq<Option<TypeV>> {
    s.map_values(|d: Option<TypeTester>| opt_tt_view(d))
}

pub open spec fn closure_check(t: TypeV, tin: PartV, tout: PartV, c: ClosureV) -> Option<TypeV> {
    let ins = arg_types(c.next);
    let in_res: Option<TypeV> = match tin {
        PartV::Typed(tins) => if ins.len() != tins.len() {
            Some(t)
        } else {
            match first_type_refusal(tins, ins, 0) {
                Some(j) => Some(tins[j]),
                None => None,
            }
        },
        PartV::Any => None,
    };
    if in_res is Some {
        in_res
    } else {
        match tout {
            PartV::Typed(touts) => match c.outputs {
                None => None,
                Some(os) => if os.len() != touts.len() {
                    Some(t)
                } else {
                    match first_type_refusal(touts, os, 0) {
                        Some(j) => Some(touts[j]),
                        None => None,
                    }
                },
            },
            PartV::Any => None,
        }
    }
}

proof fn lemma_first_type_refusal(ts: Seq<TypeV>, ds: Seq<Option<TypeV>>, i: int)
    requires
        0 <= i,
    ensures
        first_type_refusal(ts, ds, i) matches Some(j) ==> i <= j < ts.len() && j < ds.len(),
    decreases ts.len() - i,
{
    if i < ts.len() && i < ds.len() {
        lemma_first_type_refusal(ts, ds, i + 1);
    }
}

/// The first position at or after `i` where a declared type is refused.
fn find_type_refusal(ts: &Vec<TypeTester>, ds: &Vec<Option<TypeTester>>, i: usize) -> (r: Option<usize>)
    requires
        ts@.len() == ds@.len(),
        i <= ts@.len(),
    ensures
        r matches Some(j) ==> first_type_refusal(tts_view(ts@), opt_types_view(ds@), i as int) == Some(j as int) && j < ts@.len(),
        r is None ==> first_type_refusal(tts_view(ts@), opt_types_view(ds@), i as int) is None,
{
    let ghost tv = tts_view(ts@);
    let ghost dv = opt_types_view(ds@);
    proof {
        lemma_tts_view(ts@);
    }
    let mut j = i;
    while j < ts.len()
        invariant
            i <= j <= ts@.len(),
            ts@.len() == ds@.len(),
            tv == tts_view(ts@),
            dv == opt_types_view(ds@),
            tv.len() == ts@.len(),
            dv.len() == ds@.len(),
            forall|k: int| 0 <= k < ts@.len() ==> #[trigger] tv[k] == tt_view(ts@[k]),
            first_type_refusal(tv, dv, i as int) == first_type_refusal(tv, dv, j as int),
        decreases ts@.len() - j,
    {
        match &ds[j] {
            Some(d) => {
                if !ts[j].check_type(d) {
                    return Some(j);
                }
            },
            None => {},
        }
        j += 1;
    }
    None
}

impl TypeTester {
    /// Checks a value against this type; on a refusal, the type that
    /// refused it (this one or a part of it) is the error. A generic type
    /// refuses every value here: generic types need a
    /// [`crate::trc::TypeResolutionContext`].
    pub fn check(&self, v: &Value) -> (r: Result<(), TypeTester>)
        ensures
            match r {
                Ok(()) => tt_check(self@, v@) is None,
                Err(e) => tt_check(self@, v@) == Some(e@),
            },
        decreases v, 1nat,
    {
        match (self, v) {
            (TypeTester::Any, _) => Ok(()),
            (TypeTester::Char, Value::Char(_)) => Ok(()),
            (TypeTester::Str, Value::Str(_)) => Ok(()),
            (TypeTester::Num, Value::Num(_)) => Ok(()),
            (TypeTester::Bool, Value::Bool(_)) => Ok(()),
            (TypeTester::ArrayAny, Value::Array(_)) => Ok(()),
            (TypeTester::MapAny, Value::Mapping(_)) => Ok(()),
            (TypeTester::ResultAny, Value::Result(_)) => Ok(()),
            (TypeTester::OptionAny, Value::Option(_)) => Ok(()),
            (TypeTester::ClosureAny, Value::Closure(_)) => Ok(()),
            (TypeTester::Array(tt), Value::Array(n)) => check_list(tt, n, v),
            (TypeTester::Mapping(tt), Value::Mapping(m)) => check_entries(tt, &m.entries, v),
            (TypeTester::Result(tt), Value::Result(x)) => match &**x {
                Ok(vo) => tt.0.check(vo),
                Err(ve) => tt.1.check(ve),
            },
            (TypeTester::Option(_), Value::Option(None)) => Ok(()),
            (TypeTester::Option(tt), Value::Option(Some(x))) => tt.check(x),
            (TypeTester::Closure(tin, tout), Value::Closure(cl)) => self.check_closure(tin, tout, cl),
            (t, _) => Err(clone_tt(t)),
        }
    }

    pub(crate) fn check_closure(&self, tin: &TypedFnPart, tout: &TypedFnPart, cl: &Closure) -> (r: Result<(), TypeTester>)
        requires
            *self == TypeTester::Closure(*tin, *tout),
        ensures
            match r {
                Ok(()) => closure_check(self@, tin@, tout@, cl@) is None,
                Err(e) => closure_check(self@, tin@, tout@, cl@) == Some(e@),
            },
    {
        let ghost ins = arg_types(cl@.next);
        if let TypedFnPart::Typed(tins) = tin {
            proof {
                lemma_tts_view(tins@);
            }
            if cl.request_args.next.len() != tins.len() {
                return Err(clone_tt(self));
            }
            let mut ds: Vec<Option<TypeTester>> = Vec::new();
            let mut k: usize = 0;
            while k < cl.request_args.next.len()
                invariant
                    k <= cl.request_args.next@.len(),
                    ds@.len() == k,
                    forall|j: int| 0 <= j < k ==> #[trigger] opt_tt_view(ds@[j]) == opt_tt_view(cl.request_args.next@[j].type_check),
                decreases cl.request_args.next@.len() - k,
            {
                let d = match &cl.request_args.next[k].type_check {
                    Some(t) => Some(clone_tt(t)),
                    None => None,
                };
                ds.push(d);
                k += 1;
            }
            proof {
                assert(opt_types_view(ds@) =~= ins);
            }
            match find_type_refusal(tins, &ds, 0) {
                Some(j) => {
                    proof {
                        assert(tts_view(tins@)[j as int] == tt_view(tins@[j as int]));
                    }
                    return Err(clone_tt(&tins[j]));
                },
                None => {},
            }
        }
        if let TypedFnPart::Typed(touts) = tout {
            proof {
                lemma_tts_view(touts@);
            }
            match &cl.output_types {
                None => {
                    return Ok(());
                },
                Some(outs) => {
                    if outs.outputs.len() != touts.len() {
                        return Err(clone_tt(self));
                    }
                    match find_type_refusal(touts, &outs.outputs, 0) {
                        Some(j) => {
                            proof {
                                assert(tts_view(touts@)[j as int] == tt_view(touts@[j as int]));
                            }
                            return Err(clone_tt(&touts[j]));
                        },
                        None => {},
                    }
                },
            }
        }
        Ok(())
    }
}

/// Checks every element of an array against `tt`, in order.
fn check_list(tt: &TypeTester, n: &Vec<Value>, whole: &Value) -> (r: Result<(), TypeTester>)
    requires
        *whole == Value::Array(*n),
    ensures
        match r {
            Ok(()) => list_check(tt@, values_view(n@)) is None,
            Err(e) => list_check(tt@, values_view(n@)) == Some(e@),
        },
    decreases whole, 0nat,
{
    let ghost vs = values_view(n@);
    proof {
        lemma_values_view(n@);
        assert(vs.subrange(0, vs.len() as int) =~= vs);
    }
    let mut i: usize = 0;
    while i < n.len()
        invariant
            i <= n@.len(),
            *whole == Value::Array(*n),
            vs == values_view(n@),
            vs.len() == n@.len(),
            forall|k: int| 0 <= k < n@.len() ==> #[trigger] vs[k] == value_view(n@[k]),
            list_check(tt@, vs) == list_check(tt@, vs.subrange(i as int, vs.len() as int)),
        decreases n@.len() - i,
    {
        proof {
            broadcast use vstd::std_specs::vec::axiom_vec_decreases_to_view;

            assert(decreases_to!(*whole => (*whole)->Array_0));
            assert(decreases_to!(*n => n@));
            assert(decreases_to!(n@ => n@[i as int]));
        }
        let c = tt.check(&n[i]);
        proof {
            let rest = vs.subrange(i as int, vs.len() as int);
            assert(rest[0] == vs[i as int]);
            assert(rest.subrange(1, rest.len() as int) =~= vs.subrange(i + 1, vs.len() as int));
        }
        match c {
            Err(e) => {
                return Err(e);
            },
            Ok(()) => {},
        }
        i += 1;
    }
    Ok(())
}

/// Checks the value of every entry of a map against `tt`, in order.
fn check_entries(tt: &TypeTester, es: &Vec<(String, Value)>, whole: &Value) -> (r: Result<(), TypeTester>)
    requires
        whole is Mapping && whole->Mapping_0.entries == *es,
    ensures
        match r {
            Ok(()) => entries_check(tt@, entries_view(es@)) is None,
            Err(e) => entries_check(tt@, entries_view(es@)) == Some(e@),
        },
    decreases whole, 0nat,
{
    let ghost vs = entries_view(es@);
    proof {
        lemma_entries_view(es@);
        assert(vs.subrange(0, vs.len() as int) =~= vs);
    }
    let mut i: usize = 0;
    while i < es.len()
        invariant
            i <= es@.len(),
            whole is Mapping && whole->Mapping_0.entries == *es,
            vs == entries_view(es@),
            vs.len() == es@.len(),
            forall|k: int| 0 <= k < es@.len() ==> #[trigger] vs[k] == (es@[k].0@, value_view(es@[k].1)),
            entries_check(tt@, vs) == entries_check(tt@, vs.subrange(i as int, vs.len() as int)),
        decreases es@.len() - i,
    {
        proof {
            broadcast use vstd::std_specs::vec::axiom_vec_decreases_to_view;

            assert(decreases_to!(*whole => (*whole)->Mapping_0));
            assert(decreases_to!((*whole)->Mapping_0 => (*whole)->Mapping_0.entries));
            assert(decreases_to!(*es => es@));
            assert(decreases_to!(es@ => es@[i as int]));
            assert(decreases_to!(es@[i as int] => es@[i as int].1));
        }
        let c = tt.check(&es[i].1);
        proof {
            let rest = vs.subrange(i as int, vs.len() as int);
            assert(rest[0] == vs[i as int]);
            assert(rest.subrange(1, rest.len() as int) =~= vs.subrange(i + 1, vs.len() as int));
        }
        match c {
            Err(e) => {
                return Err(e);
            },
            Ok(()) => {},
        }
        i += 1;
    }
    Ok(())
}

} // verus!

verus! {

/// Why the values left by a function do not fit its declared outputs.
#[derive(Debug)]
pub enum TypedOutputError {
    TypeError(TypeTester, Value),
    OutputCountError { expected: usize, got: usize },
}

/// The first position `j >= i` whose value is refused by its declared type,
/// with the refusing type.
pub open spec fn first_output_refusal(os: Seq<Option<TypeV>>, vs: Seq<ValueV>, i: int) -> Option<(int, TypeV)>
    decreases vs.len() - i,
{
    if i < 0 || i >= vs.len() || i >= os.len() {
        None
    } else if os[i] is Some && tt_check(os[i]->0, vs[i]) is Some {
        Some((i, tt_check(os[i]->0, vs[i])->0))
    } else {
        first_output_refusal(os, vs, i + 1)
    }
}

impl TypedOutputs {
    /// Checks the values a function left against its declared outputs: their
    /// number must match, then each value its declared type, if any.
    pub fn check(&self, values: &[Value]) -> (r: Result<(), TypedOutputError>)
        ensures
            self@.len() != values@.len() ==> (r matches Err(TypedOutputError::OutputCountError { expected, got })
                && expected == self@.len() && got == values@.len()),
            self@.len() == values@.len() ==> match first_output_refusal(self@, values_view(values@), 0) {
                None => r is Ok,
                Some((j, t)) => (r matches Err(TypedOutputError::TypeError(e, v)) && e@ == t
                    && v@ == values_view(values@)[j]),
            },
    {
        if self.outputs.len() != values.len() {
            return Err(TypedOutputError::OutputCountError { expected: self.outputs.len(), got: values.len() });
        }
        let ghost os = self@;
        let ghost vs = values_view(values@);
        proof {
            lemma_values_view(values@);
        }
        let mut i: usize = 0;
        while i < values.len()
            invariant
                i <= values@.len(),
                values@.len() == self.outputs@.len(),
                os == self@,
                os.len() == values@.len(),
                vs == values_view(values@),
                vs.len() == values@.len(),
                forall|k: int| 0 <= k < values@.len() ==> #[trigger] vs[k] == value_view(values@[k]),
                forall|k: int| 0 <= k < values@.len() ==> #[trigger] os[k] == opt_tt_view(self.outputs@[k]),
                first_output_refusal(os, vs, 0) == first_output_refusal(os, vs, i as int),
            decreases values@.len() - i,
        {
            match &self.outputs[i] {
                Some(tt) => {
                    match tt.check(&values[i]) {
                        Err(t) => {
                            let v = crate::internals::clone_value(&values[i]);
                            return Err(TypedOutputError::TypeError(t, v));
                        },
                        Ok(()) => {},
                    }
                },
                None => {},
            }
            i += 1;
        }
        Ok(())
    }
}

} // verus!
