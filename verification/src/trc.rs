//! Type resolution context: checking values against types that may name
//! generic types, which are either declared with their allowed types or bound
//! by their first use.
use crate::check::{closure_check, TypedOutputError};
use crate::internals::{
    lemma_entries_view, lemma_values_view, value_view, values_view, entries_view, opt_tt_view,
    closure_view, ArgDefV, Closure, ClosureV, FnArg, FnArgDef, TypedOutputs, Value, ValueV,
};
use crate::text::string_eq;
use crate::types::{
    clone_part, clone_tt, clone_tts, lemma_tts_view, part_view, tt_view, tts_view, DefinedGenericBuilder,
    PartV, TypeTester, TypeV, TypedFnPart,
};
use vstd::prelude::*;

verus! {

// ---------------------------------------------------------------------------
// Type equality and the type of a value

/// Whether two type testers are equal.
pub fn tt_eq(a: &TypeTester, b: &TypeTester) -> (r: bool)
    ensures
        r == (a@ == b@),
    decreases a,
{
    match (a, b) {
        (TypeTester::Generic(x), TypeTester::Generic(y)) => string_eq(x, y),
        (TypeTester::Any, TypeTester::Any) => true,
        (TypeTester::Char, TypeTester::Char) => true,
        (TypeTester::Str, TypeTester::Str) => true,
        (TypeTester::Num, TypeTester::Num) => true,
        (TypeTester::Bool, TypeTester::Bool) => true,
        (TypeTester::ArrayAny, TypeTester::ArrayAny) => true,
        (TypeTester::MapAny, TypeTester::MapAny) => true,
        (TypeTester::ResultAny, TypeTester::ResultAny) => true,
        (TypeTester::OptionAny, TypeTester::OptionAny) => true,
        (TypeTester::ClosureAny, TypeTester::ClosureAny) => true,
        (TypeTester::Array(x), TypeTester::Array(y)) => tt_eq(x, y),
        (TypeTester::Mapping(x), TypeTester::Mapping(y)) => tt_eq(x, y),
        (TypeTester::Option(x), TypeTester::Option(y)) => tt_eq(x, y),
        (TypeTester::Result(x), TypeTester::Result(y)) => tt_eq(&x.0, &y.0) && tt_eq(&x.1, &y.1),
        (TypeTester::Closure(xi, xo), TypeTester::Closure(yi, yo)) => part_eq(xi, yi) && part_eq(xo, yo),
        (_, _) => false,
    }
}

/// Whether two typed argument lists are equal.
pub fn part_eq(a: &TypedFnPart, b: &TypedFnPart) -> (r: bool)
    ensures
        r == (a@ == b@),
    decreases a,
{
    match (a, b) {
        (TypedFnPart::Any, TypedFnPart::Any) => true,
        (TypedFnPart::Typed(xs), TypedFnPart::Typed(ys)) => {
            proof {
                lemma_tts_view(xs@);
                lemma_tts_view(ys@);
            }
            if xs.len() != ys.len() {
                return false;
            }
            let mut i: usize = 0;
            while i < xs.len()
                invariant
                    i <= xs@.len(),
                    xs@.len() == ys@.len(),
                    *a == TypedFnPart::Typed(*xs),
                    *b == TypedFnPart::Typed(*ys),
                    tts_view(xs@).len() == xs@.len(),
                    tts_view(ys@).len() == ys@.len(),
                    forall|j: int| 0 <= j < xs@.len() ==> #[trigger] tts_view(xs@)[j] == tt_view(xs@[j]),
                    forall|j: int| 0 <= j < ys@.len() ==> #[trigger] tts_view(ys@)[j] == tt_view(ys@[j]),
                    forall|j: int| 0 <= j < i ==> tt_view(#[trigger] xs@[j]) == tt_view(ys@[j]),
                decreases xs@.len() - i,
            {
                proof {
                    broadcast use vstd::std_specs::vec::axiom_vec_decreases_to_view;

                    assert(decreases_to!(*a => (*a)->Typed_0));
                    assert(decreases_to!(*xs => xs@));
                    assert(decreases_to!(xs@ => xs@[i as int]));
                }
                if !tt_eq(&xs[i], &ys[i]) {
                    proof {
                        assert(tts_view(xs@)[i as int] != tts_view(ys@)[i as int]);
                    }
                    return false;
                }
                i += 1;
            }
            proof {
                assert(tts_view(xs@) =~= tts_view(ys@));
            }
            true
        },
        (_, _) => false,
    }
}

/// Whether a type names a generic type anywhere in it.
pub open spec fn has_generic(t: TypeV) -> bool
    decreases t, 0nat,
{
    match t {
        TypeV::Generic(_) => true,
        TypeV::Array(b) => has_generic(*b),
        TypeV::Mapping(b) => has_generic(*b),
        TypeV::Option(b) => has_generic(*b),
        TypeV::Result(a, b) => has_generic(*a) || has_generic(*b),
        TypeV::Closure(a, b) => part_has_generic(a) || part_has_generic(b),
        _ => false,
    }
}

pub open spec fn part_has_generic(p: PartV) -> bool
    decreases p, 1nat,
{
    match p {
        PartV::Typed(ts) => list_has_generic(ts),
        PartV::Any => false,
    }
}

pub open spec fn list_has_generic(ts: Seq<TypeV>) -> bool
    decreases ts, 2nat,
{
    if ts.len() == 0 {
        false
    } else {
        list_has_generic(ts.drop_last()) || has_generic(ts.last())
    }
}

/// Whether a type tester names a generic type.
pub fn tt_has_generic(t: &TypeTester) -> (r: bool)
    ensures
        r == has_generic(t@),
    decreases t,
{
    match t {
        TypeTester::Generic(_) => true,
        TypeTester::Array(b) => tt_has_generic(b),
        TypeTester::Mapping(b) => tt_has_generic(b),
        TypeTester::Option(b) => tt_has_generic(b),
        TypeTester::Result(b) => tt_has_generic(&b.0) || tt_has_generic(&b.1),
        TypeTester::Closure(a, b) => part_has_generic_exec(a) || part_has_generic_exec(b),
        _ => false,
    }
}

fn part_has_generic_exec(p: &TypedFnPart) -> (r: bool)
    ensures
        r == part_has_generic(p@),
    decreases p,
{
    match p {
        TypedFnPart::Any => false,
        TypedFnPart::Typed(ts) => {
            let mut i: usize = 0;
            let mut found = false;
            while i < ts.len()
                invariant
                    i <= ts@.len(),
                    *p == TypedFnPart::Typed(*ts),
                    found == list_has_generic(tts_view(ts@.take(i as int))),
                decreases ts@.len() - i,
            {
                proof {
                    broadcast use vstd::std_specs::vec::axiom_vec_decreases_to_view;

                    assert(decreases_to!(*p => (*p)->Typed_0));
                    assert(decreases_to!(*ts => ts@));
                    assert(decreases_to!(ts@ => ts@[i as int]));
                }
                let g = tt_has_generic(&ts[i]);
                proof {
                    assert(ts@.take(i + 1).drop_last() =~= ts@.take(i as int));
                    let x = tts_view(ts@.take(i as int));
                    assert(tts_view(ts@.take(i + 1)) == x.push(tt_view(ts@[i as int])));
                    assert(x.push(tt_view(ts@[i as int])).drop_last() =~= x);
                }
                found = found || g;
                i += 1;
            }
            assert(ts@.take(ts@.len() as int) =~= ts@);
            found
        },
    }
}

/// The type of a value, as far as it can be told from the value: arrays,
/// maps and results have none; a closure has the declared types of its
/// arguments still to fill and of its outputs (`?` where none is declared).
pub open spec fn value_type(v: ValueV) -> Option<TypeV>
    decreases v,
{
    match v {
        ValueV::Char(_) => Some(TypeV::Char),
        ValueV::Str(_) => Some(TypeV::Str),
        ValueV::Num(_) => Some(TypeV::Num),
        ValueV::Bool(_) => Some(TypeV::Bool),
        ValueV::Closure(c) => Some(TypeV::Closure(
            PartV::Typed(arg_types_any(c.next)),
            match c.outputs {
                Some(os) => PartV::Typed(out_types_any(os)),
                None => PartV::Any,
            },
        )),
        ValueV::Option(None) => Some(TypeV::OptionAny),
        ValueV::Option(Some(x)) => match value_type(*x) {
            Some(t) => Some(TypeV::Option(Box::new(t))),
            None => None,
        },
        _ => None,
    }
}

pub open spec fn or_any(t: Option<TypeV>) -> TypeV {
    match t {
        Some(t) => t,
        None => TypeV::Any,
    }
}

fn or_any_exec(t: &Option<TypeTester>) -> (r: TypeTester)
    ensures
        r@ == or_any(opt_tt_view(*t)),
{
    match t {
        Some(t) => clone_tt(t),
        None => TypeTester::Any,
    }
}

/// The type of a value (see [`value_type`]).
pub fn type_of_value(v: &Value) -> (r: Option<TypeTester>)
    ensures
        match r {
            Some(t) => value_type(v@) == Some(t@),
            None => value_type(v@) is None,
        },
    decreases v,
{
    match v {
        Value::Char(_) => Some(TypeTester::Char),
        Value::Str(_) => Some(TypeTester::Str),
        Value::Num(_) => Some(TypeTester::Num),
        Value::Bool(_) => Some(TypeTester::Bool),
        Value::Closure(cl) => {
            let mut ins: Vec<TypeTester> = Vec::new();
            let mut i: usize = 0;
            while i < cl.request_args.next.len()
                invariant
                    i <= cl.request_args.next@.len(),
                    ins@.len() == i,
                    forall|j: int| 0 <= j < i ==> #[trigger] tt_view(ins@[j]) == or_any(opt_tt_view(cl.request_args.next@[j].type_check)),
                decreases cl.request_args.next@.len() - i,
            {
                ins.push(or_any_exec(&cl.request_args.next[i].type_check));
                i += 1;
            }
            proof {
                lemma_tts_view(ins@);
                assert(tts_view(ins@) =~= arg_types_any(cl@.next));
            }
            let outs = match &cl.output_types {
                Some(o) => {
                    let mut os: Vec<TypeTester> = Vec::new();
                    let mut k: usize = 0;
                    while k < o.outputs.len()
                        invariant
                            k <= o.outputs@.len(),
                            os@.len() == k,
                            forall|j: int| 0 <= j < k ==> #[trigger] tt_view(os@[j]) == or_any(opt_tt_view(o.outputs@[j])),
                        decreases o.outputs@.len() - k,
                    {
                        os.push(or_any_exec(&o.outputs[k]));
                        k += 1;
                    }
                    proof {
                        lemma_tts_view(os@);
                        assert(tts_view(os@) =~= out_types_any(o@));
                    }
                    TypedFnPart::Typed(os)
                },
                None => TypedFnPart::Any,
            };
            let r = TypeTester::Closure(TypedFnPart::Typed(ins), outs);
            proof {
                let c = closure_view(**cl);
                assert(v@ == ValueV::Closure(Box::new(c)));
                assert(part_view(TypedFnPart::Typed(ins)) == PartV::Typed(arg_types_any(c.next)));
                assert(part_view(outs) == match c.outputs {
                    Some(os) => PartV::Typed(out_types_any(os)),
                    None => PartV::Any,
                });
            }
            Some(r)
        },
        Value::Option(None) => Some(TypeTester::OptionAny),
        Value::Option(Some(x)) => match type_of_value(x) {
            Some(t) => Some(TypeTester::Option(Box::new(t))),
            None => None,
        },
        _ => None,
    }
}

// ---------------------------------------------------------------------------
// Declared generic types

/// A declared generic type: the types it allows and whether its first use
/// binds it (viral).
#[derive(Debug)]
pub struct DefinedGeneric {
    pub allow: Vec<TypeTester>,
    pub viral: bool,
}

/// The model of a [`DefinedGeneric`].
pub struct GenV {
    pub allow: Seq<TypeV>,
    pub viral: bool,
}

impl View for DefinedGeneric {
    type V = GenV;

    open spec fn view(&self) -> GenV {
        GenV { allow: tts_view(self.allow@), viral: self.viral }
    }
}

impl DefinedGeneric {
    pub fn new(viral: bool, allow: Vec<TypeTester>) -> (r: DefinedGeneric)
        ensures
            r.viral == viral,
            r.allow == allow,
    {
        DefinedGeneric { allow, viral }
    }

    fn clone_generic(&self) -> (r: DefinedGeneric)
        ensures
            r@ == self@,
    {
        DefinedGeneric { allow: clone_tts(&self.allow), viral: self.viral }
    }
}

pub open spec fn defs_view(s: Seq<(String, DefinedGeneric)>) -> Seq<(Seq<char>, GenV)> {
    s.map_values(|e: (String, DefinedGeneric)| (e.0@, e.1@))
}

pub open spec fn binds_view(s: Seq<(String, TypeTester)>) -> Seq<(Seq<char>, TypeV)> {
    s.map_values(|e: (String, TypeTester)| (e.0@, e.1@))
}

/// The entries with their names as character sequences.
pub open spec fn names_of<X>(s: Seq<(String, X)>) -> Seq<(Seq<char>, X)> {
    s.map_values(|e: (String, X)| (e.0@, e.1))
}

/// The declared types of closure arguments, `?` where none is declared.
pub open spec fn arg_types_any(s: Seq<ArgDefV>) -> Seq<TypeV> {
    s.map_values(|a: ArgDefV| or_any(a.ty))
}

/// Declared output types, `?` where none is declared.
pub open spec fn out_types_any(s: Seq<Option<TypeV>>) -> Seq<TypeV> {
    s.map_values(|o: Option<TypeV>| or_any(o))
}

/// The index of the first entry named `k` at or after `i`.
pub open spec fn name_index<X>(s: Seq<(Seq<char>, X)>, k: Seq<char>, i: int) -> Option<int>
    decreases s.len() - i,
{
    if i < 0 || i >= s.len() {
        None
    } else if s[i].0 == k {
        Some(i)
    } else {
        name_index(s, k, i + 1)
    }
}

/// The value of the first entry named `k`.
pub open spec fn name_lookup<X>(s: Seq<(Seq<char>, X)>, k: Seq<char>) -> Option<X> {
    match name_index(s, k, 0) {
        Some(i) => Some(s[i].1),
        None => None,
    }
}

/// The entries after binding `k` to `x`: the first entry named `k` is
/// replaced, or the binding is appended.
pub open spec fn name_insert<X>(s: Seq<(Seq<char>, X)>, k: Seq<char>, x: X) -> Seq<(Seq<char>, X)> {
    match name_index(s, k, 0) {
        Some(i) => s.update(i, (k, x)),
        None => s.push((k, x)),
    }
}

pub proof fn lemma_name_index<X>(s: Seq<(Seq<char>, X)>, k: Seq<char>, i: int)
    requires
        0 <= i,
    ensures
        name_index(s, k, i) matches Some(j) ==> i <= j < s.len() && s[j].0 == k,
    decreases s.len() - i,
{
    if i < s.len() && s[i].0 != k {
        lemma_name_index(s, k, i + 1);
    }
}

/// The index of the first entry of `s` named `key`.
pub fn find_name<X>(s: &Vec<(String, X)>, key: &String) -> (r: Option<usize>)
    ensures
        r matches Some(i) ==> name_index(names_of(s@), key@, 0) == Some(i as int) && i < s@.len(),
        r is None ==> name_index(names_of(s@), key@, 0) is None,
{
    let ghost names = names_of(s@);
    let mut i: usize = 0;
    while i < s.len()
        invariant
            i <= s@.len(),
            names == names_of(s@),
            name_index(names, key@, 0) == name_index(names, key@, i as int),
        decreases s@.len() - i,
    {
        if string_eq(&s[i].0, key) {
            return Some(i);
        }
        i += 1;
    }
    None
}

/// Two lists with the same names at every position find a name at the same
/// index.
pub proof fn lemma_same_names<X, Y>(a: Seq<(Seq<char>, X)>, b: Seq<(Seq<char>, Y)>, k: Seq<char>, i: int)
    requires
        0 <= i,
        a.len() == b.len(),
        forall|j: int| 0 <= j < a.len() ==> #[trigger] a[j].0 == b[j].0,
    ensures
        name_index(a, k, i) == name_index(b, k, i),
    decreases a.len() - i,
{
    if i < a.len() {
        lemma_same_names(a, b, k, i + 1);
    }
}

/// The generic types declared so far.
#[derive(Debug)]
pub struct TypeResolutionBuilder {
    pub defined: Vec<(String, DefinedGeneric)>,
}

impl TypeResolutionBuilder {
    /// No generic type declared.
    pub fn new() -> (r: TypeResolutionBuilder)
        ensures
            r.defined@.len() == 0,
    {
        TypeResolutionBuilder { defined: Vec::new() }
    }

    /// Declares a generic type, replacing an earlier one of the same name.
    pub fn add_generic(&mut self, g: DefinedGenericBuilder)
        ensures
            defs_view(final(self).defined@) == name_insert(
                defs_view(old(self).defined@),
                g.name@,
                GenV { allow: tts_view(g.allow@), viral: g.viral },
            ),
    {
        let ghost gv = GenV { allow: tts_view(g.allow@), viral: g.viral };
        let ghost nv = g.name@;
        let ghost old_defs = defs_view(self.defined@);
        proof {
            lemma_same_names(names_of(self.defined@), old_defs, nv, 0);
        }
        let idx = find_name(&self.defined, &g.name);
        match idx {
            Some(i) => {
                assert(name_index(old_defs, nv, 0) == Some(i as int));
                let item = (g.name, DefinedGeneric::new(g.viral, g.allow));
                self.defined.set(i, item);
                assert(defs_view(self.defined@) =~= old_defs.update(i as int, (nv, gv)));
            },
            None => {
                assert(name_index(old_defs, nv, 0) is None);
                let item = (g.name, DefinedGeneric::new(g.viral, g.allow));
                self.defined.push(item);
                assert(defs_view(self.defined@) =~= old_defs.push((nv, gv)));
            },
        }
    }

    /// A copy of the declarations.
    pub fn clone_builder(&self) -> (r: TypeResolutionBuilder)
        ensures
            defs_view(r.defined@) == defs_view(self.defined@),
    {
        let mut out: Vec<(String, DefinedGeneric)> = Vec::new();
        let mut i: usize = 0;
        while i < self.defined.len()
            invariant
                i <= self.defined@.len(),
                out@.len() == i,
                forall|j: int| 0 <= j < i ==> #[trigger] out@[j].0@ == self.defined@[j].0@ && out@[j].1@ == self.defined@[j].1@,
            decreases self.defined@.len() - i,
        {
            out.push((self.defined[i].0.clone(), self.defined[i].1.clone_generic()));
            i += 1;
        }
        proof {
            assert(defs_view(out@) =~= defs_view(self.defined@));
        }
        TypeResolutionBuilder { defined: out }
    }
}

// ---------------------------------------------------------------------------
// Checking with generic types

/// The model of checking value `v` against type `t`, with the declared
/// generic types `d` and the generic types bound so far `cur`: whether `t`
/// accepts `v`, and the bindings afterwards. A generic type bound earlier
/// checks as the type it was bound to; one neither bound nor declared binds
/// to the type of the value; a declared one accepts the value when it allows
/// the value's type, and binds to it when viral. A value whose type cannot
/// be told (an array, a map, a result) is refused by a generic type that is
/// not yet bound.
pub open spec fn trc_check(
    d: Seq<(Seq<char>, GenV)>,
    cur: Seq<(Seq<char>, TypeV)>,
    t: TypeV,
    v: ValueV,
) -> (bool, Seq<(Seq<char>, TypeV)>)
    decreases v, (if t is Generic { 1nat } else { 0nat }), 1nat,
{
    match (t, v) {
        (TypeV::Any, _) => (true, cur),
        (TypeV::Char, ValueV::Char(_)) => (true, cur),
        (TypeV::Str, ValueV::Str(_)) => (true, cur),
        (TypeV::Num, ValueV::Num(_)) => (true, cur),
        (TypeV::Bool, ValueV::Bool(_)) => (true, cur),
        (TypeV::ArrayAny, ValueV::Array(_)) => (true, cur),
        (TypeV::MapAny, ValueV::Mapping(_)) => (true, cur),
        (TypeV::ResultAny, ValueV::Result(_, _)) => (true, cur),
        (TypeV::OptionAny, ValueV::Option(_)) => (true, cur),
        (TypeV::ClosureAny, ValueV::Closure(_)) => (true, cur),
        (TypeV::Array(tt), ValueV::Array(vs)) => trc_list(d, cur, *tt, vs),
        (TypeV::Mapping(tt), ValueV::Mapping(es)) => trc_entries(d, cur, *tt, es),
        (TypeV::Result(tok, terr), ValueV::Result(ok, x)) => if ok {
            trc_check(d, cur, *tok, *x)
        } else {
            trc_check(d, cur, *terr, *x)
        },
        (TypeV::Option(_), ValueV::Option(None)) => (true, cur),
        (TypeV::Option(tt), ValueV::Option(Some(x))) => trc_check(d, cur, *tt, *x),
        (TypeV::Closure(tin, tout), ValueV::Closure(c)) => (trc_closure_ok(tin, tout, *c), cur),
        (TypeV::Generic(name), _) => match name_lookup(cur, name) {
            Some(tr) => if !has_generic(tr) && !(tr is Generic) {
                trc_check(d, cur, tr, v)
            } else {
                (false, cur)
            },
            None => match value_type(v) {
                None => (false, cur),
                Some(vt) => match name_lookup(d, name) {
                    None => (true, name_insert(cur, name, vt)),
                    Some(g) => if g.allow.contains(vt) {
                        (true, if g.viral { name_insert(cur, name, vt) } else { cur })
                    } else {
                        (false, cur)
                    },
                },
            },
        },
        (_, _) => (false, cur),
    }
}

/// The closure part of [`trc_check`]: as for values checked without
/// generic types, but with the numbers of arguments and outputs compared.
pub open spec fn trc_closure_ok(tin: PartV, tout: PartV, c: ClosureV) -> bool {
    closure_check(TypeV::ClosureAny, tin, tout, c) is None
}

/// Checks the values `vs` in order, stopping at the first refusal.
pub open spec fn trc_list(
    d: Seq<(Seq<char>, GenV)>,
    cur: Seq<(Seq<char>, TypeV)>,
    tt: TypeV,
    vs: Seq<ValueV>,
) -> (bool, Seq<(Seq<char>, TypeV)>)
    decreases vs, 0nat, 0nat,
{
    if vs.len() == 0 {
        (true, cur)
    } else {
        let (ok, c1) = trc_check(d, cur, tt, vs[0]);
        if !ok {
            (false, c1)
        } else {
            trc_list(d, c1, tt, vs.subrange(1, vs.len() as int))
        }
    }
}

/// Checks the values of the entries `es` in order, stopping at the first
/// refusal.
pub open spec fn trc_entries(
    d: Seq<(Seq<char>, GenV)>,
    cur: Seq<(Seq<char>, TypeV)>,
    tt: TypeV,
    es: Seq<(Seq<char>, ValueV)>,
) -> (bool, Seq<(Seq<char>, TypeV)>)
    decreases es, 0nat, 0nat,
{
    if es.len() == 0 {
        (true, cur)
    } else {
        let (ok, c1) = trc_check(d, cur, tt, es[0].1);
        if !ok {
            (false, c1)
        } else {
            trc_entries(d, c1, tt, es.subrange(1, es.len() as int))
        }
    }
}

/// The generic types declared and those bound while checking.
#[derive(Debug)]
pub struct TypeResolutionContext {
    pub defined: Vec<(String, DefinedGeneric)>,
    pub current: Vec<(String, TypeTester)>,
}

impl TypeResolutionContext {
    /// A context with the declared generic types and nothing bound.
    pub fn from_builder(b: TypeResolutionBuilder) -> (r: TypeResolutionContext)
        ensures
            r.defined == b.defined,
            r.current@.len() == 0,
    {
        TypeResolutionContext { defined: b.defined, current: Vec::new() }
    }

    /// Whether a declared generic type allows type `v`.
    pub fn check_defined(t: &DefinedGeneric, v: &TypeTester) -> (r: bool)
        ensures
            r == t@.allow.contains(v@),
    {
        proof {
            lemma_tts_view(t.allow@);
        }
        let mut i: usize = 0;
        while i < t.allow.len()
            invariant
                i <= t.allow@.len(),
                tts_view(t.allow@).len() == t.allow@.len(),
                forall|j: int| 0 <= j < t.allow@.len() ==> #[trigger] tts_view(t.allow@)[j] == tt_view(t.allow@[j]),
                forall|j: int| 0 <= j < i ==> tts_view(t.allow@)[j] != v@,
            decreases t.allow@.len() - i,
        {
            if tt_eq(&t.allow[i], v) {
                proof {
                    assert(tts_view(t.allow@)[i as int] == v@);
                }
                return true;
            }
            i += 1;
        }
        false
    }

    /// Checks a value against a type, binding generic types on the way;
    /// a refusal gives back the whole type.
    pub fn check(&mut self, t: &TypeTester, v: &Value) -> (r: Result<(), TypeTester>)
        ensures
            trc_check(defs_view(old(self).defined@), binds_view(old(self).current@), t@, v@)
                == (r is Ok, binds_view(final(self).current@)),
            r matches Err(e) ==> e@ == t@,
            final(self).defined == old(self).defined,
    {
        if self.check_internal(t, v) {
            Ok(())
        } else {
            Err(clone_tt(t))
        }
    }

    fn check_internal(&mut self, t: &TypeTester, v: &Value) -> (r: bool)
        ensures
            trc_check(defs_view(old(self).defined@), binds_view(old(self).current@), t@, v@)
                == (r, binds_view(final(self).current@)),
            final(self).defined == old(self).defined,
        decreases v, (if t is Generic { 1nat } else { 0nat }), 1nat,
    {
        match (t, v) {
            (TypeTester::Any, _) => true,
            (TypeTester::Char, Value::Char(_)) => true,
            (TypeTester::Str, Value::Str(_)) => true,
            (TypeTester::Num, Value::Num(_)) => true,
            (TypeTester::Bool, Value::Bool(_)) => true,
            (TypeTester::ArrayAny, Value::Array(_)) => true,
            (TypeTester::MapAny, Value::Mapping(_)) => true,
            (TypeTester::ResultAny, Value::Result(_)) => true,
            (TypeTester::OptionAny, Value::Option(_)) => true,
            (TypeTester::ClosureAny, Value::Closure(_)) => true,
            (TypeTester::Array(tt), Value::Array(n)) => self.check_list(tt, n, v),
            (TypeTester::Mapping(tt), Value::Mapping(m)) => self.check_entries(tt, &m.entries, v),
            (TypeTester::Result(tt), Value::Result(x)) => match &**x {
                Ok(vo) => self.check_internal(&tt.0, vo),
                Err(ve) => self.check_internal(&tt.1, ve),
            },
            (TypeTester::Option(_), Value::Option(None)) => true,
            (TypeTester::Option(tt), Value::Option(Some(x))) => self.check_internal(tt, x),
            (TypeTester::Closure(tin, tout), Value::Closure(cl)) => {
                let any = TypeTester::ClosureAny;
                let c = any.check_closure_parts(tin, tout, cl);
                c
            },
            (TypeTester::Generic(name), _) => self.check_generic(name, t, v),
            (_, _) => false,
        }
    }

    fn check_generic(&mut self, name: &String, t: &TypeTester, v: &Value) -> (r: bool)
        requires
            *t == TypeTester::Generic(*name),
        ensures
            trc_check(defs_view(old(self).defined@), binds_view(old(self).current@), t@, v@)
                == (r, binds_view(final(self).current@)),
            final(self).defined == old(self).defined,
        decreases v, 1nat, 0nat,
    {
        let ghost d = defs_view(self.defined@);
        let ghost cur = binds_view(self.current@);
        let ghost cnames = names_of(self.current@);
        let ghost dnames = names_of(self.defined@);
        proof {
            lemma_same_names(cnames, cur, name@, 0);
            lemma_same_names(dnames, d, name@, 0);
            lemma_name_index(cur, name@, 0);
            lemma_name_index(d, name@, 0);
        }
        match find_name(&self.current, name) {
            Some(i) => {
                let tr = clone_tt(&self.current[i].1);
                proof {
                    assert(cur[i as int].1 == tr@);
                }
                let is_gen = match &tr {
                    TypeTester::Generic(_) => true,
                    _ => false,
                };
                if is_gen || tt_has_generic(&tr) {
                    false
                } else {
                    self.check_internal(&tr, v)
                }
            },
            None => {
                match type_of_value(v) {
                    None => false,
                    Some(vt) => {
                        match find_name(&self.defined, name) {
                            None => {
                                self.register_generic_usage(name.clone(), vt);
                                true
                            },
                            Some(j) => {
                                proof {
                                    assert(d[j as int].1 == self.defined@[j as int].1@);
                                }
                                if Self::check_defined(&self.defined[j].1, &vt) {
                                    if self.defined[j].1.viral {
                                        self.register_generic_usage(name.clone(), vt);
                                    }
                                    true
                                } else {
                                    false
                                }
                            },
                        }
                    },
                }
            },
        }
    }

    /// Binds a generic type, replacing an earlier binding of it.
    fn register_generic_usage(&mut self, generic: String, instance: TypeTester)
        ensures
            binds_view(final(self).current@) == name_insert(binds_view(old(self).current@), generic@, instance@),
            final(self).defined == old(self).defined,
    {
        let ghost cnames = names_of(self.current@);
        proof {
            lemma_same_names(cnames, binds_view(self.current@), generic@, 0);
        }
        let ghost gv = generic@;
        let ghost iv = instance@;
        match find_name(&self.current, &generic) {
            Some(i) => {
                self.current.set(i, (generic, instance));
                proof {
                    assert(binds_view(self.current@) =~= binds_view(old(self).current@).update(i as int, (gv, iv)));
                }
            },
            None => {
                self.current.push((generic, instance));
                proof {
                    assert(binds_view(self.current@) =~= binds_view(old(self).current@).push((gv, iv)));
                }
            },
        }
    }

    fn check_list(&mut self, tt: &TypeTester, n: &Vec<Value>, whole: &Value) -> (r: bool)
        requires
            *whole == Value::Array(*n),
        ensures
            trc_list(defs_view(old(self).defined@), binds_view(old(self).current@), tt@, values_view(n@))
                == (r, binds_view(final(self).current@)),
            final(self).defined == old(self).defined,
        decreases whole, 0nat, 0nat,
    {
        let ghost vs = values_view(n@);
        let ghost d = defs_view(self.defined@);
        let ghost c0 = binds_view(self.current@);
        proof {
            lemma_values_view(n@);
            assert(vs.subrange(0, vs.len() as int) =~= vs);
        }
        let mut i: usize = 0;
        while i < n.len()
            invariant
                i <= n@.len(),
                *whole == Value::Array(*n),
                vs == values_view(n@),
                vs.len() == n@.len(),
                forall|k: int| 0 <= k < n@.len() ==> #[trigger] vs[k] == value_view(n@[k]),
                d == defs_view(self.defined@),
                self.defined == old(self).defined,
                c0 == binds_view(old(self).current@),
                trc_list(d, c0, tt@, vs) == trc_list(d, binds_view(self.current@), tt@, vs.subrange(i as int, vs.len() as int)),
            decreases n@.len() - i,
        {
            proof {
                broadcast use vstd::std_specs::vec::axiom_vec_decreases_to_view;

                assert(decreases_to!(*whole => (*whole)->Array_0));
                assert(decreases_to!(*n => n@));
                assert(decreases_to!(n@ => n@[i as int]));
            }
            let ghost before = binds_view(self.current@);
            let ok = self.check_internal(tt, &n[i]);
            proof {
                let rest = vs.subrange(i as int, vs.len() as int);
                assert(rest[0] == vs[i as int]);
                assert(rest.subrange(1, rest.len() as int) =~= vs.subrange(i + 1, vs.len() as int));
                assert(trc_check(d, before, tt@, rest[0]) == (ok, binds_view(self.current@)));
                if !ok {
                    assert(trc_list(d, before, tt@, rest) == (false, binds_view(self.current@)));
                }
            }
            if !ok {
                return false;
            }
            i += 1;
        }
        true
    }

    fn check_entries(&mut self, tt: &TypeTester, es: &Vec<(String, Value)>, whole: &Value) -> (r: bool)
        requires
            whole is Mapping && whole->Mapping_0.entries == *es,
        ensures
            trc_entries(defs_view(old(self).defined@), binds_view(old(self).current@), tt@, entries_view(es@))
                == (r, binds_view(final(self).current@)),
            final(self).defined == old(self).defined,
        decreases whole, 0nat, 0nat,
    {
        let ghost vs = entries_view(es@);
        let ghost d = defs_view(self.defined@);
        let ghost c0 = binds_view(self.current@);
        proof {
            lemma_entries_view(es@);
            assert(vs.subrange(0, vs.len() as int) =~= vs);
        }
        let mut i: usize = 0;
        while i < es.len()
            invariant
                i <= es@.len(),
                whole is Mapping && whole->Mapping_0.entries == *es,
                vs == entries_view(es@),
                vs.len() == es@.len(),
                forall|k: int| 0 <= k < es@.len() ==> #[trigger] vs[k] == (es@[k].0@, value_view(es@[k].1)),
                d == defs_view(self.defined@),
                self.defined == old(self).defined,
                c0 == binds_view(old(self).current@),
                trc_entries(d, c0, tt@, vs) == trc_entries(d, binds_view(self.current@), tt@, vs.subrange(i as int, vs.len() as int)),
            decreases es@.len() - i,
        {
            proof {
                broadcast use vstd::std_specs::vec::axiom_vec_decreases_to_view;

                assert(decreases_to!(*whole => (*whole)->Mapping_0));
                assert(decreases_to!((*whole)->Mapping_0 => (*whole)->Mapping_0.entries));
                assert(decreases_to!(*es => es@));
                assert(decreases_to!(es@ => es@[i as int]));
                assert(decreases_to!(es@[i as int] => es@[i as int].1));
            }
            let ok = self.check_internal(tt, &es[i].1);
            proof {
                let rest = vs.subrange(i as int, vs.len() as int);
                assert(rest[0] == vs[i as int]);
                assert(rest.subrange(1, rest.len() as int) =~= vs.subrange(i + 1, vs.len() as int));
            }
            if !ok {
                return false;
            }
            i += 1;
        }
        true
    }

    /// Checks a value against the declared type of a closure argument, if it
    /// has one.
    pub fn check_raw_closure_arg(&mut self, f: &FnArgDef, v: &Value) -> (r: Result<(), TypeTester>)
        ensures
            match f.type_check {
                Some(t) => trc_check(defs_view(old(self).defined@), binds_view(old(self).current@), t@, v@)
                    == (r is Ok, binds_view(final(self).current@)) && (r matches Err(e) ==> e@ == t@),
                None => r is Ok && final(self).current == old(self).current,
            },
            final(self).defined == old(self).defined,
    {
        match &f.type_check {
            Some(tt) => self.check(tt, v),
            None => Ok(()),
        }
    }

    /// Checks an argument against its declaration.
    pub fn check_closure_arg(&mut self, f: &FnArgDef, v: &FnArg) -> (r: Result<(), TypeTester>)
        ensures
            match f.type_check {
                Some(t) => trc_check(defs_view(old(self).defined@), binds_view(old(self).current@), t@, v.0@)
                    == (r is Ok, binds_view(final(self).current@)) && (r matches Err(e) ==> e@ == t@),
                None => r is Ok && final(self).current == old(self).current,
            },
            final(self).defined == old(self).defined,
    {
        self.check_raw_closure_arg(f, &v.0)
    }

    /// Checks the values a function left against its declared outputs.
    pub fn check_outputs(&mut self, t: &TypedOutputs, values: &[Value]) -> (r: Result<(), TypedOutputError>)
        ensures
            t@.len() != values@.len() ==> (r matches Err(TypedOutputError::OutputCountError { expected, got })
                && expected == t@.len() && got == values@.len()) && final(self).current@ == old(self).current@,
            t@.len() == values@.len() ==> match outputs_run(
                defs_view(old(self).defined@),
                binds_view(old(self).current@),
                t@,
                values_view(values@),
            ) {
                Ok(c) => r is Ok && binds_view(final(self).current@) == c,
                Err((tt, v, c)) => (r matches Err(TypedOutputError::TypeError(x, y)) && x@ == tt && y@ == v)
                    && binds_view(final(self).current@) == c,
            },
            t@.len() == values@.len() ==> !(r matches Err(TypedOutputError::OutputCountError { .. })),
            t@.len() == values@.len() ==> (r is Ok <==> outputs_ok(
                defs_view(old(self).defined@),
                binds_view(old(self).current@),
                t@,
                values_view(values@),
            )),
            final(self).defined == old(self).defined,
    {
        if t.outputs.len() != values.len() {
            return Err(TypedOutputError::OutputCountError { expected: t.outputs.len(), got: values.len() });
        }
        let ghost d = defs_view(self.defined@);
        let ghost os = t@;
        let ghost vs = values_view(values@);
        let ghost c0 = binds_view(self.current@);
        proof {
            lemma_values_view(values@);
            assert(vs.subrange(0, vs.len() as int) =~= vs);
            assert(os.subrange(0, os.len() as int) =~= os);
        }
        let mut i: usize = 0;
        while i < values.len()
            invariant
                i <= values@.len(),
                values@.len() == t.outputs@.len(),
                os == t@,
                os.len() == values@.len(),
                vs == values_view(values@),
                vs.len() == values@.len(),
                forall|k: int| 0 <= k < values@.len() ==> #[trigger] vs[k] == value_view(values@[k]),
                forall|k: int| 0 <= k < values@.len() ==> #[trigger] os[k] == opt_tt_view(t.outputs@[k]),
                d == defs_view(self.defined@),
                self.defined == old(self).defined,
                c0 == binds_view(old(self).current@),
                outputs_ok(d, c0, os, vs) == outputs_ok(
                    d,
                    binds_view(self.current@),
                    os.subrange(i as int, os.len() as int),
                    vs.subrange(i as int, vs.len() as int),
                ),
                outputs_run(d, c0, os, vs) == outputs_run(
                    d,
                    binds_view(self.current@),
                    os.subrange(i as int, os.len() as int),
                    vs.subrange(i as int, vs.len() as int),
                ),
            decreases values@.len() - i,
        {
            proof {
                let ro = os.subrange(i as int, os.len() as int);
                let rv = vs.subrange(i as int, vs.len() as int);
                assert(ro[0] == os[i as int]);
                assert(rv[0] == vs[i as int]);
                assert(ro.subrange(1, ro.len() as int) =~= os.subrange(i + 1, os.len() as int));
                assert(rv.subrange(1, rv.len() as int) =~= vs.subrange(i + 1, vs.len() as int));
            }
            match &t.outputs[i] {
                Some(tt) => {
                    match self.check(tt, &values[i]) {
                        Err(e) => {
                            let v = crate::internals::clone_value(&values[i]);
                            return Err(TypedOutputError::TypeError(e, v));
                        },
                        Ok(()) => {},
                    }
                },
                None => {},
            }
            i += 1;
        }
        Ok(())
    }
}

/// Checking values against their declared output types in order, the
/// bindings threaded through: the bindings at the end, or the first type
/// that refuses its value, with that value and the bindings then.
pub open spec fn outputs_run(
    d: Seq<(Seq<char>, GenV)>,
    cur: Seq<(Seq<char>, TypeV)>,
    os: Seq<Option<TypeV>>,
    vs: Seq<ValueV>,
) -> Result<Seq<(Seq<char>, TypeV)>, (TypeV, ValueV, Seq<(Seq<char>, TypeV)>)>
    decreases vs.len(),
{
    if vs.len() == 0 || os.len() != vs.len() {
        Ok(cur)
    } else {
        match os[0] {
            None => outputs_run(d, cur, os.subrange(1, os.len() as int), vs.subrange(1, vs.len() as int)),
            Some(t) => {
                let (ok, c1) = trc_check(d, cur, t, vs[0]);
                if ok {
                    outputs_run(d, c1, os.subrange(1, os.len() as int), vs.subrange(1, vs.len() as int))
                } else {
                    Err((t, vs[0], c1))
                }
            },
        }
    }
}

/// Whether every value is accepted by its declared output type, checked in
/// order with the bindings threaded through.
pub open spec fn outputs_ok(
    d: Seq<(Seq<char>, GenV)>,
    cur: Seq<(Seq<char>, TypeV)>,
    os: Seq<Option<TypeV>>,
    vs: Seq<ValueV>,
) -> bool
    decreases vs.len(),
{
    if vs.len() == 0 || os.len() != vs.len() {
        true
    } else {
        match os[0] {
            None => outputs_ok(d, cur, os.subrange(1, os.len() as int), vs.subrange(1, vs.len() as int)),
            Some(t) => {
                let (ok, c1) = trc_check(d, cur, t, vs[0]);
                ok && outputs_ok(d, c1, os.subrange(1, os.len() as int), vs.subrange(1, vs.len() as int))
            },
        }
    }
}

impl TypeTester {
    /// The closure part of checking: the expected argument and output types
    /// against those the closure declares.
    pub fn check_closure_parts(&self, tin: &TypedFnPart, tout: &TypedFnPart, cl: &Closure) -> (r: bool)
        ensures
            r == (closure_check(TypeV::ClosureAny, tin@, tout@, cl@) is None),
    {
        let t = TypeTester::Closure(clone_part(tin), clone_part(tout));
        match &t {
            TypeTester::Closure(a, b) => {
                let r = t.check_closure(a, b, cl);
                r.is_ok()
            },
            _ => false,
        }
    }
}

} // verus!
