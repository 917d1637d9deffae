//! Type testers: the types that argument lists and closures can demand, their
//! mathematical model, parsing from text and structural comparison.
use crate::error::StckError;
use vstd::prelude::*;

verus! {

#[derive(Debug, PartialEq)]
pub enum TypeTester {
    Generic(String),
    Any,
    Char,
    Str,
    Num,
    Bool,
    ArrayAny,
    MapAny,
    ResultAny,
    OptionAny,
    ClosureAny,
    Array(Box<TypeTester>),
    Mapping(Box<TypeTester>),
    Result(Box<(TypeTester, TypeTester)>),
    Option(Box<TypeTester>),
    Closure(TypedFnPart, TypedFnPart),
}

#[derive(Debug, PartialEq)]
pub enum TypedFnPart {
    Typed(Vec<TypeTester>),
    Any,
}

/// The model of a [`TypeTester`].
pub enum TypeV {
    Generic(Seq<char>),
    Any,
    Char,
    Str,
    Num,
    Bool,
    ArrayAny,
    MapAny,
    ResultAny,
    OptionAny,
    ClosureAny,
    Array(Box<TypeV>),
    Mapping(Box<TypeV>),
    Result(Box<TypeV>, Box<TypeV>),
    Option(Box<TypeV>),
    Closure(PartV, PartV),
}

/// The model of a [`TypedFnPart`].
pub enum PartV {
    Typed(Seq<TypeV>),
    Any,
}

pub open spec fn tt_view(t: TypeTester) -> TypeV
    decreases t, 0nat,
{
    match t {
        TypeTester::Generic(n) => TypeV::Generic(n@),
        TypeTester::Any => TypeV::Any,
        TypeTester::Char => TypeV::Char,
        TypeTester::Str => TypeV::Str,
        TypeTester::Num => TypeV::Num,
        TypeTester::Bool => TypeV::Bool,
        TypeTester::ArrayAny => TypeV::ArrayAny,
        TypeTester::MapAny => TypeV::MapAny,
        TypeTester::ResultAny => TypeV::ResultAny,
        TypeTester::OptionAny => TypeV::OptionAny,
        TypeTester::ClosureAny => TypeV::ClosureAny,
        TypeTester::Array(b) => TypeV::Array(Box::new(tt_view(*b))),
        TypeTester::Mapping(b) => TypeV::Mapping(Box::new(tt_view(*b))),
        TypeTester::Result(b) => TypeV::Result(Box::new(tt_view(b.0)), Box::new(tt_view(b.1))),
        TypeTester::Option(b) => TypeV::Option(Box::new(tt_view(*b))),
        TypeTester::Closure(a, b) => TypeV::Closure(part_view(a), part_view(b)),
    }
}

pub open spec fn part_view(p: TypedFnPart) -> PartV
    decreases p, 1nat,
{
    match p {
        TypedFnPart::Typed(ts) => PartV::Typed(tts_view(ts@)),
        TypedFnPart::Any => PartV::Any,
    }
}

pub open spec fn tts_view(s: Seq<TypeTester>) -> Seq<TypeV>
    decreases s, 2nat,
{
    if s.len() == 0 {
        Seq::empty()
    } else {
        tts_view(s.drop_last()).push(tt_view(s.last()))
    }
}

pub proof fn lemma_tts_view(s: Seq<TypeTester>)
    ensures
        tts_view(s).len() == s.len(),
        forall|i: int| 0 <= i < s.len() ==> #[trigger] tts_view(s)[i] == tt_view(s[i]),
    decreases s.len(),
{
    if s.len() > 0 {
        lemma_tts_view(s.drop_last());
    }
}

impl View for TypeTester {
    type V = TypeV;

    open spec fn view(&self) -> TypeV {
        tt_view(*self)
    }
}

impl View for TypedFnPart {
    type V = PartV;

    open spec fn view(&self) -> PartV {
        part_view(*self)
    }
}

/// A copy of a type tester.
pub fn clone_tt(t: &TypeTester) -> (r: TypeTester)
    ensures
        r@ == t@,
    decreases t,
{
    match t {
        TypeTester::Generic(n) => TypeTester::Generic(n.clone()),
        TypeTester::Any => TypeTester::Any,
        TypeTester::Char => TypeTester::Char,
        TypeTester::Str => TypeTester::Str,
        TypeTester::Num => TypeTester::Num,
        TypeTester::Bool => TypeTester::Bool,
        TypeTester::ArrayAny => TypeTester::ArrayAny,
        TypeTester::MapAny => TypeTester::MapAny,
        TypeTester::ResultAny => TypeTester::ResultAny,
        TypeTester::OptionAny => TypeTester::OptionAny,
        TypeTester::ClosureAny => TypeTester::ClosureAny,
        TypeTester::Array(b) => TypeTester::Array(Box::new(clone_tt(b))),
        TypeTester::Mapping(b) => TypeTester::Mapping(Box::new(clone_tt(b))),
        TypeTester::Result(b) => TypeTester::Result(Box::new((clone_tt(&b.0), clone_tt(&b.1)))),
        TypeTester::Option(b) => TypeTester::Option(Box::new(clone_tt(b))),
        TypeTester::Closure(a, b) => TypeTester::Closure(clone_part(a), clone_part(b)),
    }
}

/// A copy of a typed argument list.
pub fn clone_part(p: &TypedFnPart) -> (r: TypedFnPart)
    ensures
        r@ == p@,
    decreases p,
{
    match p {
        TypedFnPart::Any => TypedFnPart::Any,
        TypedFnPart::Typed(ts) => {
            let mut out: Vec<TypeTester> = Vec::new();
            let mut i: usize = 0;
            while i < ts.len()
                invariant
                    i <= ts.len(),
                    *p == TypedFnPart::Typed(*ts),
                    tts_view(out@) == tts_view(ts@.take(i as int)),
                decreases ts.len() - i,
            {
                proof {
                    broadcast use vstd::std_specs::vec::axiom_vec_decreases_to_view;

                    assert(decreases_to!(*p => (*p)->Typed_0));
                    assert(decreases_to!(*ts => ts@));
                    assert(decreases_to!(ts@ => ts@[i as int]));
                }
                let c = clone_tt(&ts[i]);
                let ghost old_out = out@;
                out.push(c);
                proof {
                    assert(out@.drop_last() =~= old_out);
                    assert(ts@.take(i + 1).drop_last() =~= ts@.take(i as int));
                }
                i += 1;
            }
            assert(ts@.take(ts.len() as int) =~= ts@);
            TypedFnPart::Typed(out)
        }
    }
}

/// A copy of a list of type testers.
pub fn clone_tts(ts: &Vec<TypeTester>) -> (r: Vec<TypeTester>)
    ensures
        tts_view(r@) == tts_view(ts@),
{
    let mut out: Vec<TypeTester> = Vec::new();
    let mut i: usize = 0;
    while i < ts.len()
        invariant
            i <= ts.len(),
            tts_view(out@) == tts_view(ts@.take(i as int)),
        decreases ts.len() - i,
    {
        let c = clone_tt(&ts[i]);
        let ghost old_out = out@;
        out.push(c);
        proof {
            assert(out@.drop_last() =~= old_out);
            assert(ts@.take(i + 1).drop_last() =~= ts@.take(i as int));
        }
        i += 1;
    }
    assert(ts@.take(ts.len() as int) =~= ts@);
    out
}

impl Clone for TypeTester {
    fn clone(&self) -> (r: Self)
        ensures
            r@ == self@,
    {
        clone_tt(self)
    }
}

impl Clone for TypedFnPart {
    fn clone(&self) -> (r: Self)
        ensures
            r@ == self@,
    {
        clone_part(self)
    }
}

// ---------------------------------------------------------------------------
// Structural comparison of types (`TypeTester::check_type`)

/// Whether type `a` accepts type `b`: `?` accepts every type, `array`, `map`,
/// `result`, `option` and `fn` accept any of their instances, composite types
/// compare their parts, and two generic types never match each other.
pub open spec fn type_matches(a: TypeV, b: TypeV) -> bool
    decreases a, 0nat,
{
    match (a, b) {
        (TypeV::Any, _) => true,
        (TypeV::Char, TypeV::Char) => true,
        (TypeV::Str, TypeV::Str) => true,
        (TypeV::Num, TypeV::Num) => true,
        (TypeV::Bool, TypeV::Bool) => true,
        (TypeV::ArrayAny, TypeV::ArrayAny) => true,
        (TypeV::MapAny, TypeV::MapAny) => true,
        (TypeV::ResultAny, TypeV::ResultAny) => true,
        (TypeV::OptionAny, TypeV::OptionAny) => true,
        (TypeV::ClosureAny, TypeV::ClosureAny) => true,
        (TypeV::Array(t), TypeV::Array(to)) => type_matches(*t, *to),
        (TypeV::Mapping(t), TypeV::Mapping(to)) => type_matches(*t, *to),
        (TypeV::Result(a1, a2), TypeV::Result(b1, b2)) => type_matches(*a1, *b1) && type_matches(
            *a2,
            *b2,
        ),
        (TypeV::Option(t), TypeV::Option(to)) => type_matches(*t, *to),
        (TypeV::Closure(ai, ao), TypeV::Closure(bi, bo)) => part_matches(ai, bi) && part_matches(
            ao,
            bo,
        ),
        (TypeV::ArrayAny, TypeV::Array(_)) => true,
        (TypeV::MapAny, TypeV::Mapping(_)) => true,
        (TypeV::ResultAny, TypeV::Result(_, _)) => true,
        (TypeV::OptionAny, TypeV::Option(_)) => true,
        (TypeV::ClosureAny, TypeV::Closure(_, _)) => true,
        (_, _) => false,
    }
}

/// Whether two typed argument lists match: both `*`, or lists of equal
/// length whose types match pairwise.
pub open spec fn part_matches(a: PartV, b: PartV) -> bool
    decreases a, 1nat,
{
    match (a, b) {
        (PartV::Any, PartV::Any) => true,
        (PartV::Typed(xs), PartV::Typed(ys)) => xs.len() == ys.len() && list_matches(xs, ys),
        (_, _) => false,
    }
}

pub open spec fn list_matches(xs: Seq<TypeV>, ys: Seq<TypeV>) -> bool
    decreases xs, 2nat,
{
    if xs.len() == 0 || xs.len() != ys.len() {
        true
    } else {
        list_matches(xs.drop_last(), ys.drop_last()) && type_matches(xs.last(), ys.last())
    }
}

/// Whether type tester `a` accepts type tester `b` (see [`type_matches`]).
pub fn types_match(a: &TypeTester, b: &TypeTester) -> (r: bool)
    ensures
        r == type_matches(a@, b@),
    decreases a,
{
    match (a, b) {
        (TypeTester::Any, _) => true,
        (TypeTester::Char, TypeTester::Char) => true,
        (TypeTester::Str, TypeTester::Str) => true,
        (TypeTester::Num, TypeTester::Num) => true,
        (TypeTester::Bool, TypeTester::Bool) => true,
        (TypeTester::ArrayAny, TypeTester::ArrayAny) => true,
        (TypeTester::MapAny, TypeTester::MapAny) => true,
        (TypeTester::ResultAny, TypeTester::ResultAny) => true,
        (TypeTester::OptionAny, TypeTester::OptionAny) => true,
        (TypeTester::ClosureAny, TypeTester::ClosureAny) => true,
        (TypeTester::Array(t), TypeTester::Array(to)) => types_match(t, to),
        (TypeTester::Mapping(t), TypeTester::Mapping(to)) => types_match(t, to),
        (TypeTester::Result(t), TypeTester::Result(to)) => types_match(&t.0, &to.0) && types_match(
            &t.1,
            &to.1,
        ),
        (TypeTester::Option(t), TypeTester::Option(to)) => types_match(t, to),
        (TypeTester::Closure(ai, ao), TypeTester::Closure(bi, bo)) => parts_match(ai, bi)
            && parts_match(ao, bo),
        (TypeTester::ArrayAny, TypeTester::Array(_)) => true,
        (TypeTester::MapAny, TypeTester::Mapping(_)) => true,
        (TypeTester::ResultAny, TypeTester::Result(_)) => true,
        (TypeTester::OptionAny, TypeTester::Option(_)) => true,
        (TypeTester::ClosureAny, TypeTester::Closure(_, _)) => true,
        (_, _) => false,
    }
}

/// Whether two typed argument lists match (see [`part_matches`]).
pub fn parts_match(a: &TypedFnPart, b: &TypedFnPart) -> (r: bool)
    ensures
        r == part_matches(a@, b@),
    decreases a,
{
    match (a, b) {
        (TypedFnPart::Any, TypedFnPart::Any) => true,
        (TypedFnPart::Typed(xs), TypedFnPart::Typed(ys)) => {
            if xs.len() != ys.len() {
                proof {
                    lemma_tts_view(xs@);
                    lemma_tts_view(ys@);
                }
                return false;
            }
            proof {
                lemma_tts_view(xs@);
                lemma_tts_view(ys@);
            }
            let mut i: usize = 0;
            while i < xs.len()
                invariant
                    i <= xs.len(),
                    xs.len() == ys.len(),
                    *a == TypedFnPart::Typed(*xs),
                    *b == TypedFnPart::Typed(*ys),
                    tts_view(xs@).len() == xs@.len(),
                    tts_view(ys@).len() == ys@.len(),
                    forall|j: int| 0 <= j < xs@.len() ==> #[trigger] tts_view(xs@)[j] == tt_view(xs@[j]),
                    forall|j: int| 0 <= j < ys@.len() ==> #[trigger] tts_view(ys@)[j] == tt_view(ys@[j]),
                    list_matches(tts_view(xs@).take(i as int), tts_view(ys@).take(i as int)),
                decreases xs.len() - i,
            {
                proof {
                    broadcast use vstd::std_specs::vec::axiom_vec_decreases_to_view;

                    assert(decreases_to!(*a => (*a)->Typed_0));
                    assert(decreases_to!(*xs => xs@));
                    assert(decreases_to!(xs@ => xs@[i as int]));
                }
                let m = types_match(&xs[i], &ys[i]);
                proof {
                    let xv = tts_view(xs@);
                    let yv = tts_view(ys@);
                    assert(xv.take(i + 1).drop_last() =~= xv.take(i as int));
                    assert(yv.take(i + 1).drop_last() =~= yv.take(i as int));
                    assert(xv.take(i + 1).last() == tt_view(xs@[i as int]));
                    assert(yv.take(i + 1).last() == tt_view(ys@[i as int]));
                }
                if !m {
                    proof {
                        let xv = tts_view(xs@);
                        let yv = tts_view(ys@);
                        assert(!list_matches(xv.take(i + 1), yv.take(i + 1)));
                        if list_matches(xv, yv) {
                            lemma_list_matches_prefix(xv, yv, i + 1);
                        }
                    }
                    return false;
                }
                i += 1;
            }
            proof {
                assert(tts_view(xs@).take(xs@.len() as int) =~= tts_view(xs@));
                assert(tts_view(ys@).take(ys@.len() as int) =~= tts_view(ys@));
            }
            true
        },
        (_, _) => false,
    }
}

/// A list match implies the match of every common prefix.
pub proof fn lemma_list_matches_prefix(xs: Seq<TypeV>, ys: Seq<TypeV>, k: int)
    requires
        xs.len() == ys.len(),
        0 <= k <= xs.len(),
        list_matches(xs, ys),
    ensures
        list_matches(xs.take(k), ys.take(k)),
    decreases xs.len() - k,
{
    if k < xs.len() {
        assert(xs.drop_last().len() == xs.len() - 1);
        if k == xs.len() - 1 {
            assert(xs.take(k) =~= xs.drop_last());
            assert(ys.take(k) =~= ys.drop_last());
        } else {
            lemma_list_matches_prefix(xs.drop_last(), ys.drop_last(), k);
            assert(xs.drop_last().take(k) =~= xs.take(k));
            assert(ys.drop_last().take(k) =~= ys.take(k));
        }
    } else {
        assert(xs.take(k) =~= xs);
        assert(ys.take(k) =~= ys);
    }
}

/// A type tester with generic names erased, used to compare types structurally.
pub enum TypeTesterEq {
    Generic,
    Any,
    Char,
    Str,
    Num,
    Bool,
    ArrayAny,
    MapAny,
    ResultAny,
    OptionAny,
    ClosureAny,
    Array(Box<TypeTesterEq>),
    Mapping(Box<TypeTesterEq>),
    Result(Box<(TypeTesterEq, TypeTesterEq)>),
    Option(Box<TypeTesterEq>),
    Closure(Box<(TypedFnPartEq, TypedFnPartEq)>),
}

/// A typed argument list with generic names erased.
pub enum TypedFnPartEq {
    Typed(Vec<TypeTesterEq>),
    Any,
}

/// The model of a [`TypeTesterEq`]: a [`TypeV`] whose generic names are empty.
pub open spec fn teq_view(t: TypeTesterEq) -> TypeV
    decreases t, 0nat,
{
    match t {
        TypeTesterEq::Generic => TypeV::Generic(Seq::empty()),
        TypeTesterEq::Any => TypeV::Any,
        TypeTesterEq::Char => TypeV::Char,
        TypeTesterEq::Str => TypeV::Str,
        TypeTesterEq::Num => TypeV::Num,
        TypeTesterEq::Bool => TypeV::Bool,
        TypeTesterEq::ArrayAny => TypeV::ArrayAny,
        TypeTesterEq::MapAny => TypeV::MapAny,
        TypeTesterEq::ResultAny => TypeV::ResultAny,
        TypeTesterEq::OptionAny => TypeV::OptionAny,
        TypeTesterEq::ClosureAny => TypeV::ClosureAny,
        TypeTesterEq::Array(b) => TypeV::Array(Box::new(teq_view(*b))),
        TypeTesterEq::Mapping(b) => TypeV::Mapping(Box::new(teq_view(*b))),
        TypeTesterEq::Result(b) => TypeV::Result(Box::new(teq_view(b.0)), Box::new(teq_view(b.1))),
        TypeTesterEq::Option(b) => TypeV::Option(Box::new(teq_view(*b))),
        TypeTesterEq::Closure(b) => TypeV::Closure(peq_view(b.0), peq_view(b.1)),
    }
}

pub open spec fn peq_view(p: TypedFnPartEq) -> PartV
    decreases p, 1nat,
{
    match p {
        TypedFnPartEq::Typed(ts) => PartV::Typed(teqs_view(ts@)),
        TypedFnPartEq::Any => PartV::Any,
    }
}

pub open spec fn teqs_view(s: Seq<TypeTesterEq>) -> Seq<TypeV>
    decreases s, 2nat,
{
    if s.len() == 0 {
        Seq::empty()
    } else {
        teqs_view(s.drop_last()).push(teq_view(s.last()))
    }
}

/// `t` with every generic name replaced by the empty name.
pub open spec fn erase(t: TypeV) -> TypeV
    decreases t, 0nat,
{
    match t {
        TypeV::Generic(_) => TypeV::Generic(Seq::empty()),
        TypeV::Array(b) => TypeV::Array(Box::new(erase(*b))),
        TypeV::Mapping(b) => TypeV::Mapping(Box::new(erase(*b))),
        TypeV::Result(a, b) => TypeV::Result(Box::new(erase(*a)), Box::new(erase(*b))),
        TypeV::Option(b) => TypeV::Option(Box::new(erase(*b))),
        TypeV::Closure(a, b) => TypeV::Closure(erase_part(a), erase_part(b)),
        _ => t,
    }
}

pub open spec fn erase_part(p: PartV) -> PartV
    decreases p, 1nat,
{
    match p {
        PartV::Typed(ts) => PartV::Typed(erase_list(ts)),
        PartV::Any => PartV::Any,
    }
}

pub open spec fn erase_list(s: Seq<TypeV>) -> Seq<TypeV>
    decreases s, 2nat,
{
    if s.len() == 0 {
        Seq::empty()
    } else {
        erase_list(s.drop_last()).push(erase(s.last()))
    }
}

impl View for TypeTesterEq {
    type V = TypeV;

    open spec fn view(&self) -> TypeV {
        teq_view(*self)
    }
}

impl View for TypedFnPartEq {
    type V = PartV;

    open spec fn view(&self) -> PartV {
        peq_view(*self)
    }
}

impl TypedFnPart {
    /// The argument list with generic names erased.
    pub fn as_eq(&self) -> (r: TypedFnPartEq)
        ensures
            r@ == erase_part(self@),
        decreases self, 1nat,
    {
        match self {
            TypedFnPart::Any => TypedFnPartEq::Any,
            TypedFnPart::Typed(ts) => {
                let mut out: Vec<TypeTesterEq> = Vec::new();
                let mut i: usize = 0;
                while i < ts.len()
                    invariant
                        i <= ts.len(),
                        *self == TypedFnPart::Typed(*ts),
                        teqs_view(out@) == erase_list(tts_view(ts@.take(i as int))),
                    decreases ts.len() - i,
                {
                    proof {
                        broadcast use vstd::std_specs::vec::axiom_vec_decreases_to_view;

                        assert(decreases_to!(*self => (*self)->Typed_0));
                        assert(decreases_to!(*ts => ts@));
                        assert(decreases_to!(ts@ => ts@[i as int]));
                    }
                    let c = ts[i].as_eq();
                    let ghost old_out = out@;
                    out.push(c);
                    proof {
                        assert(out@.drop_last() =~= old_out);
                        assert(ts@.take(i + 1).drop_last() =~= ts@.take(i as int));
                        let x = tts_view(ts@.take(i as int));
                        assert(tts_view(ts@.take(i + 1)) == x.push(tt_view(ts@[i as int])));
                        assert(x.push(tt_view(ts@[i as int])).drop_last() =~= x);
                    }
                    i += 1;
                }
                assert(ts@.take(ts.len() as int) =~= ts@);
                TypedFnPartEq::Typed(out)
            },
        }
    }
}

impl TypeTester {
    /// The type with generic names erased.
    pub fn as_eq(&self) -> (r: TypeTesterEq)
        ensures
            r@ == erase(self@),
        decreases self, 0nat,
    {
        match self {
            TypeTester::Generic(_) => TypeTesterEq::Generic,
            TypeTester::Any => TypeTesterEq::Any,
            TypeTester::Char => TypeTesterEq::Char,
            TypeTester::Str => TypeTesterEq::Str,
            TypeTester::Num => TypeTesterEq::Num,
            TypeTester::Bool => TypeTesterEq::Bool,
            TypeTester::ArrayAny => TypeTesterEq::ArrayAny,
            TypeTester::MapAny => TypeTesterEq::MapAny,
            TypeTester::ResultAny => TypeTesterEq::ResultAny,
            TypeTester::OptionAny => TypeTesterEq::OptionAny,
            TypeTester::ClosureAny => TypeTesterEq::ClosureAny,
            TypeTester::Array(a) => TypeTesterEq::Array(Box::new(a.as_eq())),
            TypeTester::Mapping(a) => TypeTesterEq::Mapping(Box::new(a.as_eq())),
            TypeTester::Result(a) => TypeTesterEq::Result(Box::new((a.0.as_eq(), a.1.as_eq()))),
            TypeTester::Option(a) => TypeTesterEq::Option(Box::new(a.as_eq())),
            TypeTester::Closure(a, b) => TypeTesterEq::Closure(Box::new((a.as_eq(), b.as_eq()))),
        }
    }

    /// Whether this type accepts the type `v`, compared structurally.
    pub fn check_type(&self, v: &TypeTester) -> (r: bool)
        ensures
            r == type_matches(self@, v@),
    {
        let a = self.as_eq();
        let b = v.as_eq();
        let r = teq(&a, &b);
        proof {
            lemma_erase_matches(self@, v@);
        }
        r
    }
}

/// Erasing generic names does not change whether types match.
pub proof fn lemma_erase_matches(a: TypeV, b: TypeV)
    ensures
        type_matches(erase(a), erase(b)) == type_matches(a, b),
    decreases a, 0nat,
{
    match (a, b) {
        (TypeV::Array(t), TypeV::Array(to)) => lemma_erase_matches(*t, *to),
        (TypeV::Mapping(t), TypeV::Mapping(to)) => lemma_erase_matches(*t, *to),
        (TypeV::Option(t), TypeV::Option(to)) => lemma_erase_matches(*t, *to),
        (TypeV::Result(a1, a2), TypeV::Result(b1, b2)) => {
            lemma_erase_matches(*a1, *b1);
            lemma_erase_matches(*a2, *b2);
        },
        (TypeV::Closure(ai, ao), TypeV::Closure(bi, bo)) => {
            lemma_erase_part_matches(ai, bi);
            lemma_erase_part_matches(ao, bo);
        },
        _ => {},
    }
}

pub proof fn lemma_erase_part_matches(a: PartV, b: PartV)
    ensures
        part_matches(erase_part(a), erase_part(b)) == part_matches(a, b),
    decreases a, 1nat,
{
    match (a, b) {
        (PartV::Typed(xs), PartV::Typed(ys)) => {
            lemma_erase_list_len(xs);
            lemma_erase_list_len(ys);
            if xs.len() == ys.len() {
                lemma_erase_list_matches(xs, ys);
            }
        },
        _ => {},
    }
}

pub proof fn lemma_erase_list_len(xs: Seq<TypeV>)
    ensures
        erase_list(xs).len() == xs.len(),
    decreases xs.len(),
{
    if xs.len() > 0 {
        lemma_erase_list_len(xs.drop_last());
    }
}

pub proof fn lemma_erase_list_matches(xs: Seq<TypeV>, ys: Seq<TypeV>)
    requires
        xs.len() == ys.len(),
    ensures
        list_matches(erase_list(xs), erase_list(ys)) == list_matches(xs, ys),
    decreases xs, 2nat,
{
    lemma_erase_list_len(xs);
    lemma_erase_list_len(ys);
    if xs.len() > 0 {
        lemma_erase_list_matches(xs.drop_last(), ys.drop_last());
        lemma_erase_matches(xs.last(), ys.last());
        assert(erase_list(xs).drop_last() =~= erase_list(xs.drop_last()));
        assert(erase_list(ys).drop_last() =~= erase_list(ys.drop_last()));
    }
}

/// Whether two erased types match (see [`type_matches`]).
pub fn teq(a: &TypeTesterEq, b: &TypeTesterEq) -> (r: bool)
    ensures
        r == type_matches(a@, b@),
    decreases a, 0nat,
{
    match (a, b) {
        (TypeTesterEq::Any, _) => true,
        (TypeTesterEq::Char, TypeTesterEq::Char) => true,
        (TypeTesterEq::Str, TypeTesterEq::Str) => true,
        (TypeTesterEq::Num, TypeTesterEq::Num) => true,
        (TypeTesterEq::Bool, TypeTesterEq::Bool) => true,
        (TypeTesterEq::ArrayAny, TypeTesterEq::ArrayAny) => true,
        (TypeTesterEq::MapAny, TypeTesterEq::MapAny) => true,
        (TypeTesterEq::ResultAny, TypeTesterEq::ResultAny) => true,
        (TypeTesterEq::OptionAny, TypeTesterEq::OptionAny) => true,
        (TypeTesterEq::ClosureAny, TypeTesterEq::ClosureAny) => true,
        (TypeTesterEq::Array(t), TypeTesterEq::Array(to)) => teq(t, to),
        (TypeTesterEq::Mapping(t), TypeTesterEq::Mapping(to)) => teq(t, to),
        (TypeTesterEq::Result(t), TypeTesterEq::Result(to)) => teq(&t.0, &to.0) && teq(&t.1, &to.1),
        (TypeTesterEq::Option(t), TypeTesterEq::Option(to)) => teq(t, to),
        (TypeTesterEq::Closure(t), TypeTesterEq::Closure(to)) => peq(&t.0, &to.0) && peq(&t.1, &to.1),
        (TypeTesterEq::ArrayAny, TypeTesterEq::Array(_)) => true,
        (TypeTesterEq::MapAny, TypeTesterEq::Mapping(_)) => true,
        (TypeTesterEq::ResultAny, TypeTesterEq::Result(_)) => true,
        (TypeTesterEq::OptionAny, TypeTesterEq::Option(_)) => true,
        (TypeTesterEq::ClosureAny, TypeTesterEq::Closure(_)) => true,
        (_, _) => false,
    }
}

pub proof fn lemma_teqs_view(s: Seq<TypeTesterEq>)
    ensures
        teqs_view(s).len() == s.len(),
        forall|i: int| 0 <= i < s.len() ==> #[trigger] teqs_view(s)[i] == teq_view(s[i]),
    decreases s.len(),
{
    if s.len() > 0 {
        lemma_teqs_view(s.drop_last());
    }
}

/// Whether two erased argument lists match (see [`part_matches`]).
pub fn peq(a: &TypedFnPartEq, b: &TypedFnPartEq) -> (r: bool)
    ensures
        r == part_matches(a@, b@),
    decreases a, 1nat,
{
    match (a, b) {
        (TypedFnPartEq::Any, TypedFnPartEq::Any) => true,
        (TypedFnPartEq::Typed(xs), TypedFnPartEq::Typed(ys)) => {
            if xs.len() != ys.len() {
                proof {
                    lemma_teqs_view(xs@);
                    lemma_teqs_view(ys@);
                }
                return false;
            }
            proof {
                lemma_teqs_view(xs@);
                lemma_teqs_view(ys@);
            }
            let mut i: usize = 0;
            while i < xs.len()
                invariant
                    i <= xs.len(),
                    xs.len() == ys.len(),
                    *a == TypedFnPartEq::Typed(*xs),
                    *b == TypedFnPartEq::Typed(*ys),
                    teqs_view(xs@).len() == xs@.len(),
                    teqs_view(ys@).len() == ys@.len(),
                    forall|j: int| 0 <= j < xs@.len() ==> #[trigger] teqs_view(xs@)[j] == teq_view(xs@[j]),
                    forall|j: int| 0 <= j < ys@.len() ==> #[trigger] teqs_view(ys@)[j] == teq_view(ys@[j]),
                    list_matches(teqs_view(xs@).take(i as int), teqs_view(ys@).take(i as int)),
                decreases xs.len() - i,
            {
                proof {
                    broadcast use vstd::std_specs::vec::axiom_vec_decreases_to_view;

                    assert(decreases_to!(*a => (*a)->Typed_0));
                    assert(decreases_to!(*xs => xs@));
                    assert(decreases_to!(xs@ => xs@[i as int]));
                }
                let m = teq(&xs[i], &ys[i]);
                proof {
                    let xv = teqs_view(xs@);
                    let yv = teqs_view(ys@);
                    assert(xv.take(i + 1).drop_last() =~= xv.take(i as int));
                    assert(yv.take(i + 1).drop_last() =~= yv.take(i as int));
                    assert(xv.take(i + 1).last() == teq_view(xs@[i as int]));
                    assert(yv.take(i + 1).last() == teq_view(ys@[i as int]));
                }
                if !m {
                    proof {
                        let xv = teqs_view(xs@);
                        let yv = teqs_view(ys@);
                        assert(!list_matches(xv.take(i + 1), yv.take(i + 1)));
                        if list_matches(xv, yv) {
                            lemma_list_matches_prefix(xv, yv, i + 1);
                        }
                    }
                    return false;
                }
                i += 1;
            }
            proof {
                assert(teqs_view(xs@).take(xs@.len() as int) =~= teqs_view(xs@));
                assert(teqs_view(ys@).take(ys@.len() as int) =~= teqs_view(ys@));
            }
            true
        },
        (_, _) => false,
    }
}

impl PartialEq for TypeTesterEq {
    fn eq(&self, other: &Self) -> (r: bool) {
        teq(self, other)
    }
}

impl vstd::std_specs::cmp::PartialEqSpecImpl for TypeTesterEq {
    open spec fn obeys_eq_spec() -> bool {
        true
    }

    open spec fn eq_spec(&self, other: &Self) -> bool {
        type_matches(self@, other@)
    }
}

impl PartialEq for TypedFnPartEq {
    fn eq(&self, other: &Self) -> (r: bool) {
        peq(self, other)
    }
}

impl vstd::std_specs::cmp::PartialEqSpecImpl for TypedFnPartEq {
    open spec fn obeys_eq_spec() -> bool {
        true
    }

    open spec fn eq_spec(&self, other: &Self) -> bool {
        part_matches(self@, other@)
    }
}

} // verus!

verus! {

/// The declaration of a generic type: its name, whether its first use fixes
/// it (viral), and the types it allows.
#[derive(Debug, PartialEq)]
pub struct DefinedGenericBuilder {
    pub name: String,
    pub viral: bool,
    pub allow: Vec<TypeTester>,
}

impl Clone for DefinedGenericBuilder {
    fn clone(&self) -> (r: Self)
        ensures
            r.name@ == self.name@,
            r.viral == self.viral,
            tts_view(r.allow@) == tts_view(self.allow@),
    {
        DefinedGenericBuilder { name: self.name.clone(), viral: self.viral, allow: clone_tts(&self.allow) }
    }
}

} // verus!
