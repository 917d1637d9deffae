//! The builtin functions of the language: their names and what each does to
//! the stack and the variables.
use crate::error::RuntimeErrorKind;
use crate::internals::{
    clone_value, insert_entry, lemma_values_view, lemma_values_view_push, lookup, reverse_vec,
    value_view, values_view, Value, ValueMap, ValueV,
};
use crate::stack::Stack;
use crate::text::{decimal, has_prefix, trim};
use vstd::prelude::*;

verus! {

/// The builtin functions.
#[derive(Clone, Copy, Debug, PartialEq, Eq, Structural)]
pub enum Builtin {
    Print,
    Exit,
    Argv,
    Sh,
    WriteTo,
    Sub,
    Mul,
    LooseEq,
    StrictEq,
    Greater,
    Rem,
    Apply,
    StackLen,
    SetVar,
    GetVar,
    Unwrap,
    MakeOk,
    MakeErr,
    MakeNone,
    MakeSome,
    IsOk,
    IsSome,
    Format,
    HasPrefix,
    Trim,
    RemovePrefix,
    IntoArr,
    ArrLen,
    ArrReverse,
    ArrUnpack,
    ArrPackN,
    ArrNew,
    ArrAppend,
    ArrJoin,
    ArrPop,
    MapNew,
    MapInsert,
    MapGet,
    IsStr,
    IsNum,
    IsBool,
    IsArray,
    IsMap,
    IsResult,
    IsOption,
    DebugStack,
    DebugVars,
    DebugArgs,
    DebugFns,
}

/// The builtin a name calls, if any.
pub open spec fn builtin_named(n: Seq<char>) -> Option<Builtin> {
    if n == "print"@ { Some(Builtin::Print) }
    else if n == "sys$exit"@ { Some(Builtin::Exit) }
    else if n == "sys$argv"@ { Some(Builtin::Argv) }
    else if n == "sh"@ { Some(Builtin::Sh) }
    else if n == "write-to"@ { Some(Builtin::WriteTo) }
    else if n == "-"@ { Some(Builtin::Sub) }
    else if n == "*"@ { Some(Builtin::Mul) }
    else if n == "≃"@ { Some(Builtin::LooseEq) }
    else if n == "="@ { Some(Builtin::StrictEq) }
    else if n == ">"@ { Some(Builtin::Greater) }
    else if n == "%"@ { Some(Builtin::Rem) }
    else if n == "@"@ { Some(Builtin::Apply) }
    else if n == "stack$len"@ { Some(Builtin::StackLen) }
    else if n == "set"@ { Some(Builtin::SetVar) }
    else if n == "get"@ { Some(Builtin::GetVar) }
    else if n == "!"@ { Some(Builtin::Unwrap) }
    else if n == "ok"@ { Some(Builtin::MakeOk) }
    else if n == "err"@ { Some(Builtin::MakeErr) }
    else if n == "none"@ { Some(Builtin::MakeNone) }
    else if n == "some"@ { Some(Builtin::MakeSome) }
    else if n == "&result$is-ok"@ { Some(Builtin::IsOk) }
    else if n == "&option$is-some"@ { Some(Builtin::IsSome) }
    else if n == "%%"@ { Some(Builtin::Format) }
    else if n == "&str$has-prefix"@ { Some(Builtin::HasPrefix) }
    else if n == "str$trim"@ { Some(Builtin::Trim) }
    else if n == "str$remove-prefix"@ { Some(Builtin::RemovePrefix) }
    else if n == "str$into-arr"@ { Some(Builtin::IntoArr) }
    else if n == "&arr$len"@ { Some(Builtin::ArrLen) }
    else if n == "arr$reverse"@ { Some(Builtin::ArrReverse) }
    else if n == "arr$unpack"@ { Some(Builtin::ArrUnpack) }
    else if n == "arr$pack-n"@ { Some(Builtin::ArrPackN) }
    else if n == "arr$new"@ { Some(Builtin::ArrNew) }
    else if n == "arr$append"@ { Some(Builtin::ArrAppend) }
    else if n == "arr$join"@ { Some(Builtin::ArrJoin) }
    else if n == "arr$pop"@ { Some(Builtin::ArrPop) }
    else if n == "map$new"@ { Some(Builtin::MapNew) }
    else if n == "map$insert-kv"@ { Some(Builtin::MapInsert) }
    else if n == "map$get"@ { Some(Builtin::MapGet) }
    else if n == "type$is-str"@ { Some(Builtin::IsStr) }
    else if n == "type$is-num"@ { Some(Builtin::IsNum) }
    else if n == "type$is-bool"@ { Some(Builtin::IsBool) }
    else if n == "type$is-array"@ { Some(Builtin::IsArray) }
    else if n == "type$is-map"@ { Some(Builtin::IsMap) }
    else if n == "type$is-result"@ { Some(Builtin::IsResult) }
    else if n == "type$is-option"@ { Some(Builtin::IsOption) }
    else if n == "debug$stack"@ { Some(Builtin::DebugStack) }
    else if n == "debug$vars"@ { Some(Builtin::DebugVars) }
    else if n == "debug$args"@ { Some(Builtin::DebugArgs) }
    else if n == "debug$fns"@ { Some(Builtin::DebugFns) }
    else { None }
}

/// The builtin a name calls, if any.
pub fn builtin_of(name: &String) -> (r: Option<Builtin>)
    ensures
        r == builtin_named(name@),
{
    let cs = crate::text::chars_of_string(name);
    let n = cs.as_slice();
    if crate::text::eq_lit(n, "print") { return Some(Builtin::Print); }
    if crate::text::eq_lit(n, "sys$exit") { return Some(Builtin::Exit); }
    if crate::text::eq_lit(n, "sys$argv") { return Some(Builtin::Argv); }
    if crate::text::eq_lit(n, "sh") { return Some(Builtin::Sh); }
    if crate::text::eq_lit(n, "write-to") { return Some(Builtin::WriteTo); }
    if crate::text::eq_lit(n, "-") { return Some(Builtin::Sub); }
    if crate::text::eq_lit(n, "*") { return Some(Builtin::Mul); }
    if crate::text::eq_lit(n, "≃") { return Some(Builtin::LooseEq); }
    if crate::text::eq_lit(n, "=") { return Some(Builtin::StrictEq); }
    if crate::text::eq_lit(n, ">") { return Some(Builtin::Greater); }
    if crate::text::eq_lit(n, "%") { return Some(Builtin::Rem); }
    if crate::text::eq_lit(n, "@") { return Some(Builtin::Apply); }
    if crate::text::eq_lit(n, "stack$len") { return Some(Builtin::StackLen); }
    if crate::text::eq_lit(n, "set") { return Some(Builtin::SetVar); }
    if crate::text::eq_lit(n, "get") { return Some(Builtin::GetVar); }
    if crate::text::eq_lit(n, "!") { return Some(Builtin::Unwrap); }
    if crate::text::eq_lit(n, "ok") { return Some(Builtin::MakeOk); }
    if crate::text::eq_lit(n, "err") { return Some(Builtin::MakeErr); }
    if crate::text::eq_lit(n, "none") { return Some(Builtin::MakeNone); }
    if crate::text::eq_lit(n, "some") { return Some(Builtin::MakeSome); }
    if crate::text::eq_lit(n, "&result$is-ok") { return Some(Builtin::IsOk); }
    if crate::text::eq_lit(n, "&option$is-some") { return Some(Builtin::IsSome); }
    if crate::text::eq_lit(n, "%%") { return Some(Builtin::Format); }
    if crate::text::eq_lit(n, "&str$has-prefix") { return Some(Builtin::HasPrefix); }
    if crate::text::eq_lit(n, "str$trim") { return Some(Builtin::Trim); }
    if crate::text::eq_lit(n, "str$remove-prefix") { return Some(Builtin::RemovePrefix); }
    if crate::text::eq_lit(n, "str$into-arr") { return Some(Builtin::IntoArr); }
    if crate::text::eq_lit(n, "&arr$len") { return Some(Builtin::ArrLen); }
    if crate::text::eq_lit(n, "arr$reverse") { return Some(Builtin::ArrReverse); }
    if crate::text::eq_lit(n, "arr$unpack") { return Some(Builtin::ArrUnpack); }
    if crate::text::eq_lit(n, "arr$pack-n") { return Some(Builtin::ArrPackN); }
    if crate::text::eq_lit(n, "arr$new") { return Some(Builtin::ArrNew); }
    if crate::text::eq_lit(n, "arr$append") { return Some(Builtin::ArrAppend); }
    if crate::text::eq_lit(n, "arr$join") { return Some(Builtin::ArrJoin); }
    if crate::text::eq_lit(n, "arr$pop") { return Some(Builtin::ArrPop); }
    if crate::text::eq_lit(n, "map$new") { return Some(Builtin::MapNew); }
    if crate::text::eq_lit(n, "map$insert-kv") { return Some(Builtin::MapInsert); }
    if crate::text::eq_lit(n, "map$get") { return Some(Builtin::MapGet); }
    if crate::text::eq_lit(n, "type$is-str") { return Some(Builtin::IsStr); }
    if crate::text::eq_lit(n, "type$is-num") { return Some(Builtin::IsNum); }
    if crate::text::eq_lit(n, "type$is-bool") { return Some(Builtin::IsBool); }
    if crate::text::eq_lit(n, "type$is-array") { return Some(Builtin::IsArray); }
    if crate::text::eq_lit(n, "type$is-map") { return Some(Builtin::IsMap); }
    if crate::text::eq_lit(n, "type$is-result") { return Some(Builtin::IsResult); }
    if crate::text::eq_lit(n, "type$is-option") { return Some(Builtin::IsOption); }
    if crate::text::eq_lit(n, "debug$stack") { return Some(Builtin::DebugStack); }
    if crate::text::eq_lit(n, "debug$vars") { return Some(Builtin::DebugVars); }
    if crate::text::eq_lit(n, "debug$args") { return Some(Builtin::DebugArgs); }
    if crate::text::eq_lit(n, "debug$fns") { return Some(Builtin::DebugFns); }
    None
}

// ---------------------------------------------------------------------------
// The model of the builtins that only work on the stack and the variables

/// The kinds of failure of a builtin.
#[derive(Clone, Copy, Debug, PartialEq, Eq, Structural)]
pub enum ErrClass {
    /// an argument is missing from the stack
    Missing,
    /// an argument has the wrong type
    WrongType,
    /// two values cannot be compared
    Compare,
    /// `get` of a variable that is not set
    NoVariable,
    /// `!` on an error result
    UnwrapResult,
    /// `!` on an empty option
    UnwrapOption,
    /// the integer result does not fit a number
    Arithmetic,
    /// `arr$pack-n` asks for more values than the stack holds
    MissingValues,
    /// `%%` met an unknown directive
    UnknownFormat,
    /// `%%` found no value for a directive
    FormatMissing,
    /// `%%` found a value of the wrong type for a directive
    FormatWrongType,
}

/// What a builtin does: the stack and variables afterwards, or the stack
/// it leaves and the kind of its failure.
pub enum BOut {
    Done(Seq<ValueV>, Seq<(Seq<char>, ValueV)>),
    Fails(Seq<ValueV>, ErrClass),
}

/// Pops two numbers, the right-hand one first: `(lhs, rhs, rest)`.
pub open spec fn pop2_num(st: Seq<ValueV>) -> Result<(int, int, Seq<ValueV>), (Seq<ValueV>, ErrClass)> {
    if st.len() == 0 {
        Err((st, ErrClass::Missing))
    } else if !(st.last() is Num) {
        Err((st.drop_last(), ErrClass::WrongType))
    } else {
        let s1 = st.drop_last();
        if s1.len() == 0 {
            Err((s1, ErrClass::Missing))
        } else if !(s1.last() is Num) {
            Err((s1.drop_last(), ErrClass::WrongType))
        } else {
            Ok((s1.last()->Num_0 as int, st.last()->Num_0 as int, s1.drop_last()))
        }
    }
}

/// Pops a number.
pub open spec fn pop_num(st: Seq<ValueV>) -> Result<(int, Seq<ValueV>), (Seq<ValueV>, ErrClass)> {
    if st.len() == 0 {
        Err((st, ErrClass::Missing))
    } else if !(st.last() is Num) {
        Err((st.drop_last(), ErrClass::WrongType))
    } else {
        Ok((st.last()->Num_0 as int, st.drop_last()))
    }
}

/// Pops two values of any type, the right-hand one first.
pub open spec fn pop2_any(st: Seq<ValueV>) -> Result<(ValueV, ValueV, Seq<ValueV>), (Seq<ValueV>, ErrClass)> {
    if st.len() == 0 {
        Err((st, ErrClass::Missing))
    } else if st.len() == 1 {
        Err((st.drop_last(), ErrClass::Missing))
    } else {
        Ok((st.drop_last().last(), st.last(), st.drop_last().drop_last()))
    }
}

/// Pops a string.
pub open spec fn pop_str(st: Seq<ValueV>) -> Result<(Seq<char>, Seq<ValueV>), (Seq<ValueV>, ErrClass)> {
    if st.len() == 0 {
        Err((st, ErrClass::Missing))
    } else if !(st.last() is Str) {
        Err((st.drop_last(), ErrClass::WrongType))
    } else {
        Ok((st.last()->Str_0, st.drop_last()))
    }
}

/// Pops a value of any type.
pub open spec fn pop_any(st: Seq<ValueV>) -> Result<(ValueV, Seq<ValueV>), (Seq<ValueV>, ErrClass)> {
    if st.len() == 0 {
        Err((st, ErrClass::Missing))
    } else {
        Ok((st.last(), st.drop_last()))
    }
}

/// Pops an array.
pub open spec fn pop_arr(st: Seq<ValueV>) -> Result<(Seq<ValueV>, Seq<ValueV>), (Seq<ValueV>, ErrClass)> {
    if st.len() == 0 {
        Err((st, ErrClass::Missing))
    } else if !(st.last() is Array) {
        Err((st.drop_last(), ErrClass::WrongType))
    } else {
        Ok((st.last()->Array_0, st.drop_last()))
    }
}

/// An integer as a number value, or the arithmetic failure.
pub open spec fn num_or_fail(x: int, rest: Seq<ValueV>, vars: Seq<(Seq<char>, ValueV)>) -> BOut {
    if isize::MIN <= x <= isize::MAX {
        BOut::Done(rest.push(ValueV::Num(x as isize)), vars)
    } else {
        BOut::Fails(rest, ErrClass::Arithmetic)
    }
}

/// The remainder of `l` by `r` as Rust computes it (truncating division).
pub open spec fn trunc_rem(l: int, r: int) -> int {
    if l >= 0 {
        if r >= 0 { l % r } else { l % (-r) }
    } else {
        if r >= 0 { -((-l) % r) } else { -((-l) % (-r)) }
    }
}

/// Lexicographic order of character sequences: whether `a` sorts after `b`.
pub open spec fn seq_gt(a: Seq<char>, b: Seq<char>) -> bool
    decreases a.len(),
{
    if a.len() == 0 {
        false
    } else if b.len() == 0 {
        true
    } else if a[0] != b[0] {
        a[0] > b[0]
    } else {
        seq_gt(a.drop_first(), b.drop_first())
    }
}

/// `≃`: values of the same scalar type compare by value, an array or map
/// on either side cannot be compared, anything else is unequal.
pub open spec fn loose_eq(l: ValueV, r: ValueV) -> Option<bool> {
    match (l, r) {
        (ValueV::Char(a), ValueV::Char(b)) => Some(a == b),
        (ValueV::Num(a), ValueV::Num(b)) => Some(a == b),
        (ValueV::Str(a), ValueV::Str(b)) => Some(a == b),
        (ValueV::Bool(a), ValueV::Bool(b)) => Some(a == b),
        (ValueV::Array(_), _) => None,
        (_, ValueV::Array(_)) => None,
        (ValueV::Mapping(_), _) => None,
        (_, ValueV::Mapping(_)) => None,
        (_, _) => Some(false),
    }
}

/// `=`: only values of the same scalar type can be compared.
pub open spec fn strict_eq(l: ValueV, r: ValueV) -> Option<bool> {
    match (l, r) {
        (ValueV::Char(a), ValueV::Char(b)) => Some(a == b),
        (ValueV::Num(a), ValueV::Num(b)) => Some(a == b),
        (ValueV::Str(a), ValueV::Str(b)) => Some(a == b),
        (ValueV::Bool(a), ValueV::Bool(b)) => Some(a == b),
        (_, _) => None,
    }
}

/// `>`: numbers, strings (lexicographically) and booleans (`true > false`).
pub open spec fn greater(l: ValueV, r: ValueV) -> Option<bool> {
    match (l, r) {
        (ValueV::Num(a), ValueV::Num(b)) => Some(a > b),
        (ValueV::Str(a), ValueV::Str(b)) => Some(seq_gt(a, b)),
        (ValueV::Bool(a), ValueV::Bool(b)) => Some(a && !b),
        (_, _) => None,
    }
}

/// The strings of an array joined by `sep`; `None` when an element is not a
/// string.
pub open spec fn join_strs(xs: Seq<ValueV>, sep: Seq<char>) -> Option<Seq<char>>
    decreases xs.len(),
{
    if xs.len() == 0 {
        Some(Seq::empty())
    } else if !(xs.last() is Str) {
        None
    } else if xs.len() == 1 {
        Some(xs.last()->Str_0)
    } else {
        match join_strs(xs.drop_last(), sep) {
            Some(init) => Some(init + sep + xs.last()->Str_0),
            None => None,
        }
    }
}

/// The characters of a string as character values.
pub open spec fn chars_values(s: Seq<char>) -> Seq<ValueV>
    decreases s.len(),
{
    if s.len() == 0 {
        Seq::empty()
    } else {
        chars_values(s.drop_last()).push(ValueV::Char(s.last()))
    }
}

/// A boolean pushed after popping one value that is tested for a type; a
/// missing value tests false.
pub open spec fn type_test(st: Seq<ValueV>, vars: Seq<(Seq<char>, ValueV)>, f: spec_fn(ValueV) -> bool) -> BOut {
    if st.len() == 0 {
        BOut::Done(st.push(ValueV::Bool(false)), vars)
    } else {
        BOut::Done(st.drop_last().push(ValueV::Bool(f(st.last()))), vars)
    }
}

/// What a builtin that only works on the stack and the variables does.
pub open spec fn builtin_spec(b: Builtin, st: Seq<ValueV>, vars: Seq<(Seq<char>, ValueV)>) -> BOut {
    match b {
        Builtin::Sub => match pop2_num(st) {
            Err((s, c)) => BOut::Fails(s, c),
            Ok((l, r, rest)) => num_or_fail(l - r, rest, vars),
        },
        Builtin::Mul => match pop2_num(st) {
            Err((s, c)) => BOut::Fails(s, c),
            Ok((l, r, rest)) => num_or_fail(l * r, rest, vars),
        },
        Builtin::Rem => match pop2_num(st) {
            Err((s, c)) => BOut::Fails(s, c),
            Ok((l, r, rest)) => if r == 0 || (l == isize::MIN && r == -1) {
                BOut::Fails(rest, ErrClass::Arithmetic)
            } else {
                BOut::Done(rest.push(ValueV::Num(trunc_rem(l, r) as isize)), vars)
            },
        },
        Builtin::LooseEq => match pop2_any(st) {
            Err((s, c)) => BOut::Fails(s, c),
            Ok((l, r, rest)) => match loose_eq(l, r) {
                Some(e) => BOut::Done(rest.push(ValueV::Bool(e)), vars),
                None => BOut::Fails(rest, ErrClass::Compare),
            },
        },
        Builtin::StrictEq => match pop2_any(st) {
            Err((s, c)) => BOut::Fails(s, c),
            Ok((l, r, rest)) => match strict_eq(l, r) {
                Some(e) => BOut::Done(rest.push(ValueV::Bool(e)), vars),
                None => BOut::Fails(rest, ErrClass::Compare),
            },
        },
        Builtin::Greater => match pop2_any(st) {
            Err((s, c)) => BOut::Fails(s, c),
            Ok((l, r, rest)) => match greater(l, r) {
                Some(e) => BOut::Done(rest.push(ValueV::Bool(e)), vars),
                None => BOut::Fails(rest, ErrClass::Compare),
            },
        },
        Builtin::StackLen => if st.len() <= isize::MAX {
            BOut::Done(st.push(ValueV::Num(st.len() as isize)), vars)
        } else {
            BOut::Fails(st, ErrClass::Arithmetic)
        },
        Builtin::SetVar => match pop_str(st) {
            Err((s, c)) => BOut::Fails(s, c),
            Ok((name, s1)) => match pop_any(s1) {
                Err((s, c)) => BOut::Fails(s, c),
                Ok((v, rest)) => BOut::Done(rest, insert_entry(vars, name, v)),
            },
        },
        Builtin::GetVar => match pop_str(st) {
            Err((s, c)) => BOut::Fails(s, c),
            Ok((name, rest)) => match lookup(vars, name) {
                Some(v) => BOut::Done(rest.push(v), vars),
                None => BOut::Fails(rest, ErrClass::NoVariable),
            },
        },
        Builtin::Unwrap => match pop_any(st) {
            Err((s, c)) => BOut::Fails(s, c),
            Ok((v, rest)) => match v {
                ValueV::Result(true, x) => BOut::Done(rest.push(*x), vars),
                ValueV::Result(false, _) => BOut::Fails(rest, ErrClass::UnwrapResult),
                ValueV::Option(Some(x)) => BOut::Done(rest.push(*x), vars),
                ValueV::Option(None) => BOut::Fails(rest, ErrClass::UnwrapOption),
                _ => BOut::Fails(rest, ErrClass::WrongType),
            },
        },
        Builtin::MakeOk => match pop_any(st) {
            Err((s, c)) => BOut::Fails(s, c),
            Ok((v, rest)) => BOut::Done(rest.push(ValueV::Result(true, Box::new(v))), vars),
        },
        Builtin::MakeErr => match pop_any(st) {
            Err((s, c)) => BOut::Fails(s, c),
            Ok((v, rest)) => BOut::Done(rest.push(ValueV::Result(false, Box::new(v))), vars),
        },
        Builtin::MakeNone => BOut::Done(st.push(ValueV::Option(None)), vars),
        Builtin::MakeSome => match pop_any(st) {
            Err((s, c)) => BOut::Fails(s, c),
            Ok((v, rest)) => BOut::Done(rest.push(ValueV::Option(Some(Box::new(v)))), vars),
        },
        Builtin::IsOk => if st.len() == 0 {
            BOut::Fails(st, ErrClass::Missing)
        } else {
            match st.last() {
                ValueV::Result(ok, _) => BOut::Done(st.push(ValueV::Bool(ok)), vars),
                _ => BOut::Fails(st, ErrClass::WrongType),
            }
        },
        Builtin::IsSome => if st.len() == 0 {
            BOut::Fails(st, ErrClass::Missing)
        } else {
            match st.last() {
                ValueV::Option(o) => BOut::Done(st.push(ValueV::Bool(o is Some)), vars),
                _ => BOut::Fails(st, ErrClass::WrongType),
            }
        },
        Builtin::HasPrefix => match pop_str(st) {
            Err((s, c)) => BOut::Fails(s, c),
            Ok((prefix, rest)) => if rest.len() == 0 {
                BOut::Fails(rest, ErrClass::Missing)
            } else {
                match rest.last() {
                    ValueV::Str(s) => BOut::Done(rest.push(ValueV::Bool(has_prefix(s, prefix))), vars),
                    _ => BOut::Fails(rest, ErrClass::WrongType),
                }
            },
        },
        Builtin::Trim => match pop_str(st) {
            Err((s, c)) => BOut::Fails(s, c),
            Ok((s, rest)) => BOut::Done(rest.push(ValueV::Str(trim(s))), vars),
        },
        Builtin::RemovePrefix => match pop_str(st) {
            Err((s, c)) => BOut::Fails(s, c),
            Ok((prefix, s1)) => match pop_str(s1) {
                Err((s, c)) => BOut::Fails(s, c),
                Ok((s, rest)) => BOut::Done(
                    rest.push(ValueV::Str(if has_prefix(s, prefix) { s.skip(prefix.len() as int) } else { s })),
                    vars,
                ),
            },
        },
        Builtin::IntoArr => match pop_str(st) {
            Err((s, c)) => BOut::Fails(s, c),
            Ok((s, rest)) => BOut::Done(rest.push(ValueV::Array(chars_values(s))), vars),
        },
        Builtin::ArrLen => if st.len() == 0 {
            BOut::Fails(st, ErrClass::Missing)
        } else {
            match st.last() {
                ValueV::Array(xs) => num_or_fail(xs.len() as int, st, vars),
                _ => BOut::Fails(st, ErrClass::WrongType),
            }
        },
        Builtin::ArrReverse => match pop_arr(st) {
            Err((s, c)) => BOut::Fails(s, c),
            Ok((xs, rest)) => BOut::Done(rest.push(ValueV::Array(xs.reverse())), vars),
        },
        Builtin::ArrUnpack => match pop_arr(st) {
            Err((s, c)) => BOut::Fails(s, c),
            Ok((xs, rest)) => num_or_fail(xs.len() as int, rest + xs, vars),
        },
        Builtin::ArrPackN => if st.len() == 0 {
            BOut::Fails(st, ErrClass::Missing)
        } else if !(st.last() is Num) {
            BOut::Fails(st.drop_last(), ErrClass::WrongType)
        } else {
            let n = st.last()->Num_0 as int;
            let rest = st.drop_last();
            if n < 0 || n > rest.len() {
                BOut::Fails(rest, ErrClass::MissingValues)
            } else {
                BOut::Done(
                    rest.take(rest.len() - n).push(ValueV::Array(rest.skip(rest.len() - n))),
                    vars,
                )
            }
        },
        Builtin::ArrNew => BOut::Done(st.push(ValueV::Array(Seq::empty())), vars),
        Builtin::ArrAppend => match pop_arr(st) {
            Err((s, c)) => BOut::Fails(s, c),
            Ok((xs, s1)) => match pop_any(s1) {
                Err((s, c)) => BOut::Fails(s, c),
                Ok((v, rest)) => BOut::Done(rest.push(ValueV::Array(xs.push(v))), vars),
            },
        },
        Builtin::ArrJoin => match pop_str(st) {
            Err((s, c)) => BOut::Fails(s, c),
            Ok((sep, s1)) => match pop_arr(s1) {
                Err((s, c)) => BOut::Fails(s, c),
                Ok((xs, rest)) => match join_strs(xs, sep) {
                    Some(j) => BOut::Done(rest.push(ValueV::Str(j)), vars),
                    None => BOut::Fails(rest, ErrClass::WrongType),
                },
            },
        },
        Builtin::ArrPop => match pop_arr(st) {
            Err((s, c)) => BOut::Fails(s, c),
            Ok((xs, rest)) => if xs.len() == 0 {
                BOut::Done(rest.push(ValueV::Array(xs)).push(ValueV::Option(None)), vars)
            } else {
                BOut::Done(
                    rest.push(ValueV::Array(xs.drop_last())).push(ValueV::Option(Some(Box::new(xs.last())))),
                    vars,
                )
            },
        },
        Builtin::MapNew => BOut::Done(st.push(ValueV::Mapping(Seq::empty())), vars),
        Builtin::MapInsert => match pop_any(st) {
            Err((s, c)) => BOut::Fails(s, c),
            Ok((v, s1)) => match pop_str(s1) {
                Err((s, c)) => BOut::Fails(s, c),
                Ok((k, s2)) => if s2.len() == 0 {
                    BOut::Fails(s2, ErrClass::Missing)
                } else {
                    match s2.last() {
                        ValueV::Mapping(m) => BOut::Done(
                            s2.drop_last().push(ValueV::Mapping(insert_entry(m, k, v))),
                            vars,
                        ),
                        _ => BOut::Fails(s2.drop_last(), ErrClass::WrongType),
                    }
                },
            },
        },
        Builtin::MapGet => match pop_str(st) {
            Err((s, c)) => BOut::Fails(s, c),
            Ok((k, rest)) => if rest.len() == 0 {
                BOut::Fails(rest, ErrClass::Missing)
            } else {
                match rest.last() {
                    ValueV::Mapping(m) => BOut::Done(
                        rest.push(ValueV::Option(match lookup(m, k) {
                            Some(v) => Some(Box::new(v)),
                            None => None,
                        })),
                        vars,
                    ),
                    _ => BOut::Fails(rest, ErrClass::WrongType),
                }
            },
        },
        Builtin::IsStr => type_test(st, vars, |v: ValueV| v is Str),
        Builtin::IsNum => type_test(st, vars, |v: ValueV| v is Num),
        Builtin::IsBool => type_test(st, vars, |v: ValueV| v is Bool),
        Builtin::IsArray => type_test(st, vars, |v: ValueV| v is Array),
        Builtin::IsMap => type_test(st, vars, |v: ValueV| v is Mapping),
        Builtin::IsOption => type_test(st, vars, |v: ValueV| v is Option),
        Builtin::IsResult => if st.len() == 0 {
            BOut::Fails(st, ErrClass::Missing)
        } else {
            match st.last() {
                ValueV::Result(ok, _) => BOut::Done(st.drop_last().push(ValueV::Bool(ok)), vars),
                _ => BOut::Fails(st.drop_last(), ErrClass::WrongType),
            }
        },
        _ => BOut::Done(st, vars),
    }
}

/// Whether a builtin only works on the stack and the variables (the others
/// talk to the host, format text or run a closure).
pub open spec fn is_pure(b: Builtin) -> bool {
    !(b is Print || b is Exit || b is Argv || b is Sh || b is WriteTo || b is Apply || b is Format
        || b is DebugStack || b is DebugVars || b is DebugArgs || b is DebugFns)
}

// ---------------------------------------------------------------------------
// `%%`

/// What `%%` gives: the text and the stack left, or the failure, its class,
/// the stack left and what went wrong.
pub enum FmtV {
    Text(Seq<char>, Seq<ValueV>),
    Fail(ErrClass, Seq<ValueV>, FmtErr),
}

/// What went wrong in `%%`: no value for the directive, a value of another
/// type for it (the value taken), or a directive that does not exist.
pub enum FmtErr {
    Missing(char),
    Wrong(ValueV, char),
    Unknown(char),
}

/// Whether the error `e` of `%%` on the format `f` says what `d` says.
pub open spec fn fmt_err_is(e: RuntimeErrorKind, f: Seq<char>, d: FmtErr) -> bool {
    match d {
        FmtErr::Missing(ch) => e matches RuntimeErrorKind::MissingValue(x, y) && x@ == f && y == ch,
        FmtErr::Wrong(v, ch) => e matches RuntimeErrorKind::WrongValueType(x, w, y) && x@ == f && w@ == v && y == ch,
        FmtErr::Unknown(ch) => e matches RuntimeErrorKind::UnknownStringFormat(x, y) && x@ == f && y == ch,
    }
}

/// The text that `derive(Debug)` writes for a value, as `format!("{:?}")`
/// gives it.
pub uninterp spec fn debug_of(v: ValueV) -> Seq<char>;

/// What `%v` writes when the stack is empty.
pub open spec fn nothing_text() -> Seq<char> {
    "<Nothing in stack>"@
}

/// Formats the rest `f` of a format string (`on_fmt` after a `%`), with text
/// `out` so far and stack `st`: `%%` is `%`, `%s` a string, `%d` a number,
/// `%b` a boolean and `%v` any value by its debugging text, each popped from
/// the stack; `%v` on an empty stack writes [`nothing_text`].
pub open spec fn fmt_spec(f: Seq<char>, on_fmt: bool, out: Seq<char>, st: Seq<ValueV>) -> FmtV
    decreases f.len(),
{
    if f.len() == 0 {
        FmtV::Text(out, st)
    } else {
        let c = f[0];
        let rest = f.drop_first();
        if !on_fmt {
            if c == '%' {
                fmt_spec(rest, true, out, st)
            } else {
                fmt_spec(rest, false, out.push(c), st)
            }
        } else if c == '%' {
            fmt_spec(rest, false, out.push('%'), st)
        } else if c == 's' {
            if st.len() == 0 {
                FmtV::Fail(ErrClass::FormatMissing, st, FmtErr::Missing('s'))
            } else if !(st.last() is Str) {
                FmtV::Fail(ErrClass::FormatWrongType, st.drop_last(), FmtErr::Wrong(st.last(), 's'))
            } else {
                fmt_spec(rest, false, out + st.last()->Str_0, st.drop_last())
            }
        } else if c == 'd' {
            if st.len() == 0 {
                FmtV::Fail(ErrClass::FormatMissing, st, FmtErr::Missing('d'))
            } else if !(st.last() is Num) {
                FmtV::Fail(ErrClass::FormatWrongType, st.drop_last(), FmtErr::Wrong(st.last(), 'd'))
            } else {
                fmt_spec(rest, false, out + decimal(st.last()->Num_0 as int), st.drop_last())
            }
        } else if c == 'b' {
            if st.len() == 0 {
                FmtV::Fail(ErrClass::FormatMissing, st, FmtErr::Missing('b'))
            } else if !(st.last() is Bool) {
                FmtV::Fail(ErrClass::FormatWrongType, st.drop_last(), FmtErr::Wrong(st.last(), 'b'))
            } else {
                fmt_spec(
                    rest,
                    false,
                    out + (if st.last()->Bool_0 { "true"@ } else { "false"@ }),
                    st.drop_last(),
                )
            }
        } else if c == 'v' {
            if st.len() == 0 {
                fmt_spec(rest, false, out + nothing_text(), st)
            } else {
                fmt_spec(rest, false, out + debug_of(st.last()), st.drop_last())
            }
        } else {
            FmtV::Fail(ErrClass::UnknownFormat, st, FmtErr::Unknown(c))
        }
    }
}

} // verus!

verus! {

// ---------------------------------------------------------------------------
// Running the builtins that only work on the stack and the variables

/// The kind of failure an error reports, for the errors builtins give.
pub open spec fn class_of(e: RuntimeErrorKind) -> Option<ErrClass> {
    match e {
        RuntimeErrorKind::MissingValueForBuiltin { .. } => Some(ErrClass::Missing),
        RuntimeErrorKind::WrongTypeForBuiltin { .. } => Some(ErrClass::WrongType),
        RuntimeErrorKind::Compare { .. } => Some(ErrClass::Compare),
        RuntimeErrorKind::NoSuchVariable(_) => Some(ErrClass::NoVariable),
        RuntimeErrorKind::UnwrapResultBuiltinFailed { .. } => Some(ErrClass::UnwrapResult),
        RuntimeErrorKind::UnwrapOptionBuiltinFailed => Some(ErrClass::UnwrapOption),
        RuntimeErrorKind::Arithmetic { .. } => Some(ErrClass::Arithmetic),
        RuntimeErrorKind::MissingValuesForBuiltin { .. } => Some(ErrClass::MissingValues),
        RuntimeErrorKind::UnknownStringFormat(..) => Some(ErrClass::UnknownFormat),
        RuntimeErrorKind::MissingValue(..) => Some(ErrClass::FormatMissing),
        RuntimeErrorKind::WrongValueType(..) => Some(ErrClass::FormatWrongType),
        _ => None,
    }
}

/// Whether a builtin's result, stack and variables are those its model
/// gives; `vars0` are the variables before it ran.
pub open spec fn outcome_holds(
    o: BOut,
    r: Result<(), RuntimeErrorKind>,
    st: Seq<ValueV>,
    vars: Seq<(Seq<char>, ValueV)>,
    vars0: Seq<(Seq<char>, ValueV)>,
) -> bool {
    match o {
        BOut::Done(s, v) => r is Ok && st == s && vars == v,
        BOut::Fails(s, c) => (r matches Err(e) && class_of(e) == Some(c)) && st == s && vars == vars0,
    }
}

/// `[name: type]`, the argument list an error names.
fn arg_text(this_arg: &str, ty: &str) -> (r: String)
    ensures
        r@ == seq!['['] + this_arg@ + seq![':', ' '] + ty@ + seq![']'],
{
    let a = crate::text::chars_of(this_arg);
    let t = crate::text::chars_of(ty);
    let mut out: Vec<char> = Vec::new();
    out.push('[');
    let mut i: usize = 0;
    while i < a.len()
        invariant
            i <= a@.len(),
            out@ == seq!['['] + a@.take(i as int),
        decreases a@.len() - i,
    {
        out.push(a[i]);
        proof {
            assert(a@.take(i + 1) =~= a@.take(i as int).push(a@[i as int]));
        }
        i += 1;
    }
    assert(a@.take(a@.len() as int) =~= a@);
    out.push(':');
    out.push(' ');
    let ghost mid = out@;
    let mut j: usize = 0;
    while j < t.len()
        invariant
            j <= t@.len(),
            out@ == mid + t@.take(j as int),
        decreases t@.len() - j,
    {
        out.push(t[j]);
        proof {
            assert(t@.take(j + 1) =~= t@.take(j as int).push(t@[j as int]));
        }
        j += 1;
    }
    assert(t@.take(t@.len() as int) =~= t@);
    out.push(']');
    proof {
        assert(out@ =~= seq!['['] + this_arg@ + seq![':', ' '] + ty@ + seq![']']);
    }
    crate::text::string_of(out.as_slice())
}

/// The error for a missing argument.
pub(crate) fn missing(f: &String, this_arg: &'static str, ty: &'static str) -> (r: RuntimeErrorKind)
    ensures
        class_of(r) == Some(ErrClass::Missing),
{
    RuntimeErrorKind::MissingValueForBuiltin { for_fn: f.clone(), args: arg_text(this_arg, ty), this_arg }
}

/// The error for an argument of the wrong type.
pub(crate) fn wrong(f: &String, this_arg: &'static str, ty: &'static str, got: Value) -> (r: RuntimeErrorKind)
    ensures
        class_of(r) == Some(ErrClass::WrongType),
{
    RuntimeErrorKind::WrongTypeForBuiltin { for_fn: f.clone(), args: ty, this_arg, got: Box::new(got), expected: ty }
}

/// The error for an integer result that does not fit.
fn overflow(f: &String) -> (r: RuntimeErrorKind)
    ensures
        class_of(r) == Some(ErrClass::Arithmetic),
{
    RuntimeErrorKind::Arithmetic { for_fn: f.clone() }
}

/// Pops a number argument.
pub(crate) fn pop_num_arg(st: &mut Stack, f: &String, this_arg: &'static str) -> (r: Result<isize, RuntimeErrorKind>)
    ensures
        match pop_num(old(st)@) {
            Ok((n, s)) => r == Ok::<isize, RuntimeErrorKind>(n as isize) && final(st)@ == s,
            Err((s, c)) => (r matches Err(e) && class_of(e) == Some(c)) && final(st)@ == s,
        },
{
    proof {
        lemma_values_view(st.0@);
    }
    match st.pop() {
        None => Err(missing(f, this_arg, "Number")),
        Some(Value::Num(n)) => Ok(n),
        Some(v) => Err(wrong(f, this_arg, "Number", v)),
    }
}

/// Pops a string argument.
pub(crate) fn pop_str_arg(st: &mut Stack, f: &String, this_arg: &'static str) -> (r: Result<String, RuntimeErrorKind>)
    ensures
        match pop_str(old(st)@) {
            Ok((x, s)) => (r matches Ok(y) && y@ == x) && final(st)@ == s,
            Err((s, c)) => (r matches Err(e) && class_of(e) == Some(c)) && final(st)@ == s,
        },
{
    proof {
        lemma_values_view(st.0@);
    }
    match st.pop() {
        None => Err(missing(f, this_arg, "String")),
        Some(Value::Str(x)) => Ok(x),
        Some(v) => Err(wrong(f, this_arg, "String", v)),
    }
}

/// Pops an array argument.
pub(crate) fn pop_arr_arg(st: &mut Stack, f: &String, this_arg: &'static str) -> (r: Result<Vec<Value>, RuntimeErrorKind>)
    ensures
        match pop_arr(old(st)@) {
            Ok((x, s)) => (r matches Ok(y) && values_view(y@) == x) && final(st)@ == s,
            Err((s, c)) => (r matches Err(e) && class_of(e) == Some(c)) && final(st)@ == s,
        },
{
    proof {
        lemma_values_view(st.0@);
    }
    match st.pop() {
        None => Err(missing(f, this_arg, "Array")),
        Some(Value::Array(x)) => Ok(x),
        Some(v) => Err(wrong(f, this_arg, "Array", v)),
    }
}

/// Pops an argument of any type.
pub(crate) fn pop_any_arg(st: &mut Stack, f: &String, this_arg: &'static str) -> (r: Result<Value, RuntimeErrorKind>)
    ensures
        match pop_any(old(st)@) {
            Ok((x, s)) => (r matches Ok(y) && y@ == x) && final(st)@ == s,
            Err((s, c)) => (r matches Err(e) && class_of(e) == Some(c)) && final(st)@ == s,
        },
{
    proof {
        lemma_values_view(st.0@);
    }
    match st.pop() {
        None => Err(missing(f, this_arg, "Any")),
        Some(v) => Ok(v),
    }
}

/// `-`, `*` and `%`.
fn bi_arith(b: Builtin, st: &mut Stack, vars: &mut ValueMap, f: &String) -> (r: Result<(), RuntimeErrorKind>)
    requires
        b is Sub || b is Mul || b is Rem,
    ensures
        outcome_holds(builtin_spec(b, old(st)@, old(vars)@), r, final(st)@, final(vars)@, old(vars)@),
{
    let rhs = match pop_num_arg(st, f, "rhs") {
        Ok(n) => n,
        Err(e) => return Err(e),
    };
    let ghost s1 = st@;
    let lhs = match pop_num_arg(st, f, "lhs") {
        Ok(n) => n,
        Err(e) => return Err(e),
    };
    assert(pop2_num(old(st)@) == Ok::<(int, int, Seq<ValueV>), (Seq<ValueV>, ErrClass)>((lhs as int, rhs as int, st@)));
    let x = match b {
        Builtin::Sub => lhs.checked_sub(rhs),
        Builtin::Mul => lhs.checked_mul(rhs),
        _ => {
            if rhs == 0 || (lhs == isize::MIN && rhs == -1) {
                None
            } else {
                let a: i128 = lhs as i128;
                let d: i128 = rhs as i128;
                let aa: i128 = if a < 0 { -a } else { a };
                let dd: i128 = if d < 0 { -d } else { d };
                let m: i128 = aa % dd;
                let v: i128 = if a < 0 { -m } else { m };
                assert(v == trunc_rem(lhs as int, rhs as int));
                assert(0 <= m < dd);
                Some(v as isize)
            }
        },
    };
    match x {
        Some(v) => {
            st.push(Value::Num(v));
            Ok(())
        },
        None => Err(overflow(f)),
    }
}

/// `≃`, `=` and `>`.
fn bi_compare(b: Builtin, st: &mut Stack, vars: &mut ValueMap, f: &String) -> (r: Result<(), RuntimeErrorKind>)
    requires
        b is LooseEq || b is StrictEq || b is Greater,
    ensures
        outcome_holds(builtin_spec(b, old(st)@, old(vars)@), r, final(st)@, final(vars)@, old(vars)@),
{
    let rhs = match pop_any_arg(st, f, "rhs") {
        Ok(v) => v,
        Err(e) => return Err(e),
    };
    let lhs = match pop_any_arg(st, f, "lhs") {
        Ok(v) => v,
        Err(e) => return Err(e),
    };
    let res: Option<bool> = match b {
        Builtin::LooseEq => match (&lhs, &rhs) {
            (Value::Char(l), Value::Char(r)) => Some(*l == *r),
            (Value::Num(l), Value::Num(r)) => Some(*l == *r),
            (Value::Str(l), Value::Str(r)) => Some(crate::text::string_eq(l, r)),
            (Value::Bool(l), Value::Bool(r)) => Some(*l == *r),
            (Value::Array(_), _) => None,
            (_, Value::Array(_)) => None,
            (Value::Mapping(_), _) => None,
            (_, Value::Mapping(_)) => None,
            (_, _) => Some(false),
        },
        Builtin::StrictEq => match (&lhs, &rhs) {
            (Value::Char(l), Value::Char(r)) => Some(*l == *r),
            (Value::Num(l), Value::Num(r)) => Some(*l == *r),
            (Value::Str(l), Value::Str(r)) => Some(crate::text::string_eq(l, r)),
            (Value::Bool(l), Value::Bool(r)) => Some(*l == *r),
            (_, _) => None,
        },
        _ => match (&lhs, &rhs) {
            (Value::Num(l), Value::Num(r)) => Some(*l > *r),
            (Value::Str(l), Value::Str(r)) => Some(str_gt(l, r)),
            (Value::Bool(l), Value::Bool(r)) => Some(*l && !*r),
            (_, _) => None,
        },
    };
    match res {
        Some(e) => {
            st.push(Value::Bool(e));
            Ok(())
        },
        None => Err(RuntimeErrorKind::Compare { this: lhs, that: rhs }),
    }
}

/// Whether string `a` sorts after string `b`.
pub fn str_gt(a: &String, b: &String) -> (r: bool)
    ensures
        r == seq_gt(a@, b@),
{
    let x = crate::text::chars_of_string(a);
    let y = crate::text::chars_of_string(b);
    let mut i: usize = 0;
    proof {
        assert(x@.skip(0) =~= x@);
        assert(y@.skip(0) =~= y@);
    }
    while i < x.len() && i < y.len() && x[i] == y[i]
        invariant
            i <= x@.len(),
            i <= y@.len(),
            seq_gt(x@, y@) == seq_gt(x@.skip(i as int), y@.skip(i as int)),
        decreases x@.len() - i,
    {
        proof {
            assert(x@.skip(i as int).drop_first() =~= x@.skip(i + 1));
            assert(y@.skip(i as int).drop_first() =~= y@.skip(i + 1));
        }
        i += 1;
    }
    if i == x.len() {
        false
    } else if i == y.len() {
        true
    } else {
        x[i] > y[i]
    }
}

} // verus!

verus! {

/// The spec of a builtin holds for the result, given the stack and
/// variables before and after.
pub open spec fn runs_as(
    b: Builtin,
    st0: Seq<ValueV>,
    vars0: Seq<(Seq<char>, ValueV)>,
    r: Result<(), RuntimeErrorKind>,
    st: Seq<ValueV>,
    vars: Seq<(Seq<char>, ValueV)>,
) -> bool {
    outcome_holds(builtin_spec(b, st0, vars0), r, st, vars, vars0)
}

proof fn lemma_values_view_reverse(s: Seq<Value>)
    ensures
        values_view(s.reverse()) == values_view(s).reverse(),
{
    lemma_values_view(s);
    lemma_values_view(s.reverse());
    assert(values_view(s.reverse()) =~= values_view(s).reverse());
}

/// Builtins that push a value made from nothing or from one popped value:
/// `none`, `some`, `ok`, `err`, `arr$new`, `map$new`, `stack$len`.
fn bi_make(b: Builtin, st: &mut Stack, vars: &mut ValueMap, f: &String) -> (r: Result<(), RuntimeErrorKind>)
    requires
        b is MakeNone || b is MakeSome || b is MakeOk || b is MakeErr || b is ArrNew || b is MapNew
            || b is StackLen,
    ensures
        runs_as(b, old(st)@, old(vars)@, r, final(st)@, final(vars)@),
{
    match b {
        Builtin::MakeNone => {
            st.push(Value::Option(None));
            Ok(())
        },
        Builtin::ArrNew => {
            st.push(Value::Array(Vec::new()));
            assert(values_view(Seq::<Value>::empty()) =~= Seq::<ValueV>::empty());
            Ok(())
        },
        Builtin::MapNew => {
            st.push(Value::Mapping(ValueMap::new()));
            Ok(())
        },
        Builtin::StackLen => {
            let n = st.len();
            if n <= isize::MAX as usize {
                st.push(Value::Num(n as isize));
                Ok(())
            } else {
                Err(overflow(f))
            }
        },
        _ => {
            let v = match pop_any_arg(st, f, "value") {
                Ok(v) => v,
                Err(e) => return Err(e),
            };
            match b {
                Builtin::MakeSome => st.push(Value::Option(Some(Box::new(v)))),
                Builtin::MakeOk => st.push(Value::Result(Box::new(Ok(v)))),
                _ => st.push(Value::Result(Box::new(Err(v)))),
            }
            Ok(())
        },
    }
}

/// `set` and `get`.
fn bi_vars(b: Builtin, st: &mut Stack, vars: &mut ValueMap, f: &String) -> (r: Result<(), RuntimeErrorKind>)
    requires
        b is SetVar || b is GetVar,
    ensures
        runs_as(b, old(st)@, old(vars)@, r, final(st)@, final(vars)@),
{
    let name = match pop_str_arg(st, f, "name") {
        Ok(n) => n,
        Err(e) => return Err(e),
    };
    match b {
        Builtin::SetVar => {
            let value = match pop_any_arg(st, f, "value") {
                Ok(v) => v,
                Err(e) => return Err(e),
            };
            vars.insert(name, value);
            Ok(())
        },
        _ => {
            match vars.get(&name) {
                Some(v) => {
                    let c = clone_value(v);
                    st.push(c);
                    Ok(())
                },
                None => Err(RuntimeErrorKind::NoSuchVariable(name)),
            }
        },
    }
}

/// `!`: unwraps a result or an option.
fn bi_unwrap(st: &mut Stack, vars: &mut ValueMap, f: &String) -> (r: Result<(), RuntimeErrorKind>)
    ensures
        runs_as(Builtin::Unwrap, old(st)@, old(vars)@, r, final(st)@, final(vars)@),
{
    let may = match pop_any_arg(st, f, "Monad") {
        Ok(v) => v,
        Err(e) => return Err(e),
    };
    match may {
        Value::Result(x) => match *x {
            Ok(o) => {
                st.push(o);
                Ok(())
            },
            Err(error) => Err(RuntimeErrorKind::UnwrapResultBuiltinFailed { error }),
        },
        Value::Option(o) => match o {
            Some(x) => {
                st.push(*x);
                Ok(())
            },
            None => Err(RuntimeErrorKind::UnwrapOptionBuiltinFailed),
        },
        e => Err(wrong(f, "Monad", "Result or Option", e)),
    }
}

/// `&result$is-ok` and `&option$is-some`: test the top value in place.
fn bi_peek_test(b: Builtin, st: &mut Stack, vars: &mut ValueMap, f: &String) -> (r: Result<(), RuntimeErrorKind>)
    requires
        b is IsOk || b is IsSome,
    ensures
        runs_as(b, old(st)@, old(vars)@, r, final(st)@, final(vars)@),
{
    proof {
        lemma_values_view(st.0@);
    }
    let t: Result<bool, RuntimeErrorKind> = match st.top() {
        None => Err(missing(f, "value", "Result or Option")),
        Some(v) => match (b, v) {
            (Builtin::IsOk, Value::Result(x)) => Ok(x.is_ok()),
            (Builtin::IsSome, Value::Option(o)) => Ok(o.is_some()),
            (_, v) => Err(wrong(f, "value", "Result or Option", clone_value(v))),
        },
    };
    match t {
        Ok(x) => {
            st.push(Value::Bool(x));
            Ok(())
        },
        Err(e) => Err(e),
    }
}

/// `type$is-...`: pops a value and pushes whether it has the type.
fn bi_type_test(b: Builtin, st: &mut Stack, vars: &mut ValueMap, f: &String) -> (r: Result<(), RuntimeErrorKind>)
    requires
        b is IsStr || b is IsNum || b is IsBool || b is IsArray || b is IsMap || b is IsOption
            || b is IsResult,
    ensures
        runs_as(b, old(st)@, old(vars)@, r, final(st)@, final(vars)@),
{
    proof {
        lemma_values_view(st.0@);
    }
    if b == Builtin::IsResult {
        let v = match pop_any_arg(st, f, "value") {
            Ok(v) => v,
            Err(e) => return Err(e),
        };
        return match v {
            Value::Result(x) => {
                st.push(Value::Bool(x.is_ok()));
                Ok(())
            },
            v => Err(wrong(f, "value", "Result", v)),
        };
    }
    let t = match st.pop() {
        None => false,
        Some(v) => match (b, v) {
            (Builtin::IsStr, Value::Str(_)) => true,
            (Builtin::IsNum, Value::Num(_)) => true,
            (Builtin::IsBool, Value::Bool(_)) => true,
            (Builtin::IsArray, Value::Array(_)) => true,
            (Builtin::IsMap, Value::Mapping(_)) => true,
            (Builtin::IsOption, Value::Option(_)) => true,
            (_, _) => false,
        },
    };
    st.push(Value::Bool(t));
    Ok(())
}

/// The string builtins: `&str$has-prefix`, `str$trim`,
/// `str$remove-prefix`, `str$into-arr`.
fn bi_string(b: Builtin, st: &mut Stack, vars: &mut ValueMap, f: &String) -> (r: Result<(), RuntimeErrorKind>)
    requires
        b is HasPrefix || b is Trim || b is RemovePrefix || b is IntoArr,
    ensures
        runs_as(b, old(st)@, old(vars)@, r, final(st)@, final(vars)@),
{
    match b {
        Builtin::HasPrefix => {
            let prefix = match pop_str_arg(st, f, "prefix") {
                Ok(p) => p,
                Err(e) => return Err(e),
            };
            proof {
                lemma_values_view(st.0@);
            }
            let has = match st.top() {
                None => return Err(missing(f, "string", "String")),
                Some(Value::Str(s)) => {
                    let cs = crate::text::chars_of_string(s);
                    let ps = crate::text::chars_of_string(&prefix);
                    crate::text::starts_with(cs.as_slice(), ps.as_slice())
                },
                Some(v) => return Err(wrong(f, "string", "String", clone_value(v))),
            };
            st.push(Value::Bool(has));
            Ok(())
        },
        Builtin::Trim => {
            let s = match pop_str_arg(st, f, "string") {
                Ok(p) => p,
                Err(e) => return Err(e),
            };
            let cs = crate::text::chars_of_string(&s);
            let t = crate::text::trim_chars(cs.as_slice());
            st.push(Value::Str(crate::text::string_of(t.as_slice())));
            Ok(())
        },
        Builtin::RemovePrefix => {
            let prefix = match pop_str_arg(st, f, "prefix") {
                Ok(p) => p,
                Err(e) => return Err(e),
            };
            let s = match pop_str_arg(st, f, "string") {
                Ok(p) => p,
                Err(e) => return Err(e),
            };
            let cs = crate::text::chars_of_string(&s);
            let ps = crate::text::chars_of_string(&prefix);
            if crate::text::starts_with(cs.as_slice(), ps.as_slice()) {
                let rest = crate::text::copy_range(cs.as_slice(), ps.len(), cs.len());
                proof {
                    assert(rest@ =~= s@.skip(prefix@.len() as int));
                }
                st.push(Value::Str(crate::text::string_of(rest.as_slice())));
            } else {
                st.push(Value::Str(s));
            }
            Ok(())
        },
        _ => {
            let s = match pop_str_arg(st, f, "string") {
                Ok(p) => p,
                Err(e) => return Err(e),
            };
            let cs = crate::text::chars_of_string(&s);
            let mut out: Vec<Value> = Vec::new();
            let mut i: usize = 0;
            while i < cs.len()
                invariant
                    i <= cs@.len(),
                    values_view(out@) == chars_values(cs@.take(i as int)),
                decreases cs@.len() - i,
            {
                let v = char_value(cs[i]);
                let ghost o = out@;
                out.push(v);
                proof {
                    lemma_values_view_push(o, v);
                    assert(cs@.take(i + 1).drop_last() =~= cs@.take(i as int));
                }
                i += 1;
            }
            assert(cs@.take(cs@.len() as int) =~= cs@);
            st.push(Value::Array(out));
            Ok(())
        },
    }
}

} // verus!
verus! {
fn char_value(c: char) -> (v: Value)
    ensures
        v == Value::Char(c),
{
    Value::Char(c)
}

}

verus! {

/// The array builtins.
fn bi_array(b: Builtin, st: &mut Stack, vars: &mut ValueMap, f: &String) -> (r: Result<(), RuntimeErrorKind>)
    requires
        b is ArrLen || b is ArrReverse || b is ArrUnpack || b is ArrPackN || b is ArrAppend
            || b is ArrJoin || b is ArrPop,
    ensures
        runs_as(b, old(st)@, old(vars)@, r, final(st)@, final(vars)@),
{
    proof {
        lemma_values_view(st.0@);
    }
    match b {
        Builtin::ArrLen => {
            let n = match st.top() {
                None => return Err(missing(f, "array", "Array")),
                Some(Value::Array(xs)) => {
                    proof {
                        lemma_values_view(xs@);
                    }
                    xs.len()
                },
                Some(v) => return Err(wrong(f, "array", "Array", clone_value(v))),
            };
            if n <= isize::MAX as usize {
                st.push(Value::Num(n as isize));
                Ok(())
            } else {
                Err(overflow(f))
            }
        },
        Builtin::ArrReverse => {
            let xs = match pop_arr_arg(st, f, "arr") {
                Ok(x) => x,
                Err(e) => return Err(e),
            };
            proof {
                lemma_values_view_reverse(xs@);
            }
            st.push(Value::Array(reverse_vec(xs)));
            Ok(())
        },
        Builtin::ArrUnpack => {
            let xs = match pop_arr_arg(st, f, "arr") {
                Ok(x) => x,
                Err(e) => return Err(e),
            };
            proof {
                lemma_values_view(xs@);
            }
            let n = xs.len();
            st.pushn(xs);
            if n <= isize::MAX as usize {
                st.push(Value::Num(n as isize));
                Ok(())
            } else {
                Err(overflow(f))
            }
        },
        Builtin::ArrPackN => {
            let count = match pop_num_arg(st, f, "count") {
                Ok(n) => n,
                Err(e) => return Err(e),
            };
            let got = st.len();
            if count < 0 || count as usize > got {
                let g: isize = if got <= isize::MAX as usize { got as isize } else { isize::MAX };
                return Err(RuntimeErrorKind::MissingValuesForBuiltin {
                    for_fn: f.clone(),
                    args: "[n, [n]]",
                    missing: count.wrapping_sub(g),
                });
            }
            match st.popn(count as usize) {
                Some(xs) => {
                    st.push(Value::Array(xs));
                    Ok(())
                },
                None => Err(RuntimeErrorKind::MissingValuesForBuiltin {
                    for_fn: f.clone(),
                    args: "[n, [n]]",
                    missing: 0,
                }),
            }
        },
        Builtin::ArrAppend => {
            let mut xs = match pop_arr_arg(st, f, "array") {
                Ok(x) => x,
                Err(e) => return Err(e),
            };
            let v = match pop_any_arg(st, f, "value") {
                Ok(v) => v,
                Err(e) => return Err(e),
            };
            proof {
                lemma_values_view_push(xs@, v);
            }
            xs.push(v);
            st.push(Value::Array(xs));
            Ok(())
        },
        Builtin::ArrJoin => {
            let sep = match pop_str_arg(st, f, "joiner") {
                Ok(x) => x,
                Err(e) => return Err(e),
            };
            let xs = match pop_arr_arg(st, f, "array") {
                Ok(x) => x,
                Err(e) => return Err(e),
            };
            match join_values(&xs, &sep) {
                Some(j) => {
                    st.push(Value::Str(j));
                    Ok(())
                },
                None => Err(wrong(f, "array", "String array", Value::Array(xs))),
            }
        },
        _ => {
            let mut xs = match pop_arr_arg(st, f, "array") {
                Ok(x) => x,
                Err(e) => return Err(e),
            };
            proof {
                lemma_values_view(xs@);
                if xs@.len() > 0 {
                    assert(xs@.drop_last() =~= xs@.take(xs@.len() - 1));
                    crate::internals::lemma_values_view_take(xs@, xs@.len() - 1);
                    assert(values_view(xs@).take(xs@.len() - 1) =~= values_view(xs@).drop_last());
                }
            }
            let v = xs.pop();
            st.push(Value::Array(xs));
            match v {
                Some(x) => st.push(Value::Option(Some(Box::new(x)))),
                None => st.push(Value::Option(None)),
            }
            Ok(())
        },
    }
}

/// The strings of an array joined by `sep`; `None` when an element is not a
/// string.
fn join_values(xs: &Vec<Value>, sep: &String) -> (r: Option<String>)
    ensures
        match join_strs(values_view(xs@), sep@) {
            Some(j) => r matches Some(s) && s@ == j,
            None => r is None,
        },
{
    let sp = crate::text::chars_of_string(sep);
    let mut out: Vec<char> = Vec::new();
    let mut i: usize = 0;
    proof {
        lemma_values_view(xs@);
    }
    while i < xs.len()
        invariant
            i <= xs@.len(),
            sp@ == sep@,
            values_view(xs@).len() == xs@.len(),
            forall|k: int| 0 <= k < xs@.len() ==> #[trigger] values_view(xs@)[k] == value_view(xs@[k]),
            join_strs(values_view(xs@).take(i as int), sep@) == Some(out@),
        decreases xs@.len() - i,
    {
        let ghost pre = values_view(xs@).take(i as int);
        let ghost next = values_view(xs@).take(i + 1);
        proof {
            assert(next.drop_last() =~= pre);
            assert(next.last() == value_view(xs@[i as int]));
        }
        match &xs[i] {
            Value::Str(s) => {
                let cs = crate::text::chars_of_string(s);
                if i > 0 {
                    let mut k: usize = 0;
                    let ghost o = out@;
                    while k < sp.len()
                        invariant
                            k <= sp@.len(),
                            out@ == o + sp@.take(k as int),
                        decreases sp@.len() - k,
                    {
                        out.push(sp[k]);
                        proof {
                            assert(sp@.take(k + 1) =~= sp@.take(k as int).push(sp@[k as int]));
                        }
                        k += 1;
                    }
                    assert(sp@.take(sp@.len() as int) =~= sp@);
                }
                let ghost o2 = out@;
                let mut k: usize = 0;
                while k < cs.len()
                    invariant
                        k <= cs@.len(),
                        out@ == o2 + cs@.take(k as int),
                    decreases cs@.len() - k,
                {
                    out.push(cs[k]);
                    proof {
                        assert(cs@.take(k + 1) =~= cs@.take(k as int).push(cs@[k as int]));
                    }
                    k += 1;
                }
                proof {
                    assert(cs@.take(cs@.len() as int) =~= cs@);
                    if i == 0 {
                        assert(pre.len() == 0);
                        assert(out@ =~= s@);
                    } else {
                        assert(out@ =~= o2 + s@);
                    }
                }
            },
            _ => {
                proof {
                    assert(join_strs(next, sep@) is None);
                    if join_strs(values_view(xs@), sep@) is Some {
                        lemma_join_prefix(values_view(xs@), sep@, i + 1);
                    }
                }
                return None;
            },
        }
        i += 1;
    }
    assert(values_view(xs@).take(xs@.len() as int) =~= values_view(xs@));
    Some(crate::text::string_of(out.as_slice()))
}

/// A join that succeeds on a list succeeds on each of its prefixes.
proof fn lemma_join_prefix(xs: Seq<ValueV>, sep: Seq<char>, k: int)
    requires
        0 <= k <= xs.len(),
        join_strs(xs, sep) is Some,
    ensures
        join_strs(xs.take(k), sep) is Some,
    decreases xs.len() - k,
{
    if k < xs.len() {
        assert(xs.drop_last().len() == xs.len() - 1);
        lemma_join_prefix(xs.drop_last(), sep, k);
        assert(xs.drop_last().take(k) =~= xs.take(k));
    } else {
        assert(xs.take(k) =~= xs);
    }
}

/// The map builtins `map$insert-kv` and `map$get`.
fn bi_map(b: Builtin, st: &mut Stack, vars: &mut ValueMap, f: &String) -> (r: Result<(), RuntimeErrorKind>)
    requires
        b is MapInsert || b is MapGet,
    ensures
        runs_as(b, old(st)@, old(vars)@, r, final(st)@, final(vars)@),
{
    match b {
        Builtin::MapInsert => {
            let value = match pop_any_arg(st, f, "value") {
                Ok(x) => x,
                Err(e) => return Err(e),
            };
            let key = match pop_str_arg(st, f, "key") {
                Ok(x) => x,
                Err(e) => return Err(e),
            };
            proof {
                lemma_values_view(st.0@);
            }
            match st.pop() {
                None => Err(missing(f, "map", "Map")),
                Some(Value::Mapping(mut m)) => {
                    m.insert(key, value);
                    st.push(Value::Mapping(m));
                    Ok(())
                },
                Some(v) => Err(wrong(f, "map", "Map", v)),
            }
        },
        _ => {
            let key = match pop_str_arg(st, f, "key") {
                Ok(x) => x,
                Err(e) => return Err(e),
            };
            proof {
                lemma_values_view(st.0@);
            }
            let got = match st.top() {
                None => return Err(missing(f, "map", "Map")),
                Some(Value::Mapping(m)) => match m.get(&key) {
                    Some(v) => Some(Box::new(clone_value(v))),
                    None => None,
                },
                Some(v) => return Err(wrong(f, "map", "Map", clone_value(v))),
            };
            st.push(Value::Option(got));
            Ok(())
        },
    }
}

/// Runs a builtin that only works on the stack and the variables.
pub fn run_pure_builtin(b: Builtin, st: &mut Stack, vars: &mut ValueMap, f: &String) -> (r: Result<(), RuntimeErrorKind>)
    requires
        is_pure(b),
    ensures
        runs_as(b, old(st)@, old(vars)@, r, final(st)@, final(vars)@),
{
    match b {
        Builtin::Sub | Builtin::Mul | Builtin::Rem => bi_arith(b, st, vars, f),
        Builtin::LooseEq | Builtin::StrictEq | Builtin::Greater => bi_compare(b, st, vars, f),
        Builtin::MakeNone | Builtin::MakeSome | Builtin::MakeOk | Builtin::MakeErr | Builtin::ArrNew
        | Builtin::MapNew | Builtin::StackLen => bi_make(b, st, vars, f),
        Builtin::SetVar | Builtin::GetVar => bi_vars(b, st, vars, f),
        Builtin::Unwrap => bi_unwrap(st, vars, f),
        Builtin::IsOk | Builtin::IsSome => bi_peek_test(b, st, vars, f),
        Builtin::IsStr | Builtin::IsNum | Builtin::IsBool | Builtin::IsArray | Builtin::IsMap
        | Builtin::IsOption | Builtin::IsResult => bi_type_test(b, st, vars, f),
        Builtin::HasPrefix | Builtin::Trim | Builtin::RemovePrefix | Builtin::IntoArr => bi_string(
            b,
            st,
            vars,
            f,
        ),
        Builtin::MapInsert | Builtin::MapGet => bi_map(b, st, vars, f),
        _ => bi_array(b, st, vars, f),
    }
}

} // verus!

verus! {

/// std's `format!("{:?}", v)`: the text that `derive(Debug)` writes for a
/// value of any type. Nothing is stated of the text.
#[verifier::external_body]
pub(crate) fn debug_text<T: std::fmt::Debug + ?Sized>(v: &T) -> String {
    format!("{:?}", v)
}

/// std's `format!("{:?}", v)` on a script value: the text that
/// `derive(Debug)` writes for it, which hangs on the value alone; it is
/// named [`debug_of`].
#[verifier::external_body]
pub(crate) fn value_debug_text(v: &Value) -> (r: String)
    ensures
        r@ == debug_of(v@),
{
    format!("{:?}", v)
}

/// Appends the characters of `s` to `out`.
fn push_all(out: &mut Vec<char>, s: &[char])
    ensures
        final(out)@ == old(out)@ + s@,
{
    let mut k: usize = 0;
    while k < s.len()
        invariant
            k <= s@.len(),
            out@ == old(out)@ + s@.take(k as int),
        decreases s@.len() - k,
    {
        out.push(s[k]);
        proof {
            assert(s@.take(k + 1) =~= s@.take(k as int).push(s@[k as int]));
        }
        k += 1;
    }
    assert(s@.take(s@.len() as int) =~= s@);
}

/// `%%`: fills the directives of a format string with values popped from
/// the stack (see [`fmt_spec`]).
pub fn fmt(cont: &String, st: &mut Stack) -> (r: Result<String, RuntimeErrorKind>)
    ensures
        match fmt_spec(cont@, false, Seq::empty(), old(st)@) {
            FmtV::Text(t, s) => (r matches Ok(x) && x@ == t) && final(st)@ == s,
            FmtV::Fail(c, s, d) => (r matches Err(e) && class_of(e) == Some(c) && fmt_err_is(e, cont@, d))
                && final(st)@ == s,
        },
{
    let cs = crate::text::chars_of_string(cont);
    let mut out: Vec<char> = Vec::new();
    let mut on_fmt = false;
    let mut i: usize = 0;
    proof {
        assert(cs@.skip(0) =~= cs@);
        lemma_values_view(st.0@);
    }
    while i < cs.len()
        invariant
            i <= cs@.len(),
            cs@ == cont@,
            fmt_spec(cont@, false, Seq::empty(), old(st)@) == fmt_spec(
                cs@.skip(i as int),
                on_fmt,
                out@,
                st@,
            ),
        decreases cs@.len() - i,
    {
        let c = cs[i];
        proof {
            assert(cs@.skip(i as int)[0] == c);
            assert(cs@.skip(i as int).drop_first() =~= cs@.skip(i + 1));
            lemma_values_view(st.0@);
        }
        if !on_fmt {
            if c == '%' {
                on_fmt = true;
            } else {
                out.push(c);
            }
        } else {
            on_fmt = false;
            if c == '%' {
                out.push('%');
            } else if c == 's' {
                match st.pop() {
                    None => return Err(RuntimeErrorKind::MissingValue(cont.clone(), 's')),
                    Some(Value::Str(x)) => {
                        let xs = crate::text::chars_of_string(&x);
                        push_all(&mut out, xs.as_slice());
                    },
                    Some(v) => return Err(RuntimeErrorKind::WrongValueType(cont.clone(), v, 's')),
                }
            } else if c == 'd' {
                match st.pop() {
                    None => return Err(RuntimeErrorKind::MissingValue(cont.clone(), 'd')),
                    Some(Value::Num(x)) => {
                        let xs = crate::text::decimal_chars(x);
                        push_all(&mut out, xs.as_slice());
                    },
                    Some(v) => return Err(RuntimeErrorKind::WrongValueType(cont.clone(), v, 'd')),
                }
            } else if c == 'b' {
                match st.pop() {
                    None => return Err(RuntimeErrorKind::MissingValue(cont.clone(), 'b')),
                    Some(Value::Bool(x)) => {
                        let xs = if x {
                            crate::text::chars_of("true")
                        } else {
                            crate::text::chars_of("false")
                        };
                        push_all(&mut out, xs.as_slice());
                    },
                    Some(v) => return Err(RuntimeErrorKind::WrongValueType(cont.clone(), v, 'b')),
                }
            } else if c == 'v' {
                let text = match st.pop() {
                    Some(x) => value_debug_text(&x),
                    None => "<Nothing in stack>".to_owned(),
                };
                let xs = crate::text::chars_of_string(&text);
                push_all(&mut out, xs.as_slice());
            } else {
                return Err(RuntimeErrorKind::UnknownStringFormat(cont.clone(), c));
            }
        }
        i += 1;
    }
    Ok(crate::text::string_of(out.as_slice()))
}

} // verus!
