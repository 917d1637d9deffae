//! What running code means: how each expression changes the state a script
//! runs in (its stack, variables, functions, the arguments of the function
//! it runs in and the declared generic types). Described are values,
//! the builtins that work on the stack and the variables, `@` (filling and
//! running closures), the builtins that talk to the host where the state
//! does not hang on its answer, arguments, calls of user functions, the
//! keywords that steer a run (`if`, `while`, `switch`, `return`, `break`,
//! `!`), declarations of functions and generic types, turning a function
//! into a closure, included code, and names nothing has; and, for a script
//! that runs with no host, `sys$argv`, `sh` and `write-to`. What is left
//! (running a Rust hook, and those three builtins when a host answers them)
//! is open: the meaning says nothing of a run that reaches it. A run with
//! no host and no hook never does (see [`lemma_seq_closed`]). The state
//! records the requests handed to the host (the text printed, the exit
//! code, the debugging text asked for), in order.
//!
//! Each expression takes one step, a call one more, and a run has a number
//! of steps it may take; a run that would take more stops with an error.
use crate::builtins::{builtin_named, builtin_spec, class_of, is_pure, BOut, ErrClass};
use crate::error::{LineRange, RuntimeError, RuntimeErrorCtx, RuntimeErrorKind};
use crate::internals::{
    insert_entry, lookup, ArgDefV, ControlFlow, FnDef, FnScope, ValueV,
};
use crate::parse::{args_model, exprs_model, ArgsM, ContM, ExprM, KwM};
use crate::trc::{name_index, name_insert, outputs_ok, trc_check, GenV};
use crate::types::TypeV;
use vstd::prelude::*;

verus! {

/// A user function: how it sees the caller's variables, its code, its
/// arguments and its declared outputs.
pub struct FnM {
    pub scope: FnScope,
    pub code: Seq<ExprM>,
    pub args: ArgsM,
    pub outs: Option<Seq<Option<TypeV>>>,
}

/// The model of a defined function.
pub open spec fn fn_model(d: FnDef) -> FnM {
    FnM {
        scope: d.scope,
        code: exprs_model(d.code@),
        args: args_model(d.args),
        outs: match d.output_types {
            Some(t) => Some(t@),
            None => None,
        },
    }
}

/// The models of named functions.
pub open spec fn fns_model(s: Seq<(String, FnDef)>) -> Seq<(Seq<char>, FnM)> {
    s.map_values(|e: (String, FnDef)| (e.0@, fn_model(e.1)))
}

/// The state a script runs in, and the names of the Rust hooks it may call.
pub struct RunS {
    pub stack: Seq<ValueV>,
    pub vars: Seq<(Seq<char>, ValueV)>,
    pub fns: Seq<(Seq<char>, FnM)>,
    pub args: Option<Seq<(Seq<char>, ValueV)>>,
    pub generics: Seq<(Seq<char>, GenV)>,
    /// the names of the Rust hooks scripts can call
    pub hooks: Seq<Seq<char>>,
    /// whether the script runs with no host, so that the builtins that talk
    /// to one give what they give without it
    pub no_host: bool,
    /// the requests handed to the host so far, in order
    pub log: Seq<HostReq>,
}

/// A request handed to the host: text to print, a code to exit with, the
/// arguments asked for, a shell command, a text to write to a file, or the
/// debugging text of the stack, the variables, the arguments or the
/// functions (which builtin asked).
pub enum HostReq {
    Print(Seq<char>),
    Exit(int),
    Argv,
    Sh(Seq<char>),
    WriteTo(Seq<char>, Seq<char>),
    Debug(crate::builtins::Builtin),
}

/// The state with the request `q` handed to the host, where there is one.
pub open spec fn request(s: RunS, q: HostReq) -> RunS {
    if s.no_host {
        s
    } else {
        RunS { log: s.log.push(q), ..s }
    }
}

/// The state with the requests `l` handed to the host so far.
pub open spec fn with_log(s: RunS, l: Seq<HostReq>) -> RunS {
    RunS { log: l, ..s }
}

/// The state with another stack.
pub open spec fn with_stack(s: RunS, st: Seq<ValueV>) -> RunS {
    RunS { stack: st, ..s }
}

/// The kinds of errors the meaning speaks of.
pub enum ErrM {
    /// a builtin failed with an error of this class
    Class(ErrClass),
    /// a check block left this value, which is not a boolean
    CheckType(ValueV),
    /// a check block that started from the first number of values left the
    /// second, not the third
    CheckSize(int, int, int),
    /// the run ran out of steps
    Steps,
    /// `switch` found the stack empty
    NoSwitchValue,
    /// the function of this name found these values on the stack, fewer
    /// than the arguments it takes, named here
    MissingArgs(Seq<char>, Seq<ValueV>, Seq<Seq<char>>),
    /// a value did not have the declared type of an argument or an output
    TypeErr,
    /// a function left another number of values than it declares
    OutputCount,
    /// no user function has the name
    MissingFn,
    /// a function that takes the whole stack cannot become a closure
    ClosureAllStack,
    /// a function that takes no argument cannot become a closure
    ClosureNoArgs,
    /// a closure that already knows the arguments of the function it was
    /// made in was pushed again inside a function
    ParentSet,
    /// `@` on a closure that waits for no argument
    FillFull,
    /// a closure left another number of values than it declares
    ClosureOutputCount,
    /// nothing has this name, which was called
    MissingIdent(Seq<char>),
}

/// The texts of strings.
pub open spec fn strings_view(v: Seq<String>) -> Seq<Seq<char>> {
    v.map_values(|x: String| x@)
}

/// The names of declared arguments.
pub open spec fn arg_names(defs: Seq<ArgDefV>) -> Seq<Seq<char>> {
    defs.map_values(|d: ArgDefV| d.name)
}

/// Whether an error of the interpreter is of the kind `m`.
pub open spec fn err_is(m: ErrM, k: RuntimeErrorKind) -> bool {
    match m {
        ErrM::Class(c) => class_of(k) == Some(c),
        ErrM::CheckType(v) => k matches RuntimeErrorKind::WrongTypeOnCheck { got } && got@ == v,
        ErrM::CheckSize(a, b, c) => k matches RuntimeErrorKind::WrongStackSizeDiffOnCheck {
            old_stack_size,
            new_stack_size,
            new_should_stack_size,
        } && old_stack_size == a && new_stack_size == b && new_should_stack_size == c,
        ErrM::Steps => k is OutOfSteps,
        ErrM::NoSwitchValue => k is SwitchCaseWithNoValue,
        ErrM::MissingArgs(name, got, needs) => k matches RuntimeErrorKind::UserFnMissingArgs {
            name: n,
            got: g,
            needs: ns,
        } && n@ == name && crate::internals::values_view(g@) == got && strings_view(ns@) == needs,
        ErrM::TypeErr => k is Type,
        ErrM::OutputCount => k is OutputCount,
        ErrM::MissingFn => k is MissingUserFunction,
        ErrM::ClosureAllStack => k is CantMakeFnIntoClosureAllStack,
        ErrM::ClosureNoArgs => k is CantMakeFnIntoClosureZeroArgs,
        ErrM::ParentSet => k is DEVResettingParentValuesForClosure,
        ErrM::FillFull => k is DEVFillFullClosure,
        ErrM::ClosureOutputCount => k is OutputClosureCount,
        ErrM::MissingIdent(name) => k matches RuntimeErrorKind::MissingIdent(n) && n@ == name,
    }
}

/// How a run ends, with the state it leaves.
pub enum OutM {
    /// normally, with this control flow
    Flow(ControlFlow, RunS),
    /// with an error of this kind, raised by the expression at these lines
    Fails(ErrM, LineRange, RunS),
    /// with an error of this kind, raised by the expression being run
    /// itself, whose lines it is given
    Raw(ErrM, RunS),
    /// the run reaches something the meaning does not describe
    Open,
}

/// `f` kept within `0..=hi`.
pub open spec fn clamp(f: int, hi: int) -> int {
    if f < 0 {
        0
    } else if f > hi {
        hi
    } else {
        f
    }
}

/// An error raised by an expression itself gets the lines of that
/// expression.
pub open spec fn lift(o: OutM, span: LineRange) -> OutM {
    match o {
        OutM::Raw(m, s) => OutM::Fails(m, span, s),
        _ => o,
    }
}

/// What `!` does: a successful result on top of the stack is unwrapped; an
/// error result stays and the running function returns.
pub open spec fn bubble_out(s: RunS) -> OutM {
    let st = s.stack;
    if st.len() == 0 {
        OutM::Raw(ErrM::Class(ErrClass::Missing), s)
    } else {
        match st.last() {
            ValueV::Result(ok, x) => if ok {
                OutM::Flow(ControlFlow::Continue, with_stack(s, st.drop_last().push(*x)))
            } else {
                OutM::Flow(ControlFlow::Return, s)
            },
            _ => OutM::Raw(ErrM::Class(ErrClass::WrongType), with_stack(s, st.drop_last())),
        }
    }
}

/// The number of values a check block must leave, from `n0`.
pub open spec fn check_size(n0: int) -> int {
    if n0 < usize::MAX {
        n0 + 1
    } else {
        n0
    }
}

/// What a check block gives when its code left the state `t`, having
/// started from `n0` values: exactly one more value, a boolean, which is
/// taken; the top value is taken even when the count is wrong.
pub open spec fn check_value(t: RunS, n0: int) -> Result<(bool, RunS), OutM> {
    let s = t.stack;
    if s.len() == 0 {
        Err(OutM::Raw(ErrM::CheckSize(n0, 0, check_size(n0)), t))
    } else if s.len() != check_size(n0) {
        Err(OutM::Raw(ErrM::CheckSize(n0, s.len() as int, check_size(n0)), with_stack(t, s.drop_last())))
    } else {
        match s.last() {
            ValueV::Bool(b) => Ok((b, with_stack(t, s.drop_last()))),
            v => Err(OutM::Raw(ErrM::CheckType(v), with_stack(t, s.drop_last()))),
        }
    }
}

/// Whether a switch case's value `a` matches the value `b`: values of the
/// same scalar type compare by value; values of other types never match.
pub open spec fn scalar_match(a: ValueV, b: ValueV) -> bool {
    match (a, b) {
        (ValueV::Char(x), ValueV::Char(y)) => x == y,
        (ValueV::Num(x), ValueV::Num(y)) => x == y,
        (ValueV::Str(x), ValueV::Str(y)) => x == y,
        (ValueV::Bool(x), ValueV::Bool(y)) => x == y,
        _ => false,
    }
}

/// The first case at or after `i` whose value matches `v`.
pub open spec fn case_index(cases: Seq<(ValueV, Seq<ExprM>)>, v: ValueV, i: int) -> Option<int>
    decreases cases.len() - i,
{
    if i < 0 || i >= cases.len() {
        None
    } else if scalar_match(cases[i].0, v) {
        Some(i)
    } else {
        case_index(cases, v, i + 1)
    }
}

/// Binding the values `xs` to the declared arguments `defs` from the `i`th
/// on, in order: each value must have its argument's declared type, which
/// may bind generic types. Gives the bound arguments and generic types.
pub open spec fn bind_args(
    defs: Seq<ArgDefV>,
    xs: Seq<ValueV>,
    g: Seq<(Seq<char>, GenV)>,
    binds: Seq<(Seq<char>, TypeV)>,
    map: Seq<(Seq<char>, ValueV)>,
    i: int,
) -> Option<(Seq<(Seq<char>, ValueV)>, Seq<(Seq<char>, TypeV)>)>
    decreases defs.len() - i,
{
    if i < 0 || i >= defs.len() || i >= xs.len() {
        Some((map, binds))
    } else {
        let map2 = insert_entry(map, defs[i].name, xs[i]);
        match defs[i].ty {
            Some(t) => {
                let (ok, b2) = trc_check(g, binds, t, xs[i]);
                if ok {
                    bind_args(defs, xs, g, b2, map2, i + 1)
                } else {
                    None
                }
            },
            None => bind_args(defs, xs, g, binds, map2, i + 1),
        }
    }
}

/// The variables `vars` with the entries of `es` from the `k`th on set, in
/// order.
pub open spec fn write_back(vars: Seq<(Seq<char>, ValueV)>, es: Seq<(Seq<char>, ValueV)>, k: int) -> Seq<
    (Seq<char>, ValueV),
>
    decreases es.len() - k,
{
    if k < 0 || k >= es.len() {
        vars
    } else {
        write_back(insert_entry(vars, es[k].0, es[k].1), es, k + 1)
    }
}

/// Running expressions in order from the state `s` with `fuel` steps, and
/// the steps left. With `stop`, the run ends at the first `return` or
/// `break`; without, those go by unheeded.
pub open spec fn run_seq(es: Seq<ExprM>, s: RunS, fuel: int, stop: bool) -> (OutM, int)
    decreases fuel, 0int, 0int,
{
    if es.len() == 0 {
        (OutM::Flow(ControlFlow::Continue, s), fuel)
    } else if fuel <= 0 {
        (OutM::Fails(ErrM::Steps, es[0].span, s), 0)
    } else {
        let r = expr_out(es[0], s, fuel - 1);
        let f1 = clamp(r.1, fuel - 1);
        match lift(r.0, es[0].span) {
            OutM::Flow(c, t) => if c is Continue || !stop {
                run_seq(es.subrange(1, es.len() as int), t, f1, stop)
            } else {
                (OutM::Flow(c, t), f1)
            },
            o => (o, f1),
        }
    }
}

/// Running one expression once its step is taken, with `fuel` steps left.
pub open spec fn expr_out(e: ExprM, s: RunS, fuel: int) -> (OutM, int)
    decreases fuel, 5int, 0int,
{
    match e.cont {
        ContM::Imm(v) => (OutM::Flow(ControlFlow::Continue, with_stack(s, s.stack.push(v))), fuel),
        ContM::Closure(cv, _) => match s.args {
            Some(a) => if cv.parent is None {
                (
                    OutM::Flow(
                        ControlFlow::Continue,
                        with_stack(
                            s,
                            s.stack.push(ValueV::Closure(Box::new(crate::internals::ClosureV { parent: Some(a), ..cv }))),
                        ),
                    ),
                    fuel,
                )
            } else {
                (OutM::Raw(ErrM::ParentSet, s), fuel)
            },
            None => (OutM::Flow(ControlFlow::Continue, with_stack(s, s.stack.push(ValueV::Closure(Box::new(cv))))), fuel),
        },
        ContM::Call(name) => call_out(name, s, fuel),
        ContM::Kw(k) => kw_out(k, s, fuel),
        ContM::Included(_, es) => {
            let r = run_seq(es, s, fuel, true);
            match r.0 {
                OutM::Flow(_, t) => (OutM::Flow(ControlFlow::Continue, t), r.1),
                o => (o, r.1),
            }
        },
    }
}

/// What writing a text gives without a host: its length in bytes as UTF-8,
/// at most the largest number.
pub open spec fn written_len(text: Seq<char>) -> isize {
    let n = vstd::utf8::encode_utf8(text).len() as usize;
    if n <= isize::MAX {
        n as isize
    } else {
        isize::MAX
    }
}

/// A builtin that talks to the host, where what it does to the state does
/// not hang on the host's answer: `print` and `sys$exit` take their
/// argument (handing the host the text to print, or the code to exit
/// with), `%%` formats, and showing debugging text leaves the state as it
/// is (handing the host the request). Each request handed to a host is
/// added to the state's requests. With no host, `sys$argv` gives no argument, `sh` gives `0` and
/// `write-to` the length of the text in bytes; what a host answers to
/// those three is not described.
pub open spec fn host_out(b: crate::builtins::Builtin, s: RunS) -> OutM {
    match b {
        crate::builtins::Builtin::Print => match crate::builtins::pop_str(s.stack) {
            Ok((t, st)) => OutM::Flow(ControlFlow::Continue, request(with_stack(s, st), HostReq::Print(t))),
            Err((st, c)) => OutM::Raw(ErrM::Class(c), with_stack(s, st)),
        },
        crate::builtins::Builtin::Exit => match crate::builtins::pop_num(s.stack) {
            Ok((n, st)) => OutM::Flow(ControlFlow::Continue, request(with_stack(s, st), HostReq::Exit(n))),
            Err((st, c)) => OutM::Raw(ErrM::Class(c), with_stack(s, st)),
        },
        crate::builtins::Builtin::Argv => if s.no_host {
            OutM::Flow(ControlFlow::Continue, with_stack(s, s.stack.push(ValueV::Array(Seq::empty()))))
        } else {
            OutM::Open
        },
        crate::builtins::Builtin::Sh => match crate::builtins::pop_str(s.stack) {
            Ok((_, st)) => if s.no_host {
                OutM::Flow(
                    ControlFlow::Continue,
                    with_stack(s, st.push(ValueV::Result(true, Box::new(ValueV::Num(0))))),
                )
            } else {
                OutM::Open
            },
            Err((st, c)) => OutM::Raw(ErrM::Class(c), with_stack(s, st)),
        },
        crate::builtins::Builtin::WriteTo => match crate::builtins::pop_str(s.stack) {
            Ok((_, s1)) => match crate::builtins::pop_str(s1) {
                Ok((text, st)) => if s.no_host {
                    OutM::Flow(
                        ControlFlow::Continue,
                        with_stack(s, st.push(ValueV::Result(true, Box::new(ValueV::Num(written_len(text)))))),
                    )
                } else {
                    OutM::Open
                },
                Err((st, c)) => OutM::Raw(ErrM::Class(c), with_stack(s, st)),
            },
            Err((st, c)) => OutM::Raw(ErrM::Class(c), with_stack(s, st)),
        },
        crate::builtins::Builtin::Format => match crate::builtins::pop_str(s.stack) {
            Ok((f, st1)) => match crate::builtins::fmt_spec(f, false, Seq::empty(), st1) {
                crate::builtins::FmtV::Text(t, st) => OutM::Flow(
                    ControlFlow::Continue,
                    with_stack(s, st.push(ValueV::Str(t))),
                ),
                crate::builtins::FmtV::Fail(c, st, _) => OutM::Raw(ErrM::Class(c), with_stack(s, st)),
            },
            Err((st, c)) => OutM::Raw(ErrM::Class(c), with_stack(s, st)),
        },
        crate::builtins::Builtin::DebugStack => OutM::Flow(ControlFlow::Continue, request(s, HostReq::Debug(b))),
        crate::builtins::Builtin::DebugVars => OutM::Flow(ControlFlow::Continue, request(s, HostReq::Debug(b))),
        crate::builtins::Builtin::DebugArgs => OutM::Flow(ControlFlow::Continue, request(s, HostReq::Debug(b))),
        crate::builtins::Builtin::DebugFns => OutM::Flow(ControlFlow::Continue, request(s, HostReq::Debug(b))),
        _ => OutM::Open,
    }
}

/// `@`: it takes a value and, under it, a closure, and fills the closure's
/// next argument with the value, which must have the argument's declared
/// type. A closure that still waits for arguments goes back on the stack;
/// one that has them all runs, and its outputs go on the stack.
pub open spec fn apply_out(s: RunS, fuel: int) -> (OutM, int)
    decreases fuel, 3int, 0int,
{
    let st = s.stack;
    if st.len() == 0 {
        (OutM::Raw(ErrM::Class(ErrClass::Missing), s), fuel)
    } else if st.len() == 1 {
        (OutM::Raw(ErrM::Class(ErrClass::Missing), with_stack(s, st.drop_last())), fuel)
    } else {
        let v = st.last();
        let rest = st.drop_last().drop_last();
        match st.drop_last().last() {
            ValueV::Closure(cv) => if cv.next.len() == 0 {
                (OutM::Raw(ErrM::FillFull, with_stack(s, rest)), fuel)
            } else {
                let d = cv.next.last();
                let filled = crate::internals::ClosureV { next: cv.next.drop_last(), filled: cv.filled.push((d.name, v)), ..*cv };
                if d.ty is Some && crate::check::tt_check(d.ty->0, v) is Some {
                    (OutM::Raw(ErrM::TypeErr, with_stack(s, rest)), fuel)
                } else if cv.next.len() == 1 {
                    closure_run(cv.code, crate::internals::closure_bindings(filled), cv.outputs, with_stack(s, rest), fuel)
                } else {
                    (OutM::Flow(ControlFlow::Continue, with_stack(s, rest.push(ValueV::Closure(Box::new(filled))))), fuel)
                }
            },
            _ => (OutM::Raw(ErrM::Class(ErrClass::WrongType), with_stack(s, rest)), fuel),
        }
    }
}

/// Running a closure whose arguments are all bound (`bind`): it takes a
/// step and runs its code in a state of its own, with the caller's
/// variables; its outputs, checked against their declared types, go on the
/// caller's stack.
pub open spec fn closure_run(
    code: Seq<ExprM>,
    bind: Seq<(Seq<char>, ValueV)>,
    outs: Option<Seq<Option<TypeV>>>,
    s: RunS,
    fuel: int,
) -> (OutM, int)
    decreases fuel, 2int, 0int,
{
    if fuel <= 0 {
        (OutM::Raw(ErrM::Steps, s), 0)
    } else {
        let r = run_seq(
            code,
            RunS { stack: Seq::empty(), vars: s.vars, fns: s.fns, args: Some(bind), generics: s.generics, hooks: s.hooks, no_host: s.no_host, log: s.log },
            fuel - 1,
            true,
        );
        let f1 = clamp(r.1, fuel - 1);
        match r.0 {
            OutM::Flow(_, t) => {
                let s1 = with_log(s, t.log);
                match outs {
                    Some(os) => if os.len() != t.stack.len() {
                        (OutM::Raw(ErrM::ClosureOutputCount, s1), f1)
                    } else if !outputs_ok(s.generics, Seq::empty(), os, t.stack) {
                        (OutM::Raw(ErrM::TypeErr, s1), f1)
                    } else {
                        (OutM::Flow(ControlFlow::Continue, with_stack(s1, s.stack + t.stack)), f1)
                    },
                    None => (OutM::Flow(ControlFlow::Continue, with_stack(s1, s.stack + t.stack)), f1),
                }
            },
            OutM::Fails(m, span, t) => (OutM::Fails(m, span, with_log(s, t.log)), f1),
            _ => (OutM::Open, 0),
        }
    }
}

/// Calling a name: a builtin first, then an argument of the running
/// function, then a user function.
pub open spec fn call_out(name: Seq<char>, s: RunS, fuel: int) -> (OutM, int)
    decreases fuel, 4int, 0int,
{
    match builtin_named(name) {
        Some(b) => if is_pure(b) {
            match builtin_spec(b, s.stack, s.vars) {
                BOut::Done(st, v) => (OutM::Flow(ControlFlow::Continue, RunS { stack: st, vars: v, ..s }), fuel),
                BOut::Fails(st, c) => (OutM::Raw(ErrM::Class(c), with_stack(s, st)), fuel),
            }
        } else if b is Apply {
            apply_out(s, fuel)
        } else {
            (host_out(b, s), if host_out(b, s) is Open { 0 } else { fuel })
        },
        None => if s.args is Some && lookup(s.args->0, name) is Some {
            (OutM::Flow(ControlFlow::Continue, with_stack(s, s.stack.push(lookup(s.args->0, name)->0))), fuel)
        } else {
            match name_index(s.fns, name, 0) {
                Some(i) => if 0 <= i < s.fns.len() {
                    user_call(name, s.fns[i].1, s, fuel)
                } else {
                    (OutM::Open, 0)
                },
                None => if s.hooks.contains(name) {
                    (OutM::Open, 0)
                } else {
                    (OutM::Raw(ErrM::MissingIdent(name), s), fuel)
                },
            }
        },
    }
}

/// Calling the user function `f`: it takes a step, its arguments from the
/// stack, and runs in a state of its own; a global function's variables are
/// written back; its outputs go on the stack.
pub open spec fn user_call(name: Seq<char>, f: FnM, s: RunS, fuel: int) -> (OutM, int)
    decreases fuel, 3int, 0int,
{
    if fuel <= 0 {
        (OutM::Raw(ErrM::Steps, s), 0)
    } else {
        let vars0 = if f.scope is Isolated {
            Seq::empty()
        } else {
            s.vars
        };
        match f.args {
            ArgsM::Args(defs) => {
                let n = defs.len();
                if n > s.stack.len() {
                    (OutM::Raw(ErrM::MissingArgs(name, s.stack, arg_names(defs)), s), fuel)
                } else {
                    let xs = s.stack.skip(s.stack.len() - n);
                    let caller = with_stack(s, s.stack.take(s.stack.len() - n));
                    match bind_args(defs, xs, s.generics, Seq::empty(), Seq::empty(), 0) {
                        None => (OutM::Raw(ErrM::TypeErr, caller), fuel),
                        Some((map, binds)) => finish_call(
                            f,
                            caller,
                            RunS { stack: Seq::empty(), vars: vars0, fns: s.fns, args: Some(map), generics: s.generics, hooks: s.hooks, no_host: s.no_host, log: s.log },
                            binds,
                            fuel - 1,
                        ),
                    }
                }
            },
            ArgsM::AllStack => finish_call(
                f,
                with_stack(s, Seq::empty()),
                RunS { stack: s.stack, vars: vars0, fns: s.fns, args: None, generics: s.generics, hooks: s.hooks, no_host: s.no_host, log: s.log },
                Seq::empty(),
                fuel - 1,
            ),
        }
    }
}

/// The rest of a call of `f`: its code runs in the state `frame`; then the
/// caller's state `caller` gets the variables back (for a global function)
/// and the outputs, checked against their declared types.
pub open spec fn finish_call(f: FnM, caller: RunS, frame: RunS, binds: Seq<(Seq<char>, TypeV)>, fuel: int) -> (
    OutM,
    int,
)
    decreases fuel, 2int, 0int,
{
    let r = run_seq(f.code, frame, fuel, true);
    let f1 = clamp(r.1, fuel);
    match r.0 {
        OutM::Flow(_, t) => {
            let c1 = with_log(caller, t.log);
            let c2 = if f.scope is Global {
                RunS { vars: write_back(caller.vars, t.vars, 0), ..c1 }
            } else {
                c1
            };
            match f.outs {
                Some(os) => if os.len() != t.stack.len() {
                    (OutM::Raw(ErrM::OutputCount, c2), f1)
                } else if !outputs_ok(caller.generics, binds, os, t.stack) {
                    (OutM::Raw(ErrM::TypeErr, c2), f1)
                } else {
                    (OutM::Flow(ControlFlow::Continue, with_stack(c2, c2.stack + t.stack)), f1)
                },
                None => (OutM::Flow(ControlFlow::Continue, with_stack(c2, c2.stack + t.stack)), f1),
            }
        },
        OutM::Fails(m, span, t) => (OutM::Fails(m, span, with_log(caller, t.log)), f1),
        _ => (OutM::Open, 0),
    }
}

/// Running a keyword, with `fuel` steps left.
pub open spec fn kw_out(kw: KwM, s: RunS, fuel: int) -> (OutM, int)
    decreases fuel, 3int, 0int,
{
    match kw {
        KwM::Return => (OutM::Flow(ControlFlow::Return, s), fuel),
        KwM::Break => (OutM::Flow(ControlFlow::Break, s), fuel),
        KwM::BubbleError => (bubble_out(s), fuel),
        KwM::Ifs(bs) => ifs_out(bs, 0, s, fuel),
        KwM::While(check, code) => while_out(check, code, s, fuel),
        KwM::Switch(cases, default) => if s.stack.len() == 0 {
            (OutM::Raw(ErrM::NoSwitchValue, s), fuel)
        } else {
            switch_out(cases, default, s, fuel)
        },
        KwM::FnDef { name, scope, code, args, outs } => (
            OutM::Flow(
                ControlFlow::Continue,
                RunS {
                    fns: name_insert(
                        s.fns,
                        name,
                        FnM {
                            scope,
                            code,
                            args,
                            outs: match outs {
                                Some(o) => Some(crate::check::arg_types(o)),
                                None => None,
                            },
                        },
                    ),
                    ..s
                },
            ),
            fuel,
        ),
        KwM::Generic(name, viral, allow) => (
            OutM::Flow(
                ControlFlow::Continue,
                RunS { generics: name_insert(s.generics, name, GenV { allow, viral }), ..s },
            ),
            fuel,
        ),
        KwM::IntoClosure(name) => match name_index(s.fns, name, 0) {
            None => (OutM::Raw(ErrM::MissingFn, s), fuel),
            Some(i) => if 0 <= i < s.fns.len() {
                (closure_of(s.fns[i].1, s), fuel)
            } else {
                (OutM::Open, 0)
            },
        },
    }
}

/// Turning the user function `f` into a closure that waits for its
/// arguments, the last declared first, and putting it on the stack.
pub open spec fn closure_of(f: FnM, s: RunS) -> OutM {
    match f.args {
        ArgsM::AllStack => OutM::Raw(ErrM::ClosureAllStack, s),
        ArgsM::Args(d) => if d.len() == 0 {
            OutM::Raw(ErrM::ClosureNoArgs, s)
        } else {
            OutM::Flow(
                ControlFlow::Continue,
                with_stack(
                    s,
                    s.stack.push(
                        ValueV::Closure(
                            Box::new(
                                crate::internals::ClosureV {
                                    next: d.reverse(),
                                    filled: Seq::empty(),
                                    parent: None,
                                    outputs: f.outs,
                                    code: f.code,
                                },
                            ),
                        ),
                    ),
                ),
            )
        },
    }
}

/// Running a check block: its code runs to the end, and it must leave one
/// more value, a boolean.
pub open spec fn check_run(check: Seq<ExprM>, s: RunS, fuel: int) -> (Result<(bool, RunS), OutM>, int)
    decreases fuel, 1int, 0int,
{
    let r = run_seq(check, s, fuel, false);
    (
        match r.0 {
            OutM::Flow(_, t) => check_value(t, s.stack.len() as int),
            o => Err(o),
        },
        r.1,
    )
}

/// `if` from branch `i` on: the first branch whose check gives `true` runs
/// its code; when none does, nothing more happens.
pub open spec fn ifs_out(bs: Seq<(Seq<ExprM>, Seq<ExprM>)>, i: int, s: RunS, fuel: int) -> (OutM, int)
    decreases fuel, 2int, bs.len() - i,
{
    if i < 0 || i >= bs.len() {
        (OutM::Flow(ControlFlow::Continue, s), fuel)
    } else if fuel < 0 {
        (OutM::Open, 0)
    } else {
        let c = check_run(bs[i].0, s, fuel);
        let f1 = clamp(c.1, fuel);
        match c.0 {
            Err(o) => (o, f1),
            Ok((t, s2)) => if t {
                run_seq(bs[i].1, s2, f1, true)
            } else {
                ifs_out(bs, i + 1, s2, f1)
            },
        }
    }
}

/// `while`: each round takes a step and runs the check; while it gives
/// `true` the code runs, and a `break` in it ends the loop.
pub open spec fn while_out(check: Seq<ExprM>, code: Seq<ExprM>, s: RunS, fuel: int) -> (OutM, int)
    decreases fuel, 2int, 0int,
{
    if fuel <= 0 {
        (OutM::Raw(ErrM::Steps, s), 0)
    } else {
        let c = check_run(check, s, fuel - 1);
        let f1 = clamp(c.1, fuel - 1);
        match c.0 {
            Err(o) => (o, f1),
            Ok((t, s2)) => if !t {
                (OutM::Flow(ControlFlow::Continue, s2), f1)
            } else {
                let r = run_seq(code, s2, f1, true);
                let f2 = clamp(r.1, f1);
                match r.0 {
                    OutM::Flow(ControlFlow::Continue, s3) => while_out(check, code, s3, f2),
                    OutM::Flow(ControlFlow::Break, s3) => (OutM::Flow(ControlFlow::Continue, s3), f2),
                    o => (o, f2),
                }
            },
        }
    }
}

/// `switch` on a stack that is not empty: it takes the top value and runs
/// the code of the first case that matches it, else the default code, if
/// any.
pub open spec fn switch_out(
    cases: Seq<(ValueV, Seq<ExprM>)>,
    default: Option<Seq<ExprM>>,
    s: RunS,
    fuel: int,
) -> (OutM, int)
    decreases fuel, 2int, 0int,
{
    let s2 = with_stack(s, s.stack.drop_last());
    match case_index(cases, s.stack.last(), 0) {
        Some(k) => if 0 <= k < cases.len() {
            run_seq(cases[k].1, s2, fuel, true)
        } else {
            (OutM::Open, 0)
        },
        None => match default {
            Some(c) => run_seq(c, s2, fuel, true),
            None => (OutM::Flow(ControlFlow::Continue, s2), fuel),
        },
    }
}

/// Running one expression with `fuel` steps: it takes a step, then runs.
pub open spec fn expr_total(e: ExprM, s: RunS, fuel: int) -> (OutM, int) {
    if fuel <= 0 {
        (OutM::Fails(ErrM::Steps, e.span, s), 0)
    } else {
        let r = expr_out(e, s, fuel - 1);
        (lift(r.0, e.span), clamp(r.1, fuel - 1))
    }
}

/// Whether a run of code that ended with `r` and the state `s` is the one
/// `o` describes.
pub open spec fn ctx_ran(o: OutM, r: Result<ControlFlow, RuntimeErrorCtx>, s: RunS) -> bool {
    match o {
        OutM::Flow(c, t) => r == Ok::<ControlFlow, RuntimeErrorCtx>(c) && s == t,
        OutM::Fails(m, span, t) => (r matches Err(e) && err_is(m, *e.kind) && e.ctx.lines == span) && s == t,
        OutM::Raw(..) => false,
        OutM::Open => true,
    }
}

/// Whether a run of a keyword or a call that ended with `r` and the state
/// `s` is the one `o` describes; an error it raised itself has no lines yet.
pub open spec fn raw_ran(o: OutM, r: Result<ControlFlow, RuntimeError>, s: RunS) -> bool {
    match o {
        OutM::Flow(c, t) => r == Ok::<ControlFlow, RuntimeError>(c) && s == t,
        OutM::Fails(m, span, t) => (r matches Err(RuntimeError::RuntimeCtx(e)) && err_is(m, *e.kind)
            && e.ctx.lines == span) && s == t,
        OutM::Raw(m, t) => (r matches Err(RuntimeError::RuntimeRaw(k)) && err_is(m, k)) && s == t,
        OutM::Open => true,
    }
}

/// [`raw_ran`] for a call, which gives no control flow.
pub open spec fn call_ran(o: OutM, r: Result<(), RuntimeError>, s: RunS) -> bool {
    raw_ran(
        o,
        match r {
            Ok(_) => Ok::<ControlFlow, RuntimeError>(ControlFlow::Continue),
            Err(e) => Err(e),
        },
        s,
    ) && (o matches OutM::Flow(c, _) ==> c is Continue)
}

/// Whether a check block that ended with `r` and the state `s` is the one
/// `c` describes.
pub open spec fn check_ran(c: Result<(bool, RunS), OutM>, r: Result<bool, RuntimeError>, s: RunS) -> bool {
    match c {
        Ok((b, t)) => r == Ok::<bool, RuntimeError>(b) && s == t,
        Err(o) => match o {
            OutM::Fails(m, span, t) => (r matches Err(RuntimeError::RuntimeCtx(e)) && err_is(m, *e.kind)
                && e.ctx.lines == span) && s == t,
            OutM::Raw(m, t) => (r matches Err(RuntimeError::RuntimeRaw(k)) && err_is(m, k)) && s == t,
            OutM::Open => true,
            OutM::Flow(..) => false,
        },
    }
}

/// Whether a run ended by running out of steps, or reached what is not
/// described.
pub open spec fn stuck(o: OutM) -> bool {
    ||| o is Open
    ||| o matches OutM::Fails(ErrM::Steps, _, _)
    ||| o matches OutM::Raw(ErrM::Steps, _)
}

/// Whether a check block ended by running out of steps, or reached what is
/// not described.
pub open spec fn check_stuck(c: Result<(bool, RunS), OutM>) -> bool {
    c matches Err(o) && stuck(o)
}

/// A run of expressions with `f` steps leaves between none and `f` of them;
/// one that finished gives the same with `g >= f` steps, and leaves
/// `g - f` more.
pub proof fn lemma_seq_fuel(es: Seq<ExprM>, s: RunS, f: int, g: int, stop: bool)
    requires
        0 <= f <= g,
    ensures
        0 <= run_seq(es, s, f, stop).1 <= f,
        !stuck(run_seq(es, s, f, stop).0) ==> run_seq(es, s, g, stop) == (
            run_seq(es, s, f, stop).0,
            run_seq(es, s, f, stop).1 + (g - f),
        ),
    decreases f, 0int, 0int,
{
    if es.len() > 0 && f > 0 {
        let r = expr_out(es[0], s, f - 1);
        lemma_expr_fuel(es[0], s, f - 1, g - 1);
        let f1 = clamp(r.1, f - 1);
        match lift(r.0, es[0].span) {
            OutM::Flow(c, t) => {
                if c is Continue || !stop {
                    lemma_seq_fuel(es.subrange(1, es.len() as int), t, f1, f1 + (g - f), stop);
                }
            },
            _ => {},
        }
    }
}

/// [`lemma_seq_fuel`] for one expression.
pub proof fn lemma_expr_fuel(e: ExprM, s: RunS, f: int, g: int)
    requires
        0 <= f <= g,
    ensures
        0 <= expr_out(e, s, f).1 <= f,
        !stuck(expr_out(e, s, f).0) ==> expr_out(e, s, g) == (expr_out(e, s, f).0, expr_out(e, s, f).1 + (g - f)),
    decreases f, 5int, 0int,
{
    match e.cont {
        ContM::Call(name) => {
            lemma_call_fuel(name, s, f, g);
        },
        ContM::Kw(kw) => {
            lemma_kw_fuel(kw, s, f, g);
        },
        ContM::Included(_, es) => {
            lemma_seq_fuel(es, s, f, g, true);
        },
        _ => {},
    }
}

/// [`lemma_seq_fuel`] for a call.
pub proof fn lemma_call_fuel(name: Seq<char>, s: RunS, f: int, g: int)
    requires
        0 <= f <= g,
    ensures
        0 <= call_out(name, s, f).1 <= f,
        !stuck(call_out(name, s, f).0) ==> call_out(name, s, g) == (
            call_out(name, s, f).0,
            call_out(name, s, f).1 + (g - f),
        ),
    decreases f, 4int, 0int,
{
    if builtin_named(name) == Some(crate::builtins::Builtin::Apply) {
        lemma_apply_fuel(s, f, g);
    }
    if builtin_named(name) is None && !(s.args is Some && lookup(s.args->0, name) is Some) {
        match name_index(s.fns, name, 0) {
            Some(i) => {
                if 0 <= i < s.fns.len() {
                    lemma_user_fuel(name, s.fns[i].1, s, f, g);
                }
            },
            None => {},
        }
    }
}

/// [`lemma_seq_fuel`] for `@`.
pub proof fn lemma_apply_fuel(s: RunS, f: int, g: int)
    requires
        0 <= f <= g,
    ensures
        0 <= apply_out(s, f).1 <= f,
        !stuck(apply_out(s, f).0) ==> apply_out(s, g) == (apply_out(s, f).0, apply_out(s, f).1 + (g - f)),
    decreases f, 3int, 0int,
{
    let st = s.stack;
    if st.len() >= 2 {
        let v = st.last();
        let rest = st.drop_last().drop_last();
        match st.drop_last().last() {
            ValueV::Closure(cv) => {
                if cv.next.len() == 1 {
                    let d = cv.next.last();
                    let filled = crate::internals::ClosureV {
                        next: cv.next.drop_last(),
                        filled: cv.filled.push((d.name, v)),
                        ..*cv
                    };
                    lemma_closure_fuel(
                        cv.code,
                        crate::internals::closure_bindings(filled),
                        cv.outputs,
                        with_stack(s, rest),
                        f,
                        g,
                    );
                }
            },
            _ => {},
        }
    }
}

/// [`lemma_seq_fuel`] for running a closure.
pub proof fn lemma_closure_fuel(
    code: Seq<ExprM>,
    bind: Seq<(Seq<char>, ValueV)>,
    outs: Option<Seq<Option<TypeV>>>,
    s: RunS,
    f: int,
    g: int,
)
    requires
        0 <= f <= g,
    ensures
        0 <= closure_run(code, bind, outs, s, f).1 <= f,
        !stuck(closure_run(code, bind, outs, s, f).0) ==> closure_run(code, bind, outs, s, g) == (
            closure_run(code, bind, outs, s, f).0,
            closure_run(code, bind, outs, s, f).1 + (g - f),
        ),
    decreases f, 2int, 0int,
{
    if f > 0 {
        lemma_seq_fuel(
            code,
            RunS { stack: Seq::empty(), vars: s.vars, fns: s.fns, args: Some(bind), generics: s.generics, hooks: s.hooks, no_host: s.no_host, log: s.log },
            f - 1,
            g - 1,
            true,
        );
    }
}

/// [`lemma_seq_fuel`] for a call of a user function.
pub proof fn lemma_user_fuel(name: Seq<char>, fm: FnM, s: RunS, f: int, g: int)
    requires
        0 <= f <= g,
    ensures
        0 <= user_call(name, fm, s, f).1 <= f,
        !stuck(user_call(name, fm, s, f).0) ==> user_call(name, fm, s, g) == (
            user_call(name, fm, s, f).0,
            user_call(name, fm, s, f).1 + (g - f),
        ),
    decreases f, 3int, 0int,
{
    if f > 0 {
        let vars0 = if fm.scope is Isolated {
            Seq::empty()
        } else {
            s.vars
        };
        match fm.args {
            ArgsM::Args(defs) => {
                let n = defs.len();
                if n <= s.stack.len() {
                    let xs = s.stack.skip(s.stack.len() - n);
                    let caller = with_stack(s, s.stack.take(s.stack.len() - n));
                    match bind_args(defs, xs, s.generics, Seq::empty(), Seq::empty(), 0) {
                        Some((map, binds)) => {
                            lemma_finish_fuel(
                                fm,
                                caller,
                                RunS { stack: Seq::empty(), vars: vars0, fns: s.fns, args: Some(map), generics: s.generics, hooks: s.hooks, no_host: s.no_host, log: s.log },
                                binds,
                                f - 1,
                                g - 1,
                            );
                        },
                        None => {},
                    }
                }
            },
            ArgsM::AllStack => {
                lemma_finish_fuel(
                    fm,
                    with_stack(s, Seq::empty()),
                    RunS { stack: s.stack, vars: vars0, fns: s.fns, args: None, generics: s.generics, hooks: s.hooks, no_host: s.no_host, log: s.log },
                    Seq::empty(),
                    f - 1,
                    g - 1,
                );
            },
        }
    }
}

/// [`lemma_seq_fuel`] for the rest of a call.
pub proof fn lemma_finish_fuel(fm: FnM, caller: RunS, frame: RunS, binds: Seq<(Seq<char>, TypeV)>, f: int, g: int)
    requires
        0 <= f <= g,
    ensures
        0 <= finish_call(fm, caller, frame, binds, f).1 <= f,
        !stuck(finish_call(fm, caller, frame, binds, f).0) ==> finish_call(fm, caller, frame, binds, g) == (
            finish_call(fm, caller, frame, binds, f).0,
            finish_call(fm, caller, frame, binds, f).1 + (g - f),
        ),
    decreases f, 2int, 0int,
{
    lemma_seq_fuel(fm.code, frame, f, g, true);
}

/// [`lemma_seq_fuel`] for a keyword.
pub proof fn lemma_kw_fuel(kw: KwM, s: RunS, f: int, g: int)
    requires
        0 <= f <= g,
    ensures
        0 <= kw_out(kw, s, f).1 <= f,
        !stuck(kw_out(kw, s, f).0) ==> kw_out(kw, s, g) == (kw_out(kw, s, f).0, kw_out(kw, s, f).1 + (g - f)),
    decreases f, 3int, 0int,
{
    match kw {
        KwM::Ifs(bs) => {
            lemma_ifs_fuel(bs, 0, s, f, g);
        },
        KwM::While(check, code) => {
            lemma_while_fuel(check, code, s, f, g);
        },
        KwM::Switch(cases, default) => {
            if s.stack.len() > 0 {
                lemma_switch_fuel(cases, default, s, f, g);
            }
        },
        _ => {},
    }
}

/// [`lemma_seq_fuel`] for a check block.
pub proof fn lemma_check_fuel(check: Seq<ExprM>, s: RunS, f: int, g: int)
    requires
        0 <= f <= g,
    ensures
        0 <= check_run(check, s, f).1 <= f,
        !check_stuck(check_run(check, s, f).0) ==> check_run(check, s, g) == (
            check_run(check, s, f).0,
            check_run(check, s, f).1 + (g - f),
        ),
    decreases f, 1int, 0int,
{
    lemma_seq_fuel(check, s, f, g, false);
}

/// [`lemma_seq_fuel`] for `if` from branch `i` on.
pub proof fn lemma_ifs_fuel(bs: Seq<(Seq<ExprM>, Seq<ExprM>)>, i: int, s: RunS, f: int, g: int)
    requires
        0 <= f <= g,
    ensures
        0 <= ifs_out(bs, i, s, f).1 <= f,
        !stuck(ifs_out(bs, i, s, f).0) ==> ifs_out(bs, i, s, g) == (
            ifs_out(bs, i, s, f).0,
            ifs_out(bs, i, s, f).1 + (g - f),
        ),
    decreases f, 2int, bs.len() - i,
{
    if 0 <= i < bs.len() {
        let c = check_run(bs[i].0, s, f);
        lemma_check_fuel(bs[i].0, s, f, g);
        let f1 = clamp(c.1, f);
        match c.0 {
            Ok((t, s2)) => {
                if t {
                    lemma_seq_fuel(bs[i].1, s2, f1, f1 + (g - f), true);
                } else {
                    lemma_ifs_fuel(bs, i + 1, s2, f1, f1 + (g - f));
                }
            },
            _ => {},
        }
    }
}

/// [`lemma_seq_fuel`] for `while`.
pub proof fn lemma_while_fuel(check: Seq<ExprM>, code: Seq<ExprM>, s: RunS, f: int, g: int)
    requires
        0 <= f <= g,
    ensures
        0 <= while_out(check, code, s, f).1 <= f,
        !stuck(while_out(check, code, s, f).0) ==> while_out(check, code, s, g) == (
            while_out(check, code, s, f).0,
            while_out(check, code, s, f).1 + (g - f),
        ),
    decreases f, 2int, 0int,
{
    if f > 0 {
        let c = check_run(check, s, f - 1);
        lemma_check_fuel(check, s, f - 1, g - 1);
        let f1 = clamp(c.1, f - 1);
        match c.0 {
            Ok((t, s2)) => {
                if t {
                    let r = run_seq(code, s2, f1, true);
                    lemma_seq_fuel(code, s2, f1, f1 + (g - f), true);
                    let f2 = clamp(r.1, f1);
                    match r.0 {
                        OutM::Flow(ControlFlow::Continue, s3) => {
                            lemma_while_fuel(check, code, s3, f2, f2 + (g - f));
                        },
                        _ => {},
                    }
                }
            },
            _ => {},
        }
    }
}

/// [`lemma_seq_fuel`] for `switch`.
pub proof fn lemma_switch_fuel(
    cases: Seq<(ValueV, Seq<ExprM>)>,
    default: Option<Seq<ExprM>>,
    s: RunS,
    f: int,
    g: int,
)
    requires
        0 <= f <= g,
    ensures
        0 <= switch_out(cases, default, s, f).1 <= f,
        !stuck(switch_out(cases, default, s, f).0) ==> switch_out(cases, default, s, g) == (
            switch_out(cases, default, s, f).0,
            switch_out(cases, default, s, f).1 + (g - f),
        ),
    decreases f, 2int, 0int,
{
    let s2 = with_stack(s, s.stack.drop_last());
    match case_index(cases, s.stack.last(), 0) {
        Some(k) => {
            if 0 <= k < cases.len() {
                lemma_seq_fuel(cases[k].1, s2, f, g, true);
            }
        },
        None => match default {
            Some(c) => {
                lemma_seq_fuel(c, s2, f, g, true);
            },
            None => {},
        },
    }
}

/// The models of expressions, one for each, in order.
pub proof fn lemma_exprs_model(s: Seq<crate::internals::Expr>)
    ensures
        exprs_model(s).len() == s.len(),
        forall|i: int| 0 <= i < s.len() ==> #[trigger] exprs_model(s)[i] == crate::parse::expr_model(s[i]),
    decreases s.len(),
{
    if s.len() > 0 {
        lemma_exprs_model(s.drop_last());
    }
}

/// The models of branches, one for each, in order.
pub proof fn lemma_branches_model(s: Seq<crate::internals::CondBranch>)
    ensures
        crate::parse::branches_model(s).len() == s.len(),
        forall|i: int|
            0 <= i < s.len() ==> #[trigger] crate::parse::branches_model(s)[i] == (
                exprs_model(s[i].check@),
                exprs_model(s[i].code@),
            ),
    decreases s.len(),
{
    if s.len() > 0 {
        lemma_branches_model(s.drop_last());
    }
}

/// The models of switch cases, one for each, in order.
pub proof fn lemma_cases_model(s: Seq<crate::internals::SwitchCase>)
    ensures
        crate::parse::cases_model(s).len() == s.len(),
        forall|i: int|
            0 <= i < s.len() ==> #[trigger] crate::parse::cases_model(s)[i] == (
                s[i].test@,
                exprs_model(s[i].code@),
            ),
    decreases s.len(),
{
    if s.len() > 0 {
        lemma_cases_model(s.drop_last());
    }
}

/// Looking a name up among the models of functions finds the place it does
/// among their names.
pub proof fn lemma_fns_index(s: Seq<(String, FnDef)>, k: Seq<char>, i: int)
    ensures
        name_index(fns_model(s), k, i) == name_index(crate::trc::names_of(s), k, i),
    decreases s.len() - i,
{
    if 0 <= i < s.len() {
        lemma_fns_index(s, k, i + 1);
    }
}

} // verus!

verus! {

/// Whether a state runs with no host and no Rust hook: then every builtin
/// is described, and a run never reaches what is not.
pub open spec fn closed(s: RunS) -> bool {
    s.no_host && s.hooks.len() == 0
}

/// Whether an outcome is described and leaves a state with the host and
/// hooks of `s`.
pub open spec fn keeps(o: OutM, s: RunS) -> bool {
    match o {
        OutM::Flow(_, t) => t.no_host == s.no_host && t.hooks == s.hooks,
        OutM::Fails(_, _, t) => t.no_host == s.no_host && t.hooks == s.hooks,
        OutM::Raw(_, t) => t.no_host == s.no_host && t.hooks == s.hooks,
        OutM::Open => false,
    }
}

/// A case found is one of the cases.
proof fn lemma_case_index(cases: Seq<(ValueV, Seq<ExprM>)>, v: ValueV, i: int)
    ensures
        case_index(cases, v, i) matches Some(k) ==> 0 <= k < cases.len(),
    decreases cases.len() - i,
{
    if 0 <= i < cases.len() && !scalar_match(cases[i].0, v) {
        lemma_case_index(cases, v, i + 1);
    }
}

/// A run from a state with no host and no Rust hook is described: it
/// ends normally or with an error (never with one it raised itself, which
/// has its lines by then), keeping the host and the hooks.
pub proof fn lemma_seq_closed(es: Seq<ExprM>, s: RunS, f: int, stop: bool)
    requires
        closed(s),
        0 <= f,
    ensures
        keeps(run_seq(es, s, f, stop).0, s),
        !(run_seq(es, s, f, stop).0 is Raw),
    decreases f, 0int, 0int,
{
    if es.len() > 0 && f > 0 {
        let r = expr_out(es[0], s, f - 1);
        lemma_expr_closed(es[0], s, f - 1);
        let f1 = clamp(r.1, f - 1);
        match lift(r.0, es[0].span) {
            OutM::Flow(c, t) => {
                if c is Continue || !stop {
                    lemma_seq_closed(es.subrange(1, es.len() as int), t, f1, stop);
                }
            },
            _ => {},
        }
    }
}

/// [`lemma_seq_closed`] for one expression, which may raise an error itself.
pub proof fn lemma_expr_closed(e: ExprM, s: RunS, f: int)
    requires
        closed(s),
        0 <= f,
    ensures
        keeps(expr_out(e, s, f).0, s),
        0 <= expr_out(e, s, f).1,
    decreases f, 5int, 0int,
{
    lemma_expr_fuel(e, s, f, f);
    match e.cont {
        ContM::Call(name) => lemma_call_closed(name, s, f),
        ContM::Kw(kw) => lemma_kw_closed(kw, s, f),
        ContM::Included(_, es) => lemma_seq_closed(es, s, f, true),
        _ => {},
    }
}

/// [`lemma_seq_closed`] for a call.
pub proof fn lemma_call_closed(name: Seq<char>, s: RunS, f: int)
    requires
        closed(s),
        0 <= f,
    ensures
        keeps(call_out(name, s, f).0, s),
    decreases f, 4int, 0int,
{
    if builtin_named(name) == Some(crate::builtins::Builtin::Apply) {
        lemma_apply_closed(s, f);
    }
    if builtin_named(name) is None && !(s.args is Some && lookup(s.args->0, name) is Some) {
        crate::trc::lemma_name_index(s.fns, name, 0);
        match name_index(s.fns, name, 0) {
            Some(i) => {
                lemma_user_closed(name, s.fns[i].1, s, f);
            },
            None => {
                assert(!s.hooks.contains(name));
            },
        }
    }
}

/// [`lemma_seq_closed`] for `@`.
pub proof fn lemma_apply_closed(s: RunS, f: int)
    requires
        closed(s),
        0 <= f,
    ensures
        keeps(apply_out(s, f).0, s),
    decreases f, 3int, 0int,
{
    let st = s.stack;
    if st.len() >= 2 {
        let v = st.last();
        let rest = st.drop_last().drop_last();
        match st.drop_last().last() {
            ValueV::Closure(cv) => {
                if cv.next.len() == 1 {
                    let d = cv.next.last();
                    let filled = crate::internals::ClosureV {
                        next: cv.next.drop_last(),
                        filled: cv.filled.push((d.name, v)),
                        ..*cv
                    };
                    lemma_closure_closed(
                        cv.code,
                        crate::internals::closure_bindings(filled),
                        cv.outputs,
                        with_stack(s, rest),
                        f,
                    );
                }
            },
            _ => {},
        }
    }
}

/// [`lemma_seq_closed`] for running a closure.
pub proof fn lemma_closure_closed(
    code: Seq<ExprM>,
    bind: Seq<(Seq<char>, ValueV)>,
    outs: Option<Seq<Option<TypeV>>>,
    s: RunS,
    f: int,
)
    requires
        closed(s),
        0 <= f,
    ensures
        keeps(closure_run(code, bind, outs, s, f).0, s),
    decreases f, 2int, 0int,
{
    if f > 0 {
        lemma_seq_closed(
            code,
            RunS { stack: Seq::empty(), vars: s.vars, fns: s.fns, args: Some(bind), generics: s.generics, hooks: s.hooks, no_host: s.no_host, log: s.log },
            f - 1,
            true,
        );
    }
}

/// [`lemma_seq_closed`] for a call of a user function.
pub proof fn lemma_user_closed(name: Seq<char>, fm: FnM, s: RunS, f: int)
    requires
        closed(s),
        0 <= f,
    ensures
        keeps(user_call(name, fm, s, f).0, s),
    decreases f, 3int, 0int,
{
    if f > 0 {
        let vars0 = if fm.scope is Isolated {
            Seq::empty()
        } else {
            s.vars
        };
        match fm.args {
            ArgsM::Args(defs) => {
                let n = defs.len();
                if n <= s.stack.len() {
                    let xs = s.stack.skip(s.stack.len() - n);
                    let caller = with_stack(s, s.stack.take(s.stack.len() - n));
                    match bind_args(defs, xs, s.generics, Seq::empty(), Seq::empty(), 0) {
                        Some((map, binds)) => {
                            lemma_finish_closed(
                                fm,
                                caller,
                                RunS { stack: Seq::empty(), vars: vars0, fns: s.fns, args: Some(map), generics: s.generics, hooks: s.hooks, no_host: s.no_host, log: s.log },
                                binds,
                                f - 1,
                            );
                        },
                        None => {},
                    }
                }
            },
            ArgsM::AllStack => {
                lemma_finish_closed(
                    fm,
                    with_stack(s, Seq::empty()),
                    RunS { stack: s.stack, vars: vars0, fns: s.fns, args: None, generics: s.generics, hooks: s.hooks, no_host: s.no_host, log: s.log },
                    Seq::empty(),
                    f - 1,
                );
            },
        }
    }
}

/// [`lemma_seq_closed`] for the rest of a call.
pub proof fn lemma_finish_closed(fm: FnM, caller: RunS, frame: RunS, binds: Seq<(Seq<char>, TypeV)>, f: int)
    requires
        closed(frame),
        closed(caller),
        0 <= f,
    ensures
        keeps(finish_call(fm, caller, frame, binds, f).0, caller),
    decreases f, 2int, 0int,
{
    lemma_seq_closed(fm.code, frame, f, true);
}

/// [`lemma_seq_closed`] for a keyword.
pub proof fn lemma_kw_closed(kw: KwM, s: RunS, f: int)
    requires
        closed(s),
        0 <= f,
    ensures
        keeps(kw_out(kw, s, f).0, s),
    decreases f, 3int, 0int,
{
    match kw {
        KwM::Ifs(bs) => {
            lemma_ifs_closed(bs, 0, s, f);
        },
        KwM::While(check, code) => {
            lemma_while_closed(check, code, s, f);
        },
        KwM::Switch(cases, default) => {
            if s.stack.len() > 0 {
                lemma_switch_closed(cases, default, s, f);
            }
        },
        KwM::IntoClosure(name) => {
            crate::trc::lemma_name_index(s.fns, name, 0);
        },
        _ => {},
    }
}

/// [`lemma_seq_closed`] for a check block.
pub proof fn lemma_check_closed(check: Seq<ExprM>, s: RunS, f: int)
    requires
        closed(s),
        0 <= f,
    ensures
        match check_run(check, s, f).0 {
            Ok((_, t)) => t.no_host == s.no_host && t.hooks == s.hooks,
            Err(o) => keeps(o, s),
        },
        0 <= check_run(check, s, f).1,
    decreases f, 1int, 0int,
{
    lemma_seq_closed(check, s, f, false);
    lemma_seq_fuel(check, s, f, f, false);
}

/// [`lemma_seq_closed`] for `if` from branch `i` on.
pub proof fn lemma_ifs_closed(bs: Seq<(Seq<ExprM>, Seq<ExprM>)>, i: int, s: RunS, f: int)
    requires
        closed(s),
        0 <= f,
    ensures
        keeps(ifs_out(bs, i, s, f).0, s),
    decreases f, 2int, bs.len() - i,
{
    if 0 <= i < bs.len() {
        let c = check_run(bs[i].0, s, f);
        lemma_check_closed(bs[i].0, s, f);
        let f1 = clamp(c.1, f);
        match c.0 {
            Ok((t, s2)) => {
                if t {
                    lemma_seq_closed(bs[i].1, s2, f1, true);
                } else {
                    lemma_ifs_closed(bs, i + 1, s2, f1);
                }
            },
            _ => {},
        }
    }
}

/// [`lemma_seq_closed`] for `while`.
pub proof fn lemma_while_closed(check: Seq<ExprM>, code: Seq<ExprM>, s: RunS, f: int)
    requires
        closed(s),
        0 <= f,
    ensures
        keeps(while_out(check, code, s, f).0, s),
    decreases f, 2int, 0int,
{
    if f > 0 {
        let c = check_run(check, s, f - 1);
        lemma_check_closed(check, s, f - 1);
        let f1 = clamp(c.1, f - 1);
        match c.0 {
            Ok((t, s2)) => {
                if t {
                    let r = run_seq(code, s2, f1, true);
                    lemma_seq_closed(code, s2, f1, true);
                    let f2 = clamp(r.1, f1);
                    match r.0 {
                        OutM::Flow(ControlFlow::Continue, s3) => {
                            lemma_while_closed(check, code, s3, f2);
                        },
                        _ => {},
                    }
                }
            },
            _ => {},
        }
    }
}

/// [`lemma_seq_closed`] for `switch`.
pub proof fn lemma_switch_closed(cases: Seq<(ValueV, Seq<ExprM>)>, default: Option<Seq<ExprM>>, s: RunS, f: int)
    requires
        closed(s),
        0 <= f,
    ensures
        keeps(switch_out(cases, default, s, f).0, s),
    decreases f, 2int, 0int,
{
    let s2 = with_stack(s, s.stack.drop_last());
    lemma_case_index(cases, s.stack.last(), 0);
    match case_index(cases, s.stack.last(), 0) {
        Some(k) => {
            lemma_seq_closed(cases[k].1, s2, f, true);
        },
        None => match default {
            Some(c) => {
                lemma_seq_closed(c, s2, f, true);
            },
            None => {},
        },
    }
}

/// Whether `a` is a prefix of `b`.
pub open spec fn prefix(a: Seq<HostReq>, b: Seq<HostReq>) -> bool {
    a.len() <= b.len() && forall|i: int| 0 <= i < a.len() ==> #[trigger] a[i] == b[i]
}

/// Whether an outcome keeps the requests handed to the host before it:
/// the requests of the state it leaves begin with those of `s`.
pub open spec fn grows(o: OutM, s: RunS) -> bool {
    match o {
        OutM::Flow(_, t) => prefix(s.log, t.log),
        OutM::Fails(_, _, t) => prefix(s.log, t.log),
        OutM::Raw(_, t) => prefix(s.log, t.log),
        OutM::Open => true,
    }
}

/// A run only adds requests for the host: the ones handed over before it
/// stay, in order.
pub proof fn lemma_seq_grows(es: Seq<ExprM>, s: RunS, f: int, stop: bool)
    requires
        0 <= f,
    ensures
        grows(run_seq(es, s, f, stop).0, s),
    decreases f, 0int, 0int,
{
    if es.len() > 0 && f > 0 {
        let r = expr_out(es[0], s, f - 1);
        lemma_expr_grows(es[0], s, f - 1);
        let f1 = clamp(r.1, f - 1);
        match lift(r.0, es[0].span) {
            OutM::Flow(c, t) => {
                if c is Continue || !stop {
                    lemma_seq_grows(es.subrange(1, es.len() as int), t, f1, stop);
                }
            },
            _ => {},
        }
    }
}

/// [`lemma_seq_grows`] for one expression, which may raise an error itself.
pub proof fn lemma_expr_grows(e: ExprM, s: RunS, f: int)
    requires
        0 <= f,
    ensures
        grows(expr_out(e, s, f).0, s),
        0 <= expr_out(e, s, f).1,
    decreases f, 5int, 0int,
{
    lemma_expr_fuel(e, s, f, f);
    match e.cont {
        ContM::Call(name) => lemma_call_grows(name, s, f),
        ContM::Kw(kw) => lemma_kw_grows(kw, s, f),
        ContM::Included(_, es) => lemma_seq_grows(es, s, f, true),
        _ => {},
    }
}

/// [`lemma_seq_grows`] for a call.
pub proof fn lemma_call_grows(name: Seq<char>, s: RunS, f: int)
    requires
        0 <= f,
    ensures
        grows(call_out(name, s, f).0, s),
    decreases f, 4int, 0int,
{
    if builtin_named(name) == Some(crate::builtins::Builtin::Apply) {
        lemma_apply_grows(s, f);
    }
    if builtin_named(name) is None && !(s.args is Some && lookup(s.args->0, name) is Some) {
        crate::trc::lemma_name_index(s.fns, name, 0);
        match name_index(s.fns, name, 0) {
            Some(i) => {
                lemma_user_grows(name, s.fns[i].1, s, f);
            },
            None => {},
        }
    }
}

/// [`lemma_seq_grows`] for `@`.
pub proof fn lemma_apply_grows(s: RunS, f: int)
    requires
        0 <= f,
    ensures
        grows(apply_out(s, f).0, s),
    decreases f, 3int, 0int,
{
    let st = s.stack;
    if st.len() >= 2 {
        let v = st.last();
        let rest = st.drop_last().drop_last();
        match st.drop_last().last() {
            ValueV::Closure(cv) => {
                if cv.next.len() == 1 {
                    let d = cv.next.last();
                    let filled = crate::internals::ClosureV {
                        next: cv.next.drop_last(),
                        filled: cv.filled.push((d.name, v)),
                        ..*cv
                    };
                    lemma_closure_grows(
                        cv.code,
                        crate::internals::closure_bindings(filled),
                        cv.outputs,
                        with_stack(s, rest),
                        f,
                    );
                }
            },
            _ => {},
        }
    }
}

/// [`lemma_seq_grows`] for running a closure.
pub proof fn lemma_closure_grows(
    code: Seq<ExprM>,
    bind: Seq<(Seq<char>, ValueV)>,
    outs: Option<Seq<Option<TypeV>>>,
    s: RunS,
    f: int,
)
    requires
        0 <= f,
    ensures
        grows(closure_run(code, bind, outs, s, f).0, s),
    decreases f, 2int, 0int,
{
    if f > 0 {
        lemma_seq_grows(
            code,
            RunS { stack: Seq::empty(), vars: s.vars, fns: s.fns, args: Some(bind), generics: s.generics, hooks: s.hooks, no_host: s.no_host, log: s.log },
            f - 1,
            true,
        );
    }
}

/// [`lemma_seq_grows`] for a call of a user function.
pub proof fn lemma_user_grows(name: Seq<char>, fm: FnM, s: RunS, f: int)
    requires
        0 <= f,
    ensures
        grows(user_call(name, fm, s, f).0, s),
    decreases f, 3int, 0int,
{
    if f > 0 {
        let vars0 = if fm.scope is Isolated {
            Seq::empty()
        } else {
            s.vars
        };
        match fm.args {
            ArgsM::Args(defs) => {
                let n = defs.len();
                if n <= s.stack.len() {
                    let xs = s.stack.skip(s.stack.len() - n);
                    let caller = with_stack(s, s.stack.take(s.stack.len() - n));
                    match bind_args(defs, xs, s.generics, Seq::empty(), Seq::empty(), 0) {
                        Some((map, binds)) => {
                            lemma_finish_grows(
                                fm,
                                caller,
                                RunS { stack: Seq::empty(), vars: vars0, fns: s.fns, args: Some(map), generics: s.generics, hooks: s.hooks, no_host: s.no_host, log: s.log },
                                binds,
                                f - 1,
                            );
                        },
                        None => {},
                    }
                }
            },
            ArgsM::AllStack => {
                lemma_finish_grows(
                    fm,
                    with_stack(s, Seq::empty()),
                    RunS { stack: s.stack, vars: vars0, fns: s.fns, args: None, generics: s.generics, hooks: s.hooks, no_host: s.no_host, log: s.log },
                    Seq::empty(),
                    f - 1,
                );
            },
        }
    }
}

/// [`lemma_seq_grows`] for the rest of a call.
pub proof fn lemma_finish_grows(fm: FnM, caller: RunS, frame: RunS, binds: Seq<(Seq<char>, TypeV)>, f: int)
    requires
        caller.log == frame.log,
        0 <= f,
    ensures
        grows(finish_call(fm, caller, frame, binds, f).0, caller),
    decreases f, 2int, 0int,
{
    lemma_seq_grows(fm.code, frame, f, true);
}

/// [`lemma_seq_grows`] for a keyword.
pub proof fn lemma_kw_grows(kw: KwM, s: RunS, f: int)
    requires
        0 <= f,
    ensures
        grows(kw_out(kw, s, f).0, s),
    decreases f, 3int, 0int,
{
    match kw {
        KwM::Ifs(bs) => {
            lemma_ifs_grows(bs, 0, s, f);
        },
        KwM::While(check, code) => {
            lemma_while_grows(check, code, s, f);
        },
        KwM::Switch(cases, default) => {
            if s.stack.len() > 0 {
                lemma_switch_grows(cases, default, s, f);
            }
        },
        KwM::IntoClosure(name) => {
            crate::trc::lemma_name_index(s.fns, name, 0);
        },
        _ => {},
    }
}

/// [`lemma_seq_grows`] for a check block.
pub proof fn lemma_check_grows(check: Seq<ExprM>, s: RunS, f: int)
    requires
        0 <= f,
    ensures
        match check_run(check, s, f).0 {
            Ok((_, t)) => prefix(s.log, t.log),
            Err(o) => grows(o, s),
        },
        0 <= check_run(check, s, f).1,
    decreases f, 1int, 0int,
{
    lemma_seq_grows(check, s, f, false);
    lemma_seq_fuel(check, s, f, f, false);
}

/// [`lemma_seq_grows`] for `if` from branch `i` on.
pub proof fn lemma_ifs_grows(bs: Seq<(Seq<ExprM>, Seq<ExprM>)>, i: int, s: RunS, f: int)
    requires
        0 <= f,
    ensures
        grows(ifs_out(bs, i, s, f).0, s),
    decreases f, 2int, bs.len() - i,
{
    if 0 <= i < bs.len() {
        let c = check_run(bs[i].0, s, f);
        lemma_check_grows(bs[i].0, s, f);
        let f1 = clamp(c.1, f);
        match c.0 {
            Ok((t, s2)) => {
                if t {
                    lemma_seq_grows(bs[i].1, s2, f1, true);
                } else {
                    lemma_ifs_grows(bs, i + 1, s2, f1);
                }
            },
            _ => {},
        }
    }
}

/// [`lemma_seq_grows`] for `while`.
pub proof fn lemma_while_grows(check: Seq<ExprM>, code: Seq<ExprM>, s: RunS, f: int)
    requires
        0 <= f,
    ensures
        grows(while_out(check, code, s, f).0, s),
    decreases f, 2int, 0int,
{
    if f > 0 {
        let c = check_run(check, s, f - 1);
        lemma_check_grows(check, s, f - 1);
        let f1 = clamp(c.1, f - 1);
        match c.0 {
            Ok((t, s2)) => {
                if t {
                    let r = run_seq(code, s2, f1, true);
                    lemma_seq_grows(code, s2, f1, true);
                    let f2 = clamp(r.1, f1);
                    match r.0 {
                        OutM::Flow(ControlFlow::Continue, s3) => {
                            lemma_while_grows(check, code, s3, f2);
                        },
                        _ => {},
                    }
                }
            },
            _ => {},
        }
    }
}

/// [`lemma_seq_grows`] for `switch`.
pub proof fn lemma_switch_grows(cases: Seq<(ValueV, Seq<ExprM>)>, default: Option<Seq<ExprM>>, s: RunS, f: int)
    requires
        0 <= f,
    ensures
        grows(switch_out(cases, default, s, f).0, s),
    decreases f, 2int, 0int,
{
    let s2 = with_stack(s, s.stack.drop_last());
    lemma_case_index(cases, s.stack.last(), 0);
    match case_index(cases, s.stack.last(), 0) {
        Some(k) => {
            lemma_seq_grows(cases[k].1, s2, f, true);
        },
        None => match default {
            Some(c) => {
                lemma_seq_grows(c, s2, f, true);
            },
            None => {},
        },
    }
}

} // verus!
