//! The interpreter: the context a script runs in, and how each expression
//! changes it.
use crate::builtins::{
    builtin_of, builtin_named, builtin_spec, class_of, debug_text, fmt, is_pure, pop_any_arg,
    pop_num_arg, pop_str_arg, run_pure_builtin, BOut, Builtin,
};
use crate::check::TypedOutputError;
use crate::error::{ErrCtx, RuntimeError, RuntimeErrorCtx, RuntimeErrorKind};
use crate::internals::{
    value_view, clone_closure, clone_exprs, clone_value, clone_values, values_view, Closure, ClosureCurry, Code,
    ClosureV, ControlFlow, Expr, ExprCont, FnArgs, FnDef, FullClosure, KeywordKind, RustStckFn, TypedOutputs, Value,
    ValueMap, ValueV,
};
use crate::stack::Stack;
use crate::trc::{
    defs_view, find_name, name_index, name_insert, names_of, GenV, TypeResolutionBuilder, TypeResolutionContext,
};
use crate::types::tts_view;
use crate::parse::{exprs_model, expr_model, kw_model};
use crate::semantics::{
    call_ran, case_index, check_ran, check_run, ctx_ran, expr_total, fn_model, fns_model, ifs_out, kw_out, raw_ran,
    run_seq, scalar_match, switch_out, user_call, while_out, with_stack, FnM, HostReq, OutM, RunS,
};
use vstd::prelude::*;

verus! {

/// What the interpreter asks of the program around it: to print text, end
/// the process, give the program's arguments, run shell commands, write
/// files and show debugging text. Nothing is proved of how it does them.
pub trait Host {
    fn print(&self, text: &String);
    fn exit(&self, code: isize);
    fn argv(&self) -> Vec<String>;
    fn sh(&self, command: &String) -> Result<isize, String>;
    fn write_to(&self, content: &String, file: &String) -> Result<isize, String>;
    fn debug(&self, text: &String);
}

/// The number of steps a run may take when none is set.
pub const DEFAULT_STEP_LIMIT: usize = 1_000_000_000;

/// The state a script runs in: its variables, functions, stack, the
/// arguments of the function it runs in, the host and the declared generic
/// types. A run may take at most `step_limit` steps. `log` holds the
/// requests handed to the host so far.
pub struct Frame {
    pub vars: ValueMap,
    pub fns: Vec<(String, FnDef)>,
    pub stack: Stack,
    pub args: Option<ValueMap>,
    pub host: Option<std::rc::Rc<dyn Host + 'static>>,
    pub generics: TypeResolutionBuilder,
    pub step_limit: usize,
    pub log: Ghost<Seq<HostReq>>,
}

/// The context a script runs in: its state and the Rust hooks it may call.
pub struct Context {
    pub frame: Frame,
    pub rust_fns: Vec<RustStckFn>,
}

impl Frame {
    /// A state with nothing defined, an empty stack and no host.
    pub fn new() -> (r: Frame)
        ensures
            r.vars@.len() == 0,
            r.fns@.len() == 0,
            r.stack@.len() == 0,
            r.args is None,
            r.host is None,
            r.generics.defined@.len() == 0,
            r.step_limit == DEFAULT_STEP_LIMIT,
            r.log@.len() == 0,
    {
        Frame {
            vars: ValueMap::new(),
            fns: Vec::new(),
            stack: Stack::new(),
            args: None,
            host: None,
            generics: TypeResolutionBuilder::new(),
            step_limit: DEFAULT_STEP_LIMIT,
            log: Ghost(Seq::empty()),
        }
    }
}

impl Context {
    /// A context with nothing defined, an empty stack, no hook and no host.
    pub fn new() -> (r: Context)
        ensures
            r.frame.vars@.len() == 0,
            r.frame.fns@.len() == 0,
            r.frame.stack@.len() == 0,
            r.frame.args is None,
            r.rust_fns@.len() == 0,
            r.frame.host is None,
            r.frame.generics.defined@.len() == 0,
            r.frame.step_limit == DEFAULT_STEP_LIMIT,
            r.frame.log@.len() == 0,
    {
        Context { frame: Frame::new(), rust_fns: Vec::new() }
    }

    /// The values on the stack, bottom first.
    pub fn get_stack(&self) -> (r: &[Value])
        ensures
            r@ == self.frame.stack.0@,
    {
        self.frame.stack.as_slice()
    }

    /// The variables.
    pub fn get_vars(&self) -> (r: &ValueMap)
        ensures
            r == self.frame.vars,
    {
        &self.frame.vars
    }

    /// Sets the host that builtins talking to the outside use.
    pub fn set_host(&mut self, host: Option<std::rc::Rc<dyn Host + 'static>>)
        ensures
            final(self).frame.host == host,
            final(self).frame.vars == old(self).frame.vars,
            final(self).frame.fns == old(self).frame.fns,
            final(self).frame.stack == old(self).frame.stack,
            final(self).frame.args == old(self).frame.args,
            final(self).frame.generics == old(self).frame.generics,
            final(self).frame.step_limit == old(self).frame.step_limit,
            final(self).frame.log == old(self).frame.log,
            final(self).rust_fns == old(self).rust_fns,
    {
        self.frame.host = host;
    }

    /// Adds a Rust hook; a hook of the same name is replaced and given back.
    pub fn add_rust_hook(&mut self, rnf: RustStckFn) -> (r: Option<RustStckFn>)
        ensures
            match crate::module::hook_index(old(self).rust_fns@, rnf.name@) {
                Some(i) => r == Some(old(self).rust_fns@[i]) && final(self).rust_fns@ == old(
                    self,
                ).rust_fns@.update(i, rnf),
                None => r is None && final(self).rust_fns@ == old(self).rust_fns@.push(rnf),
            },
            final(self).frame == old(self).frame,
    {
        crate::module::insert_hook(&mut self.rust_fns, rnf)
    }
}


/// How a called function receives its arguments.
pub enum FnArgsInsCap {
    Args(ValueMap),
    AllStack(Vec<Value>),
}

/// Whether a run that ended with `r` and the stack and variables `st` and
/// `vars` did what builtin `b` does to the stack `st0` and variables
/// `vars0` (see [`builtin_spec`]).
pub open spec fn builtin_ran(
    b: Builtin,
    st0: Seq<ValueV>,
    vars0: Seq<(Seq<char>, ValueV)>,
    r: Result<(), RuntimeError>,
    st: Seq<ValueV>,
    vars: Seq<(Seq<char>, ValueV)>,
) -> bool {
    match builtin_spec(b, st0, vars0) {
        BOut::Done(s, v) => r is Ok && st == s && vars == v,
        BOut::Fails(s, c) => (r matches Err(RuntimeError::RuntimeRaw(e)) && class_of(e) == Some(c))
            && st == s && vars == vars0,
    }
}

/// Whether a result is the failure of a builtin of class `c`.
pub open spec fn fails_as(r: Result<(), RuntimeError>, c: crate::builtins::ErrClass) -> bool {
    r matches Err(RuntimeError::RuntimeRaw(e)) && class_of(e) == Some(c)
}

/// The result a host gives back, pushed on the stack: a number, or an error
/// text.
pub open spec fn is_host_result(v: ValueV) -> bool {
    v matches ValueV::Result(ok, x) && if ok {
        *x is Num
    } else {
        *x is Str
    }
}

/// What a builtin that talks to the host, formats text or shows debugging
/// text does to the stack `st0`, whatever the host answers; without a host
/// (`no_host`) `sh` gives `0`, `argv` no argument, and writing a file the
/// length of the text in bytes (so a number, whose value is not stated).
/// The variables stay as they were.
pub open spec fn host_builtin_ran(
    b: Builtin,
    no_host: bool,
    st0: Seq<ValueV>,
    r: Result<(), RuntimeError>,
    st: Seq<ValueV>,
) -> bool {
    match b {
        Builtin::Print => match crate::builtins::pop_str(st0) {
            Ok((_, s)) => r is Ok && st == s,
            Err((s, c)) => fails_as(r, c) && st == s,
        },
        Builtin::Exit => match crate::builtins::pop_num(st0) {
            Ok((_, s)) => r is Ok && st == s,
            Err((s, c)) => fails_as(r, c) && st == s,
        },
        Builtin::Argv => r is Ok && st.len() == st0.len() + 1 && st.drop_last() == st0 && st.last() is Array
            && (no_host ==> st.last() == ValueV::Array(Seq::empty())),
        Builtin::Sh => match crate::builtins::pop_str(st0) {
            Ok((_, s)) => r is Ok && st.len() == s.len() + 1 && st.drop_last() == s && is_host_result(st.last())
                && (no_host ==> st.last() == ValueV::Result(true, Box::new(ValueV::Num(0)))),
            Err((s, c)) => fails_as(r, c) && st == s,
        },
        Builtin::WriteTo => match crate::builtins::pop_str(st0) {
            Ok((_, s1)) => match crate::builtins::pop_str(s1) {
                Ok((t, s)) => r is Ok && st.len() == s.len() + 1 && st.drop_last() == s && is_host_result(st.last())
                    && (no_host ==> st.last() == ValueV::Result(
                    true,
                    Box::new(ValueV::Num(crate::semantics::written_len(t))),
                )),
                Err((s, c)) => fails_as(r, c) && st == s,
            },
            Err((s, c)) => fails_as(r, c) && st == s,
        },
        Builtin::Format => match crate::builtins::pop_str(st0) {
            Ok((f, s1)) => match crate::builtins::fmt_spec(f, false, Seq::empty(), s1) {
                crate::builtins::FmtV::Text(t, s) => r is Ok && st == s.push(ValueV::Str(t)),
                crate::builtins::FmtV::Fail(c, s, _) => fails_as(r, c) && st == s,
            },
            Err((s, c)) => fails_as(r, c) && st == s,
        },
        Builtin::DebugStack => r is Ok && st == st0,
        Builtin::DebugVars => r is Ok && st == st0,
        Builtin::DebugArgs => r is Ok && st == st0,
        Builtin::DebugFns => r is Ok && st == st0,
        _ => true,
    }
}

/// What `@` does to the stack `st0`: it takes a value and, under it, a
/// closure, and fills the closure's next argument with the value, which
/// must have the argument's declared type. A closure that still waits for
/// arguments goes back on the stack; one that has them all runs (what that
/// run does is not stated here).
pub open spec fn apply_ran(st0: Seq<ValueV>, r: Result<(), RuntimeError>, st: Seq<ValueV>) -> bool {
    if st0.len() == 0 {
        fails_as(r, crate::builtins::ErrClass::Missing) && st == st0
    } else if st0.len() == 1 {
        fails_as(r, crate::builtins::ErrClass::Missing) && st == st0.drop_last()
    } else {
        let v = st0.last();
        let rest = st0.drop_last().drop_last();
        match st0.drop_last().last() {
            ValueV::Closure(cv) => if cv.next.len() == 0 {
                (r matches Err(RuntimeError::RuntimeRaw(e)) && e is DEVFillFullClosure) && st == rest
            } else {
                let d = cv.next.last();
                if d.ty is Some && crate::check::tt_check(d.ty->0, v) is Some {
                    (r matches Err(RuntimeError::RuntimeRaw(RuntimeErrorKind::Type(t, x))) && crate::check::tt_check(
                        d.ty->0,
                        v,
                    ) == Some(t@) && x@ == v) && st == rest
                } else if cv.next.len() == 1 {
                    true
                } else {
                    r is Ok && st == rest.push(
                        ValueV::Closure(
                            Box::new(ClosureV { next: cv.next.drop_last(), filled: cv.filled.push((d.name, v)), ..*cv }),
                        ),
                    )
                }
            },
            _ => fails_as(r, crate::builtins::ErrClass::WrongType) && st == rest,
        }
    }
}

/// The models of switch cases.
pub open spec fn cases_m(s: Seq<crate::internals::SwitchCase>) -> Seq<(ValueV, Seq<crate::parse::ExprM>)> {
    crate::parse::cases_model(s)
}

/// The model of a default switch code.
pub open spec fn default_m(d: Option<Vec<Expr>>) -> Option<Seq<crate::parse::ExprM>> {
    match d {
        Some(c) => Some(exprs_model(c@)),
        None => None,
    }
}

/// A copy of the functions.
#[verifier::loop_isolation(false)]
fn clone_fns(fns: &Vec<(String, FnDef)>) -> (r: Vec<(String, FnDef)>)
    ensures
        fns_model(r@) == fns_model(fns@),
{
    let mut out: Vec<(String, FnDef)> = Vec::new();
    let mut i: usize = 0;
    while i < fns.len()
        invariant
            i <= fns@.len(),
            out@.len() == i,
            forall|k: int| 0 <= k < i ==> #[trigger] out@[k].0@ == fns@[k].0@ && fn_model(out@[k].1) == fn_model(
                fns@[k].1,
            ),
        decreases fns@.len() - i,
    {
        out.push((fns[i].0.clone(), fns[i].1.clone()));
        i += 1;
    }
    assert(fns_model(out@) =~= fns_model(fns@));
    out
}

/// The model of the state a frame holds.
pub open spec fn frame_state(f: Frame, hooks: Seq<RustStckFn>) -> RunS {
    RunS {
        stack: f.stack@,
        vars: f.vars@,
        fns: fns_model(f.fns@),
        args: match f.args {
            Some(a) => Some(a@),
            None => None,
        },
        generics: defs_view(f.generics.defined@),
        hooks: hook_names(hooks),
        no_host: f.host is None,
        log: f.log@,
    }
}

/// The names of the Rust hooks.
pub open spec fn hook_names(hooks: Seq<RustStckFn>) -> Seq<Seq<char>> {
    hooks.map_values(|h: RustStckFn| h.name@)
}

/// A hook is found by its name exactly when one of the hooks has it.
proof fn lemma_hook_names(hooks: Seq<RustStckFn>, k: Seq<char>)
    ensures
        (crate::module::hook_index(hooks, k) is Some) == hook_names(hooks).contains(k),
{
    crate::module::lemma_hook_index_from(hooks, k, 0);
    match crate::module::hook_index(hooks, k) {
        Some(j) => {
            assert(hook_names(hooks)[j] == k);
        },
        None => {
            if hook_names(hooks).contains(k) {
                let j = choose|j: int| 0 <= j < hook_names(hooks).len() && hook_names(hooks)[j] == k;
                assert(hooks[j].name@ == k);
            }
        },
    }
}

/// The state of a context that has run nothing.
pub open spec fn fresh_state() -> RunS {
    RunS {
        stack: Seq::empty(),
        vars: Seq::empty(),
        fns: Seq::empty(),
        args: None,
        generics: Seq::empty(),
        hooks: Seq::empty(),
        no_host: true,
        log: Seq::empty(),
    }
}

/// Whether a run of a closure that ended with `r`, leaving the caller's
/// state `s`, is the one `o` describes: on success its outputs are given
/// back, to go on the stack.
pub open spec fn vals_ran(o: OutM, r: Result<Vec<Value>, RuntimeError>, s: RunS) -> bool {
    match o {
        OutM::Flow(c, t) => (r matches Ok(vs) && with_stack(s, s.stack + values_view(vs@)) == t) && c is Continue,
        OutM::Fails(m, span, t) => (r matches Err(RuntimeError::RuntimeCtx(e)) && crate::semantics::err_is(m, *e.kind)
            && e.ctx.lines == span) && s == t,
        OutM::Raw(m, t) => (r matches Err(RuntimeError::RuntimeRaw(k)) && crate::semantics::err_is(m, k)) && s == t,
        OutM::Open => true,
    }
}

/// Whether a call of a user function that ended with `r`, leaving the
/// caller's state `s`, is the one `o` describes: on success its outputs are
/// given back, to go on the stack.
pub open spec fn user_ran(o: OutM, r: Option<Result<Vec<Value>, RuntimeError>>, s: RunS) -> bool {
    match o {
        OutM::Flow(c, t) => (r matches Some(Ok(vs)) && with_stack(s, s.stack + values_view(vs@)) == t) && c is Continue,
        OutM::Fails(m, span, t) => (r matches Some(Err(RuntimeError::RuntimeCtx(e))) && crate::semantics::err_is(
            m,
            *e.kind,
        ) && e.ctx.lines == span) && s == t,
        OutM::Raw(m, t) => (r matches Some(Err(RuntimeError::RuntimeRaw(k))) && crate::semantics::err_is(m, k)) && s
            == t,
        OutM::Open => true,
    }
}

/// A copy of the optional host: the same host, where there is one.
fn clone_host(h: &Option<std::rc::Rc<dyn Host + 'static>>) -> (r: Option<std::rc::Rc<dyn Host + 'static>>)
    ensures
        r == *h,
{
    share_rc(h)
}

/// `Option::clone` on a pointer: `Rc::clone` makes a new pointer to the same
/// allocation, so to the same value.
#[verifier::external_body]
fn share_rc<T: ?Sized>(h: &Option<std::rc::Rc<T>>) -> (r: Option<std::rc::Rc<T>>)
    ensures
        r == *h,
{
    h.clone()
}

impl Frame {
    /// A new frame for a call: the functions, variables and host of the
    /// caller, with the arguments bound or the caller's stack.
    fn frame_fn(parent: &Frame, vars: ValueMap, args_ins: FnArgsInsCap) -> (r: Frame)
        ensures
            r.vars == vars,
            forall|h: Seq<RustStckFn>|
                #[trigger] frame_state(r, h) == (RunS {
                    stack: match args_ins {
                        FnArgsInsCap::AllStack(xs) => values_view(xs@),
                        FnArgsInsCap::Args(_) => Seq::empty(),
                    },
                    vars: vars@,
                    fns: fns_model(parent.fns@),
                    args: match args_ins {
                        FnArgsInsCap::AllStack(_) => None,
                        FnArgsInsCap::Args(a) => Some(a@),
                    },
                    generics: defs_view(parent.generics.defined@),
                    hooks: hook_names(h),
                    no_host: parent.host is None,
                    log: parent.log@,
                }),
            r.step_limit == parent.step_limit,
    {
        let (stack, args) = match args_ins {
            FnArgsInsCap::AllStack(xs) => (Stack::new_with(xs), None),
            FnArgsInsCap::Args(a) => (Stack::new(), Some(a)),
        };
        Frame {
            vars,
            fns: clone_fns(&parent.fns),
            stack,
            args,
            host: clone_host(&parent.host),
            generics: parent.generics.clone_builder(),
            step_limit: parent.step_limit,
            log: Ghost(parent.log@),
        }
    }

    /// Runs code with no Rust hook available: the run is the one
    /// [`run_seq`] describes, within the step limit. Without a host, the
    /// meaning describes the whole run.
    pub fn execute_entire_code(&mut self, code: &Code) -> (r: Result<ControlFlow, RuntimeErrorCtx>)
        ensures
            ctx_ran(
                run_seq(exprs_model(code.exprs@), frame_state(*old(self), Seq::empty()), old(self).step_limit as int, true).0,
                r,
                frame_state(*final(self), Seq::empty()),
            ),
            old(self).host is None ==> crate::semantics::keeps(
                run_seq(exprs_model(code.exprs@), frame_state(*old(self), Seq::empty()), old(self).step_limit as int, true).0,
                frame_state(*old(self), Seq::empty()),
            ),
            crate::semantics::grows(
                run_seq(exprs_model(code.exprs@), frame_state(*old(self), Seq::empty()), old(self).step_limit as int, true).0,
                frame_state(*old(self), Seq::empty()),
            ),
    {
        let hooks: Vec<RustStckFn> = Vec::new();
        proof {
            crate::semantics::lemma_seq_grows(
                exprs_model(code.exprs@),
                frame_state(*self, Seq::empty()),
                self.step_limit as int,
                true,
            );
            assert(hook_names(hooks@) =~= Seq::<Seq<char>>::empty());
            if self.host is None {
                crate::semantics::lemma_seq_closed(
                    exprs_model(code.exprs@),
                    frame_state(*self, Seq::empty()),
                    self.step_limit as int,
                    true,
                );
            }
        }
        self.run_code(code, &hooks)
    }

    /// Runs code with the given Rust hooks available: the run is the one
    /// [`run_seq`] describes, within the step limit.
    pub fn run_code(&mut self, code: &Code, hooks: &Vec<RustStckFn>) -> (r: Result<ControlFlow, RuntimeErrorCtx>)
        ensures
            ctx_ran(
                run_seq(exprs_model(code.exprs@), frame_state(*old(self), hooks@), old(self).step_limit as int, true).0,
                r,
                frame_state(*final(self), hooks@),
            ),
            old(self).host is None && hooks@.len() == 0 ==> crate::semantics::keeps(
                run_seq(exprs_model(code.exprs@), frame_state(*old(self), hooks@), old(self).step_limit as int, true).0,
                frame_state(*old(self), hooks@),
            ),
            crate::semantics::grows(
                run_seq(exprs_model(code.exprs@), frame_state(*old(self), hooks@), old(self).step_limit as int, true).0,
                frame_state(*old(self), hooks@),
            ),
    {
        proof {
            crate::semantics::lemma_seq_grows(
                exprs_model(code.exprs@),
                frame_state(*self, hooks@),
                self.step_limit as int,
                true,
            );
            if self.host is None && hooks@.len() == 0 {
                assert(hook_names(hooks@).len() == 0);
                crate::semantics::lemma_seq_closed(
                    exprs_model(code.exprs@),
                    frame_state(*self, hooks@),
                    self.step_limit as int,
                    true,
                );
            }
        }
        let (r, _) = self.execute_code(&code.exprs, &code.source, hooks, self.step_limit);
        r
    }

    /// Runs expressions in order until one of them returns, breaks or fails.
    #[verifier::loop_isolation(false)]
    fn execute_code(&mut self, code: &Vec<Expr>, source: &String, hooks: &Vec<RustStckFn>, fuel: usize) -> (r: (
        Result<ControlFlow, RuntimeErrorCtx>,
        usize,
    ))
        ensures
            r.1 <= fuel,
            ctx_ran(
                run_seq(exprs_model(code@), frame_state(*old(self), hooks@), fuel as int, true).0,
                r.0,
                frame_state(*final(self), hooks@),
            ),
            !(run_seq(exprs_model(code@), frame_state(*old(self), hooks@), fuel as int, true).0 is Open) ==> r.1 == run_seq(
                exprs_model(code@),
                frame_state(*old(self), hooks@),
                fuel as int,
                true,
            ).1,
        decreases fuel, 3nat,
    {
        let fuel0 = fuel;
        let mut fuel = fuel;
        let mut i: usize = 0;
        let ghost m = exprs_model(code@);
        let ghost whole = run_seq(m, frame_state(*old(self), hooks@), fuel0 as int, true);
        proof {
            crate::semantics::lemma_exprs_model(code@);
            assert(m.subrange(0, m.len() as int) =~= m);
        }
        while i < code.len()
            invariant
                i <= code@.len(),
                fuel <= fuel0,
                m == exprs_model(code@),
                m.len() == code@.len(),
                forall|j: int| 0 <= j < code@.len() ==> #[trigger] m[j] == expr_model(code@[j]),
                whole == run_seq(m, frame_state(*old(self), hooks@), fuel0 as int, true),
                !(whole.0 is Open) ==> whole == run_seq(
                    m.subrange(i as int, m.len() as int),
                    frame_state(*self, hooks@),
                    fuel as int,
                    true,
                ),
            decreases code@.len() - i,
        {
            proof {
                let t = m.subrange(i as int, m.len() as int);
                assert(t[0] == m[i as int]);
                assert(t.subrange(1, t.len() as int) =~= m.subrange(i + 1, m.len() as int));
            }
            let (r, f) = self.execute_expr(&code[i], source, hooks, fuel);
            fuel = f;
            match r {
                Err(e) => {
                    return (Err(e), fuel);
                },
                Ok(ControlFlow::Continue) => {},
                Ok(c) => {
                    return (Ok(c), fuel);
                },
            }
            i += 1;
        }
        (Ok(ControlFlow::Continue), fuel)
    }

    /// The error of an expression, with the expression as its context.
    fn at_expr(e: RuntimeError, expr: &Expr, source: &String) -> (r: RuntimeErrorCtx)
        ensures
            e matches RuntimeError::RuntimeRaw(k) ==> *r.kind == k && r.ctx.lines == expr.span
                && r.stack@.len() == 0,
            e matches RuntimeError::RuntimeCtx(c) ==> r == c,
    {
        match e {
            RuntimeError::RuntimeRaw(k) => RuntimeErrorCtx::new(ErrCtx::new(source, expr), k),
            RuntimeError::RuntimeCtx(c) => c,
        }
    }

    /// Runs one expression.
    fn execute_expr(&mut self, expr: &Expr, source: &String, hooks: &Vec<RustStckFn>, fuel: usize) -> (r: (
        Result<ControlFlow, RuntimeErrorCtx>,
        usize,
    ))
        ensures
            r.1 <= fuel,
            ctx_ran(expr_total(expr_model(*expr), frame_state(*old(self), hooks@), fuel as int).0, r.0, frame_state(*final(self), hooks@)),
            !(expr_total(expr_model(*expr), frame_state(*old(self), hooks@), fuel as int).0 is Open) ==> r.1 == expr_total(
                expr_model(*expr),
                frame_state(*old(self), hooks@),
                fuel as int,
            ).1,
        decreases fuel, 2nat,
    {
        if fuel == 0 {
            return (Err(RuntimeErrorCtx::new(ErrCtx::new(source, expr), RuntimeErrorKind::OutOfSteps)), 0);
        }
        let fuel = fuel - 1;
        match &expr.cont {
            ExprCont::FnCall(name) => {
                let (r, f) = self.execute_fn(name, expr, source, hooks, fuel);
                match r {
                    Ok(()) => (Ok(ControlFlow::Continue), f),
                    Err(e) => (Err(Self::at_expr(e, expr, source)), f),
                }
            },
            ExprCont::Keyword(kw) => {
                let (r, f) = self.execute_kw(kw, expr, source, hooks, fuel);
                match r {
                    Ok(c) => (Ok(c), f),
                    Err(e) => (Err(Self::at_expr(e, expr, source)), f),
                }
            },
            ExprCont::Immediate(Value::Closure(cl)) => {
                let mut c = clone_closure(cl);
                let ghost cv0 = crate::internals::closure_view(c);
                match &self.args {
                    Some(args) => {
                        let a = args.clone_map();
                        match c.request_args.set_parent(a) {
                            Ok(()) => {},
                            Err(old_args) => {
                                let e = RuntimeErrorKind::DEVResettingParentValuesForClosure {
                                    closure_args: Box::new(c.request_args.clone()),
                                    parent_args: old_args,
                                };
                                return (Err(RuntimeErrorCtx::new(ErrCtx::new(source, expr), e)), fuel);
                            },
                        }
                    },
                    None => {},
                }
                proof {
                    if self.args is Some {
                        assert(crate::internals::closure_view(c) == (crate::internals::ClosureV {
                            parent: Some(self.args->0@),
                            ..cv0
                        }));
                    }
                }
                self.stack.push(Value::Closure(Box::new(c)));
                (Ok(ControlFlow::Continue), fuel)
            },
            ExprCont::Immediate(v) => {
                self.stack.push(clone_value(v));
                (Ok(ControlFlow::Continue), fuel)
            },
            ExprCont::IncludedCode(code) => {
                let (r, f) = self.execute_code(&code.exprs, &code.source, hooks, fuel);
                match r {
                    Ok(_) => (Ok(ControlFlow::Continue), f),
                    Err(e) => (Err(e), f),
                }
            },
        }
    }

    /// Runs a check block: it must leave exactly one more value on the
    /// stack, a boolean, which it takes.
    #[verifier::loop_isolation(false)]
    fn execute_check(&mut self, code: &Vec<Expr>, source: &String, hooks: &Vec<RustStckFn>, fuel: usize) -> (r: (
        Result<bool, RuntimeError>,
        usize,
    ))
        ensures
            r.1 <= fuel,
            check_ran(
                check_run(exprs_model(code@), frame_state(*old(self), hooks@), fuel as int).0,
                r.0,
                frame_state(*final(self), hooks@),
            ),
            !(check_run(exprs_model(code@), frame_state(*old(self), hooks@), fuel as int).0 matches Err(OutM::Open)) ==> r.1
                == check_run(exprs_model(code@), frame_state(*old(self), hooks@), fuel as int).1,
        decreases fuel, 3nat,
    {
        let fuel0 = fuel;
        let mut fuel = fuel;
        let old_stack_size = self.stack.len();
        let mut i: usize = 0;
        let ghost m = exprs_model(code@);
        let ghost whole = run_seq(m, frame_state(*old(self), hooks@), fuel0 as int, false);
        proof {
            crate::semantics::lemma_exprs_model(code@);
            assert(m.subrange(0, m.len() as int) =~= m);
        }
        while i < code.len()
            invariant
                i <= code@.len(),
                fuel <= fuel0,
                old_stack_size == old(self).stack@.len(),
                m == exprs_model(code@),
                m.len() == code@.len(),
                forall|j: int| 0 <= j < code@.len() ==> #[trigger] m[j] == expr_model(code@[j]),
                whole == run_seq(m, frame_state(*old(self), hooks@), fuel0 as int, false),
                !(whole.0 is Open) ==> whole == run_seq(
                    m.subrange(i as int, m.len() as int),
                    frame_state(*self, hooks@),
                    fuel as int,
                    false,
                ),
            decreases code@.len() - i,
        {
            proof {
                let t = m.subrange(i as int, m.len() as int);
                assert(t[0] == m[i as int]);
                assert(t.subrange(1, t.len() as int) =~= m.subrange(i + 1, m.len() as int));
            }
            let (r, f) = self.execute_expr(&code[i], source, hooks, fuel);
            fuel = f;
            match r {
                Err(e) => {
                    return (Err(RuntimeError::RuntimeCtx(e)), fuel);
                },
                Ok(_) => {},
            }
            i += 1;
        }
        let new_stack_size = self.stack.len();
        let new_should_stack_size = if old_stack_size < usize::MAX {
            old_stack_size + 1
        } else {
            old_stack_size
        };
        let correct_size = new_should_stack_size == new_stack_size;
        let check = self.stack.pop();
        let check = match (check, correct_size) {
            (Some(c), true) => c,
            _ => {
                return (
                    Err(
                        RuntimeError::RuntimeRaw(
                            RuntimeErrorKind::WrongStackSizeDiffOnCheck {
                                old_stack_size,
                                new_stack_size,
                                new_should_stack_size,
                            },
                        ),
                    ),
                    fuel,
                );
            },
        };
        match check {
            Value::Bool(b) => (Ok(b), fuel),
            got => (Err(RuntimeError::RuntimeRaw(RuntimeErrorKind::WrongTypeOnCheck { got })), fuel),
        }
    }

    /// Runs a keyword.
    #[verifier::loop_isolation(false)]
    fn execute_kw(&mut self, kw: &KeywordKind, expr: &Expr, source: &String, hooks: &Vec<RustStckFn>, fuel: usize) -> (r: (
        Result<ControlFlow, RuntimeError>,
        usize,
    ))
        ensures
            r.1 <= fuel,
            kw is Return ==> r.0 == Ok::<ControlFlow, RuntimeError>(ControlFlow::Return) && *final(self)
                == *old(self),
            kw is Break ==> r.0 == Ok::<ControlFlow, RuntimeError>(ControlFlow::Break) && *final(self)
                == *old(self),
            raw_ran(kw_out(kw_model(*kw), frame_state(*old(self), hooks@), fuel as int).0, r.0, frame_state(*final(self), hooks@)),
            !(kw_out(kw_model(*kw), frame_state(*old(self), hooks@), fuel as int).0 is Open) ==> r.1 == kw_out(
                kw_model(*kw),
                frame_state(*old(self), hooks@),
                fuel as int,
            ).1,
            kw is FnDef ==> r.0 == Ok::<ControlFlow, RuntimeError>(ControlFlow::Continue) && r.1 == fuel
                && final(self).stack == old(self).stack && final(self).vars == old(self).vars && (exists|d: FnDef|
                d.scope == kw->FnDef_scope && crate::parse::exprs_model(d.code@) == crate::parse::exprs_model(
                kw->FnDef_code@,
            ) && crate::parse::args_model(d.args) == crate::parse::args_model(kw->FnDef_args) && names_of(final(self).fns@)
                == #[trigger] name_insert(names_of(old(self).fns@), kw->FnDef_name@, d)),
            kw matches KeywordKind::DefinedGeneric(g) ==> r.0 == Ok::<ControlFlow, RuntimeError>(
                ControlFlow::Continue,
            ) && r.1 == fuel && final(self).stack == old(self).stack && final(self).vars == old(self).vars
                && defs_view(final(self).generics.defined@) == name_insert(
                defs_view(old(self).generics.defined@),
                g.name@,
                GenV { allow: tts_view(g.allow@), viral: g.viral },
            ),
            kw matches KeywordKind::IntoClosure { fn_name } ==> (name_index(
                names_of(old(self).fns@),
                fn_name@,
                0,
            ) is None ==> r.0 == Err::<ControlFlow, RuntimeError>(
                RuntimeError::RuntimeRaw(RuntimeErrorKind::MissingUserFunction(*fn_name)),
            ) && *final(self) == *old(self)),
        decreases fuel, 5nat,
    {
        match kw {
            KeywordKind::IntoClosure { fn_name } => {
                proof {
                    crate::semantics::lemma_fns_index(self.fns@, fn_name@, 0);
                }
                match find_name(&self.fns, fn_name) {
                    None => (Err(RuntimeError::RuntimeRaw(RuntimeErrorKind::MissingUserFunction(fn_name.clone()))), fuel),
                    Some(i) => {
                        let fndef = self.fns[i].1.clone();
                        let ghost fm = fn_model(fndef);
                        assert(fm == fns_model(self.fns@)[i as int].1);
                        match fndef.into_closure(fn_name) {
                            Ok(c) => {
                                let ghost cv = crate::internals::closure_view(c);
                                proof {
                                    let d = crate::internals::argdefs_view(c.request_args.next@);
                                    assert(fm.args matches crate::parse::ArgsM::Args(a) && d =~= a.reverse());
                                    assert(crate::internals::entries_view(c.request_args.filled@) =~= Seq::empty());
                                    assert(fm.args matches crate::parse::ArgsM::Args(a) && cv == (ClosureV {
                                        next: a.reverse(),
                                        filled: Seq::empty(),
                                        parent: None,
                                        outputs: fm.outs,
                                        code: fm.code,
                                    }));
                                }
                                self.stack.push(Value::Closure(Box::new(c)));
                                (Ok(ControlFlow::Continue), fuel)
                            },
                            Err(e) => (Err(RuntimeError::RuntimeRaw(e)), fuel),
                        }
                    },
                }
            },
            KeywordKind::BubbleError => {
                let fname = "(!) keyword".to_owned();
                match self.stack.pop() {
                    None => (Err(RuntimeError::RuntimeRaw(crate::builtins::missing(&fname, "result", "Result"))), fuel),
                    Some(Value::Result(x)) => match *x {
                        Err(v) => {
                            self.stack.push(Value::Result(Box::new(Err(v))));
                            (Ok(ControlFlow::Return), fuel)
                        },
                        Ok(v) => {
                            self.stack.push(v);
                            (Ok(ControlFlow::Continue), fuel)
                        },
                    },
                    Some(v) => (Err(RuntimeError::RuntimeRaw(crate::builtins::wrong(&fname, "result", "Result", v))), fuel),
                }
            },
            KeywordKind::Return => (Ok(ControlFlow::Return), fuel),
            KeywordKind::Break => (Ok(ControlFlow::Break), fuel),
            KeywordKind::Switch { cases, default } => {
                if self.stack.len() == 0 {
                    (Err(RuntimeError::RuntimeRaw(RuntimeErrorKind::SwitchCaseWithNoValue)), fuel)
                } else {
                    self.exec_switch(cases, default, source, hooks, fuel)
                }
            },
            KeywordKind::Ifs { branches } => self.exec_ifs(branches, source, hooks, fuel),
            KeywordKind::While { check, code } => self.exec_while(check, code, source, hooks, fuel),
            KeywordKind::FnDef { name, scope, code, args, out_args } => {
                let output_types = match out_args {
                    Some(o) => Some(TypedOutputs::new(crate::internals::clone_argdefs(o))),
                    None => None,
                };
                let def = FnDef::new(*scope, clone_exprs(code), args.clone(), output_types);
                let ghost d = def;
                self.insert_fn(name.clone(), def);
                assert(names_of(self.fns@) == name_insert(names_of(old(self).fns@), name@, d));
                (Ok(ControlFlow::Continue), fuel)
            },
            KeywordKind::DefinedGeneric(g) => {
                self.generics.add_generic(g.clone());
                (Ok(ControlFlow::Continue), fuel)
            },
        }
    }

    /// `(switch)`: takes the top value and runs the code of the first case
    /// that matches it, else the default code, if any.
    #[verifier::loop_isolation(false)]
    fn exec_switch(
        &mut self,
        cases: &Vec<crate::internals::SwitchCase>,
        default: &Option<Vec<Expr>>,
        source: &String,
        hooks: &Vec<RustStckFn>,
        fuel: usize,
    ) -> (r: (Result<ControlFlow, RuntimeError>, usize))
        requires
            old(self).stack@.len() > 0,
        ensures
            r.1 <= fuel,
            raw_ran(
                switch_out(cases_m(cases@), default_m(*default), frame_state(*old(self), hooks@), fuel as int).0,
                r.0,
                frame_state(*final(self), hooks@),
            ),
            !(switch_out(cases_m(cases@), default_m(*default), frame_state(*old(self), hooks@), fuel as int).0 is Open) ==> r.1
                == switch_out(cases_m(cases@), default_m(*default), frame_state(*old(self), hooks@), fuel as int).1,
        decreases fuel, 4nat,
    {
        let top = match self.stack.pop() {
            None => {
                return (Err(RuntimeError::RuntimeRaw(RuntimeErrorKind::SwitchCaseWithNoValue)), fuel);
            },
            Some(v) => v,
        };
        let ghost s0 = frame_state(*self, hooks@);
        let ghost cm = cases_m(cases@);
        proof {
            crate::semantics::lemma_cases_model(cases@);
        }
        let mut i: usize = 0;
        while i < cases.len()
            invariant
                i <= cases@.len(),
                frame_state(*self, hooks@) == s0,
                cm == cases_m(cases@),
                cm.len() == cases@.len(),
                forall|j: int| 0 <= j < cases@.len() ==> #[trigger] cm[j] == (cases@[j].test@, exprs_model(cases@[j].code@)),
                case_index(cm, top@, 0) == case_index(cm, top@, i as int),
            decreases cases@.len() - i,
        {
            if scalar_eq(&cases[i].test, &top) {
                let (r, f) = self.execute_code(&cases[i].code, source, hooks, fuel);
                return match r {
                    Ok(c) => (Ok(c), f),
                    Err(e) => (Err(RuntimeError::RuntimeCtx(e)), f),
                };
            }
            i += 1;
        }
        match default {
            Some(code) => {
                let (r, f) = self.execute_code(code, source, hooks, fuel);
                match r {
                    Ok(c) => (Ok(c), f),
                    Err(e) => (Err(RuntimeError::RuntimeCtx(e)), f),
                }
            },
            None => (Ok(ControlFlow::Continue), fuel),
        }
    }

    /// `(if)`: runs the code of the first branch whose check gives `true`.
    #[verifier::loop_isolation(false)]
    fn exec_ifs(
        &mut self,
        branches: &Vec<crate::internals::CondBranch>,
        source: &String,
        hooks: &Vec<RustStckFn>,
        fuel: usize,
    ) -> (r: (Result<ControlFlow, RuntimeError>, usize))
        ensures
            r.1 <= fuel,
            raw_ran(
                ifs_out(crate::parse::branches_model(branches@), 0, frame_state(*old(self), hooks@), fuel as int).0,
                r.0,
                frame_state(*final(self), hooks@),
            ),
            !(ifs_out(crate::parse::branches_model(branches@), 0, frame_state(*old(self), hooks@), fuel as int).0 is Open) ==> r.1
                == ifs_out(crate::parse::branches_model(branches@), 0, frame_state(*old(self), hooks@), fuel as int).1,
        decreases fuel, 4nat,
    {
        let fuel0 = fuel;
        let mut fuel = fuel;
        let mut i: usize = 0;
        let ghost bm = crate::parse::branches_model(branches@);
        let ghost whole = ifs_out(bm, 0, frame_state(*old(self), hooks@), fuel0 as int);
        proof {
            crate::semantics::lemma_branches_model(branches@);
        }
        while i < branches.len()
            invariant
                i <= branches@.len(),
                fuel <= fuel0,
                bm == crate::parse::branches_model(branches@),
                bm.len() == branches@.len(),
                forall|j: int|
                    0 <= j < branches@.len() ==> #[trigger] bm[j] == (
                        exprs_model(branches@[j].check@),
                        exprs_model(branches@[j].code@),
                    ),
                whole == ifs_out(bm, 0, frame_state(*old(self), hooks@), fuel0 as int),
                !(whole.0 is Open) ==> whole == ifs_out(bm, i as int, frame_state(*self, hooks@), fuel as int),
            decreases branches@.len() - i,
        {
            let (c, f) = self.execute_check(&branches[i].check, source, hooks, fuel);
            fuel = f;
            match c {
                Err(e) => {
                    return (Err(e), fuel);
                },
                Ok(true) => {
                    let (r, f2) = self.execute_code(&branches[i].code, source, hooks, fuel);
                    return match r {
                        Ok(c) => (Ok(c), f2),
                        Err(e) => (Err(RuntimeError::RuntimeCtx(e)), f2),
                    };
                },
                Ok(false) => {},
            }
            i += 1;
        }
        (Ok(ControlFlow::Continue), fuel)
    }

    /// `(while)`: runs the code while the check gives `true`; each round
    /// takes a step.
    #[verifier::loop_isolation(false)]
    fn exec_while(
        &mut self,
        check: &Vec<Expr>,
        code: &Vec<Expr>,
        source: &String,
        hooks: &Vec<RustStckFn>,
        fuel: usize,
    ) -> (r: (Result<ControlFlow, RuntimeError>, usize))
        ensures
            r.1 <= fuel,
            raw_ran(
                while_out(exprs_model(check@), exprs_model(code@), frame_state(*old(self), hooks@), fuel as int).0,
                r.0,
                frame_state(*final(self), hooks@),
            ),
            !(while_out(exprs_model(check@), exprs_model(code@), frame_state(*old(self), hooks@), fuel as int).0 is Open) ==> r.1
                == while_out(exprs_model(check@), exprs_model(code@), frame_state(*old(self), hooks@), fuel as int).1,
        decreases fuel, 4nat,
    {
        let fuel0 = fuel;
        let mut fuel = fuel;
        let ghost whole = while_out(exprs_model(check@), exprs_model(code@), frame_state(*old(self), hooks@), fuel0 as int);
        loop
            invariant
                fuel <= fuel0,
                whole == while_out(exprs_model(check@), exprs_model(code@), frame_state(*old(self), hooks@), fuel0 as int),
                !(whole.0 is Open) ==> whole == while_out(
                    exprs_model(check@),
                    exprs_model(code@),
                    frame_state(*self, hooks@),
                    fuel as int,
                ),
            decreases fuel,
        {
            if fuel == 0 {
                return (Err(RuntimeError::RuntimeRaw(RuntimeErrorKind::OutOfSteps)), 0);
            }
            let (c, f) = self.execute_check(check, source, hooks, fuel - 1);
            fuel = f;
            match c {
                Err(e) => {
                    return (Err(e), fuel);
                },
                Ok(false) => {
                    return (Ok(ControlFlow::Continue), fuel);
                },
                Ok(true) => {},
            }
            let (r, f2) = self.execute_code(code, source, hooks, fuel);
            fuel = f2;
            match r {
                Err(e) => {
                    return (Err(RuntimeError::RuntimeCtx(e)), fuel);
                },
                Ok(ControlFlow::Break) => {
                    return (Ok(ControlFlow::Continue), fuel);
                },
                Ok(ControlFlow::Return) => {
                    return (Ok(ControlFlow::Return), fuel);
                },
                Ok(ControlFlow::Continue) => {},
            }
        }
    }

    /// Defines a function, replacing one of the same name.
    fn insert_fn(&mut self, name: String, def: FnDef)
        ensures
            final(self).vars == old(self).vars,
            final(self).stack == old(self).stack,
            final(self).generics == old(self).generics,
            final(self).args == old(self).args,
            final(self).host == old(self).host,
            final(self).log == old(self).log,
            names_of(final(self).fns@) == name_insert(names_of(old(self).fns@), name@, def),
            fns_model(final(self).fns@) == name_insert(fns_model(old(self).fns@), name@, fn_model(def)),
    {
        proof {
            crate::trc::lemma_name_index(names_of(self.fns@), name@, 0);
            crate::semantics::lemma_fns_index(self.fns@, name@, 0);
        }
        let ghost f0 = self.fns@;
        let ghost nv = name@;
        let ghost dm = fn_model(def);
        match find_name(&self.fns, &name) {
            Some(i) => {
                self.fns.set(i, (name, def));
                proof {
                    assert(fns_model(self.fns@) =~= fns_model(f0).update(i as int, (nv, dm)));
                }
            },
            None => {
                self.fns.push((name, def));
                proof {
                    assert(fns_model(self.fns@) =~= fns_model(f0).push((nv, dm)));
                }
            },
        }
    }

    /// The value of an argument of the running function.
    fn try_get_arg(&self, name: &String) -> (r: Option<Value>)
        ensures
            self.args is None ==> r is None,
            self.args matches Some(a) ==> match crate::internals::lookup(a@, name@) {
                Some(v) => r matches Some(x) && x@ == v,
                None => r is None,
            },
    {
        match &self.args {
            Some(args) => match args.get(name) {
                Some(v) => Some(clone_value(v)),
                None => None,
            },
            None => None,
        }
    }

    /// Runs a Rust hook of that name, if there is one.
    #[verifier::loop_isolation(false)]
    fn try_execute_rust_hook(&mut self, name: &String, source: &String, hooks: &Vec<RustStckFn>) -> (r: bool)
        ensures
            !r ==> *final(self) == *old(self),
            r == (crate::module::hook_index(hooks@, name@) is Some),
            crate::module::hook_index(hooks@, name@) matches Some(i) ==> 0 <= i < hooks@.len()
                && hooks@[i].code.effect(source@, *old(self), *final(self)),
    {
        let mut i: usize = 0;
        while i < hooks.len()
            invariant
                i <= hooks@.len(),
                *self == *old(self),
                crate::module::hook_index(hooks@, name@) == crate::module::hook_index_from(hooks@, name@, i as int),
            decreases hooks@.len() - i,
        {
            if crate::text::string_eq(&hooks[i].name, name) {
                hooks[i].call(self, source);
                return true;
            }
            i += 1;
        }
        false
    }

    /// Calls a function by name: a builtin first, then an argument of the
    /// running function, then a user-defined function, then a Rust hook.
    fn execute_fn(&mut self, name: &String, expr: &Expr, source: &String, hooks: &Vec<RustStckFn>, fuel: usize) -> (r: (
        Result<(), RuntimeError>,
        usize,
    ))
        ensures
            r.1 <= fuel,
            call_ran(crate::semantics::call_out(name@, frame_state(*old(self), hooks@), fuel as int).0, r.0, frame_state(*final(self), hooks@)),
            !(crate::semantics::call_out(name@, frame_state(*old(self), hooks@), fuel as int).0 is Open) ==> r.1
                == crate::semantics::call_out(name@, frame_state(*old(self), hooks@), fuel as int).1,
            builtin_named(name@) is Some && !is_pure(builtin_named(name@)->0) && builtin_named(name@)
                != Some(Builtin::Apply) ==> host_builtin_ran(
                builtin_named(name@)->0,
                old(self).host is None,
                old(self).stack@,
                r.0,
                final(self).stack@,
            ) && final(self).vars@ == old(self).vars@,
            builtin_named(name@) == Some(Builtin::Apply) ==> apply_ran(old(self).stack@, r.0, final(self).stack@),
            builtin_named(name@) is None && !(old(self).args is Some && crate::internals::lookup(
                old(self).args->0@,
                name@,
            ) is Some) && name_index(names_of(old(self).fns@), name@, 0) is None && crate::module::hook_index(
                hooks@,
                name@,
            ) is None ==> (r.0 matches Err(RuntimeError::RuntimeRaw(RuntimeErrorKind::MissingIdent(n))) && n@
                == name@) && *final(self) == *old(self),
            builtin_named(name@) is None && !(old(self).args is Some && crate::internals::lookup(
                old(self).args->0@,
                name@,
            ) is Some) && name_index(names_of(old(self).fns@), name@, 0) is None ==> (crate::module::hook_index(
                hooks@,
                name@,
            ) matches Some(i) ==> r.0 is Ok && 0 <= i < hooks@.len() && hooks@[i].code.effect(
                source@,
                *old(self),
                *final(self),
            )),
        decreases fuel, 6nat,
    {
        proof {
            lemma_hook_names(hooks@, name@);
            crate::semantics::lemma_fns_index(self.fns@, name@, 0);
        }
        match builtin_of(name) {
            Some(b) => {
                return self.run_builtin(b, name, expr, source, hooks, fuel);
            },
            None => {},
        }
        match self.try_get_arg(name) {
            Some(v) => {
                self.stack.push(v);
                return (Ok(()), fuel);
            },
            None => {},
        }
        let (u, f) = self.try_execute_user_fn(name, expr, source, hooks, fuel);
        match u {
            Some(Ok(rets)) => {
                self.stack.pushn(rets);
                return (Ok(()), f);
            },
            Some(Err(e)) => {
                return (Err(e), f);
            },
            None => {},
        }
        if self.try_execute_rust_hook(name, source, hooks) {
            (Ok(()), f)
        } else {
            (Err(RuntimeError::RuntimeRaw(RuntimeErrorKind::MissingIdent(name.clone()))), f)
        }
    }

    /// Runs a builtin.
    fn run_builtin(&mut self, b: Builtin, name: &String, expr: &Expr, source: &String, hooks: &Vec<RustStckFn>, fuel: usize) -> (r: (
        Result<(), RuntimeError>,
        usize,
    ))
        ensures
            r.1 <= fuel,
            is_pure(b) ==> builtin_ran(
                b,
                old(self).stack@,
                old(self).vars@,
                r.0,
                final(self).stack@,
                final(self).vars@,
            ) && r.1 == fuel && final(self).fns == old(self).fns && final(self).args == old(self).args
                && final(self).generics == old(self).generics && final(self).host == old(self).host
                && final(self).log == old(self).log,
            !is_pure(b) && !(b is Apply) ==> host_builtin_ran(
                b,
                old(self).host is None,
                old(self).stack@,
                r.0,
                final(self).stack@,
            ) && final(self).vars@ == old(self).vars@,
            !is_pure(b) && !(b is Apply) ==> call_ran(
                crate::semantics::host_out(b, frame_state(*old(self), hooks@)),
                r.0,
                frame_state(*final(self), hooks@),
            ) && r.1 == fuel,
            b is Apply ==> apply_ran(old(self).stack@, r.0, final(self).stack@),
            b is Apply ==> call_ran(
                crate::semantics::apply_out(frame_state(*old(self), hooks@), fuel as int).0,
                r.0,
                frame_state(*final(self), hooks@),
            ) && (!(crate::semantics::apply_out(frame_state(*old(self), hooks@), fuel as int).0 is Open) ==> r.1
                == crate::semantics::apply_out(frame_state(*old(self), hooks@), fuel as int).1),
        decreases fuel, 5nat,
    {
        if is_pure_exec(b) {
            let r = run_pure_builtin(b, &mut self.stack, &mut self.vars, name);
            return match r {
                Ok(()) => (Ok(()), fuel),
                Err(e) => (Err(RuntimeError::RuntimeRaw(e)), fuel),
            };
        }
        let r: Result<(), RuntimeErrorKind> = match b {
            Builtin::Print => match pop_str_arg(&mut self.stack, name, "string") {
                Ok(s) => {
                    match &self.host {
                        Some(h) => {
                            h.print(&s);
                            self.log = Ghost(self.log@.push(HostReq::Print(s@)));
                        },
                        None => {},
                    }
                    Ok(())
                },
                Err(e) => Err(e),
            },
            Builtin::Exit => match pop_num_arg(&mut self.stack, name, "exit_code") {
                Ok(code) => {
                    match &self.host {
                        Some(h) => {
                            h.exit(code);
                            self.log = Ghost(self.log@.push(HostReq::Exit(code as int)));
                        },
                        None => {},
                    }
                    Ok(())
                },
                Err(e) => Err(e),
            },
            Builtin::Argv => {
                let args: Vec<String> = match &self.host {
                    Some(h) => {
                        let a = h.argv();
                        self.log = Ghost(self.log@.push(HostReq::Argv));
                        a
                    },
                    None => Vec::new(),
                };
                let vs = str_values(&args);
                let ghost s0 = self.stack@;
                self.stack.push(Value::Array(vs));
                proof {
                    assert(self.stack@.drop_last() =~= s0);
                    if self.host is None {
                        assert(values_view(vs@) =~= Seq::<ValueV>::empty());
                    }
                }
                Ok(())
            },
            Builtin::Sh => match pop_str_arg(&mut self.stack, name, "command") {
                Ok(cmd) => {
                    let out = match &self.host {
                        Some(h) => {
                            let o = h.sh(&cmd);
                            self.log = Ghost(self.log@.push(HostReq::Sh(cmd@)));
                            o
                        },
                        None => Ok(0),
                    };
                    let v = match out {
                        Ok(n) => Ok(Value::Num(n)),
                        Err(s) => Err(Value::Str(s)),
                    };
                    let ghost s1 = self.stack@;
                    let ghost vv = Value::Result(Box::new(v));
                    self.stack.push(Value::Result(Box::new(v)));
                    proof {
                        assert(self.stack@.drop_last() =~= s1);
                        reveal_with_fuel(crate::internals::value_view, 2);
                        assert(is_host_result(vv@));
                    }
                    Ok(())
                },
                Err(e) => Err(e),
            },
            Builtin::WriteTo => {
                match pop_str_arg(&mut self.stack, name, "file") {
                    Ok(file) => match pop_str_arg(&mut self.stack, name, "content") {
                        Ok(cont) => {
                            let out = match &self.host {
                                Some(h) => {
                                    let o = h.write_to(&cont, &file);
                                    self.log = Ghost(self.log@.push(HostReq::WriteTo(cont@, file@)));
                                    o
                                },
                                None => {
                                    let cs = cont.as_str();
                                    let n = cs.len();
                                    let k: isize = if n <= isize::MAX as usize { n as isize } else { isize::MAX };
                                    proof {
                                        assert(cs@ == cont@);
                                        assert(n == vstd::utf8::encode_utf8(cont@).len() as usize);
                                        assert(k == crate::semantics::written_len(cont@));
                                    }
                                    Ok(k)
                                },
                            };
                            let v = match out {
                                Ok(n) => Ok(Value::Num(n)),
                                Err(s) => Err(Value::Str(s)),
                            };
                            let ghost s2 = self.stack@;
                            let ghost vv = Value::Result(Box::new(v));
                            self.stack.push(Value::Result(Box::new(v)));
                            proof {
                                assert(self.stack@.drop_last() =~= s2);
                                reveal_with_fuel(crate::internals::value_view, 2);
                                assert(is_host_result(vv@));
                            }
                            Ok(())
                        },
                        Err(e) => Err(e),
                    },
                    Err(e) => Err(e),
                }
            },
            Builtin::Format => match pop_str_arg(&mut self.stack, name, "format") {
                Ok(f) => match fmt(&f, &mut self.stack) {
                    Ok(s) => {
                        let ghost s2 = self.stack@;
                        self.stack.push(Value::Str(s));
                        proof {
                            assert(self.stack@.drop_last() =~= s2);
                        }
                        Ok(())
                    },
                    Err(e) => Err(e),
                },
                Err(e) => Err(e),
            },
            Builtin::DebugStack => {
                let t = debug_text(&self.stack);
                self.debug_out(b, &t);
                Ok(())
            },
            Builtin::DebugVars => {
                let t = debug_text(&self.vars);
                self.debug_out(b, &t);
                Ok(())
            },
            Builtin::DebugArgs => {
                let t = debug_text(&self.args);
                self.debug_out(b, &t);
                Ok(())
            },
            Builtin::DebugFns => {
                let t = debug_text(&self.fns);
                self.debug_out(b, &t);
                Ok(())
            },
            _ => {
                return self.apply(name, source, hooks, fuel);
            },
        };
        match r {
            Ok(()) => (Ok(()), fuel),
            Err(e) => (Err(RuntimeError::RuntimeRaw(e)), fuel),
        }
    }

    /// Hands debugging text to the host, asked for by the builtin `b`.
    fn debug_out(&mut self, b: Builtin, text: &String)
        ensures
            *final(self) == (Frame {
                log: Ghost(
                    if old(self).host is None {
                        old(self).log@
                    } else {
                        old(self).log@.push(HostReq::Debug(b))
                    },
                ),
                ..*old(self)
            }),
    {
        match &self.host {
            Some(h) => {
                h.debug(text);
                self.log = Ghost(self.log@.push(HostReq::Debug(b)));
            },
            None => {},
        }
    }

    /// `@`: fills the next argument of a closure with a value; a closure with
    /// every argument filled runs and leaves its values on the stack.
    fn apply(&mut self, name: &String, source: &String, hooks: &Vec<RustStckFn>, fuel: usize) -> (r: (
        Result<(), RuntimeError>,
        usize,
    ))
        ensures
            r.1 <= fuel,
            apply_ran(old(self).stack@, r.0, final(self).stack@),
            call_ran(crate::semantics::apply_out(frame_state(*old(self), hooks@), fuel as int).0, r.0, frame_state(*final(self), hooks@)),
            !(crate::semantics::apply_out(frame_state(*old(self), hooks@), fuel as int).0 is Open) ==> r.1
                == crate::semantics::apply_out(frame_state(*old(self), hooks@), fuel as int).1,
        decreases fuel, 4nat,
    {
        let ghost st0 = self.stack@;
        let v = match pop_any_arg(&mut self.stack, name, "value") {
            Ok(v) => v,
            Err(e) => {
                return (Err(RuntimeError::RuntimeRaw(e)), fuel);
            },
        };
        let cl = match self.stack.pop() {
            None => {
                return (Err(RuntimeError::RuntimeRaw(crate::builtins::missing(name, "closure", "Closure"))), fuel);
            },
            Some(Value::Closure(c)) => *c,
            Some(o) => {
                return (Err(RuntimeError::RuntimeRaw(crate::builtins::wrong(name, "closure", "Closure", o))), fuel);
            },
        };
        let ghost rest = self.stack@;
        let ghost cv = crate::internals::closure_view(cl);
        let ghost vv = v@;
        proof {
            assert(st0.drop_last().last() == ValueV::Closure(Box::new(cv)));
            assert(st0.last() == vv);
            assert(rest == st0.drop_last().drop_last());
            if cl.request_args.next@.len() > 0 {
                assert(cv.next.last() == crate::internals::argdef_view(cl.request_args.next@.last()));
                assert(crate::internals::argdefs_view(cl.request_args.next@.drop_last()) =~= cv.next.drop_last());
            }
        }
        match cl.fill(v) {
            Err(e) => (Err(RuntimeError::RuntimeRaw(e)), fuel),
            Ok(ClosureCurry::Partial(c)) => {
                let ghost c2 = c;
                self.stack.push(Value::Closure(Box::new(c)));
                proof {
                    let d = cv.next.last();
                    assert(crate::internals::closure_view(c2) == ClosureV {
                        next: cv.next.drop_last(),
                        filled: cv.filled.push((d.name, vv)),
                        ..cv
                    });
                }
                (Ok(()), fuel)
            },
            Ok(ClosureCurry::Full(fc)) => {
                let (r, f) = self.try_execute_user_closure(fc, source, hooks, fuel);
                match r {
                    Ok(vs) => {
                        self.stack.pushn(vs);
                        (Ok(()), f)
                    },
                    Err(e) => (Err(e), f),
                }
            },
        }
    }

    /// Runs a closure whose arguments are all filled, in a frame of its own.
    fn try_execute_user_closure(&mut self, closure: FullClosure, source: &String, hooks: &Vec<RustStckFn>, fuel: usize) -> (r: (
        Result<Vec<Value>, RuntimeError>,
        usize,
    ))
        ensures
            r.1 <= fuel,
            *final(self) == (Frame { log: final(self).log, ..*old(self) }),
            vals_ran(
                crate::semantics::closure_run(
                    exprs_model(closure.code@),
                    closure.request_args@,
                    match closure.output_types {
                        Some(t) => Some(t@),
                        None => None,
                    },
                    frame_state(*old(self), hooks@),
                    fuel as int,
                ).0,
                r.0,
                frame_state(*final(self), hooks@),
            ),
            !(crate::semantics::closure_run(
                exprs_model(closure.code@),
                closure.request_args@,
                match closure.output_types {
                    Some(t) => Some(t@),
                    None => None,
                },
                frame_state(*old(self), hooks@),
                fuel as int,
            ).0 is Open) ==> r.1 == crate::semantics::closure_run(
                exprs_model(closure.code@),
                closure.request_args@,
                match closure.output_types {
                    Some(t) => Some(t@),
                    None => None,
                },
                frame_state(*old(self), hooks@),
                fuel as int,
            ).1,
        decreases fuel, 3nat,
    {
        if fuel == 0 {
            return (Err(RuntimeError::RuntimeRaw(RuntimeErrorKind::OutOfSteps)), 0);
        }
        let vars = self.vars.clone_map();
        let mut frame = Frame::frame_fn(self, vars, FnArgsInsCap::Args(closure.request_args));
        let (r, f) = frame.execute_code(&closure.code, source, hooks, fuel - 1);
        self.log = Ghost(frame.log@);
        match r {
            Err(e) => {
                return (Err(RuntimeError::RuntimeCtx(e)), f);
            },
            Ok(_) => {},
        }
        let outputs = frame.stack.into_vec();
        proof {
            crate::internals::lemma_values_view(outputs@);
        }
        match &closure.output_types {
            Some(t) => {
                let mut trc = TypeResolutionContext::from_builder(self.generics.clone_builder());
                proof {
                    assert(crate::trc::binds_view(trc.current@) =~= Seq::<(Seq<char>, crate::types::TypeV)>::empty());
                }
                match trc.check_outputs(t, outputs.as_slice()) {
                    Ok(()) => {},
                    Err(TypedOutputError::OutputCountError { expected, got }) => {
                        return (Err(RuntimeError::RuntimeRaw(RuntimeErrorKind::OutputClosureCount { expected, got })), f);
                    },
                    Err(TypedOutputError::TypeError(t, v)) => {
                        return (Err(RuntimeError::RuntimeRaw(RuntimeErrorKind::Type(t, Box::new(v)))), f);
                    },
                }
            },
            None => {},
        }
        (Ok(outputs), f)
    }

    /// Runs a user-defined function of that name, if there is one, in a
    /// frame of its own: its arguments are taken from the stack and checked
    /// against their declared types, and its outputs against theirs.
    fn try_execute_user_fn(&mut self, name: &String, expr: &Expr, source: &String, hooks: &Vec<RustStckFn>, fuel: usize) -> (r: (
        Option<Result<Vec<Value>, RuntimeError>>,
        usize,
    ))
        ensures
            r.1 <= fuel,
            name_index(names_of(old(self).fns@), name@, 0) is None ==> r.0 is None && *final(self) == *old(self) && r.1
                == fuel,
            name_index(fns_model(old(self).fns@), name@, 0) matches Some(i) ==> user_ran(
                user_call(name@, fns_model(old(self).fns@)[i].1, frame_state(*old(self), hooks@), fuel as int).0,
                r.0,
                frame_state(*final(self), hooks@),
            ) && (!(user_call(name@, fns_model(old(self).fns@)[i].1, frame_state(*old(self), hooks@), fuel as int).0 is Open) ==> r.1
                == user_call(name@, fns_model(old(self).fns@)[i].1, frame_state(*old(self), hooks@), fuel as int).1),
        decreases fuel, 5nat,
    {
        proof {
            crate::semantics::lemma_fns_index(self.fns@, name@, 0);
        }
        let idx = match find_name(&self.fns, name) {
            None => {
                return (None, fuel);
            },
            Some(i) => i,
        };
        let ghost s0 = frame_state(*self, hooks@);
        let ghost fm = fns_model(self.fns@)[idx as int].1;
        assert(fm == fn_model(self.fns@[idx as int].1));
        proof {
            crate::internals::lemma_values_view(self.stack.0@);
        }
        if fuel == 0 {
            return (Some(Err(RuntimeError::RuntimeRaw(RuntimeErrorKind::OutOfSteps))), 0);
        }
        let fndef = self.fns[idx].1.clone();
        assert(fn_model(fndef) == fm);
        let vars = match fndef.scope {
            crate::internals::FnScope::Isolated => ValueMap::new(),
            _ => self.vars.clone_map(),
        };
        let mut trc = TypeResolutionContext::from_builder(self.generics.clone_builder());
        proof {
            assert(crate::trc::binds_view(trc.current@) =~= Seq::<(Seq<char>, crate::types::TypeV)>::empty());
        }
        let args = match &fndef.args {
            FnArgs::Args(defs) => {
                let n = defs.len();
                proof {
                    assert(crate::internals::argdefs_view(defs@).len() == defs@.len());
                }
                let xs = match self.stack.popn(n) {
                    Some(xs) => xs,
                    None => {
                        let cl = fndef.args.clone();
                        let ghost gcl = cl;
                        let ghost cdefs = match gcl {
                            FnArgs::Args(a) => a@,
                            FnArgs::AllStack => Seq::empty(),
                        };
                        let needs = cl.into_needs();
                        let got = clone_values(&self.stack.0);
                        proof {
                            assert(crate::internals::argdefs_view(cdefs) == crate::internals::argdefs_view(defs@));
                            assert forall|j: int| 0 <= j < defs@.len() implies #[trigger] crate::semantics::strings_view(needs@)[j]
                                == crate::semantics::arg_names(crate::internals::argdefs_view(defs@))[j] by {
                                assert(crate::internals::argdefs_view(cdefs)[j] == crate::internals::argdefs_view(defs@)[j]);
                            }
                            assert(crate::semantics::strings_view(needs@) =~= crate::semantics::arg_names(
                                crate::internals::argdefs_view(defs@),
                            ));
                            assert(values_view(got@) == self.stack@);
                        }
                        return (
                            Some(Err(RuntimeError::RuntimeRaw(RuntimeErrorKind::UserFnMissingArgs {
                                name: name.clone(),
                                got,
                                needs,
                            }))),
                            fuel,
                        );
                    },
                };
                proof {
                    crate::internals::lemma_values_view(xs@);
                }
                match bind_args_exec(&mut trc, defs, &xs) {
                    Err((t, v)) => {
                        return (Some(Err(RuntimeError::RuntimeRaw(RuntimeErrorKind::Type(t, Box::new(v))))), fuel);
                    },
                    Ok(map) => FnArgsInsCap::Args(map),
                }
            },
            FnArgs::AllStack => {
                let all = self.stack.take();
                proof {
                    assert(self.stack.0@ =~= Seq::<Value>::empty());
                    assert(self.stack@ =~= Seq::<ValueV>::empty());
                }
                FnArgsInsCap::AllStack(all)
            },
        };
        let ghost caller = frame_state(*self, hooks@);
        let mut frame = Frame::frame_fn(self, vars, args);
        let (r, f) = frame.execute_code(&fndef.code, source, hooks, fuel - 1);
        self.log = Ghost(frame.log@);
        match r {
            Err(e) => {
                let e2 = e.append_stack(ErrCtx::new(source, expr));
                return (Some(Err(RuntimeError::RuntimeCtx(e2))), f);
            },
            Ok(_) => {},
        }
        match fndef.scope {
            crate::internals::FnScope::Global => {
                write_back_exec(&mut self.vars, &frame.vars);
            },
            _ => {},
        }
        let outputs = frame.stack.into_vec();
        proof {
            crate::internals::lemma_values_view(outputs@);
        }
        match &fndef.output_types {
            Some(t) => {
                match trc.check_outputs(t, outputs.as_slice()) {
                    Ok(()) => {},
                    Err(TypedOutputError::OutputCountError { expected, got }) => {
                        return (
                            Some(Err(RuntimeError::RuntimeRaw(RuntimeErrorKind::OutputCount {
                                fn_name: name.clone(),
                                expected,
                                got,
                            }))),
                            f,
                        );
                    },
                    Err(TypedOutputError::TypeError(t, v)) => {
                        return (Some(Err(RuntimeError::RuntimeRaw(RuntimeErrorKind::Type(t, Box::new(v))))), f);
                    },
                }
            },
            None => {},
        }
        (Some(Ok(outputs)), f)
    }
}

/// Binds the values `xs` to the declared arguments `defs`, in order,
/// checking each against its declared type.
fn bind_args_exec(trc: &mut TypeResolutionContext, defs: &Vec<crate::internals::FnArgDef>, xs: &Vec<Value>) -> (r: Result<
    ValueMap,
    (crate::types::TypeTester, Value),
>)
    requires
        xs@.len() == defs@.len(),
    ensures
        final(trc).defined == old(trc).defined,
        match crate::semantics::bind_args(
            crate::internals::argdefs_view(defs@),
            values_view(xs@),
            defs_view(old(trc).defined@),
            crate::trc::binds_view(old(trc).current@),
            Seq::empty(),
            0,
        ) {
            Some((m, b)) => r matches Ok(map) && map@ == m && crate::trc::binds_view(final(trc).current@) == b,
            None => r is Err,
        },
{
    let ghost d = crate::internals::argdefs_view(defs@);
    let ghost x = values_view(xs@);
    let ghost g = defs_view(trc.defined@);
    let ghost whole = crate::semantics::bind_args(d, x, g, crate::trc::binds_view(trc.current@), Seq::empty(), 0);
    proof {
        crate::internals::lemma_values_view(xs@);
    }
    let mut map = ValueMap::new();
    let mut i: usize = 0;
    while i < defs.len()
        invariant
            i <= defs@.len(),
            xs@.len() == defs@.len(),
            x.len() == xs@.len(),
            d == crate::internals::argdefs_view(defs@),
            x == values_view(xs@),
            forall|j: int| 0 <= j < xs@.len() ==> #[trigger] x[j] == value_view(xs@[j]),
            g == defs_view(trc.defined@),
            trc.defined == old(trc).defined,
            whole == crate::semantics::bind_args(d, x, g, crate::trc::binds_view(old(trc).current@), Seq::empty(), 0),
            whole == crate::semantics::bind_args(d, x, g, crate::trc::binds_view(trc.current@), map@, i as int),
        decreases defs@.len() - i,
    {
        proof {
            assert(d[i as int] == crate::internals::argdef_view(defs@[i as int]));
        }
        match trc.check_raw_closure_arg(&defs[i], &xs[i]) {
            Err(t) => {
                return Err((t, clone_value(&xs[i])));
            },
            Ok(()) => {},
        }
        map.insert(defs[i].name.clone(), clone_value(&xs[i]));
        i += 1;
    }
    Ok(map)
}

/// Sets each variable of `from` in `vars`, in order.
fn write_back_exec(vars: &mut ValueMap, from: &ValueMap)
    ensures
        final(vars)@ == crate::semantics::write_back(old(vars)@, from@, 0),
{
    proof {
        crate::internals::lemma_entries_view(from.entries@);
    }
    let mut k: usize = 0;
    while k < from.entries.len()
        invariant
            k <= from.entries@.len(),
            from@.len() == from.entries@.len(),
            forall|j: int|
                0 <= j < from.entries@.len() ==> #[trigger] from@[j] == (
                    from.entries@[j].0@,
                    value_view(from.entries@[j].1),
                ),
            crate::semantics::write_back(old(vars)@, from@, 0) == crate::semantics::write_back(vars@, from@, k as int),
        decreases from.entries@.len() - k,
    {
        let key = from.entries[k].0.clone();
        let v = clone_value(&from.entries[k].1);
        vars.insert(key, v);
        k += 1;
    }
}

/// The texts as string values.
fn str_values(args: &Vec<String>) -> (r: Vec<Value>)
    ensures
        r@.len() == args@.len(),
{
    let mut vs: Vec<Value> = Vec::new();
    let mut i: usize = 0;
    while i < args.len()
        invariant
            i <= args@.len(),
            vs@.len() == i,
        decreases args@.len() - i,
    {
        vs.push(Value::Str(args[i].clone()));
        i += 1;
    }
    vs
}

/// Whether a builtin only works on the stack and the variables.
fn is_pure_exec(b: Builtin) -> (r: bool)
    ensures
        r == is_pure(b),
{
    match b {
        Builtin::Print | Builtin::Exit | Builtin::Argv | Builtin::Sh | Builtin::WriteTo | Builtin::Apply
        | Builtin::Format | Builtin::DebugStack | Builtin::DebugVars | Builtin::DebugArgs
        | Builtin::DebugFns => false,
        _ => true,
    }
}

/// Whether a switch case's value matches: values of the same scalar type
/// compare by value; values of other types never match.
pub fn scalar_eq(a: &Value, b: &Value) -> (r: bool)
    ensures
        r == scalar_match(a@, b@),
{
    match (a, b) {
        (Value::Char(x), Value::Char(y)) => *x == *y,
        (Value::Num(x), Value::Num(y)) => *x == *y,
        (Value::Str(x), Value::Str(y)) => crate::text::string_eq(x, y),
        (Value::Bool(x), Value::Bool(y)) => *x == *y,
        _ => false,
    }
}

impl Context {
    /// Runs code in the context, with its Rust hooks available: the run is
    /// the one [`run_seq`] describes, within the step limit, and the state
    /// it leaves stays for the next run.
    pub fn execute_entire_code(&mut self, code: &Code) -> (r: Result<ControlFlow, RuntimeErrorCtx>)
        ensures
            ctx_ran(
                run_seq(
                    exprs_model(code.exprs@),
                    frame_state(old(self).frame, old(self).rust_fns@),
                    old(self).frame.step_limit as int,
                    true,
                ).0,
                r,
                frame_state(final(self).frame, final(self).rust_fns@),
            ),
            old(self).frame.host is None && old(self).rust_fns@.len() == 0 ==> crate::semantics::keeps(
                run_seq(
                    exprs_model(code.exprs@),
                    frame_state(old(self).frame, old(self).rust_fns@),
                    old(self).frame.step_limit as int,
                    true,
                ).0,
                frame_state(old(self).frame, old(self).rust_fns@),
            ),
            crate::semantics::grows(
                run_seq(
                    exprs_model(code.exprs@),
                    frame_state(old(self).frame, old(self).rust_fns@),
                    old(self).frame.step_limit as int,
                    true,
                ).0,
                frame_state(old(self).frame, old(self).rust_fns@),
            ),
    {
        self.frame.run_code(code, &self.rust_fns)
    }
}

} // verus!
