//! The parser: it turns the tokens of a block into expressions.
use crate::check::arg_types;
use crate::error::{LineRange, StckError};
use crate::internals::{
    Closure, ClosurePartialArgs, Code, TokenBlock, TypedOutputs, entries_view, reverse_vec,
    RawKeyword, argdefs_view, closure_view, value_view, ArgDefV, ClosureV, CondBranch, Expr, ExprCont,
    FnArgDef, FnArgs, FnScope, KeywordKind, SwitchCase, Token, TokenCont, Value, ValueV,
};
use crate::types::{tts_view, TypeV};
use vstd::prelude::*;

verus! {

/// The state of the parser between two tokens: what it has read of the
/// construct it is in.
#[derive(Debug)]
pub enum State {
    Nothing,
    MakeIfs(Vec<CondBranch>),
    MakeIfsCode { branches: Vec<CondBranch>, check: Vec<Expr> },
    MakeFnArgs(FnScope),
    MakeFnNameOrOutArgs(FnScope, FnArgs),
    MakeFnName(FnScope, FnArgs, Vec<FnArgDef>),
    MakeFnBlock(FnScope, FnArgs, String, Option<Vec<FnArgDef>>),
    MakeSwitch(Vec<SwitchCase>),
    MakeSwitchCode(Vec<SwitchCase>, Value),
    MakeWhile,
    MakeWhileCode(Vec<Expr>),
    MakeClosureBlockOrOutArgs(Vec<FnArgDef>),
    MakeClosureBlock(Vec<FnArgDef>, Option<Vec<FnArgDef>>),
}

// ---------------------------------------------------------------------------
// The model of parsed code

/// The model of an expression: the lines it spans and what it does.
pub struct ExprM {
    pub span: LineRange,
    pub cont: ContM,
}

/// The model of what an expression does.
pub enum ContM {
    /// A value pushed as it is (not a closure).
    Imm(ValueV),
    /// A closure value, with its code.
    Closure(ClosureV, Seq<ExprM>),
    Call(Seq<char>),
    Kw(KwM),
    Included(Seq<char>, Seq<ExprM>),
}

/// The model of the arguments of a function.
pub enum ArgsM {
    Args(Seq<ArgDefV>),
    AllStack,
}

/// The model of a parsed keyword.
pub enum KwM {
    IntoClosure(Seq<char>),
    Break,
    Return,
    BubbleError,
    /// The branches, each a check and the code it guards.
    Ifs(Seq<(Seq<ExprM>, Seq<ExprM>)>),
    While(Seq<ExprM>, Seq<ExprM>),
    FnDef {
        name: Seq<char>,
        scope: FnScope,
        code: Seq<ExprM>,
        args: ArgsM,
        outs: Option<Seq<ArgDefV>>,
    },
    /// The cases, each a value and its code, and the default code.
    Switch(Seq<(ValueV, Seq<ExprM>)>, Option<Seq<ExprM>>),
    /// A generic: its name, whether it is viral, and the types it allows.
    Generic(Seq<char>, bool, Seq<TypeV>),
}

pub open spec fn args_model(a: FnArgs) -> ArgsM {
    match a {
        FnArgs::Args(v) => ArgsM::Args(argdefs_view(v@)),
        FnArgs::AllStack => ArgsM::AllStack,
    }
}

pub open spec fn outs_model(o: Option<Vec<FnArgDef>>) -> Option<Seq<ArgDefV>> {
    match o {
        Some(v) => Some(argdefs_view(v@)),
        None => None,
    }
}

pub open spec fn exprs_model(s: Seq<Expr>) -> Seq<ExprM>
    decreases s, 1nat,
{
    if s.len() == 0 {
        Seq::empty()
    } else {
        exprs_model(s.drop_last()).push(expr_model(s.last()))
    }
}

pub open spec fn expr_model(e: Expr) -> ExprM
    decreases e, 0nat,
{
    ExprM {
        span: e.span,
        cont: match e.cont {
            ExprCont::Immediate(v) => match v {
                Value::Closure(c) => {
                    proof {
                        broadcast use vstd::std_specs::vec::axiom_vec_decreases_to_view;

                        assert(decreases_to!(e => c.code@));
                    }
                    ContM::Closure(closure_view(*c), exprs_model(c.code@))
                },
                _ => ContM::Imm(value_view(v)),
            },
            ExprCont::FnCall(n) => ContM::Call(n@),
            ExprCont::Keyword(k) => ContM::Kw(kw_model(k)),
            ExprCont::IncludedCode(c) => {
                proof {
                    broadcast use vstd::std_specs::vec::axiom_vec_decreases_to_view;

                    assert(decreases_to!(e => c.exprs@));
                }
                ContM::Included(c.source@, exprs_model(c.exprs@))
            },
        },
    }
}

pub open spec fn branches_model(s: Seq<CondBranch>) -> Seq<(Seq<ExprM>, Seq<ExprM>)>
    decreases s, 1nat,
{
    if s.len() == 0 {
        Seq::empty()
    } else {
        proof {
            broadcast use vstd::std_specs::vec::axiom_vec_decreases_to_view;

            assert(decreases_to!(s => s.last().check@));
            assert(decreases_to!(s => s.last().code@));
        }
        branches_model(s.drop_last()).push(
            (exprs_model(s.last().check@), exprs_model(s.last().code@)),
        )
    }
}

pub open spec fn cases_model(s: Seq<SwitchCase>) -> Seq<(ValueV, Seq<ExprM>)>
    decreases s, 1nat,
{
    if s.len() == 0 {
        Seq::empty()
    } else {
        proof {
            broadcast use vstd::std_specs::vec::axiom_vec_decreases_to_view;

            assert(decreases_to!(s => s.last().code@));
        }
        cases_model(s.drop_last()).push((value_view(s.last().test), exprs_model(s.last().code@)))
    }
}

pub open spec fn kw_model(k: KeywordKind) -> KwM
    decreases k, 0nat,
{
    proof {
        broadcast use vstd::std_specs::vec::axiom_vec_decreases_to_view;

    }
    match k {
        KeywordKind::IntoClosure { fn_name } => KwM::IntoClosure(fn_name@),
        KeywordKind::Break => KwM::Break,
        KeywordKind::Return => KwM::Return,
        KeywordKind::BubbleError => KwM::BubbleError,
        KeywordKind::Ifs { branches } => KwM::Ifs(branches_model(branches@)),
        KeywordKind::While { check, code } => KwM::While(exprs_model(check@), exprs_model(code@)),
        KeywordKind::FnDef { name, scope, code, args, out_args } => KwM::FnDef {
            name: name@,
            scope,
            code: exprs_model(code@),
            args: args_model(args),
            outs: outs_model(out_args),
        },
        KeywordKind::Switch { cases, default } => KwM::Switch(
            cases_model(cases@),
            match default {
                Some(d) => {
                    proof {
                        assert(decreases_to!(k => d@));
                    }
                    Some(exprs_model(d@))
                },
                None => None,
            },
        ),
        KeywordKind::DefinedGeneric(g) => KwM::Generic(g.name@, g.viral, tts_view(g.allow@)),
    }
}


// ---------------------------------------------------------------------------
// What the parser computes

/// The model of the parser's state.
pub enum StM {
    Nothing,
    Ifs(Seq<(Seq<ExprM>, Seq<ExprM>)>),
    IfsCode(Seq<(Seq<ExprM>, Seq<ExprM>)>, Seq<ExprM>),
    FnArgs(FnScope),
    FnNameOrOut(FnScope, FnArgs),
    FnName(FnScope, FnArgs, Vec<FnArgDef>),
    FnBlock(FnScope, FnArgs, Seq<char>, Option<Vec<FnArgDef>>),
    Switch(Seq<(ValueV, Seq<ExprM>)>),
    SwitchCode(Seq<(ValueV, Seq<ExprM>)>, ValueV),
    While,
    WhileCode(Seq<ExprM>),
    ClosureOrOut(Vec<FnArgDef>),
    ClosureBlock(Vec<FnArgDef>, Option<Vec<FnArgDef>>),
}

pub open spec fn state_model(s: State) -> StM {
    match s {
        State::Nothing => StM::Nothing,
        State::MakeIfs(bs) => StM::Ifs(branches_model(bs@)),
        State::MakeIfsCode { branches, check } => StM::IfsCode(
            branches_model(branches@),
            exprs_model(check@),
        ),
        State::MakeFnArgs(sc) => StM::FnArgs(sc),
        State::MakeFnNameOrOutArgs(sc, a) => StM::FnNameOrOut(sc, a),
        State::MakeFnName(sc, a, o) => StM::FnName(sc, a, o),
        State::MakeFnBlock(sc, a, n, o) => StM::FnBlock(sc, a, n@, o),
        State::MakeSwitch(cs) => StM::Switch(cases_model(cs@)),
        State::MakeSwitchCode(cs, v) => StM::SwitchCode(cases_model(cs@), value_view(v)),
        State::MakeWhile => StM::While,
        State::MakeWhileCode(c) => StM::WhileCode(exprs_model(c@)),
        State::MakeClosureBlockOrOutArgs(a) => StM::ClosureOrOut(a),
        State::MakeClosureBlock(a, o) => StM::ClosureBlock(a, o),
    }
}

/// Why tokens do not parse.
pub enum ParseErrM {
    /// A token that the state it came in cannot take, in a source.
    Unexpected(StM, TokenCont, Seq<char>),
    /// A function's argument list that is neither a list nor `*`, in a
    /// source.
    ParamList(Seq<char>, Seq<char>),
    /// A closure without arguments, at the lines of its block.
    ZeroArgs(LineRange),
}

/// Whether an error is the one the model describes.
pub open spec fn err_model(e: StckError, m: ParseErrM) -> bool {
    match m {
        ParseErrM::Unexpected(st, tc, source) => e matches StckError::CantParseToken(s, t, src)
            && state_model(s) == st && *t == tc && src@ == source,
        ParseErrM::ParamList(n, source) => e matches StckError::WrongParamList(a, src) && a@ == n
            && src@ == source,
        ParseErrM::ZeroArgs(span) => e == (StckError::CantInstanceClosureZeroArgs { span }),
    }
}

/// The states that read their token again in the next state.
pub open spec fn st_rank(s: StM) -> nat {
    match s {
        StM::ClosureOrOut(_) => 1,
        StM::Switch(_) => 1,
        StM::Ifs(_) => 1,
        _ => 0,
    }
}

/// The closure that a closure's argument list, output list and code make.
pub open spec fn closure_model(args: Vec<FnArgDef>, outs: Option<Vec<FnArgDef>>, code: Seq<ExprM>) -> ClosureV {
    ClosureV {
        code,
        next: argdefs_view(args@.reverse()),
        filled: Seq::empty(),
        parent: None,
        outputs: match outs {
            Some(o) => Some(arg_types(argdefs_view(o@))),
            None => None,
        },
    }
}

/// The expressions that a block of tokens of a source parses to.
pub open spec fn parse_tokens(ts: Seq<Token>, src: Seq<char>) -> Result<Seq<ExprM>, ParseErrM> {
    parse_from(ts, src, StM::Nothing, Seq::empty(), 0, true)
}

/// The expressions that the tokens `ts` parse to, in the state `st`, after
/// the expressions `acc`. An expression spans from the first line of the
/// first token read since the last expression (`start`, unless `restart`)
/// to the last line of the token that completes it.
pub open spec fn parse_from(
    ts: Seq<Token>,
    src: Seq<char>,
    st: StM,
    acc: Seq<ExprM>,
    start: usize,
    restart: bool,
) -> Result<Seq<ExprM>, ParseErrM>
    decreases ts, st_rank(st),
{
    if ts.len() == 0 {
        Ok(acc)
    } else {
        let t = ts[0];
        let rest = ts.subrange(1, ts.len() as int);
        let s0 = if restart {
            t.span.start
        } else {
            start
        };
        let sp = LineRange { start: s0, end: t.span.end };
        proof {
            broadcast use vstd::std_specs::vec::axiom_vec_decreases_to_view;

            assert(decreases_to!(ts => ts[0]));
        }
        match (st, t.cont) {
            (StM::Nothing, TokenCont::EndOfBlock) => parse_from(rest, src, StM::Nothing, acc, s0, false),
            (StM::Nothing, TokenCont::Ident(n)) => parse_from(
                rest,
                src,
                StM::Nothing,
                acc.push(ExprM { span: sp, cont: ContM::Call(n@) }),
                s0,
                true,
            ),
            (StM::Nothing, TokenCont::Str(x)) => parse_from(
                rest,
                src,
                StM::Nothing,
                acc.push(ExprM { span: sp, cont: ContM::Imm(ValueV::Str(x@)) }),
                s0,
                true,
            ),
            (StM::Nothing, TokenCont::Number(x)) => parse_from(
                rest,
                src,
                StM::Nothing,
                acc.push(ExprM { span: sp, cont: ContM::Imm(ValueV::Num(x)) }),
                s0,
                true,
            ),
            (StM::Nothing, TokenCont::Char(c)) => parse_from(
                rest,
                src,
                StM::Nothing,
                acc.push(ExprM { span: sp, cont: ContM::Imm(ValueV::Char(c)) }),
                s0,
                true,
            ),
            (StM::Nothing, TokenCont::Keyword(RawKeyword::TRC(g))) => parse_from(
                rest,
                src,
                StM::Nothing,
                acc.push(
                    ExprM {
                        span: sp,
                        cont: ContM::Kw(KwM::Generic(g.name@, g.viral, tts_view(g.allow@))),
                    },
                ),
                s0,
                true,
            ),
            (StM::Nothing, TokenCont::Keyword(RawKeyword::Break)) => parse_from(
                rest,
                src,
                StM::Nothing,
                acc.push(ExprM { span: sp, cont: ContM::Kw(KwM::Break) }),
                s0,
                true,
            ),
            (StM::Nothing, TokenCont::Keyword(RawKeyword::Return)) => parse_from(
                rest,
                src,
                StM::Nothing,
                acc.push(ExprM { span: sp, cont: ContM::Kw(KwM::Return) }),
                s0,
                true,
            ),
            (StM::Nothing, TokenCont::Keyword(RawKeyword::BubbleError)) => parse_from(
                rest,
                src,
                StM::Nothing,
                acc.push(ExprM { span: sp, cont: ContM::Kw(KwM::BubbleError) }),
                s0,
                true,
            ),
            (StM::Nothing, TokenCont::Keyword(RawKeyword::FnIntoClosure { fn_name })) => parse_from(
                rest,
                src,
                StM::Nothing,
                acc.push(ExprM { span: sp, cont: ContM::Kw(KwM::IntoClosure(fn_name@)) }),
                s0,
                true,
            ),
            (s, TokenCont::IncludedBlock(b)) => {
                proof {
                    assert(decreases_to!(ts => b.tokens@));
                }
                match parse_from(b.tokens@, b.source@, StM::Nothing, Seq::empty(), 0, true) {
                    Ok(es) => parse_from(
                        rest,
                        src,
                        s,
                        acc.push(ExprM { span: sp, cont: ContM::Included(b.source@, es) }),
                        s0,
                        true,
                    ),
                    Err(e) => Err(e),
                }
            },
            (StM::Nothing, TokenCont::FnArgs(args)) => parse_from(
                rest,
                src,
                StM::ClosureOrOut(args),
                acc,
                s0,
                false,
            ),
            (StM::ClosureOrOut(args), TokenCont::FnArgs(outs)) => parse_from(
                rest,
                src,
                StM::ClosureBlock(args, Some(outs)),
                acc,
                s0,
                false,
            ),
            (StM::ClosureOrOut(args), TokenCont::Block(_)) => parse_from(
                ts,
                src,
                StM::ClosureBlock(args, None),
                acc,
                s0,
                false,
            ),
            (StM::ClosureBlock(args, outs), TokenCont::Block(code)) => {
                proof {
                    assert(decreases_to!(ts => code@));
                }
                match parse_from(code@, src, StM::Nothing, Seq::empty(), 0, true) {
                    Ok(es) => if args@.len() == 0 {
                        Err(ParseErrM::ZeroArgs(t.span))
                    } else {
                        parse_from(
                            rest,
                            src,
                            StM::Nothing,
                            acc.push(
                                ExprM { span: sp, cont: ContM::Closure(closure_model(args, outs, es), es) },
                            ),
                            s0,
                            true,
                        )
                    },
                    Err(e) => Err(e),
                }
            },
            (StM::Nothing, TokenCont::Keyword(RawKeyword::Switch)) => parse_from(
                rest,
                src,
                StM::Switch(Seq::empty()),
                acc,
                s0,
                false,
            ),
            (StM::Switch(cases), TokenCont::Char(c)) => parse_from(
                rest,
                src,
                StM::SwitchCode(cases, ValueV::Char(c)),
                acc,
                s0,
                false,
            ),
            (StM::Switch(cases), TokenCont::Str(v)) => parse_from(
                rest,
                src,
                StM::SwitchCode(cases, ValueV::Str(v@)),
                acc,
                s0,
                false,
            ),
            (StM::Switch(cases), TokenCont::Number(v)) => parse_from(
                rest,
                src,
                StM::SwitchCode(cases, ValueV::Num(v)),
                acc,
                s0,
                false,
            ),
            (StM::SwitchCode(cases, test), TokenCont::Block(code)) => {
                proof {
                    assert(decreases_to!(ts => code@));
                }
                match parse_from(code@, src, StM::Nothing, Seq::empty(), 0, true) {
                    Ok(es) => parse_from(rest, src, StM::Switch(cases.push((test, es))), acc, s0, false),
                    Err(e) => Err(e),
                }
            },
            (StM::Switch(cases), TokenCont::Block(code)) => {
                proof {
                    assert(decreases_to!(ts => code@));
                }
                match parse_from(code@, src, StM::Nothing, Seq::empty(), 0, true) {
                    Ok(es) => parse_from(
                        rest,
                        src,
                        StM::Nothing,
                        acc.push(ExprM { span: sp, cont: ContM::Kw(KwM::Switch(cases, Some(es))) }),
                        s0,
                        true,
                    ),
                    Err(e) => Err(e),
                }
            },
            (StM::Switch(cases), TokenCont::EndOfBlock) => parse_from(
                rest,
                src,
                StM::Nothing,
                acc.push(ExprM { span: sp, cont: ContM::Kw(KwM::Switch(cases, None)) }),
                s0,
                true,
            ),
            (StM::Switch(cases), _) => parse_from(
                ts,
                src,
                StM::Nothing,
                acc.push(ExprM { span: sp, cont: ContM::Kw(KwM::Switch(cases, None)) }),
                s0,
                true,
            ),
            (StM::Nothing, TokenCont::Keyword(RawKeyword::Ifs)) => parse_from(
                rest,
                src,
                StM::Ifs(Seq::empty()),
                acc,
                s0,
                false,
            ),
            (StM::Ifs(branches), TokenCont::Block(code)) => {
                proof {
                    assert(decreases_to!(ts => code@));
                }
                match parse_from(code@, src, StM::Nothing, Seq::empty(), 0, true) {
                    Ok(es) => parse_from(rest, src, StM::IfsCode(branches, es), acc, s0, false),
                    Err(e) => Err(e),
                }
            },
            (StM::IfsCode(branches, check), TokenCont::Block(code)) => {
                proof {
                    assert(decreases_to!(ts => code@));
                }
                match parse_from(code@, src, StM::Nothing, Seq::empty(), 0, true) {
                    Ok(es) => parse_from(rest, src, StM::Ifs(branches.push((check, es))), acc, s0, false),
                    Err(e) => Err(e),
                }
            },
            (StM::Ifs(branches), TokenCont::EndOfBlock) => parse_from(
                rest,
                src,
                StM::Nothing,
                acc.push(ExprM { span: sp, cont: ContM::Kw(KwM::Ifs(branches)) }),
                s0,
                true,
            ),
            (StM::Ifs(branches), _) => parse_from(
                ts,
                src,
                StM::Nothing,
                acc.push(ExprM { span: sp, cont: ContM::Kw(KwM::Ifs(branches)) }),
                s0,
                true,
            ),
            (StM::Nothing, TokenCont::Keyword(RawKeyword::Fn(scope))) => parse_from(
                rest,
                src,
                StM::FnArgs(scope),
                acc,
                s0,
                false,
            ),
            (StM::FnArgs(scope), TokenCont::FnArgs(args)) => parse_from(
                rest,
                src,
                StM::FnNameOrOut(scope, FnArgs::Args(args)),
                acc,
                s0,
                false,
            ),
            (StM::FnArgs(scope), TokenCont::Ident(i)) => if i@ == seq!['*'] {
                parse_from(rest, src, StM::FnNameOrOut(scope, FnArgs::AllStack), acc, s0, false)
            } else {
                Err(ParseErrM::ParamList(i@, src))
            },
            (StM::FnNameOrOut(scope, args), TokenCont::FnArgs(outs)) => parse_from(
                rest,
                src,
                StM::FnName(scope, args, outs),
                acc,
                s0,
                false,
            ),
            (StM::FnNameOrOut(scope, args), TokenCont::Ident(name)) => parse_from(
                rest,
                src,
                StM::FnBlock(scope, args, name@, None),
                acc,
                s0,
                false,
            ),
            (StM::FnName(scope, args, outs), TokenCont::Ident(name)) => parse_from(
                rest,
                src,
                StM::FnBlock(scope, args, name@, Some(outs)),
                acc,
                s0,
                false,
            ),
            (StM::FnBlock(scope, args, name, outs), TokenCont::Block(code)) => {
                proof {
                    assert(decreases_to!(ts => code@));
                }
                match parse_from(code@, src, StM::Nothing, Seq::empty(), 0, true) {
                    Ok(es) => parse_from(
                        rest,
                        src,
                        StM::Nothing,
                        acc.push(
                            ExprM {
                                span: sp,
                                cont: ContM::Kw(
                                    KwM::FnDef {
                                        name,
                                        scope,
                                        code: es,
                                        args: args_model(args),
                                        outs: outs_model(outs),
                                    },
                                ),
                            },
                        ),
                        s0,
                        true,
                    ),
                    Err(e) => Err(e),
                }
            },
            (StM::Nothing, TokenCont::Keyword(RawKeyword::While)) => parse_from(
                rest,
                src,
                StM::While,
                acc,
                s0,
                false,
            ),
            (StM::While, TokenCont::Block(check)) => {
                proof {
                    assert(decreases_to!(ts => check@));
                }
                match parse_from(check@, src, StM::Nothing, Seq::empty(), 0, true) {
                    Ok(es) => parse_from(rest, src, StM::WhileCode(es), acc, s0, false),
                    Err(e) => Err(e),
                }
            },
            (StM::WhileCode(check), TokenCont::Block(code)) => {
                proof {
                    assert(decreases_to!(ts => code@));
                }
                match parse_from(code@, src, StM::Nothing, Seq::empty(), 0, true) {
                    Ok(es) => parse_from(
                        rest,
                        src,
                        StM::Nothing,
                        acc.push(ExprM { span: sp, cont: ContM::Kw(KwM::While(check, es)) }),
                        s0,
                        true,
                    ),
                    Err(e) => Err(e),
                }
            },
            (s, tc) => Err(ParseErrM::Unexpected(s, tc, src)),
        }
    }
}


// ---------------------------------------------------------------------------
// Lemmas on the models

pub proof fn lemma_exprs_push(s: Seq<Expr>, e: Expr)
    ensures
        exprs_model(s.push(e)) == exprs_model(s).push(expr_model(e)),
{
    assert(s.push(e).drop_last() =~= s);
}

pub proof fn lemma_branches_push(s: Seq<CondBranch>, b: CondBranch)
    ensures
        branches_model(s.push(b)) == branches_model(s).push(
            (exprs_model(b.check@), exprs_model(b.code@)),
        ),
{
    assert(s.push(b).drop_last() =~= s);
}

pub proof fn lemma_cases_push(s: Seq<SwitchCase>, c: SwitchCase)
    ensures
        cases_model(s.push(c)) == cases_model(s).push((value_view(c.test), exprs_model(c.code@))),
{
    assert(s.push(c).drop_last() =~= s);
}

proof fn lemma_reverse_pop<A>(c: Seq<A>)
    requires
        c.len() > 0,
    ensures
        c.reverse() == seq![c.last()] + c.drop_last().reverse(),
{
    assert(c.reverse() =~= seq![c.last()] + c.drop_last().reverse());
}

proof fn lemma_reverse_reverse<A>(c: Seq<A>)
    ensures
        c.reverse().reverse() == c,
{
    assert(c.reverse().reverse() =~= c);
}

// ---------------------------------------------------------------------------
// The parser

/// The parser of a block: the tokens left (the next one last), a token
/// read again by the next state, and the name of the source.
pub struct Context {
    code: Vec<Token>,
    source: String,
    ungotten: Option<Token>,
}

/// A character value.
fn char_value(c: char) -> (v: Value)
    ensures
        v == Value::Char(c),
{
    Value::Char(c)
}

/// What one token does to the parser: a new state or a failure.
enum Step {
    Go(State),
    Fail(StckError),
}

impl Context {
    /// The tokens left to parse, in order.
    pub closed spec fn input(&self) -> Seq<Token> {
        match self.ungotten {
            Some(t) => seq![t] + self.code@.reverse(),
            None => self.code@.reverse(),
        }
    }

    /// The name of the source the tokens come from.
    pub closed spec fn source_name(&self) -> Seq<char> {
        self.source@
    }

    /// A parser of the tokens of a source.
    pub fn new(tokens: Vec<Token>, source: &String) -> (r: Context)
        ensures
            r.input() == tokens@,
            r.source_name() == source@,
    {
        proof {
            lemma_reverse_reverse(tokens@);
        }
        Context { code: reverse_vec(tokens), source: source.clone(), ungotten: None }
    }

    fn next(&mut self) -> (r: Option<Token>)
        ensures
            final(self).source == old(self).source,
            final(self).ungotten is None,
            old(self).input().len() == 0 ==> r is None && final(self).input() == old(self).input(),
            old(self).input().len() > 0 ==> r == Some(old(self).input()[0]) && final(self).input()
                == old(self).input().subrange(1, old(self).input().len() as int),
    {
        match self.ungotten.take() {
            None => {
                proof {
                    if self.code@.len() > 0 {
                        lemma_reverse_pop(self.code@);
                        assert((seq![self.code@.last()] + self.code@.drop_last().reverse()).subrange(
                            1,
                            self.code@.len() as int,
                        ) =~= self.code@.drop_last().reverse());
                    }
                }
                self.code.pop()
            },
            x => {
                proof {
                    let t = x.unwrap();
                    assert((seq![t] + self.code@.reverse()).subrange(
                        1,
                        self.code@.len() as int + 1,
                    ) =~= self.code@.reverse());
                }
                x
            },
        }
    }

    fn unget(&mut self, token: Token)
        requires
            old(self).ungotten is None,
        ensures
            final(self).input() == seq![token] + old(self).input(),
            final(self).source == old(self).source,
    {
        self.ungotten = Some(token);
    }

    /// Parses the tokens up to the end of the block into expressions.
    pub fn parse_block(&mut self) -> (r: Result<Vec<Expr>, StckError>)
        ensures
            match parse_tokens(old(self).input(), old(self).source_name()) {
                Ok(es) => r matches Ok(v) && exprs_model(v@) == es,
                Err(m) => r matches Err(e) && err_model(e, m),
            },
        decreases old(self).input(),
    {
        let ghost orig = self.input();
        let ghost src = self.source@;
        let ghost mut k: int = 0;
        let mut state = State::Nothing;
        let mut out: Vec<Expr> = Vec::new();
        let mut restart_span = true;
        let mut cum_span = LineRange::from_points(0, 0);
        proof {
            assert(orig.subrange(0, orig.len() as int) =~= orig);
        }
        loop
            invariant
                0 <= k <= orig.len(),
                self.input() == orig.subrange(k, orig.len() as int),
                self.source@ == src,
                orig == old(self).input(),
                src == old(self).source_name(),
                parse_from(self.input(), src, state_model(state), exprs_model(out@), cum_span.start, restart_span)
                    == parse_tokens(orig, src),
            ensures
                self.input().len() == 0,
            decreases self.input().len(), st_rank(state_model(state)),
        {
            let ghost in0 = self.input();
            let ghost st0 = state_model(state);
            let ghost acc0 = exprs_model(out@);
            let ghost cs0 = cum_span.start;
            let ghost rs0 = restart_span;
            let token = match self.next() {
                Some(t) => t,
                None => {
                    break;
                },
            };
            let mut cum = cum_span;
            cum.end = token.span.end;
            if restart_span {
                cum.start = token.span.start;
            }
            proof {
                assert(orig[k] == in0[0]);
                assert(orig.subrange(k + 1, orig.len() as int) =~= in0.subrange(1, in0.len() as int));
                assert(seq![token] + self.input() =~= in0);
                lemma_restart(in0, src, st0, acc0, cs0, rs0);
                broadcast use vstd::std_specs::vec::axiom_vec_decreases_to_view;

                assert(decreases_to!(orig => orig[k]));
                k = k + 1;
            }
            let ghost after = self.input();
            let included = match &token.cont {
                TokenCont::IncludedBlock(_) => true,
                _ => false,
            };
            let (step, pushed) = if included {
                self.parse_included(state, token, cum, &mut out)
            } else {
                match state {
                    State::Nothing => self.parse_plain(State::Nothing, token, cum, &mut out),
                    State::MakeClosureBlockOrOutArgs(a) => self.parse_closure(
                        State::MakeClosureBlockOrOutArgs(a),
                        token,
                        cum,
                        &mut out,
                    ),
                    State::MakeClosureBlock(a, o) => self.parse_closure(
                        State::MakeClosureBlock(a, o),
                        token,
                        cum,
                        &mut out,
                    ),
                    State::MakeSwitch(c) => self.parse_switch(State::MakeSwitch(c), token, cum, &mut out),
                    State::MakeSwitchCode(c, v) => self.parse_switch(
                        State::MakeSwitchCode(c, v),
                        token,
                        cum,
                        &mut out,
                    ),
                    State::MakeIfs(b) => self.parse_ifs(State::MakeIfs(b), token, cum, &mut out),
                    State::MakeIfsCode { branches, check } => self.parse_ifs(
                        State::MakeIfsCode { branches, check },
                        token,
                        cum,
                        &mut out,
                    ),
                    State::MakeWhile => self.parse_while(State::MakeWhile, token, cum, &mut out),
                    State::MakeWhileCode(c) => self.parse_while(State::MakeWhileCode(c), token, cum, &mut out),
                    State::MakeFnArgs(sc) => self.parse_fn(State::MakeFnArgs(sc), token, cum, &mut out),
                    State::MakeFnNameOrOutArgs(sc, a) => self.parse_fn(
                        State::MakeFnNameOrOutArgs(sc, a),
                        token,
                        cum,
                        &mut out,
                    ),
                    State::MakeFnName(sc, a, o) => self.parse_fn(State::MakeFnName(sc, a, o), token, cum, &mut out),
                    State::MakeFnBlock(sc, a, n, o) => self.parse_fn(
                        State::MakeFnBlock(sc, a, n, o),
                        token,
                        cum,
                        &mut out,
                    ),
                }
            };
            match step {
                Step::Go(st) => {
                    proof {
                        if self.input() != after {
                            k = k - 1;
                            assert(self.input() =~= orig.subrange(k, orig.len() as int));
                        }
                    }
                    state = st;
                    cum_span = cum;
                    restart_span = pushed;
                },
                Step::Fail(e) => {
                    return Err(e);
                },
            }
        }
        Ok(out)
    }

    /// An included block, in any state: its code, parsed in its own source.
    fn parse_included(&mut self, state: State, t: Token, cum: LineRange, out: &mut Vec<Expr>) -> (r: (Step, bool))
        requires
            old(self).ungotten is None,
            t.cont is IncludedBlock,
            cum.end == t.span.end,
        ensures
            final(self).source == old(self).source,
            step_ok(
                seq![t] + old(self).input(),
                old(self).source@,
                state_model(state),
                exprs_model(old(out)@),
                cum.start,
                r.0,
                final(self).input(),
                exprs_model(final(out)@),
                r.1,
            ),
            final(self).input() == old(self).input(),
        decreases t,
    {
        proof {
            lemma_cons(t, old(self).input());
        }
        let Token { cont, span } = t;
        match cont {
            TokenCont::IncludedBlock(b) => {
                let TokenBlock { source: bsrc, tokens: btoks } = b;
                proof {
                    broadcast use vstd::std_specs::vec::axiom_vec_decreases_to_view;

                    assert(decreases_to!(t => btoks@));
                }
                let mut inner = Context::new(btoks, &bsrc);
                match inner.parse_block() {
                    Ok(es) => {
                        let e = Expr { cont: ExprCont::IncludedCode(Code { source: bsrc, exprs: es }), span: cum };
                        proof {
                            lemma_exprs_push(out@, e);
                        }
                        out.push(e);
                        (Step::Go(state), true)
                    },
                    Err(e) => (Step::Fail(e), false),
                }
            },
            _ => (Step::Fail(StckError::MissingChar), false),
        }
    }
    /// A token read in no construct: an expression, or the start of one.
    fn parse_plain(&mut self, state: State, t: Token, cum: LineRange, out: &mut Vec<Expr>) -> (r: (Step, bool))
        requires
            old(self).ungotten is None,
            !(t.cont is IncludedBlock),
            cum.end == t.span.end,
            state is Nothing,
        ensures
            final(self).source == old(self).source,
            step_ok(
                seq![t] + old(self).input(),
                old(self).source@,
                state_model(state),
                exprs_model(old(out)@),
                cum.start,
                r.0,
                final(self).input(),
                exprs_model(final(out)@),
                r.1,
            ),
            final(self).input() == old(self).input() || final(self).input() == seq![t] + old(self).input(),
        decreases t,
    {
        proof {
            lemma_cons(t, old(self).input());
            broadcast use vstd::std_specs::vec::axiom_vec_decreases_to_view;

        }
        let Token { cont, span } = t;
        match cont {
            TokenCont::EndOfBlock => (Step::Go(State::Nothing), false),
            TokenCont::Ident(n) => {
                let e = Expr { cont: ExprCont::FnCall(n), span: cum };
                proof {
                    lemma_exprs_push(out@, e);
                }
                out.push(e);
                (Step::Go(State::Nothing), true)
            },
            TokenCont::Str(x) => {
                let e = Expr { cont: ExprCont::Immediate(Value::Str(x)), span: cum };
                proof {
                    lemma_exprs_push(out@, e);
                }
                out.push(e);
                (Step::Go(State::Nothing), true)
            },
            TokenCont::Number(x) => {
                let e = Expr { cont: ExprCont::Immediate(Value::Num(x)), span: cum };
                proof {
                    lemma_exprs_push(out@, e);
                }
                out.push(e);
                (Step::Go(State::Nothing), true)
            },
            TokenCont::Char(c) => {
                let e = Expr { cont: ExprCont::Immediate(char_value(c)), span: cum };
                proof {
                    lemma_exprs_push(out@, e);
                }
                out.push(e);
                (Step::Go(State::Nothing), true)
            },
            TokenCont::FnArgs(args) => (Step::Go(State::MakeClosureBlockOrOutArgs(args)), false),
            TokenCont::Keyword(k) => match k {
                RawKeyword::TRC(g) => {
                let e = Expr { cont: ExprCont::Keyword(KeywordKind::DefinedGeneric(g)), span: cum };
                proof {
                    lemma_exprs_push(out@, e);
                }
                out.push(e);
                (Step::Go(State::Nothing), true)
            },
                RawKeyword::Break => {
                let e = Expr { cont: ExprCont::Keyword(KeywordKind::Break), span: cum };
                proof {
                    lemma_exprs_push(out@, e);
                }
                out.push(e);
                (Step::Go(State::Nothing), true)
            },
                RawKeyword::Return => {
                let e = Expr { cont: ExprCont::Keyword(KeywordKind::Return), span: cum };
                proof {
                    lemma_exprs_push(out@, e);
                }
                out.push(e);
                (Step::Go(State::Nothing), true)
            },
                RawKeyword::BubbleError => {
                let e = Expr { cont: ExprCont::Keyword(KeywordKind::BubbleError), span: cum };
                proof {
                    lemma_exprs_push(out@, e);
                }
                out.push(e);
                (Step::Go(State::Nothing), true)
            },
                RawKeyword::FnIntoClosure { fn_name } => {
                let e = Expr { cont: ExprCont::Keyword(KeywordKind::IntoClosure { fn_name }), span: cum };
                proof {
                    lemma_exprs_push(out@, e);
                }
                out.push(e);
                (Step::Go(State::Nothing), true)
            },
                RawKeyword::Switch => (Step::Go(State::MakeSwitch(Vec::new())), false),
                RawKeyword::Ifs => (Step::Go(State::MakeIfs(Vec::new())), false),
                RawKeyword::Fn(scope) => (Step::Go(State::MakeFnArgs(scope)), false),
                RawKeyword::While => (Step::Go(State::MakeWhile), false),
                k => (
                    Step::Fail(
                        StckError::CantParseToken(State::Nothing, Box::new(TokenCont::Keyword(k)), self.source.clone()),
                    ),
                    false,
                ),
            },
            c => (Step::Fail(StckError::CantParseToken(State::Nothing, Box::new(c), self.source.clone())), false),
        }
    }

    /// A token after the argument list of a closure.
    fn parse_closure(&mut self, state: State, t: Token, cum: LineRange, out: &mut Vec<Expr>) -> (r: (Step, bool))
        requires
            old(self).ungotten is None,
            !(t.cont is IncludedBlock),
            cum.end == t.span.end,
            state is MakeClosureBlockOrOutArgs || state is MakeClosureBlock,
        ensures
            final(self).source == old(self).source,
            step_ok(
                seq![t] + old(self).input(),
                old(self).source@,
                state_model(state),
                exprs_model(old(out)@),
                cum.start,
                r.0,
                final(self).input(),
                exprs_model(final(out)@),
                r.1,
            ),
            final(self).input() == old(self).input() || final(self).input() == seq![t] + old(self).input(),
        decreases t,
    {
        proof {
            lemma_cons(t, old(self).input());
            broadcast use vstd::std_specs::vec::axiom_vec_decreases_to_view;

        }
        let Token { cont, span } = t;
        match (state, cont) {
            (State::MakeClosureBlockOrOutArgs(args), TokenCont::FnArgs(outs)) => (
                Step::Go(State::MakeClosureBlock(args, Some(outs))),
                false,
            ),
            (State::MakeClosureBlockOrOutArgs(args), TokenCont::Block(b)) => {
                self.unget(Token { cont: TokenCont::Block(b), span });
                (Step::Go(State::MakeClosureBlock(args, None)), false)
            },
            (State::MakeClosureBlock(args, outs), TokenCont::Block(code)) => {
                proof {
                    assert(decreases_to!(t => code@));
                }
                let mut inner = Context::new(code, &self.source);
                match inner.parse_block() {
                    Ok(es) => match ClosurePartialArgs::parse(args, span) {
                        Ok(request_args) => {
                            let output_types = match outs {
                                Some(o) => Some(TypedOutputs::new(o)),
                                None => None,
                            };
                            let closure = Closure { code: es, request_args, output_types };
                            proof {
                                assert(closure.request_args.filled@ =~= Seq::<(String, Value)>::empty());
                                assert(crate::internals::closure_view(closure).code == exprs_model(closure.code@));
                            }
                            let e = Expr { cont: ExprCont::Immediate(Value::Closure(Box::new(closure))), span: cum };
                            proof {
                                lemma_exprs_push(out@, e);
                            }
                            out.push(e);
                            (Step::Go(State::Nothing), true)
                        },
                        Err(e) => (Step::Fail(e), false),
                    },
                    Err(e) => (Step::Fail(e), false),
                }
            },
            (s, c) => (Step::Fail(StckError::CantParseToken(s, Box::new(c), self.source.clone())), false),
        }
    }

    /// A token in a `(switch)`: a case value, a block, or what ends it.
    fn parse_switch(&mut self, state: State, t: Token, cum: LineRange, out: &mut Vec<Expr>) -> (r: (Step, bool))
        requires
            old(self).ungotten is None,
            !(t.cont is IncludedBlock),
            cum.end == t.span.end,
            state is MakeSwitch || state is MakeSwitchCode,
        ensures
            final(self).source == old(self).source,
            step_ok(
                seq![t] + old(self).input(),
                old(self).source@,
                state_model(state),
                exprs_model(old(out)@),
                cum.start,
                r.0,
                final(self).input(),
                exprs_model(final(out)@),
                r.1,
            ),
            final(self).input() == old(self).input() || final(self).input() == seq![t] + old(self).input(),
        decreases t,
    {
        proof {
            lemma_cons(t, old(self).input());
            broadcast use vstd::std_specs::vec::axiom_vec_decreases_to_view;

        }
        let Token { cont, span } = t;
        match (state, cont) {
            (State::MakeSwitch(cases), TokenCont::Char(c)) => (Step::Go(State::MakeSwitchCode(cases, char_value(c))), false),
            (State::MakeSwitch(cases), TokenCont::Str(v)) => (Step::Go(State::MakeSwitchCode(cases, Value::Str(v))), false),
            (State::MakeSwitch(cases), TokenCont::Number(v)) => (
                Step::Go(State::MakeSwitchCode(cases, Value::Num(v))),
                false,
            ),
            (State::MakeSwitchCode(mut cases, test), TokenCont::Block(code)) => {
                proof {
                    assert(decreases_to!(t => code@));
                }
                let mut inner = Context::new(code, &self.source);
                match inner.parse_block() {
                    Ok(es) => {
                        let c = SwitchCase { test, code: es };
                        proof {
                            lemma_cases_push(cases@, c);
                        }
                        cases.push(c);
                        (Step::Go(State::MakeSwitch(cases)), false)
                    },
                    Err(e) => (Step::Fail(e), false),
                }
            },
            (State::MakeSwitch(cases), TokenCont::Block(code)) => {
                proof {
                    assert(decreases_to!(t => code@));
                }
                let mut inner = Context::new(code, &self.source);
                match inner.parse_block() {
                    Ok(es) => {
                        let e = Expr {
                            cont: ExprCont::Keyword(KeywordKind::Switch { cases, default: Some(es) }),
                            span: cum,
                        };
                        proof {
                            lemma_exprs_push(out@, e);
                        }
                        out.push(e);
                        (Step::Go(State::Nothing), true)
                    },
                    Err(e) => (Step::Fail(e), false),
                }
            },
            (State::MakeSwitch(cases), c) => {
                match c {
                    TokenCont::EndOfBlock => {},
                    c => {
                        self.unget(Token { cont: c, span });
                    },
                }
                let e = Expr { cont: ExprCont::Keyword(KeywordKind::Switch { cases, default: None }), span: cum };
                proof {
                    lemma_exprs_push(out@, e);
                }
                out.push(e);
                (Step::Go(State::Nothing), true)
            },
            (s, c) => (Step::Fail(StckError::CantParseToken(s, Box::new(c), self.source.clone())), false),
        }
    }

    /// A token in an `(ifs)`: a check, the code it guards, or what ends it.
    fn parse_ifs(&mut self, state: State, t: Token, cum: LineRange, out: &mut Vec<Expr>) -> (r: (Step, bool))
        requires
            old(self).ungotten is None,
            !(t.cont is IncludedBlock),
            cum.end == t.span.end,
            state is MakeIfs || state is MakeIfsCode,
        ensures
            final(self).source == old(self).source,
            step_ok(
                seq![t] + old(self).input(),
                old(self).source@,
                state_model(state),
                exprs_model(old(out)@),
                cum.start,
                r.0,
                final(self).input(),
                exprs_model(final(out)@),
                r.1,
            ),
            final(self).input() == old(self).input() || final(self).input() == seq![t] + old(self).input(),
        decreases t,
    {
        proof {
            lemma_cons(t, old(self).input());
            broadcast use vstd::std_specs::vec::axiom_vec_decreases_to_view;

        }
        let Token { cont, span } = t;
        match (state, cont) {
            (State::MakeIfs(branches), TokenCont::Block(code)) => {
                proof {
                    assert(decreases_to!(t => code@));
                }
                let mut inner = Context::new(code, &self.source);
                match inner.parse_block() {
                    Ok(es) => (Step::Go(State::MakeIfsCode { branches, check: es }), false),
                    Err(e) => (Step::Fail(e), false),
                }
            },
            (State::MakeIfsCode { mut branches, check }, TokenCont::Block(code)) => {
                proof {
                    assert(decreases_to!(t => code@));
                }
                let mut inner = Context::new(code, &self.source);
                match inner.parse_block() {
                    Ok(es) => {
                        let b = CondBranch { check, code: es };
                        proof {
                            lemma_branches_push(branches@, b);
                        }
                        branches.push(b);
                        (Step::Go(State::MakeIfs(branches)), false)
                    },
                    Err(e) => (Step::Fail(e), false),
                }
            },
            (State::MakeIfs(branches), c) => {
                match c {
                    TokenCont::EndOfBlock => {},
                    c => {
                        self.unget(Token { cont: c, span });
                    },
                }
                let e = Expr { cont: ExprCont::Keyword(KeywordKind::Ifs { branches }), span: cum };
                proof {
                    lemma_exprs_push(out@, e);
                }
                out.push(e);
                (Step::Go(State::Nothing), true)
            },
            (s, c) => (Step::Fail(StckError::CantParseToken(s, Box::new(c), self.source.clone())), false),
        }
    }

    /// A token in a function definition: its arguments, outputs, name or code.
    fn parse_fn(&mut self, state: State, t: Token, cum: LineRange, out: &mut Vec<Expr>) -> (r: (Step, bool))
        requires
            old(self).ungotten is None,
            !(t.cont is IncludedBlock),
            cum.end == t.span.end,
            state is MakeFnArgs || state is MakeFnNameOrOutArgs || state is MakeFnName || state is MakeFnBlock,
        ensures
            final(self).source == old(self).source,
            step_ok(
                seq![t] + old(self).input(),
                old(self).source@,
                state_model(state),
                exprs_model(old(out)@),
                cum.start,
                r.0,
                final(self).input(),
                exprs_model(final(out)@),
                r.1,
            ),
            final(self).input() == old(self).input() || final(self).input() == seq![t] + old(self).input(),
        decreases t,
    {
        proof {
            lemma_cons(t, old(self).input());
            broadcast use vstd::std_specs::vec::axiom_vec_decreases_to_view;

        }
        let Token { cont, span } = t;
        match (state, cont) {
            (State::MakeFnArgs(scope), TokenCont::FnArgs(args)) => (
                Step::Go(State::MakeFnNameOrOutArgs(scope, FnArgs::Args(args))),
                false,
            ),
            (State::MakeFnArgs(scope), TokenCont::Ident(i)) => {
                let cs = crate::text::chars_of_string(&i);
                proof {
                    reveal_strlit("*");
                    assert("*"@ =~= seq!['*']);
                }
                if crate::text::eq_lit(cs.as_slice(), "*") {
                    (Step::Go(State::MakeFnNameOrOutArgs(scope, FnArgs::AllStack)), false)
                } else {
                    (Step::Fail(StckError::WrongParamList(i, self.source.clone())), false)
                }
            },
            (State::MakeFnNameOrOutArgs(scope, args), TokenCont::FnArgs(outs)) => (
                Step::Go(State::MakeFnName(scope, args, outs)),
                false,
            ),
            (State::MakeFnNameOrOutArgs(scope, args), TokenCont::Ident(name)) => (
                Step::Go(State::MakeFnBlock(scope, args, name, None)),
                false,
            ),
            (State::MakeFnName(scope, args, outs), TokenCont::Ident(name)) => (
                Step::Go(State::MakeFnBlock(scope, args, name, Some(outs))),
                false,
            ),
            (State::MakeFnBlock(scope, args, name, out_args), TokenCont::Block(code)) => {
                proof {
                    assert(decreases_to!(t => code@));
                }
                let mut inner = Context::new(code, &self.source);
                match inner.parse_block() {
                    Ok(es) => {
                        let e = Expr {
                            cont: ExprCont::Keyword(KeywordKind::FnDef { name, scope, code: es, args, out_args }),
                            span: cum,
                        };
                        proof {
                            lemma_exprs_push(out@, e);
                        }
                        out.push(e);
                        (Step::Go(State::Nothing), true)
                    },
                    Err(e) => (Step::Fail(e), false),
                }
            },
            (s, c) => (Step::Fail(StckError::CantParseToken(s, Box::new(c), self.source.clone())), false),
        }
    }

    /// A token in a `(while)`: its check or its code.
    fn parse_while(&mut self, state: State, t: Token, cum: LineRange, out: &mut Vec<Expr>) -> (r: (Step, bool))
        requires
            old(self).ungotten is None,
            !(t.cont is IncludedBlock),
            cum.end == t.span.end,
            state is MakeWhile || state is MakeWhileCode,
        ensures
            final(self).source == old(self).source,
            step_ok(
                seq![t] + old(self).input(),
                old(self).source@,
                state_model(state),
                exprs_model(old(out)@),
                cum.start,
                r.0,
                final(self).input(),
                exprs_model(final(out)@),
                r.1,
            ),
            final(self).input() == old(self).input() || final(self).input() == seq![t] + old(self).input(),
        decreases t,
    {
        proof {
            lemma_cons(t, old(self).input());
            broadcast use vstd::std_specs::vec::axiom_vec_decreases_to_view;

        }
        let Token { cont, span } = t;
        match (state, cont) {
            (State::MakeWhile, TokenCont::Block(check)) => {
                proof {
                    assert(decreases_to!(t => check@));
                }
                let mut inner = Context::new(check, &self.source);
                match inner.parse_block() {
                    Ok(es) => (Step::Go(State::MakeWhileCode(es)), false),
                    Err(e) => (Step::Fail(e), false),
                }
            },
            (State::MakeWhileCode(check), TokenCont::Block(code)) => {
                proof {
                    assert(decreases_to!(t => code@));
                }
                let mut inner = Context::new(code, &self.source);
                match inner.parse_block() {
                    Ok(es) => {
                        let e = Expr { cont: ExprCont::Keyword(KeywordKind::While { check, code: es }), span: cum };
                        proof {
                            lemma_exprs_push(out@, e);
                        }
                        out.push(e);
                        (Step::Go(State::Nothing), true)
                    },
                    Err(e) => (Step::Fail(e), false),
                }
            },
            (s, c) => (Step::Fail(StckError::CantParseToken(s, Box::new(c), self.source.clone())), false),
        }
    }

}

/// What a step of the parser must do: go on to a state from which the rest
/// parses to what the whole parsed to before, reading fewer tokens or from a
/// state of lower rank, or fail as the whole fails.
spec fn step_ok(
    pre: Seq<Token>,
    src: Seq<char>,
    st0: StM,
    acc0: Seq<ExprM>,
    start: usize,
    r: Step,
    post: Seq<Token>,
    out: Seq<ExprM>,
    pushed: bool,
) -> bool {
    match r {
        Step::Go(st) => parse_from(post, src, state_model(st), out, start, pushed) == parse_from(
            pre,
            src,
            st0,
            acc0,
            start,
            false,
        ) && (post.len() < pre.len() || (post == pre && st_rank(state_model(st)) < st_rank(st0))),
        Step::Fail(e) => match parse_from(pre, src, st0, acc0, start, false) {
            Err(m) => err_model(e, m),
            Ok(_) => false,
        },
    }
}

/// The first line of an expression is that of its first token when a new
/// expression starts.
proof fn lemma_restart(ts: Seq<Token>, src: Seq<char>, st: StM, acc: Seq<ExprM>, start: usize, restart: bool)
    requires
        ts.len() > 0,
    ensures
        parse_from(ts, src, st, acc, start, restart) == parse_from(
            ts,
            src,
            st,
            acc,
            if restart {
                ts[0].span.start
            } else {
                start
            },
            false,
        ),
{
}

proof fn lemma_cons(t: Token, s: Seq<Token>)
    ensures
        (seq![t] + s).len() > 0,
        (seq![t] + s)[0] == t,
        (seq![t] + s).subrange(1, (seq![t] + s).len() as int) == s,
{
    assert((seq![t] + s).subrange(1, (seq![t] + s).len() as int) =~= s);
}

} // verus!
