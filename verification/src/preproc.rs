//! The pre-processor: it runs the `(pragma ...)` commands, drops the tokens
//! of the sections they switch off, and replaces each `(include ...)` by the
//! tokens of the included file.
use crate::cache::FileCacher;
use crate::error::{LineRange, StckError};
use crate::internals::{RawKeyword, Token, TokenBlock, TokenCont};
use crate::text::{
    chars_of_string, eq_lit, join_chars, join_with, pieces_view, split_chars, split_on, string_eq,
    string_of,
};
use vstd::prelude::*;

verus! {

/// The kind of section a pragma opened.
#[derive(Debug, Clone, Copy, PartialEq, Eq, Structural)]
pub enum ProcCommand {
    If,
    IfElse,
}

/// What a pragma does to the sections.
enum ProcChange {
    Keep,
    Pop,
    PushIf { reading: bool },
    PushElse,
}

/// An open section: its kind and whether its tokens are kept.
struct ProcStatus {
    status: ProcCommand,
    reading: bool,
}

/// How deep includes may nest.
pub const INCLUDE_DEPTH: usize = 64;

// ---------------------------------------------------------------------------
// Pragma variables

/// The names set by `(pragma set ...)`.
pub open spec fn var_set(v: Seq<String>) -> Set<Seq<char>> {
    Set::new(|s: Seq<char>| exists|i: int| 0 <= i < v.len() && #[trigger] v[i]@ == s)
}

/// Whether a name is set.
pub fn has_var(vars: &Vec<String>, name: &String) -> (r: bool)
    ensures
        r == var_set(vars@).contains(name@),
{
    let mut i: usize = 0;
    while i < vars.len()
        invariant
            i <= vars@.len(),
            forall|j: int| 0 <= j < i ==> vars@[j]@ != name@,
        decreases vars@.len() - i,
    {
        if string_eq(&vars[i], name) {
            assert(var_set(vars@).contains(name@));
            return true;
        }
        i += 1;
    }
    false
}

/// Sets a name.
pub fn add_var(vars: &mut Vec<String>, name: String)
    ensures
        var_set(final(vars)@) == var_set(old(vars)@).insert(name@),
{
    if !has_var(vars, &name) {
        let ghost n = name@;
        vars.push(name);
        proof {
            assert forall|s: Seq<char>| #[trigger] var_set(vars@).contains(s) == var_set(old(vars)@).insert(n).contains(s) by {
                if var_set(old(vars)@).contains(s) {
                    let i = choose|i: int| 0 <= i < old(vars)@.len() && #[trigger] old(vars)@[i]@ == s;
                    assert(vars@[i] == old(vars)@[i]);
                }
                if var_set(vars@).contains(s) {
                    let i = choose|i: int| 0 <= i < vars@.len() && #[trigger] vars@[i]@ == s;
                    if i < old(vars)@.len() {
                        assert(vars@[i] == old(vars)@[i]);
                    }
                }
                if s == n {
                    assert(vars@[vars@.len() - 1]@ == n);
                }
            }
            assert(var_set(vars@) =~= var_set(old(vars)@).insert(n));
        }
    } else {
        assert(var_set(vars@) =~= var_set(vars@).insert(name@));
    }
}

/// Unsets a name.
pub fn remove_var(vars: &mut Vec<String>, name: &String)
    ensures
        var_set(final(vars)@) == var_set(old(vars)@).remove(name@),
{
    let mut kept: Vec<String> = Vec::new();
    let mut i: usize = 0;
    while i < vars.len()
        invariant
            i <= vars@.len(),
            forall|s: Seq<char>|
                #![trigger var_set(kept@).contains(s)]
                var_set(kept@).contains(s) <==> (s != name@ && exists|j: int|
                    0 <= j < i && #[trigger] vars@[j]@ == s),
        decreases vars@.len() - i,
    {
        if !string_eq(&vars[i], name) {
            let ghost before = kept@;
            kept.push(vars[i].clone());
            proof {
                assert forall|s: Seq<char>| #[trigger] var_set(kept@).contains(s) <==> (s != name@ && exists|j: int|
                    0 <= j < i + 1 && #[trigger] vars@[j]@ == s) by {
                    if var_set(kept@).contains(s) {
                        let k = choose|k: int| 0 <= k < kept@.len() && #[trigger] kept@[k]@ == s;
                        if k < before.len() {
                            assert(kept@[k] == before[k]);
                            assert(var_set(before).contains(s));
                        }
                    }
                    if s != name@ && exists|j: int| 0 <= j < i + 1 && #[trigger] vars@[j]@ == s {
                        let j = choose|j: int| 0 <= j < i + 1 && #[trigger] vars@[j]@ == s;
                        if j < i {
                            assert(var_set(before).contains(s));
                            let k = choose|k: int| 0 <= k < before.len() && #[trigger] before[k]@ == s;
                            assert(kept@[k] == before[k]);
                        } else {
                            assert(kept@[kept@.len() - 1]@ == s);
                        }
                    }
                }
            }
        } else {
            proof {
                assert forall|s: Seq<char>| #[trigger] var_set(kept@).contains(s) <==> (s != name@ && exists|j: int|
                    0 <= j < i + 1 && #[trigger] vars@[j]@ == s) by {
                    if s != name@ && exists|j: int| 0 <= j < i + 1 && #[trigger] vars@[j]@ == s {
                        let j = choose|j: int| 0 <= j < i + 1 && #[trigger] vars@[j]@ == s;
                        assert(j < i);
                    }
                }
            }
        }
        i += 1;
    }
    proof {
        assert forall|s: Seq<char>| #[trigger] var_set(kept@).contains(s) == var_set(vars@).remove(name@).contains(s) by {
            if var_set(vars@).contains(s) {
                let j = choose|j: int| 0 <= j < vars@.len() && #[trigger] vars@[j]@ == s;
            }
        }
        assert(var_set(kept@) =~= var_set(vars@).remove(name@));
    }
    *vars = kept;
}

// ---------------------------------------------------------------------------
// Pragmas

/// The model of what a pragma does to the sections.
pub enum ChangeM {
    Keep,
    Pop,
    PushIf(bool),
    PushElse,
}

/// What a pragma command does, and the names set after it; `None` for a
/// command that is not a pragma. The words of a command are separated by
/// single spaces.
pub open spec fn command_effect(cmd: Seq<char>, vars: Set<Seq<char>>) -> Option<(ChangeM, Set<Seq<char>>)> {
    let w = split_on(cmd, ' ');
    if w.len() == 2 && w[0] == seq!['i', 'f'] {
        Some((ChangeM::PushIf(vars.contains(w[1])), vars))
    } else if w.len() == 3 && w[0] == seq!['i', 'f'] && w[1] == seq!['n', 'o', 't'] {
        Some((ChangeM::PushIf(!vars.contains(w[2])), vars))
    } else if w.len() == 1 && w[0] == seq!['e', 'l', 's', 'e'] {
        Some((ChangeM::PushElse, vars))
    } else if w.len() == 2 && w[0] == seq!['e', 'n', 'd'] && w[1] == seq!['i', 'f'] {
        Some((ChangeM::Pop, vars))
    } else if w.len() == 2 && w[0] == seq!['s', 'e', 't'] {
        Some((ChangeM::Keep, vars.insert(w[1])))
    } else if w.len() == 2 && w[0] == seq!['u', 'n', 's', 'e', 't'] {
        Some((ChangeM::Keep, vars.remove(w[1])))
    } else {
        None
    }
}

/// Why the pre-processor fails.
pub enum PpErrM {
    /// `(pragma end if)` with no open section, at its lines.
    NoSection(LineRange),
    /// `(pragma else)` where the open section is not an `if`.
    CantElse(LineRange, Option<ProcCommand>),
    /// A command that is not a pragma, as its words joined again.
    Invalid(Seq<char>),
    /// An include that failed, with its error.
    Include(StckError),
}

pub open spec fn pp_err_model(e: StckError, m: PpErrM) -> bool {
    match m {
        PpErrM::NoSection(span) => e == StckError::NoSectionToClose(span),
        PpErrM::CantElse(span, s) => e == StckError::CantElseCurrentSection(span, s),
        PpErrM::Invalid(c) => e matches StckError::InvalidPragma(x) && x@ == c,
        PpErrM::Include(x) => e == x,
    }
}

/// Whether the tokens read now are kept: no section is open, or the
/// innermost one keeps them.
pub open spec fn reading(stack: Seq<(ProcCommand, bool)>) -> bool {
    stack.len() == 0 || stack.last().1
}

/// The sections and names after a pragma, or why it fails.
pub open spec fn pragma_effect(
    stack: Seq<(ProcCommand, bool)>,
    cmd: Seq<char>,
    vars: Set<Seq<char>>,
    span: LineRange,
) -> (Result<Seq<(ProcCommand, bool)>, PpErrM>, Set<Seq<char>>) {
    match command_effect(cmd, vars) {
        None => (Err(PpErrM::Invalid(join_with(split_on(cmd, ' '), ' '))), vars),
        Some((ch, v)) => match ch {
            ChangeM::Keep => (Ok(stack), v),
            ChangeM::Pop => if stack.len() == 0 {
                (Err(PpErrM::NoSection(span)), v)
            } else {
                (Ok(stack.drop_last()), v)
            },
            ChangeM::PushIf(r) => (Ok(stack.push((ProcCommand::If, r && reading(stack)))), v),
            ChangeM::PushElse => if stack.len() > 0 && stack.last().0 == ProcCommand::If {
                (Ok(stack.drop_last().push((ProcCommand::IfElse, !reading(stack)))), v)
            } else {
                (
                    Err(
                        PpErrM::CantElse(
                            span,
                            if stack.len() == 0 {
                                None
                            } else {
                                Some(stack.last().0)
                            },
                        ),
                    ),
                    v,
                )
            },
        },
    }
}

spec fn stack_view(s: Seq<ProcStatus>) -> Seq<(ProcCommand, bool)> {
    s.map_values(|p: ProcStatus| (p.status, p.reading))
}

fn word_is(w: &Vec<char>, lit: &str) -> (r: bool)
    ensures
        r == (w@ == lit@),
{
    eq_lit(w.as_slice(), lit)
}

/// Runs a pragma command on the names.
fn execute_command(command: &String, vars: &mut Vec<String>) -> (r: Result<ProcChange, StckError>)
    ensures
        match command_effect(command@, var_set(old(vars)@)) {
            None => r matches Err(e) && pp_err_model(e, PpErrM::Invalid(join_with(split_on(command@, ' '), ' ')))
                && var_set(final(vars)@) == var_set(old(vars)@),
            Some((ch, v)) => r matches Ok(c) && var_set(final(vars)@) == v && match (ch, c) {
                (ChangeM::Keep, ProcChange::Keep) => true,
                (ChangeM::Pop, ProcChange::Pop) => true,
                (ChangeM::PushIf(a), ProcChange::PushIf { reading }) => a == reading,
                (ChangeM::PushElse, ProcChange::PushElse) => true,
                _ => false,
            },
        },
{
    let cs = chars_of_string(command);
    let w = split_chars(cs.as_slice(), ' ');
    proof {
        reveal_strlit("if");
        reveal_strlit("not");
        reveal_strlit("else");
        reveal_strlit("end");
        reveal_strlit("set");
        reveal_strlit("unset");
        assert("if"@ =~= seq!['i', 'f']);
        assert("not"@ =~= seq!['n', 'o', 't']);
        assert("else"@ =~= seq!['e', 'l', 's', 'e']);
        assert("end"@ =~= seq!['e', 'n', 'd']);
        assert("set"@ =~= seq!['s', 'e', 't']);
        assert("unset"@ =~= seq!['u', 'n', 's', 'e', 't']);
        assert(pieces_view(w@).len() == w@.len());
        if w@.len() > 0 {
            assert(pieces_view(w@)[0] == w@[0]@);
        }
        if w@.len() > 1 {
            assert(pieces_view(w@)[1] == w@[1]@);
        }
        if w@.len() > 2 {
            assert(pieces_view(w@)[2] == w@[2]@);
        }
    }
    if w.len() == 2 && word_is(&w[0], "if") {
        let v = string_of(w[1].as_slice());
        let b = has_var(vars, &v);
        Ok(ProcChange::PushIf { reading: b })
    } else if w.len() == 3 && word_is(&w[0], "if") && word_is(&w[1], "not") {
        let v = string_of(w[2].as_slice());
        let b = has_var(vars, &v);
        Ok(ProcChange::PushIf { reading: !b })
    } else if w.len() == 1 && word_is(&w[0], "else") {
        Ok(ProcChange::PushElse)
    } else if w.len() == 2 && word_is(&w[0], "end") && word_is(&w[1], "if") {
        Ok(ProcChange::Pop)
    } else if w.len() == 2 && word_is(&w[0], "set") {
        let v = string_of(w[1].as_slice());
        add_var(vars, v);
        Ok(ProcChange::Keep)
    } else if w.len() == 2 && word_is(&w[0], "unset") {
        let v = string_of(w[1].as_slice());
        remove_var(vars, &v);
        Ok(ProcChange::Keep)
    } else {
        let j = join_chars(&w, ' ');
        Err(StckError::InvalidPragma(string_of(j.as_slice())))
    }
}

/// Runs a pragma on the open sections and the names.
fn manage_pragma(
    if_stack: &mut Vec<ProcStatus>,
    command: &String,
    proc_vars: &mut Vec<String>,
    span: LineRange,
) -> (r: Result<(), StckError>)
    ensures
        ({
            let (res, v) = pragma_effect(stack_view(old(if_stack)@), command@, var_set(old(proc_vars)@), span);
            &&& var_set(final(proc_vars)@) == v
            &&& match res {
                Ok(st) => r is Ok && stack_view(final(if_stack)@) == st,
                Err(m) => r matches Err(e) && pp_err_model(e, m),
            }
        }),
{
    let is_reading = if if_stack.len() == 0 {
        true
    } else {
        if_stack[if_stack.len() - 1].reading
    };
    let ghost st0 = stack_view(if_stack@);
    let proc_cmd = execute_command(command, proc_vars)?;
    match proc_cmd {
        ProcChange::Keep => {},
        ProcChange::Pop => {
            if if_stack.len() == 0 {
                return Err(StckError::NoSectionToClose(span));
            }
            let _ = if_stack.pop();
            proof {
                assert(stack_view(if_stack@) =~= st0.drop_last());
            }
        },
        ProcChange::PushIf { reading } => {
            if_stack.push(ProcStatus { status: ProcCommand::If, reading: reading && is_reading });
            proof {
                assert(stack_view(if_stack@) =~= st0.push((ProcCommand::If, reading && is_reading)));
            }
        },
        ProcChange::PushElse => {
            let top = if_stack.pop();
            match top {
                Some(ProcStatus { status: ProcCommand::If, .. }) => {
                    if_stack.push(ProcStatus { status: ProcCommand::IfElse, reading: !is_reading });
                    proof {
                        assert(stack_view(if_stack@) =~= st0.drop_last().push((ProcCommand::IfElse, !is_reading)));
                    }
                },
                Some(s) => {
                    return Err(StckError::CantElseCurrentSection(span, Some(s.status)));
                },
                None => {
                    return Err(StckError::CantElseCurrentSection(span, None));
                },
            }
        },
    }
    Ok(())
}

// ---------------------------------------------------------------------------
// The pre-processor

/// Whether no token is an `(include ...)`.
pub open spec fn no_includes(ts: Seq<Token>) -> bool {
    forall|i: int| 0 <= i < ts.len() ==> !(#[trigger] ts[i].cont matches TokenCont::Keyword(RawKeyword::Include { .. }))
}

/// What pre-processing the tokens `ts` gives, in the sections `stack` with
/// the names `vars` set, when none of them includes a file: the tokens kept
/// (or why it fails) and the names set at the end (or at the failure).
pub open spec fn preproc_from(ts: Seq<Token>, stack: Seq<(ProcCommand, bool)>, vars: Set<Seq<char>>) -> (
    Result<Seq<Token>, PpErrM>,
    Set<Seq<char>>,
)
    decreases ts.len(),
{
    if ts.len() == 0 {
        (Ok(Seq::empty()), vars)
    } else {
        let t = ts[0];
        let rest = ts.subrange(1, ts.len() as int);
        match t.cont {
            TokenCont::Keyword(RawKeyword::Pragma { command }) => {
                let (res, v) = pragma_effect(stack, command@, vars, t.span);
                match res {
                    Ok(st) => preproc_from(rest, st, v),
                    Err(e) => (Err(e), v),
                }
            },
            _ => {
                let (res, v) = preproc_from(rest, stack, vars);
                (
                    match res {
                        Ok(o) => Ok(
                            if reading(stack) {
                                seq![t] + o
                            } else {
                                o
                            },
                        ),
                        Err(e) => Err(e),
                    },
                    v,
                )
            },
        }
    }
}

/// What an include gave: the included block, or why it failed (`res`), and
/// the names set after it (`vars`); where the file was read, the tokenizer
/// that read its text (`tok`), the tokens it gave (`toks`), the file
/// (`target`), and what the includes in those tokens gave in turn
/// (`inner`).
pub struct IncAns {
    pub res: Result<TokenBlock, StckError>,
    pub vars: Set<Seq<char>>,
    pub tok: crate::token::Context,
    pub toks: Seq<Token>,
    pub target: Seq<char>,
    pub inner: Seq<IncAns>,
}

/// What pre-processing the tokens `ts` gives in the sections `stack` with
/// the names `vars` set, its includes read from the directory `dir` with
/// `depth` levels of includes left, where the includes met gave, in order,
/// the answers `incs`: the tokens kept, each include replaced by its block
/// (an include is read whether or not its section is kept), or why it
/// fails; the names set at the end (or at the failure); and whether each
/// answer is one that reading that include can give (see
/// [`include_ok`]) and there was one for each include met.
pub open spec fn preproc_inc(
    ts: Seq<Token>,
    stack: Seq<(ProcCommand, bool)>,
    vars: Set<Seq<char>>,
    dir: Seq<char>,
    depth: nat,
    incs: Seq<IncAns>,
) -> (Result<Seq<Token>, PpErrM>, Set<Seq<char>>, bool)
    decreases depth, 1nat, ts.len(),
{
    if ts.len() == 0 {
        (Ok(Seq::empty()), vars, true)
    } else {
        let t = ts[0];
        let rest = ts.subrange(1, ts.len() as int);
        match t.cont {
            TokenCont::Keyword(RawKeyword::Include { path }) => if incs.len() == 0 {
                (Ok(Seq::empty()), vars, false)
            } else {
                let a = incs[0];
                let ok = include_ok(dir, depth, path@, vars, a);
                match a.res {
                    Ok(b) => {
                        let (res, v, ok2) = preproc_inc(rest, stack, a.vars, dir, depth, incs.drop_first());
                        (
                            match res {
                                Ok(o) => Ok(seq![Token { cont: TokenCont::IncludedBlock(b), span: t.span }] + o),
                                Err(e) => Err(e),
                            },
                            v,
                            ok && ok2,
                        )
                    },
                    Err(e) => (Err(PpErrM::Include(e)), a.vars, ok),
                }
            },
            TokenCont::Keyword(RawKeyword::Pragma { command }) => {
                let (res, v) = pragma_effect(stack, command@, vars, t.span);
                match res {
                    Ok(st) => preproc_inc(rest, st, v, dir, depth, incs),
                    Err(e) => (Err(e), v, true),
                }
            },
            _ => {
                let (res, v, ok) = preproc_inc(rest, stack, vars, dir, depth, incs);
                (
                    match res {
                        Ok(o) => Ok(
                            if reading(stack) {
                                seq![t] + o
                            } else {
                                o
                            },
                        ),
                        Err(e) => Err(e),
                    },
                    v,
                    ok,
                )
            },
        }
    }
}

/// Whether `a` is what reading an include of `path` from the directory
/// `dir`, with the names `vars0` set and `depth` levels of includes left,
/// can give: with none left, [`StckError::IncludeTooDeep`]; else the
/// target file (see [`included_target`]) cannot be read, or the text read
/// from it tokenizes and pre-processes as [`included_as`] says.
pub open spec fn include_ok(dir: Seq<char>, depth: nat, path: Seq<char>, vars0: Set<Seq<char>>, a: IncAns) -> bool
    decreases depth, 0nat, 0nat,
{
    if depth == 0 {
        a.res matches Err(StckError::IncludeTooDeep(p)) && p@ == path && a.vars == vars0
    } else {
        ||| (a.res matches Err(StckError::CantReadFile(t)) && included_target(dir, path, t@) && a.vars == vars0)
        ||| (a.tok.point == 0 && a.tok.current_line == 1 && !a.tok.changed_line && included_target(dir, path, a.target)
            && included_as(a.tok, a.toks, a.target, vars0, a.vars, a.res, (depth - 1) as nat, a.inner))
    }
}

/// Whether a result and the names `vars1` after it are what the
/// pre-processor run `p` gives: its tokens or its error, with every
/// include answered as it can be.
pub open spec fn pp_as(
    p: (Result<Seq<Token>, PpErrM>, Set<Seq<char>>, bool),
    vars1: Set<Seq<char>>,
    r: Result<Seq<Token>, StckError>,
) -> bool {
    &&& p.2
    &&& vars1 == p.1
    &&& match p.0 {
        Ok(o) => r matches Ok(x) && x == o,
        Err(m) => r matches Err(e) && pp_err_model(e, m),
    }
}

/// The tokens of a result of blocks.
pub open spec fn block_tokens(r: Result<TokenBlock, StckError>) -> Result<Seq<Token>, StckError> {
    match r {
        Ok(b) => Ok(b.tokens@),
        Err(e) => Err(e),
    }
}

/// The tokens of a result of token lists.
pub open spec fn vec_tokens(r: Result<Vec<Token>, StckError>) -> Result<Seq<Token>, StckError> {
    match r {
        Ok(v) => Ok(v@),
        Err(e) => Err(e),
    }
}

/// [`preproc_inc`] from no section and no names, with the full depth of
/// includes.
pub open spec fn pp_clean(ts: Seq<Token>, dir: Seq<char>, incs: Seq<IncAns>) -> (
    Result<Seq<Token>, PpErrM>,
    Set<Seq<char>>,
    bool,
) {
    preproc_inc(ts, Seq::empty(), Set::empty(), dir, INCLUDE_DEPTH as nat, incs)
}

/// A run of the pre-processor with `pre` before the tokens it keeps.
pub open spec fn after_inc(
    pre: Seq<Token>,
    p: (Result<Seq<Token>, PpErrM>, Set<Seq<char>>, bool),
) -> (Result<Seq<Token>, PpErrM>, Set<Seq<char>>, bool) {
    (
        match p.0 {
            Ok(o) => Ok(pre + o),
            Err(e) => Err(e),
        },
        p.1,
        p.2,
    )
}

/// Where no token includes a file, [`preproc_inc`] is [`preproc_from`],
/// whatever the answers.
pub proof fn lemma_no_includes_inc(
    ts: Seq<Token>,
    stack: Seq<(ProcCommand, bool)>,
    vars: Set<Seq<char>>,
    dir: Seq<char>,
    depth: nat,
    incs: Seq<IncAns>,
)
    requires
        no_includes(ts),
    ensures
        preproc_inc(ts, stack, vars, dir, depth, incs) == (
            preproc_from(ts, stack, vars).0,
            preproc_from(ts, stack, vars).1,
            true,
        ),
    decreases ts.len(),
{
    if ts.len() > 0 {
        let rest = ts.subrange(1, ts.len() as int);
        assert(no_includes(rest)) by {
            assert forall|i: int| 0 <= i < rest.len() implies !(#[trigger] rest[i].cont matches TokenCont::Keyword(
                RawKeyword::Include { .. },
            )) by {
                assert(rest[i] == ts[i + 1]);
            }
        }
        assert(!(ts[0].cont matches TokenCont::Keyword(RawKeyword::Include { .. })));
        match ts[0].cont {
            TokenCont::Keyword(RawKeyword::Pragma { command }) => {
                let (res, v) = pragma_effect(stack, command@, vars, ts[0].span);
                if let Ok(st) = res {
                    lemma_no_includes_inc(rest, st, v, dir, depth, incs);
                }
            },
            _ => {
                lemma_no_includes_inc(rest, stack, vars, dir, depth, incs);
            },
        }
    }
}

/// Whether a token is neither a pragma nor an include.
pub open spec fn is_plain(t: Token) -> bool {
    !(t.cont matches TokenCont::Keyword(RawKeyword::Pragma { .. })) && !(t.cont matches TokenCont::Keyword(
        RawKeyword::Include { .. },
    ))
}

/// The output prefixed to what the rest gives.
spec fn after_prefix(
    pre: Seq<Token>,
    r: (Result<Seq<Token>, PpErrM>, Set<Seq<char>>),
) -> (Result<Seq<Token>, PpErrM>, Set<Seq<char>>) {
    (
        match r.0 {
            Ok(o) => Ok(pre + o),
            Err(e) => Err(e),
        },
        r.1,
    )
}

/// What std's `Path::join` gives for two paths.
pub uninterp spec fn joined_path(dir: Seq<char>, path: Seq<char>) -> Seq<char>;

/// std's `Path::join`: the path `path` taken from the directory `dir` (a
/// `path` that is absolute replaces `dir`). The contract names the result.
#[verifier::external_body]
fn path_join(dir: &String, path: &String) -> (r: String)
    ensures
        r@ == joined_path(dir@, path@),
{
    std::path::Path::new(dir.as_str()).join(path.as_str()).to_string_lossy().into_owned()
}

/// What std's `Path::parent` gives for a path.
pub uninterp spec fn parent_path(path: Seq<char>) -> Option<Seq<char>>;

/// std's `Path::parent`: the path without its last component, or `None` for
/// a root or empty path. The contract names the result.
#[verifier::external_body]
fn path_parent(path: &String) -> (r: Option<String>)
    ensures
        match parent_path(path@) {
            Some(p) => r matches Some(x) && x@ == p,
            None => r is None,
        },
{
    std::path::Path::new(path.as_str()).parent().map(|p| p.to_string_lossy().into_owned())
}

/// The directory that the includes of a source are taken from: the parent
/// of its path, or the current directory.
pub open spec fn include_dir(source: Seq<char>) -> Seq<char> {
    match parent_path(source) {
        Some(p) => p,
        None => seq!['.'],
    }
}

/// The directory of a source's includes (see [`include_dir`]).
pub fn dir_of(source: &String) -> (r: String)
    ensures
        r@ == include_dir(source@),
{
    match path_parent(source) {
        Some(p) => p,
        None => {
            let d = ".".to_owned();
            proof {
                reveal_strlit(".");
                assert(d@ =~= seq!['.']);
            }
            d
        },
    }
}

/// The pre-processor of the tokens of a source in a directory.
pub struct Context {
    pub dir: String,
}

impl Context {
    /// A pre-processor that takes includes from `dir`.
    pub fn new(dir: &String) -> (r: Context)
        ensures
            r.dir@ == dir@,
    {
        Context { dir: dir.clone() }
    }

    /// Pre-processes tokens with no name set beforehand.
    pub fn parse_clean<C: FileCacher>(&self, code: Vec<Token>, cacher: &mut C) -> (r: Result<Vec<Token>, StckError>)
        ensures
            exists|incs: Seq<IncAns>|
                pp_as(
                    #[trigger] preproc_inc(code@, Seq::empty(), Set::empty(), self.dir@, INCLUDE_DEPTH as nat, incs),
                    preproc_inc(code@, Seq::empty(), Set::empty(), self.dir@, INCLUDE_DEPTH as nat, incs).1,
                    vec_tokens(r),
                ),
            no_includes(code@) ==> match preproc_from(code@, Seq::empty(), Set::empty()).0 {
                Ok(o) => r matches Ok(v) && v@ == o,
                Err(m) => r matches Err(e) && pp_err_model(e, m),
            },
            r matches Ok(v) ==> forall|i: int| 0 <= i < v@.len() ==> #[trigger] is_plain(v@[i]),
    {
        let mut proc_vars: Vec<String> = Vec::new();
        proof {
            assert(var_set(proc_vars@) =~= Set::<Seq<char>>::empty());
        }
        let r = self.parse(code, &mut proc_vars, cacher);
        proof {
            let incs = choose|incs: Seq<IncAns>|
                pp_as(
                    #[trigger] preproc_inc(code@, Seq::empty(), Set::empty(), self.dir@, INCLUDE_DEPTH as nat, incs),
                    var_set(proc_vars@),
                    vec_tokens(r),
                );
            assert(pp_as(
                preproc_inc(code@, Seq::empty(), Set::empty(), self.dir@, INCLUDE_DEPTH as nat, incs),
                var_set(proc_vars@),
                vec_tokens(r),
            ));
        }
        r
    }

    /// Pre-processes tokens with the names `proc_vars` set; the pragmas of
    /// the tokens, and of the files they include, set and unset names. An
    /// include is replaced by the block of the file it reads (see
    /// [`preproc_inc`]).
    pub fn parse<C: FileCacher>(&self, code: Vec<Token>, proc_vars: &mut Vec<String>, cacher: &mut C) -> (r: Result<
        Vec<Token>,
        StckError,
    >)
        ensures
            exists|incs: Seq<IncAns>|
                pp_as(
                    #[trigger] preproc_inc(code@, Seq::empty(), var_set(old(proc_vars)@), self.dir@, INCLUDE_DEPTH as nat, incs),
                    var_set(final(proc_vars)@),
                    vec_tokens(r),
                ),
            no_includes(code@) ==> ({
                let (res, v) = preproc_from(code@, Seq::empty(), var_set(old(proc_vars)@));
                &&& var_set(final(proc_vars)@) == v
                &&& match res {
                    Ok(o) => r matches Ok(x) && x@ == o,
                    Err(m) => r matches Err(e) && pp_err_model(e, m),
                }
            }),
            r matches Ok(v) ==> forall|i: int| 0 <= i < v@.len() ==> #[trigger] is_plain(v@[i]),
    {
        let ghost v0 = var_set(proc_vars@);
        let r = self.parse_in(code, proc_vars, cacher, INCLUDE_DEPTH);
        proof {
            let incs = choose|incs: Seq<IncAns>|
                pp_as(
                    #[trigger] preproc_inc(code@, Seq::empty(), v0, self.dir@, INCLUDE_DEPTH as nat, incs),
                    var_set(proc_vars@),
                    vec_tokens(r),
                );
            if no_includes(code@) {
                lemma_no_includes_inc(code@, Seq::empty(), v0, self.dir@, INCLUDE_DEPTH as nat, incs);
            }
        }
        r
    }

    fn parse_in<C: FileCacher>(&self, code: Vec<Token>, proc_vars: &mut Vec<String>, cacher: &mut C, depth: usize) -> (r: Result<
        Vec<Token>,
        StckError,
    >)
        ensures
            exists|incs: Seq<IncAns>|
                pp_as(
                    #[trigger] preproc_inc(code@, Seq::empty(), var_set(old(proc_vars)@), self.dir@, depth as nat, incs),
                    var_set(final(proc_vars)@),
                    vec_tokens(r),
                ),
            r matches Ok(v) ==> forall|i: int| 0 <= i < v@.len() ==> #[trigger] is_plain(v@[i]),
        decreases depth, 1nat,
    {
        let ghost all = code@;
        let ghost v0 = var_set(proc_vars@);
        let ghost dir = self.dir@;
        let ghost d = depth as nat;
        let mut if_stack: Vec<ProcStatus> = Vec::new();
        let mut out: Vec<Token> = Vec::new();
        let mut rest = reverse_tokens(code);
        let ghost mut k: int = 0;
        let ghost mut incs: Seq<IncAns> = Seq::empty();
        proof {
            assert(rest@.reverse() =~= all);
            assert(all.subrange(0, all.len() as int) =~= all);
            assert(stack_view(if_stack@) =~= Seq::<(ProcCommand, bool)>::empty());
            assert forall|tail: Seq<IncAns>|
                #[trigger] preproc_inc(rest@.reverse(), stack_view(if_stack@), var_set(proc_vars@), dir, d, tail)
                    == preproc_inc(rest@.reverse(), stack_view(if_stack@), var_set(proc_vars@), dir, d, tail) implies
                preproc_inc(all, Seq::empty(), v0, dir, d, incs + tail) == after_inc(
                    out@,
                    preproc_inc(rest@.reverse(), stack_view(if_stack@), var_set(proc_vars@), dir, d, tail),
                ) by {
                assert(incs + tail =~= tail);
                let o = preproc_inc(all, Seq::empty(), v0, dir, d, tail);
                if let Ok(x) = o.0 {
                    assert(Seq::<Token>::empty() + x =~= x);
                }
            }
        }
        while rest.len() > 0
            invariant
                0 <= k <= all.len(),
                rest@.reverse() == all.subrange(k, all.len() as int),
                forall|i: int| 0 <= i < out@.len() ==> #[trigger] is_plain(out@[i]),
                forall|tail: Seq<IncAns>|
                    preproc_inc(all, Seq::empty(), v0, dir, d, incs + tail) == after_inc(
                        out@,
                        #[trigger] preproc_inc(rest@.reverse(), stack_view(if_stack@), var_set(proc_vars@), dir, d, tail),
                    ),
                v0 == var_set(old(proc_vars)@),
                all == code@,
                dir == self.dir@,
                d == depth as nat,
            decreases rest@.len(),
        {
            let ghost r0 = rest@;
            let ghost st0 = stack_view(if_stack@);
            let ghost out0 = out@;
            let ghost vs0 = var_set(proc_vars@);
            let ghost incs0 = incs;
            let Token { cont, span } = rest.pop().unwrap();
            let ghost tok = Token { cont, span };
            proof {
                assert(r0.reverse().len() == r0.len());
                assert(k < all.len());
                assert(r0.reverse()[0] == r0.last());
                assert(r0.reverse().subrange(1, r0.len() as int) =~= rest@.reverse());
                assert(all.subrange(k, all.len() as int)[0] == all[k]);
                assert(all[k] == r0.last());
                assert(all.subrange(k + 1, all.len() as int) =~= r0.reverse().subrange(1, r0.len() as int));
                assert(r0.reverse()[0] == tok);
                k = k + 1;
            }
            match cont {
                TokenCont::Keyword(RawKeyword::Include { path }) => {
                    let res = self.read_included(&path, proc_vars, cacher, depth);
                    let ghost ans: IncAns = choose|a: IncAns|
                        a.res == res && a.vars == var_set(proc_vars@) && #[trigger] include_ok(dir, d, path@, vs0, a);
                    match res {
                        Ok(block) => {
                            let t = Token { cont: TokenCont::IncludedBlock(block), span };
                            out.push(t);
                            proof {
                                incs = incs0.push(ans);
                                assert(forall|i: int| 0 <= i < out@.len() - 1 ==> out@[i] == out0[i]);
                                assert forall|tail: Seq<IncAns>|
                                    preproc_inc(all, Seq::empty(), v0, dir, d, incs + tail) == after_inc(
                                        out@,
                                        #[trigger] preproc_inc(rest@.reverse(), stack_view(if_stack@), var_set(proc_vars@), dir, d, tail),
                                    ) by {
                                    let tl = seq![ans] + tail;
                                    assert(incs + tail =~= incs0 + tl);
                                    assert(tl[0] == ans);
                                    assert(tl.drop_first() =~= tail);
                                    assert(preproc_inc(r0.reverse(), st0, vs0, dir, d, tl) == preproc_inc(r0.reverse(), st0, vs0, dir, d, tl));
                                    let p = preproc_inc(rest@.reverse(), stack_view(if_stack@), var_set(proc_vars@), dir, d, tail);
                                    if let Ok(o) = p.0 {
                                        assert(out0 + (seq![t] + o) =~= out@ + o);
                                    }
                                }
                            }
                        },
                        Err(e) => {
                            proof {
                                let fin = incs0.push(ans);
                                let tl = seq![ans];
                                assert(fin + Seq::empty() =~= incs0 + tl);
                                assert(fin + Seq::<IncAns>::empty() =~= fin);
                                assert(tl[0] == ans);
                                assert(preproc_inc(r0.reverse(), st0, vs0, dir, d, tl) == preproc_inc(r0.reverse(), st0, vs0, dir, d, tl));
                                assert(pp_as(preproc_inc(all, Seq::empty(), v0, dir, d, fin), var_set(proc_vars@), vec_tokens(Err::<Vec<Token>, StckError>(e))));
                            }
                            return Err(e);
                        },
                    }
                },
                TokenCont::Keyword(RawKeyword::Pragma { command }) => {
                    let m = manage_pragma(&mut if_stack, &command, proc_vars, span);
                    match m {
                        Ok(()) => {
                            proof {
                                assert forall|tail: Seq<IncAns>|
                                    preproc_inc(all, Seq::empty(), v0, dir, d, incs + tail) == after_inc(
                                        out@,
                                        #[trigger] preproc_inc(rest@.reverse(), stack_view(if_stack@), var_set(proc_vars@), dir, d, tail),
                                    ) by {
                                    assert(preproc_inc(r0.reverse(), st0, vs0, dir, d, tail) == preproc_inc(r0.reverse(), st0, vs0, dir, d, tail));
                                }
                            }
                        },
                        Err(e) => {
                            proof {
                                let tl = Seq::<IncAns>::empty();
                                assert(incs0 + tl =~= incs0);
                                assert(preproc_inc(r0.reverse(), st0, vs0, dir, d, tl) == preproc_inc(r0.reverse(), st0, vs0, dir, d, tl));
                                assert(pp_as(preproc_inc(all, Seq::empty(), v0, dir, d, incs0), var_set(proc_vars@), vec_tokens(Err::<Vec<Token>, StckError>(e))));
                            }
                            return Err(e);
                        },
                    }
                },
                x => {
                    let keep = if if_stack.len() == 0 {
                        true
                    } else {
                        if_stack[if_stack.len() - 1].reading
                    };
                    if keep {
                        let t = Token { cont: x, span };
                        out.push(t);
                        proof {
                            assert(forall|i: int| 0 <= i < out@.len() - 1 ==> out@[i] == out0[i]);
                        }
                    }
                    proof {
                        assert forall|tail: Seq<IncAns>|
                            preproc_inc(all, Seq::empty(), v0, dir, d, incs + tail) == after_inc(
                                out@,
                                #[trigger] preproc_inc(rest@.reverse(), stack_view(if_stack@), var_set(proc_vars@), dir, d, tail),
                            ) by {
                            assert(preproc_inc(r0.reverse(), st0, vs0, dir, d, tail) == preproc_inc(r0.reverse(), st0, vs0, dir, d, tail));
                            let p = preproc_inc(rest@.reverse(), stack_view(if_stack@), var_set(proc_vars@), dir, d, tail);
                            if let Ok(o) = p.0 {
                                if keep {
                                    assert(out0 + (seq![tok] + o) =~= out@ + o);
                                } else {
                                    assert(out0 =~= out@);
                                }
                            }
                        }
                    }
                },
            }
        }
        proof {
            let tl = Seq::<IncAns>::empty();
            assert(incs + tl =~= incs);
            assert(preproc_inc(rest@.reverse(), stack_view(if_stack@), var_set(proc_vars@), dir, d, tl) == preproc_inc(rest@.reverse(), stack_view(if_stack@), var_set(proc_vars@), dir, d, tl));
            assert(rest@.reverse() =~= Seq::<Token>::empty());
            assert(out@ + Seq::<Token>::empty() =~= out@);
            assert(pp_as(preproc_inc(all, Seq::empty(), v0, dir, d, incs), var_set(proc_vars@), vec_tokens(Ok::<Vec<Token>, StckError>(out))));
        }
        Ok(out)
    }

    /// The tokens of an included file, pre-processed with the same names.
    /// The file is `path` in this context's directory, or the file
    /// `stck.stck` in it where the cacher says it is a directory.
    fn read_included<C: FileCacher>(&self, path: &String, proc_vars: &mut Vec<String>, cacher: &mut C, depth: usize) -> (r: Result<
        TokenBlock,
        StckError,
    >)
        ensures
            exists|a: IncAns|
                a.res == r && a.vars == var_set(final(proc_vars)@) && #[trigger] include_ok(
                    self.dir@,
                    depth as nat,
                    path@,
                    var_set(old(proc_vars)@),
                    a,
                ),
            r matches Ok(b) ==> included_target(self.dir@, path@, b.source@) && forall|i: int|
                0 <= i < b.tokens@.len() ==> #[trigger] is_plain(b.tokens@[i]),
        decreases depth, 0nat,
    {
        let ghost v0 = var_set(proc_vars@);
        if depth == 0 {
            let e = StckError::IncludeTooDeep(path.clone());
            proof {
                let a = IncAns {
                    res: Err(e),
                    vars: v0,
                    tok: vstd::pervasive::arbitrary(),
                    toks: Seq::empty(),
                    target: Seq::empty(),
                    inner: Seq::empty(),
                };
                assert(include_ok(self.dir@, depth as nat, path@, v0, a));
            }
            return Err(e);
        }
        let full = path_join(&self.dir, path);
        let target = if cacher.is_dir(&full) {
            let main = "stck.stck".to_owned();
            path_join(&full, &main)
        } else {
            full
        };
        let text = match cacher.read_file(&target) {
            Ok(t) => t,
            Err(_) => {
                let e = StckError::CantReadFile(target);
                proof {
                    let a = IncAns {
                        res: Err(e),
                        vars: v0,
                        tok: vstd::pervasive::arbitrary(),
                        toks: Seq::empty(),
                        target: Seq::empty(),
                        inner: Seq::empty(),
                    };
                    assert(include_ok(self.dir@, depth as nat, path@, v0, a));
                }
                return Err(e);
            },
        };
        let tc = crate::token::Context::new(text.as_str());
        let ghost c = tc;
        let ghost tg = target@;
        let ghost dm = (depth - 1) as nat;
        proof {
            assert(included_target(self.dir@, path@, tg));
        }
        let block = match tc.tokenize(target) {
            Ok(b) => b,
            Err(e) => {
                proof {
                    let a = IncAns { res: Err(e), vars: v0, tok: c, toks: Seq::empty(), target: tg, inner: Seq::empty() };
                    assert(included_as(c, Seq::empty(), tg, v0, v0, Err(e), dm, Seq::empty()));
                    assert(include_ok(self.dir@, depth as nat, path@, v0, a));
                }
                return Err(e);
            },
        };
        let inner = Context::new(&dir_of(&block.source));
        let TokenBlock { source, tokens } = block;
        let ghost toks = tokens@;
        let rin = inner.parse_in(tokens, proc_vars, cacher, depth - 1);
        let ghost grin = rin;
        let r = match rin {
            Ok(tokens) => Ok(TokenBlock { source, tokens }),
            Err(e) => Err(e),
        };
        proof {
            let incs = choose|incs: Seq<IncAns>|
                pp_as(#[trigger] preproc_inc(toks, Seq::empty(), v0, inner.dir@, dm, incs), var_set(proc_vars@), vec_tokens(grin));
            assert(block_tokens(r) == vec_tokens(grin));
            assert(inner.dir@ == include_dir(tg));
            assert(included_as(c, toks, tg, v0, var_set(proc_vars@), r, dm, incs));
            let a = IncAns { res: r, vars: var_set(proc_vars@), tok: c, toks: toks, target: tg, inner: incs };
            assert(include_ok(self.dir@, depth as nat, path@, v0, a));
        }
        r
    }
}

/// The file an include of `path` from the directory `dir` reads: the path
/// in the directory, or the file `stck.stck` in it.
pub open spec fn included_target(dir: Seq<char>, path: Seq<char>, t: Seq<char>) -> bool {
    t == joined_path(dir, path) || t == joined_path(joined_path(dir, path), "stck.stck"@)
}

/// Whether including the file `t`, whose text tokenizes from `c` into
/// `toks`, ended as `r`, the names set changing from `vars0` to `vars1`,
/// with `depth` levels of includes left for it, its includes answered by
/// `incs`: the tokenizer's error, if it gives one, the names unchanged;
/// else what pre-processing the tokens with those names gives, its
/// includes taken from the directory of `t` and answered as they can be,
/// in a block whose source is `t`.
pub open spec fn included_as(
    c: crate::token::Context,
    toks: Seq<Token>,
    t: Seq<char>,
    vars0: Set<Seq<char>>,
    vars1: Set<Seq<char>>,
    r: Result<TokenBlock, StckError>,
    depth: nat,
    incs: Seq<IncAns>,
) -> bool
    decreases depth, 2nat, 0nat,
{
    match crate::token::tok_from(c, crate::token::TSt::Nothing, Seq::empty()) {
        Err(m) => r matches Err(e) && crate::token::tok_err(e, m) && vars1 == vars0,
        Ok((ts, _)) => crate::token::tokens_model(toks) == ts && (r matches Ok(b) ==> b.source@ == t) && pp_as(
            preproc_inc(toks, Seq::empty(), vars0, include_dir(t), depth, incs),
            vars1,
            block_tokens(r),
        ),
    }
}

/// The tokens in reverse order.
fn reverse_tokens(v: Vec<Token>) -> (r: Vec<Token>)
    ensures
        r@ == v@.reverse(),
{
    crate::internals::reverse_vec(v)
}

} // verus!
