//! The steps from a source to its run: tokens ([`get_tokens`]), tokens after
//! the pre-processor (also [`get_tokens`]), parsed code
//! ([`get_project_code`]) and the run ([`execute_file`]). Each step runs the
//! ones before it. Files are read through a [`FileCacher`].
use crate::cache::FileCacher;
use crate::error::{Error, StckError};
use crate::internals::{Code, TokenBlock};
use crate::parse::{err_model, exprs_model, parse_tokens};
use crate::preproc::{
    block_tokens, dir_of, include_dir, is_plain, pp_as, pp_clean, preproc_inc, vec_tokens, IncAns, INCLUDE_DEPTH,
};
use crate::builtins::class_of;
use crate::error::RuntimeError;
use crate::runtime::Context as RuntimeContext;
use crate::runtime::DEFAULT_STEP_LIMIT;
use crate::parse::exprs_model as code_model;
use crate::runtime::fresh_state;
use crate::semantics::{err_is, run_seq, OutM};
use vstd::prelude::*;

verus! {

/// The text of a file, or the error that it cannot be read.
fn read_file<C: FileCacher>(path: &String, cacher: &mut C) -> (r: Result<String, StckError>)
    ensures
        r matches Err(e) ==> e matches StckError::CantReadFile(p) && p@ == path@,
{
    file_text(path, cacher.read_file(path))
}

/// What a read of the file at `path` gives, from the cacher's answer `read`:
/// the text it found, or [`StckError::CantReadFile`] with the path.
pub fn file_text(path: &String, read: Result<String, String>) -> (r: Result<String, StckError>)
    ensures
        match read {
            Ok(t) => r matches Ok(x) && x@ == t@,
            Err(_) => r matches Err(StckError::CantReadFile(p)) && p@ == path@,
        },
{
    match read {
        Ok(text) => Ok(text),
        Err(_) => Err(StckError::CantReadFile(path.clone())),
    }
}

/// The tokens of a text, pre-processed, as the contents of a source named
/// `content_name`; includes are taken from the directory of that name.
pub fn get_tokens_str<C: FileCacher>(cont: &str, content_name: &String, cacher: &mut C) -> (r: Result<
    TokenBlock,
    StckError,
>)
    ensures
        r matches Ok(b) ==> b.source@ == content_name@ && forall|i: int|
            0 <= i < b.tokens@.len() ==> #[trigger] is_plain(b.tokens@[i]),
        exists|c: crate::token::Context, toks: Seq<crate::internals::Token>|
            c.chars@ == cont@ && c.point == 0 && c.current_line == 1 && !c.changed_line && #[trigger] text_tokens_as(
                c,
                toks,
                include_dir(content_name@),
                r,
            ),
{
    let tc = crate::token::Context::new(cont);
    let ghost c = tc;
    let block = match tc.tokenize(content_name.clone()) {
        Ok(b) => b,
        Err(e) => {
            assert(text_tokens_as(c, Seq::empty(), include_dir(content_name@), Err::<TokenBlock, StckError>(e)));
            return Err(e);
        },
    };
    let ghost toks = block.tokens@;
    let r = preproc_tokens(block, content_name, cacher);
    assert(text_tokens_as(c, toks, include_dir(content_name@), r));
    r
}

/// Whether a result is what pre-processing the tokens `toks` from no names,
/// its includes taken from the directory `dir` and answered by `incs`,
/// gives: the tokens kept, each include replaced by its block, or the
/// error (see [`crate::preproc::preproc_inc`]).
pub open spec fn clean_ok(
    toks: Seq<crate::internals::Token>,
    dir: Seq<char>,
    incs: Seq<IncAns>,
    r: Result<TokenBlock, StckError>,
) -> bool {
    let p = pp_clean(toks, dir, incs);
    pp_as(p, p.1, block_tokens(r))
}

/// Whether a result is what pre-processing the tokens `toks` gives, with
/// includes taken from the directory `dir` and each answered as it can be.
pub open spec fn preproc_as(
    toks: Seq<crate::internals::Token>,
    dir: Seq<char>,
    r: Result<TokenBlock, StckError>,
) -> bool {
    exists|incs: Seq<IncAns>| #[trigger] clean_ok(toks, dir, incs, r)
}

/// Whether a result is what tokenizing from `c` and pre-processing the tokens
/// `toks` it gives does, includes taken from the directory `dir`: the
/// tokenizer's error, if it gives one; else the pre-processor's result.
pub open spec fn text_tokens_as(
    c: crate::token::Context,
    toks: Seq<crate::internals::Token>,
    dir: Seq<char>,
    r: Result<TokenBlock, StckError>,
) -> bool {
    match crate::token::tok_from(c, crate::token::TSt::Nothing, Seq::empty()) {
        Err(m) => r matches Err(e) && crate::token::tok_err(e, m),
        Ok((ts, _)) => crate::token::tokens_model(toks) == ts && preproc_as(toks, dir, r),
    }
}

/// Whether a result is what tokenizing from `c` gives, as the contents of a
/// source named `src`.
pub open spec fn raw_tokens_as(c: crate::token::Context, src: Seq<char>, r: Result<TokenBlock, StckError>) -> bool {
    match crate::token::tok_from(c, crate::token::TSt::Nothing, Seq::empty()) {
        Err(m) => r matches Err(e) && crate::token::tok_err(e, m),
        Ok((ts, _)) => r matches Ok(b) && b.source@ == src && crate::token::tokens_model(b.tokens@) == ts,
    }
}

/// Whether a result is what parsing gives the pre-processed tokens of
/// `toks` (includes from `dir`, answered by `incs`) as the file `src`: the
/// pre-processor's error, or the parser's result on what it leaves.
pub open spec fn code_ok(
    toks: Seq<crate::internals::Token>,
    dir: Seq<char>,
    src: Seq<char>,
    incs: Seq<IncAns>,
    r: Result<Code, StckError>,
) -> bool {
    let p = pp_clean(toks, dir, incs);
    &&& p.2
    &&& match p.0 {
        Err(m) => r matches Err(e) && crate::preproc::pp_err_model(e, m),
        Ok(o) => match parse_tokens(o, src) {
            Ok(es) => r matches Ok(cd) && exprs_model(cd.exprs@) == es && cd.source@ == src,
            Err(m) => r matches Err(e) && err_model(e, m),
        },
    }
}

/// Whether a result is what parsing the file named `src` gives, where
/// tokenizing from `c` gives the tokens `toks`: the tokenizer's error, if it
/// gives one; else the pre-processor's error (includes taken from the
/// directory of `src`) or the parser's result on what the pre-processor
/// leaves.
pub open spec fn project_as(
    c: crate::token::Context,
    toks: Seq<crate::internals::Token>,
    src: Seq<char>,
    r: Result<Code, StckError>,
) -> bool {
    match crate::token::tok_from(c, crate::token::TSt::Nothing, Seq::empty()) {
        Err(m) => r matches Err(e) && crate::token::tok_err(e, m),
        Ok((ts, _)) => crate::token::tokens_model(toks) == ts && exists|incs: Seq<IncAns>|
            #[trigger] code_ok(toks, include_dir(src), src, incs, r),
    }
}

/// The tokens of the file at `path`, pre-processed.
pub fn get_tokens<C: FileCacher>(path: &String, cacher: &mut C) -> (r: Result<TokenBlock, StckError>)
    ensures
        r matches Ok(b) ==> b.source@ == path@ && forall|i: int|
            0 <= i < b.tokens@.len() ==> #[trigger] is_plain(b.tokens@[i]),
        (r matches Err(StckError::CantReadFile(p)) && p@ == path@) || exists|
            c: crate::token::Context,
            toks: Seq<crate::internals::Token>,
        | c.point == 0 && c.current_line == 1 && !c.changed_line && #[trigger] text_tokens_as(
            c,
            toks,
            include_dir(path@),
            r,
        ),
{
    let raw = get_raw_tokens(path, cacher);
    let ghost graw = raw;
    let block = match raw {
        Ok(b) => b,
        Err(e) => {
            proof {
                if !(graw matches Err(StckError::CantReadFile(p)) && p@ == path@) {
                    let c = choose|c: crate::token::Context|
                        c.point == 0 && c.current_line == 1 && !c.changed_line && #[trigger] raw_tokens_as(c, path@, graw);
                    assert(text_tokens_as(c, Seq::empty(), include_dir(path@), Err::<TokenBlock, StckError>(e)));
                }
            }
            return Err(e);
        },
    };
    let ghost c = choose|c: crate::token::Context|
        c.point == 0 && c.current_line == 1 && !c.changed_line && #[trigger] raw_tokens_as(c, path@, graw);
    let ghost toks = block.tokens@;
    let r = preproc_tokens(block, path, cacher);
    assert(text_tokens_as(c, toks, include_dir(path@), r));
    r
}

/// The parsed code of the file at `path`.
pub fn get_project_code<C: FileCacher>(path: &String, cacher: &mut C) -> (r: Result<Code, StckError>)
    ensures
        r matches Ok(c) ==> c.source@ == path@,
        (r matches Err(StckError::CantReadFile(p)) && p@ == path@) || exists|
            c: crate::token::Context,
            toks: Seq<crate::internals::Token>,
        | c.point == 0 && c.current_line == 1 && !c.changed_line && #[trigger] project_as(c, toks, path@, r),
{
    let got = get_tokens(path, cacher);
    let ghost ggot = got;
    let block = match got {
        Ok(b) => b,
        Err(e) => {
            proof {
                if !(ggot matches Err(StckError::CantReadFile(p)) && p@ == path@) {
                    let (c, toks) = choose|c: crate::token::Context, toks: Seq<crate::internals::Token>|
                        c.point == 0 && c.current_line == 1 && !c.changed_line && #[trigger] text_tokens_as(
                            c,
                            toks,
                            include_dir(path@),
                            ggot,
                        );
                    if crate::token::tok_from(c, crate::token::TSt::Nothing, Seq::empty()) is Ok {
                        let incs = choose|incs: Seq<IncAns>| #[trigger] clean_ok(toks, include_dir(path@), incs, ggot);
                        assert(code_ok(toks, include_dir(path@), path@, incs, Err::<Code, StckError>(e)));
                    }
                    assert(project_as(c, toks, path@, Err::<Code, StckError>(e)));
                }
            }
            return Err(e);
        },
    };
    let ghost (c, toks) = choose|c: crate::token::Context, toks: Seq<crate::internals::Token>|
        c.point == 0 && c.current_line == 1 && !c.changed_line && #[trigger] text_tokens_as(
            c,
            toks,
            include_dir(path@),
            ggot,
        );
    let ghost incs = choose|incs: Seq<IncAns>| #[trigger] clean_ok(toks, include_dir(path@), incs, ggot);
    let r = parse_raw_tokens(block);
    assert(code_ok(toks, include_dir(path@), path@, incs, r));
    assert(project_as(c, toks, path@, r));
    r
}

/// The code that a block of tokens parses to.
pub fn parse_raw_tokens(block: TokenBlock) -> (r: Result<Code, StckError>)
    ensures
        match parse_tokens(block.tokens@, block.source@) {
            Ok(es) => r matches Ok(c) && exprs_model(c.exprs@) == es && c.source == block.source,
            Err(m) => r matches Err(e) && err_model(e, m),
        },
{
    let TokenBlock { tokens, source } = block;
    let mut parser = crate::parse::Context::new(tokens, &source);
    let exprs = parser.parse_block()?;
    Ok(Code { exprs, source })
}

/// Runs the code of the file at `path` in a new context.
pub fn execute_file<C: FileCacher>(path: &String, cacher: &mut C) -> (r: Result<(), Error>)
    ensures
        r is Err && r->Err_0 is Anoter || exists|c: Code| c.source@ == path@ && #[trigger] ran_file(c, r),
{
    let code = match get_project_code(path, cacher) {
        Ok(c) => c,
        Err(e) => {
            return Err(Error::Anoter(e));
        },
    };
    let ghost c = code;
    let r = match execute_code(code) {
        Ok(_) => Ok(()),
        Err(e) => Err(e),
    };
    assert(ran_file(c, r));
    r
}

/// Whether running the code `c` in a new context ended as `r` says: as
/// [`run_seq`] describes it, from an empty stack and no variables.
pub open spec fn ran_file(c: Code, r: Result<(), Error>) -> bool {
    match run_seq(code_model(c.exprs@), fresh_state(), DEFAULT_STEP_LIMIT as int, true).0 {
        OutM::Flow(..) => r is Ok,
        OutM::Fails(m, span, _) => r matches Err(Error::RuntimeError(RuntimeError::RuntimeCtx(e))) && err_is(
            m,
            *e.kind,
        ) && e.ctx.lines == span,
        _ => false,
    }
}

/// Runs code in a new context, and gives the context back.
pub fn execute_raw_code(code: Code) -> (r: Result<RuntimeContext, Error>)
    ensures
        match run_seq(code_model(code.exprs@), fresh_state(), DEFAULT_STEP_LIMIT as int, true).0 {
            OutM::Flow(_, t) => r matches Ok(ctx) && ctx.frame.stack@ == t.stack && ctx.frame.vars@ == t.vars,
            OutM::Fails(m, span, _) => r matches Err(Error::RuntimeError(RuntimeError::RuntimeCtx(e))) && err_is(
                m,
                *e.kind,
            ) && e.ctx.lines == span,
            _ => false,
        },
{
    execute_code(code)
}

/// The tokens of a file, as the contents of that file.
fn get_raw_tokens<C: FileCacher>(path: &String, cacher: &mut C) -> (r: Result<TokenBlock, StckError>)
    ensures
        r matches Ok(b) ==> b.source@ == path@,
        (r matches Err(StckError::CantReadFile(p)) && p@ == path@) || exists|c: crate::token::Context|
            c.point == 0 && c.current_line == 1 && !c.changed_line && #[trigger] raw_tokens_as(c, path@, r),
{
    let text = read_file(path, cacher)?;
    let tc = crate::token::Context::new(text.as_str());
    let ghost c = tc;
    let r = tc.tokenize(path.clone());
    assert(raw_tokens_as(c, path@, r));
    r
}

/// The tokens of a source after the pre-processor, which takes includes from
/// the directory of `file_path`.
fn preproc_tokens<C: FileCacher>(block: TokenBlock, file_path: &String, cacher: &mut C) -> (r: Result<
    TokenBlock,
    StckError,
>)
    ensures
        r matches Ok(b) ==> b.source == block.source && forall|i: int|
            0 <= i < b.tokens@.len() ==> #[trigger] is_plain(b.tokens@[i]),
        preproc_as(block.tokens@, include_dir(file_path@), r),
{
    let TokenBlock { tokens, source } = block;
    let ghost toks = tokens@;
    let preprocessor = crate::preproc::Context::new(&dir_of(file_path));
    let rv = preprocessor.parse_clean(tokens, cacher);
    let ghost grv = rv;
    let r = match rv {
        Ok(tokens) => Ok(TokenBlock { tokens, source }),
        Err(e) => Err(e),
    };
    proof {
        let incs = choose|incs: Seq<IncAns>|
            pp_as(
                #[trigger] preproc_inc(toks, Seq::empty(), Set::empty(), preprocessor.dir@, INCLUDE_DEPTH as nat, incs),
                preproc_inc(toks, Seq::empty(), Set::empty(), preprocessor.dir@, INCLUDE_DEPTH as nat, incs).1,
                vec_tokens(grv),
            );
        assert(block_tokens(r) == vec_tokens(grv));
        assert(clean_ok(toks, include_dir(file_path@), incs, r));
    }
    r
}

/// Runs code in a new context.
fn execute_code(code: Code) -> (r: Result<RuntimeContext, Error>)
    ensures
        match run_seq(code_model(code.exprs@), fresh_state(), DEFAULT_STEP_LIMIT as int, true).0 {
            OutM::Flow(_, t) => r matches Ok(ctx) && ctx.frame.stack@ == t.stack && ctx.frame.vars@ == t.vars,
            OutM::Fails(m, span, _) => r matches Err(Error::RuntimeError(RuntimeError::RuntimeCtx(e))) && err_is(
                m,
                *e.kind,
            ) && e.ctx.lines == span,
            _ => false,
        },
{
    let mut executioner = RuntimeContext::new();
    proof {
        assert(crate::semantics::fns_model(executioner.frame.fns@) =~= Seq::empty());
        assert(crate::trc::defs_view(executioner.frame.generics.defined@) =~= Seq::empty());
        assert(crate::runtime::hook_names(executioner.rust_fns@) =~= Seq::empty());
        assert(executioner.frame.log@ =~= Seq::<crate::semantics::HostReq>::empty());
        assert(crate::runtime::frame_state(executioner.frame, executioner.rust_fns@) =~= fresh_state());
        crate::semantics::lemma_seq_closed(code_model(code.exprs@), fresh_state(), DEFAULT_STEP_LIMIT as int, true);
    }
    match executioner.execute_entire_code(&code) {
        Ok(_) => Ok(executioner),
        Err(e) => Err(Error::RuntimeError(crate::error::RuntimeError::RuntimeCtx(e))),
    }
}

} // verus!
