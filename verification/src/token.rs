//! The tokenizer: it reads script text character by character and groups
//! the characters into tokens, each with the lines it spans.
use crate::error::{LineRange, StckError};
use crate::internals::{FnArgDef, RawKeyword, Token, TokenBlock, TokenCont};
use crate::internals::FnScope;
use crate::text::{chars_of, chars_of_string, copy_range, eq_lit, parse_isize, push_char, starts_with_lit, string_of, trim_chars};
use crate::internals::{argdefs_view, ArgDefV};
use crate::text::{has_prefix, trim};
use crate::typeparse::generic_decl;
use crate::types::{tts_view, DefinedGenericBuilder, TypeV};
use vstd::prelude::*;

verus! {

/// The state of the tokenizer between two characters.
#[derive(Debug)]
pub enum State {
    Nothing,
    OnComment,
    MakeIdent(String),
    MakeString(String, usize),
    /// found `\` in a string
    MakeStringEsc(String, usize),
    Minus(String),
    MakeNumber(String),
    MakeKeyword(String, usize),
    MakeFnArgs(Vec<FnArgDef>, String, usize),
    MakeFnArgType { args: Vec<FnArgDef>, arg_name: String, type_buf: String, tag_count: usize, line_start: usize },
    MakeChar,
    MakeCharEnd(char),
    MakeCharEndEsc(char),
}

// ---------------------------------------------------------------------------
// Character classes

/// Letters allowed in argument names.
pub open spec fn is_arg_ident(c: char) -> bool {
    ('a' <= c && c <= 'z') || ('A' <= c && c <= 'Z') || c == '_' || c == '-' || c == '&'
}

/// Letters.
pub open spec fn is_letter(c: char) -> bool {
    ('a' <= c && c <= 'z') || ('A' <= c && c <= 'Z')
}

/// Decimal digits.
pub open spec fn is_digit(c: char) -> bool {
    '0' <= c && c <= '9'
}

/// Spaces: blank, new line and tab.
pub open spec fn is_space(c: char) -> bool {
    c == ' ' || c == '\n' || c == '\t'
}

/// The characters an identifier can start with.
pub open spec fn is_start_ident(c: char) -> bool {
    is_letter(c) || c == '+' || c == '_' || c == '%' || c == '!' || c == '?' || c == '$' || c == '='
        || c == '*' || c == '&' || c == '<' || c == '>' || c == '≃' || c == ',' || c == ':' || c == '~'
        || c == '@'
}

/// The characters an identifier can go on with.
pub open spec fn is_ident(c: char) -> bool {
    is_start_ident(c) || is_digit(c) || c == '.' || c == '/' || c == '\'' || c == '-'
}

/// The characters of a type inside an argument list.
pub open spec fn is_arg_type(c: char) -> bool {
    is_letter(c) || is_space(c) || c == '?' || c == '*'
}

/// The characters that end a word.
pub open spec fn is_word_edge(c: char) -> bool {
    c == '(' || c == ')' || c == '{' || c == '}' || c == '[' || c == ']'
}

fn arg_ident(c: char) -> (r: bool)
    ensures
        r == is_arg_ident(c),
{
    ('a' <= c && c <= 'z') || ('A' <= c && c <= 'Z') || c == '_' || c == '-' || c == '&'
}

fn letter(c: char) -> (r: bool)
    ensures
        r == is_letter(c),
{
    ('a' <= c && c <= 'z') || ('A' <= c && c <= 'Z')
}

fn digit(c: char) -> (r: bool)
    ensures
        r == is_digit(c),
{
    '0' <= c && c <= '9'
}

fn space(c: char) -> (r: bool)
    ensures
        r == is_space(c),
{
    c == ' ' || c == '\n' || c == '\t'
}

fn start_ident(c: char) -> (r: bool)
    ensures
        r == is_start_ident(c),
{
    letter(c) || c == '+' || c == '_' || c == '%' || c == '!' || c == '?' || c == '$' || c == '=' || c
        == '*' || c == '&' || c == '<' || c == '>' || c == '≃' || c == ',' || c == ':' || c == '~' || c
        == '@'
}

fn ident(c: char) -> (r: bool)
    ensures
        r == is_ident(c),
{
    start_ident(c) || digit(c) || c == '.' || c == '/' || c == '\'' || c == '-'
}

fn arg_type(c: char) -> (r: bool)
    ensures
        r == is_arg_type(c),
{
    letter(c) || space(c) || c == '?' || c == '*'
}

fn word_edge(c: char) -> (r: bool)
    ensures
        r == is_word_edge(c),
{
    c == '(' || c == ')' || c == '{' || c == '}' || c == '[' || c == ']'
}

/// The tokenizer: the characters of the text, where it reads, and the line
/// it is on.
pub struct Context {
    pub changed_line: bool,
    pub current_line: usize,
    pub point: usize,
    pub chars: Vec<char>,
}

// ---------------------------------------------------------------------------
// The model of tokens

/// The model of a keyword as the tokenizer reads it.
pub enum RawKwM {
    IntoClosure(Seq<char>),
    BubbleError,
    Return,
    Fn(FnScope),
    Ifs,
    While,
    Include(Seq<char>),
    Pragma(Seq<char>),
    Switch,
    Break,
    /// A generic type: its name, whether it is viral, and the types it
    /// allows.
    Generic(Seq<char>, bool, Seq<TypeV>),
}

pub open spec fn raw_kw_model(k: RawKeyword) -> RawKwM {
    match k {
        RawKeyword::FnIntoClosure { fn_name } => RawKwM::IntoClosure(fn_name@),
        RawKeyword::BubbleError => RawKwM::BubbleError,
        RawKeyword::Return => RawKwM::Return,
        RawKeyword::Fn(s) => RawKwM::Fn(s),
        RawKeyword::Ifs => RawKwM::Ifs,
        RawKeyword::While => RawKwM::While,
        RawKeyword::Include { path } => RawKwM::Include(path@),
        RawKeyword::Pragma { command } => RawKwM::Pragma(command@),
        RawKeyword::Switch => RawKwM::Switch,
        RawKeyword::Break => RawKwM::Break,
        RawKeyword::TRC(g) => RawKwM::Generic(g.name@, g.viral, tts_view(g.allow@)),
    }
}

/// The model of what a token holds.
pub enum TokM {
    Char(char),
    Ident(Seq<char>),
    Str(Seq<char>),
    Number(isize),
    Keyword(RawKwM),
    FnArgs(Seq<ArgDefV>),
    Block(Seq<TokenM>),
    Included(Seq<char>, Seq<TokenM>),
    EndOfBlock,
}

/// The model of a token and the lines it spans.
pub struct TokenM {
    pub cont: TokM,
    pub span: LineRange,
}

pub open spec fn token_model(t: Token) -> TokenM
    decreases t, 0nat,
{
    TokenM {
        span: t.span,
        cont: match t.cont {
            TokenCont::Char(c) => TokM::Char(c),
            TokenCont::Ident(s) => TokM::Ident(s@),
            TokenCont::Str(s) => TokM::Str(s@),
            TokenCont::Number(n) => TokM::Number(n),
            TokenCont::Keyword(k) => TokM::Keyword(raw_kw_model(k)),
            TokenCont::FnArgs(a) => TokM::FnArgs(argdefs_view(a@)),
            TokenCont::Block(b) => {
                proof {
                    broadcast use vstd::std_specs::vec::axiom_vec_decreases_to_view;

                    assert(decreases_to!(t => b@));
                }
                TokM::Block(tokens_model(b@))
            },
            TokenCont::IncludedBlock(b) => {
                proof {
                    broadcast use vstd::std_specs::vec::axiom_vec_decreases_to_view;

                    assert(decreases_to!(t => b.tokens@));
                }
                TokM::Included(b.source@, tokens_model(b.tokens@))
            },
            TokenCont::EndOfBlock => TokM::EndOfBlock,
        },
    }
}

pub open spec fn tokens_model(s: Seq<Token>) -> Seq<TokenM>
    decreases s, 1nat,
{
    if s.len() == 0 {
        Seq::empty()
    } else {
        tokens_model(s.drop_last()).push(token_model(s.last()))
    }
}

pub proof fn lemma_tokens_model_push(s: Seq<Token>, t: Token)
    ensures
        tokens_model(s.push(t)) == tokens_model(s).push(token_model(t)),
{
    assert(s.push(t).drop_last() =~= s);
}

/// The keyword that the text between `(` and `)` names, if any.
pub open spec fn keyword_model(buf: Seq<char>) -> Option<RawKwM> {
    let w = trim(buf);
    if w == "!"@ {
        Some(RawKwM::BubbleError)
    } else if w == "fn"@ {
        Some(RawKwM::Fn(FnScope::Local))
    } else if w == "fn*"@ {
        Some(RawKwM::Fn(FnScope::Global))
    } else if w == "fn-"@ {
        Some(RawKwM::Fn(FnScope::Isolated))
    } else if w == "while"@ {
        Some(RawKwM::While)
    } else if w == "return"@ {
        Some(RawKwM::Return)
    } else if w == "switch"@ {
        Some(RawKwM::Switch)
    } else if w == "break"@ {
        Some(RawKwM::Break)
    } else if w == "ifs"@ {
        Some(RawKwM::Ifs)
    } else if has_prefix(w, "include "@) {
        Some(RawKwM::Include(trim(w.subrange(8, w.len() as int))))
    } else if has_prefix(w, "pragma "@) {
        Some(RawKwM::Pragma(w.subrange(7, w.len() as int)))
    } else if has_prefix(w, "@"@) {
        Some(RawKwM::IntoClosure(w.subrange(1, w.len() as int)))
    } else if has_prefix(w, "TRC"@) && generic_decl(trim(w.subrange(3, w.len() as int))) is Ok {
        match generic_decl(trim(w.subrange(3, w.len() as int))) {
            Ok((n, v, ts)) => Some(RawKwM::Generic(n, v, ts)),
            Err(_) => None,
        }
    } else {
        None
    }
}

/// The error of a number too large for `isize`, as `str::parse` reports it.
fn parse_num(buf: &String) -> (r: Result<isize, StckError>)
    ensures
        match crate::text::parse_isize_spec(buf@) {
            Some(v) => r == Ok::<isize, StckError>(v as isize),
            None => r matches Err(e) && e is ParseInt,
        },
{
    let cs = chars_of_string(buf);
    match parse_isize(cs.as_slice()) {
        Some(v) => Ok(v),
        None => {
            if cs.len() > 0 && cs[0] == '-' {
                Err(StckError::ParseInt("number too small to fit in target type".to_owned()))
            } else {
                Err(StckError::ParseInt("number too large to fit in target type".to_owned()))
            }
        },
    }
}

/// A string holding one character.
fn string_of_char(c: char) -> (r: String)
    ensures
        r@ == seq![c],
{
    let mut s = String::new();
    push_char(&mut s, c);
    s
}

/// Reads a keyword from the text between `(` and `)`.
pub fn parse_keyword(buf: &String) -> (r: Result<RawKeyword, StckError>)
    ensures
        match keyword_model(buf@) {
            Some(k) => r matches Ok(x) && raw_kw_model(x) == k,
            None => r matches Err(StckError::UnknownKeyword(w)) && w@ == trim(buf@),
        },
{
    proof {
        reveal_strlit("!");
        reveal_strlit("fn");
        reveal_strlit("fn*");
        reveal_strlit("fn-");
        reveal_strlit("while");
        reveal_strlit("return");
        reveal_strlit("switch");
        reveal_strlit("break");
        reveal_strlit("ifs");
    }
    let all = chars_of_string(buf);
    let t = trim_chars(all.as_slice());
    let w = t.as_slice();
    if eq_lit(w, "!") {
        return Ok(RawKeyword::BubbleError);
    }
    if eq_lit(w, "fn") {
        return Ok(RawKeyword::Fn(FnScope::Local));
    }
    if eq_lit(w, "fn*") {
        return Ok(RawKeyword::Fn(FnScope::Global));
    }
    if eq_lit(w, "fn-") {
        return Ok(RawKeyword::Fn(FnScope::Isolated));
    }
    if eq_lit(w, "while") {
        return Ok(RawKeyword::While);
    }
    if eq_lit(w, "return") {
        return Ok(RawKeyword::Return);
    }
    if eq_lit(w, "switch") {
        return Ok(RawKeyword::Switch);
    }
    if eq_lit(w, "break") {
        return Ok(RawKeyword::Break);
    }
    if eq_lit(w, "ifs") {
        return Ok(RawKeyword::Ifs);
    }
    proof {
        reveal_strlit("include ");
        reveal_strlit("pragma ");
        reveal_strlit("@");
        reveal_strlit("TRC");
    }
    if starts_with_lit(w, "include ") {
        let p = copy_range(w, 8, w.len());
        let pt = trim_chars(p.as_slice());
        return Ok(RawKeyword::Include { path: string_of(pt.as_slice()) });
    }
    if starts_with_lit(w, "pragma ") {
        let c = copy_range(w, 7, w.len());
        return Ok(RawKeyword::Pragma { command: string_of(c.as_slice()) });
    }
    if starts_with_lit(w, "@") {
        let f = copy_range(w, 1, w.len());
        return Ok(RawKeyword::FnIntoClosure { fn_name: string_of(f.as_slice()) });
    }
    if starts_with_lit(w, "TRC") {
        let g = copy_range(w, 3, w.len());
        let gt = trim_chars(g.as_slice());
        match DefinedGenericBuilder::parse_text(gt.as_slice()) {
            Ok(b) => {
                return Ok(RawKeyword::TRC(b));
            },
            Err(_) => {},
        }
    }
    Err(StckError::UnknownKeyword(string_of(w)))
}


// ---------------------------------------------------------------------------
// What the tokenizer computes

/// The tokenizer after it reads the next character: a new line is counted
/// when the character after a line feed is read.
pub open spec fn next_ctx(c: Context) -> Context {
    Context {
        changed_line: c.chars@[c.point as int] == '\n',
        current_line: if c.changed_line && c.current_line < usize::MAX {
            (c.current_line + 1) as usize
        } else {
            c.current_line
        },
        point: (c.point + 1) as usize,
        chars: c.chars,
    }
}

/// The tokenizer after it steps back over the character it read.
pub open spec fn unget_ctx(c: Context) -> Context {
    Context {
        changed_line: c.changed_line,
        current_line: if c.chars@[c.point - 1] == '\n' && c.current_line > 0 {
            (c.current_line - 1) as usize
        } else {
            c.current_line
        },
        point: (c.point - 1) as usize,
        chars: c.chars,
    }
}

/// The model of the tokenizer's state.
pub enum TSt {
    Nothing,
    OnComment,
    Ident(Seq<char>),
    Str(Seq<char>, usize),
    StrEsc(Seq<char>, usize),
    Minus(Seq<char>),
    Number(Seq<char>),
    Keyword(Seq<char>, usize),
    FnArgs(Seq<ArgDefV>, Seq<char>, usize),
    FnArgType(Seq<ArgDefV>, Seq<char>, Seq<char>, usize, usize),
    Char,
    CharEnd(char),
    CharEndEsc(char),
}

pub open spec fn tst_model(s: State) -> TSt {
    match s {
        State::Nothing => TSt::Nothing,
        State::OnComment => TSt::OnComment,
        State::MakeIdent(b) => TSt::Ident(b@),
        State::MakeString(b, l) => TSt::Str(b@, l),
        State::MakeStringEsc(b, l) => TSt::StrEsc(b@, l),
        State::Minus(b) => TSt::Minus(b@),
        State::MakeNumber(b) => TSt::Number(b@),
        State::MakeKeyword(b, l) => TSt::Keyword(b@, l),
        State::MakeFnArgs(xs, b, l) => TSt::FnArgs(argdefs_view(xs@), b@, l),
        State::MakeFnArgType { args, arg_name, type_buf, tag_count, line_start } => TSt::FnArgType(
            argdefs_view(args@),
            arg_name@,
            type_buf@,
            tag_count,
            line_start,
        ),
        State::MakeChar => TSt::Char,
        State::MakeCharEnd(c) => TSt::CharEnd(c),
        State::MakeCharEndEsc(c) => TSt::CharEndEsc(c),
    }
}

/// The states that read their character again in the next state rank
/// above those they go to.
pub open spec fn tst_rank(s: TSt) -> nat {
    match s {
        TSt::Minus(_) => 2,
        TSt::Ident(_) => 1,
        TSt::Number(_) => 1,
        _ => 0,
    }
}

/// Why a text does not tokenize.
pub enum TokErrM {
    /// A character that the state it came in cannot take.
    Char(TSt, char),
    /// The end of the text in a state that cannot end there.
    Eof(TSt),
    /// A keyword that is none, as trimmed.
    Keyword(Seq<char>),
    /// A number too large for `isize`.
    Number,
    /// A type in an argument list that names none, as trimmed.
    Type(Seq<char>),
    /// A block that does not move the tokenizer on (it always does).
    Stuck,
}

pub open spec fn tok_err(e: StckError, m: TokErrM) -> bool {
    match m {
        TokErrM::Char(st, c) => e matches StckError::CantTokenizerChar(s, x) && tst_model(s) == st && x == c,
        TokErrM::Eof(st) => e matches StckError::UnexpectedEOF(s) && tst_model(s) == st,
        TokErrM::Keyword(w) => e matches StckError::UnknownKeyword(x) && x@ == w,
        TokErrM::Number => e is ParseInt,
        TokErrM::Type(t) => e matches StckError::UnknownType(x) && x@ == t,
        TokErrM::Stuck => e is MissingChar,
    }
}

/// A token on the line the tokenizer is on.
pub open spec fn tok_here(c: Context, t: TokM) -> TokenM {
    TokenM { cont: t, span: LineRange { start: c.current_line, end: c.current_line } }
}

/// A token from line `start` to the line the tokenizer is on.
pub open spec fn tok_from_line(start: usize, c: Context, t: TokM) -> TokenM {
    TokenM { cont: t, span: LineRange { start, end: c.current_line } }
}

/// The argument list with the untyped argument `name`, unless it is empty.
pub open spec fn with_arg(xs: Seq<ArgDefV>, name: Seq<char>) -> Seq<ArgDefV> {
    if name.len() > 0 {
        xs.push(ArgDefV { name, ty: None })
    } else {
        xs
    }
}

/// What the end of the text gives in a state.
pub open spec fn tok_eof(c: Context, st: TSt, acc: Seq<TokenM>) -> Result<(Seq<TokenM>, Context), TokErrM> {
    let eob = tok_here(c, TokM::EndOfBlock);
    match st {
        TSt::Nothing => Ok((acc.push(eob), c)),
        TSt::OnComment => Ok((acc.push(eob), c)),
        TSt::Ident(s) => Ok((acc.push(tok_here(c, TokM::Ident(s))).push(eob), c)),
        TSt::Number(b) => match crate::text::parse_isize_spec(b) {
            Some(v) => Ok((acc.push(tok_here(c, TokM::Number(v as isize))).push(eob), c)),
            None => Err(TokErrM::Number),
        },
        s => Err(TokErrM::Eof(s)),
    }
}

/// The tokens of a block read from `c` in the state `st`, after the tokens
/// `acc`, up to the `}` that closes it or the end of the text (which the
/// last token marks), and the tokenizer after them.
pub open spec fn tok_from(c: Context, st: TSt, acc: Seq<TokenM>) -> Result<(Seq<TokenM>, Context), TokErrM>
    decreases c.chars@.len() - c.point, tst_rank(st),
{
    if c.point >= c.chars.len() {
        tok_eof(c, st, acc)
    } else {
        let ch = c.chars@[c.point as int];
        let c1 = next_ctx(c);
        let cu = unget_ctx(c1);
        if st is Nothing && ch == '}' {
            Ok((acc.push(tok_here(c1, TokM::EndOfBlock)), c1))
        } else {
            match st {
                TSt::Nothing => if ch == '{' {
                    match tok_from(c1, TSt::Nothing, Seq::empty()) {
                        Ok((inner, c2)) => if c.point < c2.point <= c2.chars.len() && c2.chars == c.chars {
                            tok_from(c2, TSt::Nothing, acc.push(tok_from_line(c1.current_line, c2, TokM::Block(inner))))
                        } else {
                            Err(TokErrM::Stuck)
                        },
                        Err(e) => Err(e),
                    }
                } else if ch == '\'' {
                    tok_from(c1, TSt::Char, acc)
                } else if ch == '-' {
                    tok_from(c1, TSt::Minus(seq!['-']), acc)
                } else if is_start_ident(ch) {
                    tok_from(c1, TSt::Ident(seq![ch]), acc)
                } else if ch == '"' {
                    tok_from(c1, TSt::Str(Seq::empty(), c1.current_line), acc)
                } else if is_digit(ch) {
                    tok_from(c1, TSt::Number(seq![ch]), acc)
                } else if ch == '(' {
                    tok_from(c1, TSt::Keyword(Seq::empty(), c1.current_line), acc)
                } else if ch == '[' {
                    tok_from(c1, TSt::FnArgs(Seq::empty(), Seq::empty(), c1.current_line), acc)
                } else if ch == '#' {
                    tok_from(c1, TSt::OnComment, acc)
                } else if is_space(ch) {
                    tok_from(c1, TSt::Nothing, acc)
                } else {
                    Err(TokErrM::Char(st, ch))
                },
                TSt::Char => tok_from(c1, TSt::CharEnd(ch), acc),
                TSt::CharEnd(x) => if x == '\\' && (ch == '\\' || ch == '\'') {
                    tok_from(c1, TSt::CharEndEsc(ch), acc)
                } else if ch == '\'' {
                    tok_from(c1, TSt::Nothing, acc.push(tok_here(c1, TokM::Char(x))))
                } else if x == '\\' && ch == 'n' {
                    tok_from(c1, TSt::CharEndEsc('\n'), acc)
                } else {
                    Err(TokErrM::Char(st, ch))
                },
                TSt::CharEndEsc(x) => if ch == '\'' {
                    tok_from(c1, TSt::Nothing, acc.push(tok_here(c1, TokM::Char(x))))
                } else {
                    Err(TokErrM::Char(st, ch))
                },
                TSt::Minus(b) => if is_digit(ch) {
                    tok_from(c1, TSt::Number(b.push(ch)), acc)
                } else {
                    tok_from(cu, TSt::Ident(b), acc)
                },
                TSt::Ident(b) => if is_ident(ch) {
                    tok_from(c1, TSt::Ident(b.push(ch)), acc)
                } else if is_space(ch) {
                    tok_from(c1, TSt::Nothing, acc.push(tok_here(c1, TokM::Ident(b))))
                } else if is_word_edge(ch) {
                    tok_from(cu, TSt::Nothing, acc.push(tok_here(c1, TokM::Ident(b))))
                } else {
                    Err(TokErrM::Char(st, ch))
                },
                TSt::Str(b, ls) => if ch == '"' {
                    tok_from(c1, TSt::Nothing, acc.push(tok_from_line(ls, c1, TokM::Str(b))))
                } else if ch == '\\' {
                    tok_from(c1, TSt::StrEsc(b, ls), acc)
                } else {
                    tok_from(c1, TSt::Str(b.push(ch), ls), acc)
                },
                TSt::StrEsc(b, ls) => if ch == '\\' {
                    tok_from(c1, TSt::Str(b.push('\\'), ls), acc)
                } else if ch == 'n' {
                    tok_from(c1, TSt::Str(b.push('\n'), ls), acc)
                } else {
                    Err(TokErrM::Char(st, ch))
                },
                TSt::Number(b) => if is_digit(ch) {
                    tok_from(c1, TSt::Number(b.push(ch)), acc)
                } else if is_space(ch) || is_word_edge(ch) || ch == ',' {
                    match crate::text::parse_isize_spec(b) {
                        Some(v) => if is_space(ch) {
                            tok_from(c1, TSt::Nothing, acc.push(tok_here(c1, TokM::Number(v as isize))))
                        } else if is_word_edge(ch) {
                            tok_from(cu, TSt::Nothing, acc.push(tok_here(c1, TokM::Number(v as isize))))
                        } else {
                            tok_from(
                                c1,
                                TSt::Nothing,
                                acc.push(tok_here(c1, TokM::Number(v as isize))).push(tok_here(c1, TokM::Ident(seq![',']))),
                            )
                        },
                        None => Err(TokErrM::Number),
                    }
                } else {
                    Err(TokErrM::Char(st, ch))
                },
                TSt::Keyword(b, ls) => if ch == ')' {
                    match keyword_model(b) {
                        Some(k) => tok_from(c1, TSt::Nothing, acc.push(tok_from_line(ls, c1, TokM::Keyword(k)))),
                        None => Err(TokErrM::Keyword(trim(b))),
                    }
                } else {
                    tok_from(c1, TSt::Keyword(b.push(ch), ls), acc)
                },
                TSt::FnArgs(xs, b, ls) => if is_space(ch) {
                    tok_from(c1, TSt::FnArgs(with_arg(xs, b), Seq::empty(), ls), acc)
                } else if ch == '<' {
                    tok_from(c1, TSt::FnArgType(xs, b, Seq::empty(), 0, ls), acc)
                } else if is_arg_ident(ch) {
                    tok_from(c1, TSt::FnArgs(xs, b.push(ch), ls), acc)
                } else if ch == ']' {
                    tok_from(c1, TSt::Nothing, acc.push(tok_from_line(ls, c1, TokM::FnArgs(with_arg(xs, b)))))
                } else {
                    Err(TokErrM::Char(st, ch))
                },
                TSt::FnArgType(xs, name, tb, tc, ls) => if is_arg_type(ch) {
                    tok_from(c1, TSt::FnArgType(xs, name, tb.push(ch), tc, ls), acc)
                } else if ch == '<' {
                    tok_from(
                        c1,
                        TSt::FnArgType(
                            xs,
                            name,
                            tb.push('<'),
                            if tc < usize::MAX {
                                (tc + 1) as usize
                            } else {
                                tc
                            },
                            ls,
                        ),
                        acc,
                    )
                } else if ch == '>' && tc == 0 {
                    match crate::typeparse::parse_type(trim(tb)) {
                        Some(t) => tok_from(
                            c1,
                            TSt::FnArgs(xs.push(ArgDefV { name, ty: Some(t) }), Seq::empty(), ls),
                            acc,
                        ),
                        None => Err(TokErrM::Type(trim(tb))),
                    }
                } else if ch == '>' {
                    tok_from(c1, TSt::FnArgType(xs, name, tb.push('>'), (tc - 1) as usize, ls), acc)
                } else {
                    Err(TokErrM::Char(st, ch))
                },
                TSt::OnComment => if ch == '\n' {
                    tok_from(c1, TSt::Nothing, acc)
                } else {
                    tok_from(c1, TSt::OnComment, acc)
                },
            }
        }
    }
}


/// In a character literal, the character after the opening quote is read
/// as it is.
pub proof fn lemma_char_state_step(c: Context, acc: Seq<TokenM>, x: char)
    requires
        c.point < c.chars@.len(),
        c.chars@[c.point as int] == x,
    ensures
        tok_from(c, TSt::Char, acc) == tok_from(next_ctx(c), TSt::CharEnd(x), acc),
{
    if x == '}' {
        assert(tok_from(c, TSt::Char, acc) == tok_from(next_ctx(c), TSt::CharEnd('}'), acc));
    }
}

// ---------------------------------------------------------------------------
// The tokenizer

/// The argument views of a list with one more argument.
proof fn lemma_argdefs_push(s: Seq<FnArgDef>, a: FnArgDef)
    ensures
        argdefs_view(s.push(a)) == argdefs_view(s).push(crate::internals::argdef_view(a)),
{
    assert(argdefs_view(s.push(a)) =~= argdefs_view(s).push(crate::internals::argdef_view(a)));
}

/// The state after the character of a character literal.
fn char_end(c: char) -> (s: State)
    ensures
        s == State::MakeCharEnd(c),
{
    State::MakeCharEnd(c)
}

/// The state after an escaped character of a character literal.
fn char_end_esc(c: char) -> (s: State)
    ensures
        s == State::MakeCharEndEsc(c),
{
    State::MakeCharEndEsc(c)
}

/// A character token.
fn char_token(c: char) -> (t: TokenCont)
    ensures
        t == TokenCont::Char(c),
{
    TokenCont::Char(c)
}

/// The error of a character that a state cannot take.
fn char_error(s: State, c: char) -> (e: StckError)
    ensures
        e == StckError::CantTokenizerChar(s, c),
{
    StckError::CantTokenizerChar(s, c)
}

/// Whether a text is not empty.
fn nonempty(s: &String) -> (r: bool)
    ensures
        r == (s@.len() > 0),
{
    s.as_str().unicode_len() > 0
}

/// What one character does to the tokenizer: a new state or a failure.
enum Step {
    Go(State),
    Fail(StckError),
}

/// What a step of the tokenizer must do: go on to a state from which the
/// rest tokenizes as the whole did before, reading on or going to a state
/// of lower rank, or fail as the whole fails.
spec fn lex_ok(c0: Context, st0: TSt, acc0: Seq<TokenM>, r: Step, c: Context, acc: Seq<TokenM>) -> bool {
    match r {
        Step::Go(st) => tok_from(c, tst_model(st), acc) == tok_from(c0, st0, acc0) && c.chars == c0.chars
            && c.point <= c.chars@.len() && (c.point > c0.point || (c.point == c0.point && tst_rank(tst_model(st))
            < tst_rank(st0))),
        Step::Fail(e) => match tok_from(c0, st0, acc0) {
            Err(m) => tok_err(e, m),
            Ok(_) => false,
        },
    }
}

impl Context {
    /// A tokenizer at the start of the text, on line 1.
    pub fn new(code: &str) -> (r: Context)
        ensures
            r.chars@ == code@,
            r.point == 0,
            r.current_line == 1,
            !r.changed_line,
    {
        Context { changed_line: false, point: 0, chars: chars_of(code), current_line: 1 }
    }

    fn push_token(&self, out: &mut Vec<Token>, token: TokenCont)
        ensures
            final(out)@ == old(out)@.push(Token { cont: token, span: LineRange { start: self.current_line, end: self.current_line } }),
            tokens_model(final(out)@) == tokens_model(old(out)@).push(
                token_model(Token { cont: token, span: LineRange { start: self.current_line, end: self.current_line } }),
            ),
    {
        let span = LineRange::from_points(self.current_line, self.current_line);
        let t = Token { cont: token, span };
        proof {
            lemma_tokens_model_push(out@, t);
        }
        out.push(t);
    }

    fn push_multiline_token(&self, out: &mut Vec<Token>, token: TokenCont, line_start: usize)
        ensures
            final(out)@ == old(out)@.push(Token { cont: token, span: LineRange { start: line_start, end: self.current_line } }),
            tokens_model(final(out)@) == tokens_model(old(out)@).push(
                token_model(Token { cont: token, span: LineRange { start: line_start, end: self.current_line } }),
            ),
    {
        let span = LineRange::from_points(line_start, self.current_line);
        let t = Token { cont: token, span };
        proof {
            lemma_tokens_model_push(out@, t);
        }
        out.push(t);
    }

    /// Tokenizes the whole text as the contents of `source`.
    pub fn tokenize(self, source: String) -> (r: Result<TokenBlock, StckError>)
        requires
            self.point <= self.chars@.len(),
        ensures
            match tok_from(self, TSt::Nothing, Seq::empty()) {
                Ok((ts, _)) => r matches Ok(b) && b.source == source && tokens_model(b.tokens@) == ts,
                Err(m) => r matches Err(e) && tok_err(e, m),
            },
            r matches Ok(b) ==> b.tokens@.len() > 0 && b.tokens@.last().cont is EndOfBlock,
    {
        let mut s = self;
        let tokens = s.tokenize_block()?;
        Ok(TokenBlock { source, tokens })
    }

    /// Whether every character was read.
    fn at_eof(&self) -> (r: bool)
        ensures
            r == (self.point >= self.chars@.len()),
    {
        self.point >= self.chars.len()
    }

    /// The next character, if any.
    fn next(&mut self) -> (r: Option<char>)
        ensures
            old(self).point < old(self).chars@.len() ==> r == Some(old(self).chars@[old(self).point as int])
                && *final(self) == next_ctx(*old(self)) && final(self).point == old(self).point + 1,
            old(self).point >= old(self).chars@.len() ==> r is None && *final(self) == *old(self),
    {
        if self.point >= self.chars.len() {
            return None;
        }
        let ch = self.chars[self.point];
        if self.changed_line {
            if self.current_line < usize::MAX {
                self.current_line = self.current_line + 1;
            }
            self.changed_line = false;
        }
        if ch == '\n' {
            self.changed_line = true;
        }
        self.point = self.point + 1;
        Some(ch)
    }

    /// Steps back one character, to read it again in another state.
    fn unget(&mut self)
        requires
            0 < old(self).point <= old(self).chars@.len(),
        ensures
            *final(self) == unget_ctx(*old(self)),
            final(self).point == old(self).point - 1,
            final(self).chars == old(self).chars,
    {
        self.point = self.point - 1;
        if self.chars[self.point] == '\n' {
            if self.current_line > 0 {
                self.current_line = self.current_line - 1;
            }
        }
    }

    /// Reads tokens until the `}` that closes the block, or the end of the
    /// text, which the last token marks.
    fn tokenize_block(&mut self) -> (r: Result<Vec<Token>, StckError>)
        requires
            old(self).point <= old(self).chars@.len(),
        ensures
            final(self).chars == old(self).chars,
            old(self).point <= final(self).point <= final(self).chars@.len(),
            match tok_from(*old(self), TSt::Nothing, Seq::empty()) {
                Ok((ts, c)) => r matches Ok(v) && tokens_model(v@) == ts && *final(self) == c,
                Err(m) => r matches Err(e) && tok_err(e, m),
            },
            r matches Ok(v) ==> v@.len() > 0 && v@.last().cont is EndOfBlock,
        decreases old(self).chars@.len() - old(self).point, 1nat,
    {
        let mut state = State::Nothing;
        let mut out: Vec<Token> = Vec::new();
        loop
            invariant
                self.chars == old(self).chars,
                old(self).point <= self.point <= self.chars@.len(),
                tok_from(*self, tst_model(state), tokens_model(out@)) == tok_from(
                    *old(self),
                    TSt::Nothing,
                    Seq::empty(),
                ),
            ensures
                self.point >= self.chars@.len(),
            decreases self.chars@.len() - self.point, tst_rank(tst_model(state)),
        {
            if self.at_eof() {
                break;
            }
            let at_nothing = match &state {
                State::Nothing => true,
                _ => false,
            };
            if at_nothing && self.chars[self.point] == '}' {
                let _ = self.next();
                self.push_token(&mut out, TokenCont::EndOfBlock);
                return Ok(out);
            }
            let step = match state {
                State::Nothing => self.lex_nothing(&mut out),
                State::MakeChar => self.lex_char(State::MakeChar, &mut out),
                State::MakeCharEnd(c) => self.lex_char(State::MakeCharEnd(c), &mut out),
                State::MakeCharEndEsc(c) => self.lex_char(State::MakeCharEndEsc(c), &mut out),
                State::Minus(b) => self.lex_word(State::Minus(b), &mut out),
                State::MakeIdent(b) => self.lex_word(State::MakeIdent(b), &mut out),
                State::MakeNumber(b) => self.lex_word(State::MakeNumber(b), &mut out),
                State::MakeString(b, l) => self.lex_string(State::MakeString(b, l), &mut out),
                State::MakeStringEsc(b, l) => self.lex_string(State::MakeStringEsc(b, l), &mut out),
                State::MakeKeyword(b, l) => self.lex_keyword(b, l, &mut out),
                State::MakeFnArgs(xs, b, l) => self.lex_args(State::MakeFnArgs(xs, b, l), &mut out),
                State::MakeFnArgType { args, arg_name, type_buf, tag_count, line_start } => self.lex_args(
                    State::MakeFnArgType { args, arg_name, type_buf, tag_count, line_start },
                    &mut out,
                ),
                State::OnComment => self.lex_comment(&mut out),
            };
            match step {
                Step::Go(st) => {
                    state = st;
                },
                Step::Fail(e) => {
                    return Err(e);
                },
            }
        }
        match state {
            State::Nothing => {},
            State::OnComment => {},
            State::MakeIdent(s) => {
                self.push_token(&mut out, TokenCont::Ident(s));
            },
            State::MakeNumber(buf) => {
                let num = parse_num(&buf)?;
                self.push_token(&mut out, TokenCont::Number(num));
            },
            s => {
                return Err(StckError::UnexpectedEOF(s));
            },
        }
        self.push_token(&mut out, TokenCont::EndOfBlock);
        Ok(out)
    }

    /// A character read in no token: the start of one, or a block.
    fn lex_nothing(&mut self, out: &mut Vec<Token>) -> (r: Step)
        requires
            old(self).point < old(self).chars@.len(),
            old(self).chars@[old(self).point as int] != '}',
        ensures
            final(self).chars == old(self).chars,
            old(self).point <= final(self).point <= final(self).chars@.len(),
            lex_ok(*old(self), TSt::Nothing, tokens_model(old(out)@), r, *final(self), tokens_model(final(out)@)),
        decreases old(self).chars@.len() - old(self).point, 0nat,
    {
        let ch = match self.next() {
            Some(c) => c,
            None => {
                return Step::Fail(StckError::MissingChar);
            },
        };
        if ch == '{' {
            let block_start = self.current_line;
            match self.tokenize_block() {
                Ok(block) => {
                    self.push_multiline_token(out, TokenCont::Block(block), block_start);
                    Step::Go(State::Nothing)
                },
                Err(e) => Step::Fail(e),
            }
        } else if ch == '\'' {
            Step::Go(State::MakeChar)
        } else if ch == '-' {
            Step::Go(State::Minus(string_of_char('-')))
        } else if start_ident(ch) {
            Step::Go(State::MakeIdent(string_of_char(ch)))
        } else if ch == '"' {
            Step::Go(State::MakeString(String::new(), self.current_line))
        } else if digit(ch) {
            Step::Go(State::MakeNumber(string_of_char(ch)))
        } else if ch == '(' {
            Step::Go(State::MakeKeyword(String::new(), self.current_line))
        } else if ch == '[' {
            let args: Vec<FnArgDef> = Vec::new();
            proof {
                assert(argdefs_view(args@) =~= Seq::<ArgDefV>::empty());
            }
            Step::Go(State::MakeFnArgs(args, String::new(), self.current_line))
        } else if ch == '#' {
            Step::Go(State::OnComment)
        } else if space(ch) {
            Step::Go(State::Nothing)
        } else {
            Step::Fail(char_error(State::Nothing, ch))
        }
    }

    /// A character in a character literal.
    fn lex_char(&mut self, state: State, out: &mut Vec<Token>) -> (r: Step)
        requires
            old(self).point < old(self).chars@.len(),
            state is MakeChar || state is MakeCharEnd || state is MakeCharEndEsc,
        ensures
            final(self).chars == old(self).chars,
            old(self).point <= final(self).point <= final(self).chars@.len(),
            lex_ok(*old(self), tst_model(state), tokens_model(old(out)@), r, *final(self), tokens_model(final(out)@)),
        decreases old(self).chars@.len() - old(self).point, 0nat,
    {
        let ch = match self.next() {
            Some(c) => c,
            None => {
                return Step::Fail(StckError::MissingChar);
            },
        };
        match state {
            State::MakeChar => Step::Go(char_end(ch)),
            State::MakeCharEnd(x) => if x == '\\' && (ch == '\\' || ch == '\'') {
                Step::Go(char_end_esc(ch))
            } else if ch == '\'' {
                self.push_token(out, char_token(x));
                Step::Go(State::Nothing)
            } else if x == '\\' && ch == 'n' {
                Step::Go(char_end_esc('\n'))
            } else {
                Step::Fail(char_error(State::MakeCharEnd(x), ch))
            },
            State::MakeCharEndEsc(x) => if ch == '\'' {
                self.push_token(out, char_token(x));
                Step::Go(State::Nothing)
            } else {
                Step::Fail(char_error(State::MakeCharEndEsc(x), ch))
            },
            s => Step::Fail(char_error(s, ch)),
        }
    }

    /// A character in a word: after `-`, in an identifier or in a number.
    fn lex_word(&mut self, state: State, out: &mut Vec<Token>) -> (r: Step)
        requires
            old(self).point < old(self).chars@.len(),
            state is Minus || state is MakeIdent || state is MakeNumber,
        ensures
            final(self).chars == old(self).chars,
            old(self).point <= final(self).point <= final(self).chars@.len(),
            lex_ok(*old(self), tst_model(state), tokens_model(old(out)@), r, *final(self), tokens_model(final(out)@)),
        decreases old(self).chars@.len() - old(self).point, 0nat,
    {
        let ch = match self.next() {
            Some(c) => c,
            None => {
                return Step::Fail(StckError::MissingChar);
            },
        };
        match state {
            State::Minus(mut buf) => if digit(ch) {
                push_char(&mut buf, ch);
                Step::Go(State::MakeNumber(buf))
            } else {
                self.unget();
                Step::Go(State::MakeIdent(buf))
            },
            State::MakeIdent(mut buf) => if ident(ch) {
                push_char(&mut buf, ch);
                Step::Go(State::MakeIdent(buf))
            } else if space(ch) {
                self.push_token(out, TokenCont::Ident(buf));
                Step::Go(State::Nothing)
            } else if word_edge(ch) {
                self.push_token(out, TokenCont::Ident(buf));
                self.unget();
                Step::Go(State::Nothing)
            } else {
                Step::Fail(char_error(State::MakeIdent(buf), ch))
            },
            State::MakeNumber(mut buf) => if digit(ch) {
                push_char(&mut buf, ch);
                Step::Go(State::MakeNumber(buf))
            } else if space(ch) || word_edge(ch) || ch == ',' {
                match parse_num(&buf) {
                    Ok(num) => {
                        self.push_token(out, TokenCont::Number(num));
                        if space(ch) {
                        } else if word_edge(ch) {
                            self.unget();
                        } else {
                            let comma = string_of_char(',');
                            self.push_token(out, TokenCont::Ident(comma));
                        }
                        Step::Go(State::Nothing)
                    },
                    Err(e) => Step::Fail(e),
                }
            } else {
                Step::Fail(char_error(State::MakeNumber(buf), ch))
            },
            s => Step::Fail(char_error(s, ch)),
        }
    }

    /// A character in a string.
    fn lex_string(&mut self, state: State, out: &mut Vec<Token>) -> (r: Step)
        requires
            old(self).point < old(self).chars@.len(),
            state is MakeString || state is MakeStringEsc,
        ensures
            final(self).chars == old(self).chars,
            old(self).point <= final(self).point <= final(self).chars@.len(),
            lex_ok(*old(self), tst_model(state), tokens_model(old(out)@), r, *final(self), tokens_model(final(out)@)),
        decreases old(self).chars@.len() - old(self).point, 0nat,
    {
        let ch = match self.next() {
            Some(c) => c,
            None => {
                return Step::Fail(StckError::MissingChar);
            },
        };
        match state {
            State::MakeString(mut buf, line_start) => if ch == '"' {
                self.push_multiline_token(out, TokenCont::Str(buf), line_start);
                Step::Go(State::Nothing)
            } else if ch == '\\' {
                Step::Go(State::MakeStringEsc(buf, line_start))
            } else {
                push_char(&mut buf, ch);
                Step::Go(State::MakeString(buf, line_start))
            },
            State::MakeStringEsc(mut buf, line_start) => if ch == '\\' {
                push_char(&mut buf, '\\');
                Step::Go(State::MakeString(buf, line_start))
            } else if ch == 'n' {
                push_char(&mut buf, '\n');
                Step::Go(State::MakeString(buf, line_start))
            } else {
                Step::Fail(char_error(State::MakeStringEsc(buf, line_start), ch))
            },
            s => Step::Fail(char_error(s, ch)),
        }
    }

    /// A character between `(` and `)`.
    fn lex_keyword(&mut self, buf: String, line_start: usize, out: &mut Vec<Token>) -> (r: Step)
        requires
            old(self).point < old(self).chars@.len(),
        ensures
            final(self).chars == old(self).chars,
            old(self).point <= final(self).point <= final(self).chars@.len(),
            lex_ok(
                *old(self),
                TSt::Keyword(buf@, line_start),
                tokens_model(old(out)@),
                r,
                *final(self),
                tokens_model(final(out)@),
            ),
        decreases old(self).chars@.len() - old(self).point, 0nat,
    {
        let ch = match self.next() {
            Some(c) => c,
            None => {
                return Step::Fail(StckError::MissingChar);
            },
        };
        if ch == ')' {
            match parse_keyword(&buf) {
                Ok(kw) => {
                    self.push_multiline_token(out, TokenCont::Keyword(kw), line_start);
                    Step::Go(State::Nothing)
                },
                Err(e) => Step::Fail(e),
            }
        } else {
            let mut b = buf;
            push_char(&mut b, ch);
            Step::Go(State::MakeKeyword(b, line_start))
        }
    }

    /// A character in an argument list, or in the type of an argument.
    fn lex_args(&mut self, state: State, out: &mut Vec<Token>) -> (r: Step)
        requires
            old(self).point < old(self).chars@.len(),
            state is MakeFnArgs || state is MakeFnArgType,
        ensures
            final(self).chars == old(self).chars,
            old(self).point <= final(self).point <= final(self).chars@.len(),
            lex_ok(*old(self), tst_model(state), tokens_model(old(out)@), r, *final(self), tokens_model(final(out)@)),
        decreases old(self).chars@.len() - old(self).point, 0nat,
    {
        let ch = match self.next() {
            Some(c) => c,
            None => {
                return Step::Fail(StckError::MissingChar);
            },
        };
        match state {
            State::MakeFnArgs(mut xs, mut buf, line_start) => if space(ch) {
                if nonempty(&buf) {
                    let a = FnArgDef::new_untyped(buf);
                    proof {
                        lemma_argdefs_push(xs@, a);
                    }
                    xs.push(a);
                }
                Step::Go(State::MakeFnArgs(xs, String::new(), line_start))
            } else if ch == '<' {
                Step::Go(
                    State::MakeFnArgType { args: xs, arg_name: buf, type_buf: String::new(), tag_count: 0, line_start },
                )
            } else if arg_ident(ch) {
                push_char(&mut buf, ch);
                Step::Go(State::MakeFnArgs(xs, buf, line_start))
            } else if ch == ']' {
                if nonempty(&buf) {
                    let a = FnArgDef::new_untyped(buf);
                    proof {
                        lemma_argdefs_push(xs@, a);
                    }
                    xs.push(a);
                }
                self.push_multiline_token(out, TokenCont::FnArgs(xs), line_start);
                Step::Go(State::Nothing)
            } else {
                Step::Fail(char_error(State::MakeFnArgs(xs, buf, line_start), ch))
            },
            State::MakeFnArgType { mut args, arg_name, mut type_buf, tag_count, line_start } => if arg_type(ch) {
                push_char(&mut type_buf, ch);
                Step::Go(State::MakeFnArgType { args, arg_name, type_buf, tag_count, line_start })
            } else if ch == '<' {
                push_char(&mut type_buf, '<');
                let tc = if tag_count < usize::MAX {
                    tag_count + 1
                } else {
                    tag_count
                };
                Step::Go(State::MakeFnArgType { args, arg_name, type_buf, tag_count: tc, line_start })
            } else if ch == '>' && tag_count == 0 {
                let tb = chars_of_string(&type_buf);
                let tt = trim_chars(tb.as_slice());
                match crate::typeparse::parse_type_chars(tt.as_slice()) {
                    Some(ty) => {
                        let x = FnArgDef::new_typed(arg_name, ty);
                        proof {
                            lemma_argdefs_push(args@, x);
                        }
                        args.push(x);
                        Step::Go(State::MakeFnArgs(args, String::new(), line_start))
                    },
                    None => Step::Fail(StckError::UnknownType(string_of(tt.as_slice()))),
                }
            } else if ch == '>' {
                push_char(&mut type_buf, '>');
                Step::Go(State::MakeFnArgType { args, arg_name, type_buf, tag_count: tag_count - 1, line_start })
            } else {
                Step::Fail(char_error(State::MakeFnArgType { args, arg_name, type_buf, tag_count, line_start }, ch))
            },
            s => Step::Fail(char_error(s, ch)),
        }
    }

    /// A character in a comment, which a new line ends.
    fn lex_comment(&mut self, out: &mut Vec<Token>) -> (r: Step)
        requires
            old(self).point < old(self).chars@.len(),
        ensures
            final(self).chars == old(self).chars,
            old(self).point <= final(self).point <= final(self).chars@.len(),
            lex_ok(*old(self), TSt::OnComment, tokens_model(old(out)@), r, *final(self), tokens_model(final(out)@)),
        decreases old(self).chars@.len() - old(self).point, 0nat,
    {
        let ch = match self.next() {
            Some(c) => c,
            None => {
                return Step::Fail(StckError::MissingChar);
            },
        };
        if ch == '\n' {
            Step::Go(State::Nothing)
        } else {
            Step::Go(State::OnComment)
        }
    }
}

} // verus!
