//! Errors: those found before a script runs, those found while it runs, and
//! the context that locates a runtime error in its source.
use crate::internals::{ClosurePartialArgs, Expr, TokenCont, Value, ValueMap};
use crate::types::TypeTester;
use vstd::prelude::*;

verus! {

/// The first and last line that a token or expression covers.
#[derive(Clone, Copy, Debug, Default, PartialEq, Eq, Structural)]
pub struct LineRange {
    pub start: usize,
    pub end: usize,
}

impl LineRange {
    /// The range from line `last` to line `current`.
    pub fn from_points(last: usize, current: usize) -> (r: LineRange)
        ensures
            r.start == last,
            r.end == current,
    {
        LineRange { start: last, end: current }
    }

    /// How many lines the range covers beyond its first.
    pub fn delta(&self) -> (r: usize)
        requires
            self.start <= self.end,
        ensures
            r == self.end - self.start,
    {
        self.end - self.start
    }

    /// The range as its text: `start`, followed by `:+delta` when it covers
    /// more than one line (the form `bat` reads).
    pub fn describe(&self) -> (r: String)
        requires
            self.start <= self.end,
        ensures
            r@ == line_range_text(*self),
    {
        let mut out = crate::text::decimal_usize(self.start);
        if self.end - self.start > 1 {
            let d = crate::text::decimal_usize(self.end - self.start);
            out.push(':');
            out.push('+');
            let ghost before = out@;
            let mut i: usize = 0;
            while i < d.len()
                invariant
                    i <= d@.len(),
                    out@ == before + d@.take(i as int),
                decreases d@.len() - i,
            {
                out.push(d[i]);
                proof {
                    assert(d@.take(i + 1) =~= d@.take(i as int).push(d@[i as int]));
                    assert(before + d@.take(i + 1) =~= (before + d@.take(i as int)).push(d@[i as int]));
                }
                i += 1;
            }
            assert(d@.take(d@.len() as int) =~= d@);
        }
        crate::text::string_of(out.as_slice())
    }
}

/// The text of a line range (see [`LineRange::describe`]).
pub open spec fn line_range_text(r: LineRange) -> Seq<char> {
    if r.end - r.start <= 1 {
        crate::text::decimal(r.start as int)
    } else {
        crate::text::decimal(r.start as int) + seq![':', '+'] + crate::text::decimal(
            (r.end - r.start) as int,
        )
    }
}

/// An error found before a script runs: in reading, tokenizing,
/// pre-processing or parsing it.
#[derive(Debug)]
pub enum StckError {
    CantReadFile(String),
    Io(String),
    ParseInt(String),
    NoSectionToClose(LineRange),
    CantElseCurrentSection(LineRange, Option<crate::preproc::ProcCommand>),
    InvalidPragma(String),
    UnexpectedEOF(crate::token::State),
    CantTokenizerChar(crate::token::State, char),
    CantParseToken(crate::parse::State, Box<TokenCont>, String),
    UnknownKeyword(String),
    MissingChar,
    CantInstanceClosureZeroArgs { span: LineRange },
    WrongParamList(String, String),
    UnknownType(String),
    TRCMissingName(String),
    /// Includes nested deeper than the pre-processor follows.
    IncludeTooDeep(String),
    /// A user module whose name starts with `#`, which protected modules use.
    UserModuleWithBang(String),
    /// A protected module whose name does not start with `#`.
    ProtectedModuleWithoutBang(String),
}

/// An error found while a script runs.
#[derive(Debug)]
pub enum RuntimeErrorKind {
    UserFnMissingArgs { name: String, got: Vec<Value>, needs: Vec<String> },
    UnwrapResultBuiltinFailed { error: Value },
    UnwrapOptionBuiltinFailed,
    Compare { this: Value, that: Value },
    SwitchCaseWithNoValue,
    UnknownStringFormat(String, char),
    MissingValue(String, char),
    WrongValueType(String, Value, char),
    Type(TypeTester, Box<Value>),
    TypeType(TypeTester, TypeTester),
    OutputCount { fn_name: String, expected: usize, got: usize },
    OutputClosureCount { expected: usize, got: usize },
    MissingUserFunction(String),
    WrongStackSizeDiffOnCheck { old_stack_size: usize, new_stack_size: usize, new_should_stack_size: usize },
    WrongTypeOnCheck { got: Value },
    MissingValueForBuiltin { for_fn: String, args: String, this_arg: &'static str },
    MissingValuesForBuiltin { for_fn: String, args: &'static str, missing: isize },
    WrongTypeForBuiltin {
        for_fn: String,
        args: &'static str,
        this_arg: &'static str,
        got: Box<Value>,
        expected: &'static str,
    },
    NoSuchBuiltin,
    NoSuchVariable(String),
    CantMakeFnIntoClosureZeroArgs { fn_name: String },
    CantMakeFnIntoClosureAllStack { fn_name: String },
    CantInstanceClosureZeroArgs { span: LineRange },
    DEVFillFullClosure { closure_args: ClosurePartialArgs },
    DEVResettingParentValuesForClosure { closure_args: Box<ClosurePartialArgs>, parent_args: ValueMap },
    MissingIdent(String),
    /// The integer result of a builtin does not fit a number.
    Arithmetic { for_fn: String },
    /// The run used up its budget of steps.
    OutOfSteps,
}

/// The context of a runtime error: the source, the expression that failed and
/// its lines.
#[derive(Debug)]
pub struct ErrCtx {
    pub source: String,
    pub expr: Box<Expr>,
    pub lines: LineRange,
}

impl ErrCtx {
    pub fn new(source: &String, expr: &Expr) -> (r: ErrCtx)
        ensures
            r.source@ == source@,
            r.lines == expr.span,
            crate::parse::expr_model(*r.expr) == crate::parse::expr_model(*expr),
    {
        ErrCtx { source: source.clone(), expr: Box::new(expr.clone()), lines: expr.span }
    }

    /// Whether the context points at lines that can be read: counted from 1,
    /// the first not after the last.
    pub fn lines_readable(&self) -> (r: bool)
        ensures
            r == ctx_lines_ok(*self),
    {
        1 <= self.lines.start && self.lines.start <= self.lines.end
    }

    /// The source lines of the expression, read through a cacher.
    pub fn get_lines<C: crate::cache::FileCacher>(&self, eh: &mut C) -> (r: Result<String, StckError>)
        requires
            1 <= self.lines.start <= self.lines.end,
        ensures
            r matches Ok(s) ==> exists|t: Seq<char>| s@ == crate::cache::span_lines(t, self.lines),
            r matches Err(e) ==> e is Io,
    {
        match eh.get_span(&self.source, &self.lines) {
            Ok(s) => Ok(s),
            Err(e) => Err(StckError::Io(e)),
        }
    }
}

/// Whether a context points at lines that can be read.
pub open spec fn ctx_lines_ok(c: ErrCtx) -> bool {
    1 <= c.lines.start <= c.lines.end
}

/// A runtime error with the context of the failing expression and of each
/// call it happened in, innermost first.
#[derive(Debug)]
pub struct RuntimeErrorCtx {
    pub ctx: ErrCtx,
    pub kind: Box<RuntimeErrorKind>,
    pub stack: Vec<ErrCtx>,
}

impl RuntimeErrorCtx {
    pub fn new(ctx: ErrCtx, kind: RuntimeErrorKind) -> (r: RuntimeErrorCtx)
        ensures
            r.ctx == ctx,
            *r.kind == kind,
            r.stack@.len() == 0,
    {
        RuntimeErrorCtx { ctx, kind: Box::new(kind), stack: Vec::new() }
    }

    /// The error with one more enclosing call.
    pub fn append_stack(self, ctx: ErrCtx) -> (r: RuntimeErrorCtx)
        ensures
            r.ctx == self.ctx,
            r.kind == self.kind,
            r.stack@ == self.stack@.push(ctx),
    {
        let mut s = self;
        s.stack.push(ctx);
        s
    }

    /// The enclosing calls, innermost first.
    pub fn get_call_stack(&self) -> (r: &[ErrCtx])
        ensures
            r@ == self.stack@,
    {
        self.stack.as_slice()
    }
}

/// A runtime error, with or without its context.
#[derive(Debug)]
pub enum RuntimeError {
    RuntimeCtx(RuntimeErrorCtx),
    RuntimeRaw(RuntimeErrorKind),
}

/// Any error of the crate.
#[derive(Debug)]
pub enum Error {
    Anoter(StckError),
    RuntimeError(RuntimeError),
}

/// A single viewable source of an error: its lines and where they are.
#[derive(Debug)]
pub struct ErrorSource {
    pub range: LineRange,
    pub source: String,
    pub lines: String,
}

/// The contexts of a runtime error: where it happened and each enclosing call.
#[derive(Debug)]
pub struct ErrorSpans {
    pub head: ErrCtx,
    pub stack: Vec<ErrCtx>,
}

/// Whether the text of a source is the lines its range points at in some
/// text of its file (the text the cacher gave).
pub open spec fn lines_of_file(e: ErrorSource) -> bool {
    exists|t: Seq<char>| e.lines@ == crate::cache::span_lines(t, e.range)
}

impl ErrorSpans {
    /// The source lines of each context, the failing expression first, read
    /// through a cacher.
    pub fn try_into_sources<C: crate::cache::FileCacher>(self, error_helper: &mut C) -> (r: Result<
        Vec<ErrorSource>,
        StckError,
    >)
        requires
            ctx_lines_ok(self.head),
            forall|i: int| 0 <= i < self.stack@.len() ==> #[trigger] ctx_lines_ok(self.stack@[i]),
        ensures
            r matches Ok(v) ==> v@.len() == self.stack@.len() + 1 && v@[0].range == self.head.lines
                && v@[0].source == self.head.source && forall|i: int|
                0 <= i < self.stack@.len() ==> #[trigger] v@[i + 1].range == self.stack@[i].lines
                    && v@[i + 1].source == self.stack@[i].source,
            r matches Ok(v) ==> forall|i: int| 0 <= i < v@.len() ==> #[trigger] lines_of_file(v@[i]),
            r matches Err(e) ==> e is Io,
    {
        let ErrorSpans { head, stack } = self;
        let mut out: Vec<ErrorSource> = Vec::new();
        let lines = head.get_lines(error_helper)?;
        let ghost t0 = choose|t: Seq<char>| lines@ == crate::cache::span_lines(t, head.lines);
        let ghost l0 = lines@;
        out.push(ErrorSource { lines, range: head.lines, source: head.source });
        proof {
            assert(l0 == crate::cache::span_lines(t0, head.lines));
            assert(out@[0].lines@ == l0);
            assert(out@[0].range == head.lines);
            assert(out@[0].lines@ == crate::cache::span_lines(t0, out@[0].range));
            assert(lines_of_file(out@[0]));
        }
        let mut i: usize = 0;
        while i < stack.len()
            invariant
                i <= stack@.len(),
                out@.len() == i + 1,
                out@[0].range == head.lines,
                out@[0].source == head.source,
                forall|j: int| 0 <= j < i ==> #[trigger] out@[j + 1].range == stack@[j].lines
                    && out@[j + 1].source == stack@[j].source,
                forall|j: int| 0 <= j < out@.len() ==> #[trigger] lines_of_file(out@[j]),
                forall|j: int| 0 <= j < stack@.len() ==> #[trigger] ctx_lines_ok(stack@[j]),
            decreases stack@.len() - i,
        {
            let c = &stack[i];
            assert(ctx_lines_ok(stack@[i as int]));
            let lines = c.get_lines(error_helper)?;
            let ghost t0 = choose|t: Seq<char>| lines@ == crate::cache::span_lines(t, c.lines);
            let ghost l0 = lines@;
            let ghost out0 = out@;
            out.push(ErrorSource { lines, range: c.lines, source: c.source.clone() });
            proof {
                assert(l0 == crate::cache::span_lines(t0, c.lines));
                assert(out@[i + 1].lines@ == crate::cache::span_lines(t0, out@[i + 1].range));
                assert(lines_of_file(out@[i + 1]));
                assert(forall|j: int| 0 <= j < out0.len() ==> out@[j] == out0[j]);
            }
            i += 1;
        }
        Ok(out)
    }

    pub fn from_error(value: RuntimeErrorCtx) -> (r: ErrorSpans)
        ensures
            r.head == value.ctx,
            r.stack == value.stack,
    {
        ErrorSpans { head: value.ctx, stack: value.stack }
    }
}

impl From<RuntimeErrorCtx> for ErrorSpans {
    fn from(value: RuntimeErrorCtx) -> (r: ErrorSpans) {
        ErrorSpans::from_error(value)
    }
}

impl From<StckError> for Error {
    fn from(value: StckError) -> (r: Error) {
        Error::Anoter(value)
    }
}

impl From<RuntimeError> for Error {
    fn from(value: RuntimeError) -> (r: Error) {
        Error::RuntimeError(value)
    }
}

impl From<RuntimeErrorCtx> for RuntimeError {
    fn from(value: RuntimeErrorCtx) -> (r: RuntimeError) {
        RuntimeError::RuntimeCtx(value)
    }
}

impl From<RuntimeErrorKind> for RuntimeError {
    fn from(value: RuntimeErrorKind) -> (r: RuntimeError) {
        RuntimeError::RuntimeRaw(value)
    }
}


impl vstd::std_specs::convert::FromSpecImpl<RuntimeErrorCtx> for ErrorSpans {
    open spec fn obeys_from_spec() -> bool {
        true
    }

    open spec fn from_spec(v: RuntimeErrorCtx) -> Self {
        ErrorSpans { head: v.ctx, stack: v.stack }
    }
}

impl vstd::std_specs::convert::FromSpecImpl<StckError> for Error {
    open spec fn obeys_from_spec() -> bool {
        true
    }

    open spec fn from_spec(v: StckError) -> Self {
        Error::Anoter(v)
    }
}

impl vstd::std_specs::convert::FromSpecImpl<RuntimeError> for Error {
    open spec fn obeys_from_spec() -> bool {
        true
    }

    open spec fn from_spec(v: RuntimeError) -> Self {
        Error::RuntimeError(v)
    }
}

impl vstd::std_specs::convert::FromSpecImpl<RuntimeErrorCtx> for RuntimeError {
    open spec fn obeys_from_spec() -> bool {
        true
    }

    open spec fn from_spec(v: RuntimeErrorCtx) -> Self {
        RuntimeError::RuntimeCtx(v)
    }
}

impl vstd::std_specs::convert::FromSpecImpl<RuntimeErrorKind> for RuntimeError {
    open spec fn obeys_from_spec() -> bool {
        true
    }

    open spec fn from_spec(v: RuntimeErrorKind) -> Self {
        RuntimeError::RuntimeRaw(v)
    }
}


// ---------------------------------------------------------------------------
// Errors of the first interpreter

/// An error with the context of the expression that failed and of each call
/// it happened in, innermost first.
#[derive(Debug)]
pub struct StckErrorCtx {
    pub ctx: ErrCtx,
    pub kind: Box<StckError>,
    pub stack: Vec<ErrCtx>,
}

/// An error with its context, or one bubbled up without it.
#[derive(Debug)]
pub enum StckErrorCase {
    Context(StckErrorCtx),
    Bubble(StckError),
}

impl StckErrorCtx {
    pub fn new(ctx: ErrCtx, kind: StckError) -> (r: StckErrorCtx)
        ensures
            r.ctx == ctx,
            *r.kind == kind,
            r.stack@.len() == 0,
    {
        StckErrorCtx { ctx, kind: Box::new(kind), stack: Vec::new() }
    }

    /// The error as a case with context.
    pub fn into_case(self) -> (r: StckErrorCase)
        ensures
            r == StckErrorCase::Context(self),
    {
        StckErrorCase::Context(self)
    }

    /// The error with one more enclosing call.
    pub fn append_stack(self, ctx: ErrCtx) -> (r: StckErrorCtx)
        ensures
            r.ctx == self.ctx,
            r.kind == self.kind,
            r.stack@ == self.stack@.push(ctx),
    {
        let mut s = self;
        s.stack.push(ctx);
        s
    }

    /// The enclosing calls, innermost first.
    pub fn get_call_stack(&self) -> (r: &[ErrCtx])
        ensures
            r@ == self.stack@,
    {
        self.stack.as_slice()
    }
}

impl StckError {
    /// The error as a case without context.
    pub fn into_case(self) -> (r: StckErrorCase)
        ensures
            r == StckErrorCase::Bubble(self),
    {
        StckErrorCase::Bubble(self)
    }
}

/// How many points of `s` lie in `lo..hi`.
pub open spec fn count_in(s: Seq<usize>, lo: int, hi: int) -> nat
    decreases s.len(),
{
    if s.len() == 0 {
        0
    } else {
        count_in(s.drop_last(), lo, hi) + if lo <= s.last() < hi {
            1nat
        } else {
            0nat
        }
    }
}

pub proof fn lemma_count_in_le(s: Seq<usize>, lo: int, hi: int)
    ensures
        count_in(s, lo, hi) <= s.len(),
    decreases s.len(),
{
    if s.len() > 0 {
        lemma_count_in_le(s.drop_last(), lo, hi);
    }
}

/// The positions of the line feeds of a text, each once.
#[derive(Debug, Clone)]
pub struct LineSpan {
    feeds: Vec<usize>,
}

impl LineSpan {
    /// The positions of the line feeds.
    pub closed spec fn points(&self) -> Set<usize> {
        self.feeds@.to_set()
    }

    /// The positions, in the order they were added.
    pub closed spec fn feed_list(&self) -> Seq<usize> {
        self.feeds@
    }

    pub closed spec fn wf(&self) -> bool {
        self.feeds@.no_duplicates()
    }

    /// The positions are those of the list.
    pub proof fn lemma_points(&self)
        ensures
            self.points() == self.feed_list().to_set(),
    {
    }

    /// No line feed.
    pub fn new() -> (r: LineSpan)
        ensures
            r.wf(),
            r.points() == Set::<usize>::empty(),
            r.feed_list().len() == 0,
    {
        let r = LineSpan { feeds: Vec::new() };
        assert(r.feeds@.to_set() =~= Set::<usize>::empty());
        r
    }

    /// Adds the position of a line feed.
    pub fn add(&mut self, point: usize)
        requires
            old(self).wf(),
        ensures
            final(self).wf(),
            final(self).points() == old(self).points().insert(point),
            final(self).feed_list() == if old(self).points().contains(point) {
                old(self).feed_list()
            } else {
                old(self).feed_list().push(point)
            },
    {
        let mut i: usize = 0;
        while i < self.feeds.len()
            invariant
                i <= self.feeds@.len(),
                self.feeds == old(self).feeds,
                self.feeds@.no_duplicates(),
                forall|j: int| 0 <= j < i ==> self.feeds@[j] != point,
            decreases self.feeds@.len() - i,
        {
            if self.feeds[i] == point {
                proof {
                    assert(self.feeds@.contains(point));
                    assert(self.feeds@.to_set() =~= self.feeds@.to_set().insert(point));
                }
                return;
            }
            i += 1;
        }
        let ghost before = self.feeds@;
        self.feeds.push(point);
        proof {
            assert(!before.contains(point));
            assert(self.feeds@ =~= before.push(point));
            assert forall|a: usize| #[trigger] self.feeds@.contains(a) <==> (before.contains(a) || a == point) by {
                if self.feeds@.contains(a) {
                    let j = choose|j: int| 0 <= j < self.feeds@.len() && self.feeds@[j] == a;
                    if j < before.len() {
                        assert(before[j] == a);
                    }
                }
                if before.contains(a) {
                    let j = choose|j: int| 0 <= j < before.len() && before[j] == a;
                    assert(self.feeds@[j] == a);
                }
                if a == point {
                    assert(self.feeds@[before.len() as int] == a);
                }
            }
            assert(self.feeds@.to_set() =~= before.to_set().insert(point));
            assert forall|x: int, y: int| 0 <= x < self.feeds@.len() && 0 <= y < self.feeds@.len() && x != y
                implies self.feeds@[x] != self.feeds@[y] by {
                if x < before.len() && y < before.len() {
                } else if x < before.len() {
                    assert(before.contains(before[x]));
                } else if y < before.len() {
                    assert(before.contains(before[y]));
                }
            }
        }
    }

    /// The lines of the text that the characters `start..end` span: the line
    /// they start on (counted from 1, as the line feeds before `start` tell)
    /// and the line feeds inside them.
    pub fn line_range(&self, start: usize, end: usize) -> (r: LineRange)
        requires
            self.feed_list().len() < usize::MAX,
        ensures
            r.start == 1 + count_in(self.feed_list(), 0, if start <= end { start as int } else { end as int }),
            r.end == r.start + count_in(self.feed_list(), start as int, end as int),
    {
        let low = if start <= end { start } else { end };
        let mut before: usize = 0;
        let mut during: usize = 0;
        let mut i: usize = 0;
        while i < self.feeds.len()
            invariant
                i <= self.feeds@.len(),
                self.feeds@.len() < usize::MAX,
                low == if start <= end { start } else { end },
                before == count_in(self.feeds@.take(i as int), 0, low as int),
                during == count_in(self.feeds@.take(i as int), start as int, end as int),
                before + during <= i,
            decreases self.feeds@.len() - i,
        {
            let p = self.feeds[i];
            proof {
                assert(self.feeds@.take(i + 1).drop_last() =~= self.feeds@.take(i as int));
                assert(self.feeds@.take(i + 1).last() == p);
            }
            if p < end {
                if p < start {
                    before = before + 1;
                } else {
                    during = during + 1;
                }
            }
            i += 1;
        }
        proof {
            assert(self.feeds@.take(self.feeds@.len() as int) =~= self.feeds@);
        }
        LineRange { start: before + 1, end: before + 1 + during }
    }
}

} // verus!
