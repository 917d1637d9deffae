//! The texts that show types, argument lists, expressions and parser states
//! to a person.
use crate::internals::{
    argdefs_view, ArgDefV, Closure, ExprCont, FnArgDef, FnArgs, FnScope, KeywordKind, Value,
};
use crate::parse::State as ParseState;
use crate::types::{lemma_tts_view, tts_view, PartV, TypeTester, TypeV, TypedFnPart};
use vstd::prelude::*;

verus! {

// ---------------------------------------------------------------------------
// What the texts are

/// The text of a type: its name, with the types it is made of in `<>`.
pub open spec fn type_text(t: TypeV) -> Seq<char>
    decreases t, 0nat,
{
    match t {
        TypeV::Any => "?"@,
        TypeV::Char => "char"@,
        TypeV::Str => "str"@,
        TypeV::Num => "num"@,
        TypeV::Bool => "bool"@,
        TypeV::ArrayAny => "array"@,
        TypeV::MapAny => "map"@,
        TypeV::ResultAny => "result"@,
        TypeV::OptionAny => "option"@,
        TypeV::ClosureAny => "fn"@,
        TypeV::Array(x) => "array<"@ + type_text(*x) + ">"@,
        TypeV::Mapping(x) => "map<"@ + type_text(*x) + ">"@,
        TypeV::Option(x) => "option<"@ + type_text(*x) + ">"@,
        TypeV::Result(a, b) => "result<"@ + type_text(*a) + "><"@ + type_text(*b) + ">"@,
        TypeV::Closure(i, o) => "fn<"@ + part_text(i) + "><"@ + part_text(o) + ">"@,
        TypeV::Generic(a) => a,
    }
}

/// The text of the argument or output part of a closure type: each type
/// followed by a space, after a space; `?` for any.
pub open spec fn part_text(p: PartV) -> Seq<char>
    decreases p, 1nat,
{
    match p {
        PartV::Typed(ts) => " "@ + types_text(ts),
        PartV::Any => "?"@,
    }
}

/// The texts of types, each followed by a space.
pub open spec fn types_text(ts: Seq<TypeV>) -> Seq<char>
    decreases ts, 2nat,
{
    if ts.len() == 0 {
        Seq::empty()
    } else {
        types_text(ts.drop_last()) + type_text(ts.last()) + " "@
    }
}

/// The mark of a function's scope: nothing, `*` or `-`.
pub open spec fn scope_text(s: FnScope) -> Seq<char> {
    match s {
        FnScope::Local => Seq::empty(),
        FnScope::Global => "*"@,
        FnScope::Isolated => "-"@,
    }
}

/// The text of an argument: its name, and its type in `<>` when it has one.
pub open spec fn arg_text(a: ArgDefV) -> Seq<char> {
    match a.ty {
        Some(t) => a.name + "<"@ + type_text(t) + ">"@,
        None => a.name,
    }
}

/// The texts of arguments, each followed by a space.
pub open spec fn args_items_text(s: Seq<ArgDefV>) -> Seq<char>
    decreases s.len(),
{
    if s.len() == 0 {
        Seq::empty()
    } else {
        args_items_text(s.drop_last()) + arg_text(s.last()) + " "@
    }
}

/// The text of an argument list: `[ a b<num> ]`.
pub open spec fn args_text(s: Seq<ArgDefV>) -> Seq<char> {
    "[ "@ + args_items_text(s) + "]"@
}

/// The text of what a function takes: its argument list, or the stack.
pub open spec fn fn_args_text(a: FnArgs) -> Seq<char> {
    match a {
        FnArgs::AllStack => "the stack"@,
        FnArgs::Args(v) => args_text(argdefs_view(v@)),
    }
}

/// The text of a keyword, but for a generic type (whose text shows its
/// declaration as `Debug` writes it).
pub open spec fn keyword_text(k: KeywordKind) -> Seq<char> {
    match k {
        KeywordKind::Break => "Break"@,
        KeywordKind::Return => "Return"@,
        KeywordKind::IntoClosure { fn_name } => "`"@ + fn_name@ + "` into Closure"@,
        KeywordKind::Ifs { .. } => "If"@,
        KeywordKind::BubbleError => "Bubble error"@,
        KeywordKind::While { .. } => "While"@,
        KeywordKind::FnDef { name, scope, args, out_args, .. } => match out_args {
            Some(o) => "Define fn"@ + scope_text(scope) + " `"@ + name@ + "` as "@ + fn_args_text(args) + " → "@
                + args_text(argdefs_view(o@)),
            None => "Define fn"@ + scope_text(scope) + " `"@ + name@ + "` consuming "@ + fn_args_text(args),
        },
        KeywordKind::Switch { .. } => "Switch"@,
        KeywordKind::DefinedGeneric(_) => "Define generic "@,
    }
}

// ---------------------------------------------------------------------------
// Writing the texts

/// Appends the characters of a text.
fn append(out: &mut Vec<char>, s: &str)
    ensures
        final(out)@ == old(out)@ + s@,
{
    let cs = crate::text::chars_of(s);
    append_chars(out, &cs);
}

/// Appends the characters of a `String`.
fn append_string(out: &mut Vec<char>, s: &String)
    ensures
        final(out)@ == old(out)@ + s@,
{
    let cs = crate::text::chars_of_string(s);
    append_chars(out, &cs);
}

/// Appends characters.
fn append_chars(out: &mut Vec<char>, cs: &Vec<char>)
    ensures
        final(out)@ == old(out)@ + cs@,
{
    let ghost before = out@;
    let mut i: usize = 0;
    while i < cs.len()
        invariant
            i <= cs@.len(),
            out@ == before + cs@.take(i as int),
        decreases cs@.len() - i,
    {
        out.push(cs[i]);
        proof {
            assert(before + cs@.take(i + 1) =~= (before + cs@.take(i as int)).push(cs@[i as int]));
        }
        i += 1;
    }
    proof {
        assert(cs@.take(cs@.len() as int) =~= cs@);
    }
}

/// Appends the text of a type (see [`type_text`]).
fn write_type(t: &TypeTester, out: &mut Vec<char>)
    ensures
        final(out)@ == old(out)@ + type_text(t@),
    decreases t, 0nat,
{
    proof {
        reveal_strlit("?");
        reveal_strlit("char");
        reveal_strlit("str");
        reveal_strlit("num");
        reveal_strlit("bool");
        reveal_strlit("array");
        reveal_strlit("map");
        reveal_strlit("result");
        reveal_strlit("option");
        reveal_strlit("fn");
        reveal_strlit("array<");
        reveal_strlit("map<");
        reveal_strlit("option<");
        reveal_strlit("result<");
        reveal_strlit("fn<");
        reveal_strlit("><");
        reveal_strlit(">");
    }
    let ghost before = out@;
    match t {
        TypeTester::Any => append(out, "?"),
        TypeTester::Char => append(out, "char"),
        TypeTester::Str => append(out, "str"),
        TypeTester::Num => append(out, "num"),
        TypeTester::Bool => append(out, "bool"),
        TypeTester::ArrayAny => append(out, "array"),
        TypeTester::MapAny => append(out, "map"),
        TypeTester::ResultAny => append(out, "result"),
        TypeTester::OptionAny => append(out, "option"),
        TypeTester::ClosureAny => append(out, "fn"),
        TypeTester::Array(x) => {
            append(out, "array<");
            write_type(x, out);
            append(out, ">");
            assert(out@ =~= before + type_text(t@));
        },
        TypeTester::Mapping(x) => {
            append(out, "map<");
            write_type(x, out);
            append(out, ">");
            assert(out@ =~= before + type_text(t@));
        },
        TypeTester::Option(x) => {
            append(out, "option<");
            write_type(x, out);
            append(out, ">");
            assert(out@ =~= before + type_text(t@));
        },
        TypeTester::Result(b) => {
            append(out, "result<");
            write_type(&b.0, out);
            append(out, "><");
            write_type(&b.1, out);
            append(out, ">");
            assert(out@ =~= before + type_text(t@));
        },
        TypeTester::Closure(i, o) => {
            append(out, "fn<");
            write_part(i, out);
            append(out, "><");
            write_part(o, out);
            append(out, ">");
            assert(out@ =~= before + type_text(t@));
        },
        TypeTester::Generic(a) => append_string(out, a),
    }
}

/// Appends the text of a part of a closure type (see [`part_text`]).
fn write_part(p: &TypedFnPart, out: &mut Vec<char>)
    ensures
        final(out)@ == old(out)@ + part_text(p@),
    decreases p, 1nat,
{
    proof {
        reveal_strlit("?");
        reveal_strlit(" ");
    }
    match p {
        TypedFnPart::Any => append(out, "?"),
        TypedFnPart::Typed(ts) => {
            let ghost before = out@;
            append(out, " ");
            let ghost mid = out@;
            let mut i: usize = 0;
            proof {
                lemma_tts_view(ts@);
                assert(tts_view(ts@).take(0) =~= Seq::<TypeV>::empty());
            }
            while i < ts.len()
                invariant
                    i <= ts@.len(),
                    *p == TypedFnPart::Typed(*ts),
                    tts_view(ts@).len() == ts@.len(),
                    forall|j: int| 0 <= j < ts@.len() ==> #[trigger] tts_view(ts@)[j] == ts@[j]@,
                    out@ == mid + types_text(tts_view(ts@).take(i as int)),
                decreases ts@.len() - i,
            {
                proof {
                    broadcast use vstd::std_specs::vec::axiom_vec_decreases_to_view;

                    assert(decreases_to!(*p => (*p)->0));
                    assert(decreases_to!(*ts => ts@));
                    assert(decreases_to!(ts@ => ts@[i as int]));
                    let v = tts_view(ts@);
                    assert(v.take(i + 1).drop_last() =~= v.take(i as int));
                }
                write_type(&ts[i], out);
                append(out, " ");
                proof {
                    let v = tts_view(ts@);
                    assert(out@ =~= mid + types_text(v.take(i + 1)));
                }
                i += 1;
            }
            proof {
                assert(tts_view(ts@).take(ts@.len() as int) =~= tts_view(ts@));
                assert(out@ =~= before + part_text(p@));
            }
        },
    }
}

/// Appends the text of an argument list (see [`args_text`]).
fn write_args(args: &Vec<FnArgDef>, out: &mut Vec<char>)
    ensures
        final(out)@ == old(out)@ + args_text(argdefs_view(args@)),
{
    proof {
        reveal_strlit("[ ");
        reveal_strlit("]");
        reveal_strlit("<");
        reveal_strlit(">");
        reveal_strlit(" ");
    }
    let ghost before = out@;
    append(out, "[ ");
    let ghost mid = out@;
    let ghost v = argdefs_view(args@);
    let mut i: usize = 0;
    proof {
        assert(v.take(0) =~= Seq::<ArgDefV>::empty());
    }
    while i < args.len()
        invariant
            i <= args@.len(),
            v == argdefs_view(args@),
            v.len() == args@.len(),
            out@ == mid + args_items_text(v.take(i as int)),
        decreases args@.len() - i,
    {
        let a = &args[i];
        let ghost at = out@;
        append_string(out, &a.name);
        match &a.type_check {
            Some(t) => {
                append(out, "<");
                write_type(t, out);
                append(out, ">");
            },
            None => {},
        }
        append(out, " ");
        proof {
            assert(v[i as int] == crate::internals::argdef_view(args@[i as int]));
            assert(v.take(i + 1).drop_last() =~= v.take(i as int));
            assert(out@ =~= mid + args_items_text(v.take(i + 1)));
        }
        i += 1;
    }
    append(out, "]");
    proof {
        assert(v.take(args@.len() as int) =~= v);
        assert(out@ =~= before + args_text(v));
    }
}

/// Appends the text of what a function takes (see [`fn_args_text`]).
fn write_fn_args(a: &FnArgs, out: &mut Vec<char>)
    ensures
        final(out)@ == old(out)@ + fn_args_text(*a),
{
    proof {
        reveal_strlit("the stack");
    }
    match a {
        FnArgs::AllStack => append(out, "the stack"),
        FnArgs::Args(v) => write_args(v, out),
    }
}

/// Appends the mark of a scope (see [`scope_text`]).
fn write_scope(s: FnScope, out: &mut Vec<char>)
    ensures
        final(out)@ == old(out)@ + scope_text(s),
{
    proof {
        reveal_strlit("*");
        reveal_strlit("-");
    }
    match s {
        FnScope::Local => {
            assert(out@ =~= out@ + scope_text(s));
        },
        FnScope::Global => append(out, "*"),
        FnScope::Isolated => append(out, "-"),
    }
}

/// std's `format!("{:p}", c)`: the address of a closure. Nothing is stated
/// of the text, which depends on where the closure is in memory.
#[verifier::external_body]
fn address_text(c: &Closure) -> String {
    format!("{:p}", c)
}

impl TypeTester {
    /// The text of the type (see [`type_text`]).
    pub fn type_text(&self) -> (r: String)
        ensures
            r@ == type_text(self@),
    {
        let mut out: Vec<char> = Vec::new();
        write_type(self, &mut out);
        crate::text::string_of(out.as_slice())
    }
}

impl TypedFnPart {
    /// The text of the part (see [`part_text`]).
    pub fn part_text(&self) -> (r: String)
        ensures
            r@ == part_text(self@),
    {
        let mut out: Vec<char> = Vec::new();
        write_part(self, &mut out);
        crate::text::string_of(out.as_slice())
    }
}

impl FnScope {
    /// The mark of the scope (see [`scope_text`]).
    pub fn scope_text(&self) -> (r: String)
        ensures
            r@ == scope_text(*self),
    {
        let mut out: Vec<char> = Vec::new();
        write_scope(*self, &mut out);
        crate::text::string_of(out.as_slice())
    }
}

impl FnArgs {
    /// The text of what a function takes (see [`fn_args_text`]).
    pub fn args_text(&self) -> (r: String)
        ensures
            r@ == fn_args_text(*self),
    {
        let mut out: Vec<char> = Vec::new();
        write_fn_args(self, &mut out);
        crate::text::string_of(out.as_slice())
    }
}

/// An argument list shown as text.
pub struct DisplayArgs<'a>(pub &'a [FnArgDef]);

impl<'a> DisplayArgs<'a> {
    /// The text of the argument list (see [`args_text`]).
    pub fn text(&self) -> (r: String)
        ensures
            r@ == args_text(argdefs_view(self.0@)),
    {
        let mut v: Vec<FnArgDef> = Vec::new();
        let mut i: usize = 0;
        while i < self.0.len()
            invariant
                i <= self.0@.len(),
                v@.len() == i,
                forall|j: int| 0 <= j < i ==> #[trigger] v@[j]@ == self.0@[j]@,
            decreases self.0@.len() - i,
        {
            v.push(crate::internals::clone_argdef(&self.0[i]));
            i += 1;
        }
        proof {
            assert forall|j: int| 0 <= j < v@.len() implies #[trigger] argdefs_view(v@)[j] == argdefs_view(self.0@)[j] by {
                assert(v@[j]@ == self.0@[j]@);
            }
            assert(argdefs_view(v@) =~= argdefs_view(self.0@));
        }
        let mut out: Vec<char> = Vec::new();
        write_args(&v, &mut out);
        crate::text::string_of(out.as_slice())
    }
}

/// The text that `derive(Debug)` writes for the declaration of a generic
/// type with this name, virality and allowed types.
pub uninterp spec fn generic_debug_of(name: Seq<char>, viral: bool, allow: Seq<crate::types::TypeV>) -> Seq<char>;

/// std's `format!("{:?}", g)` on the declaration of a generic type: the
/// text that `derive(Debug)` writes for it, which hangs on its fields
/// alone; it is named [`generic_debug_of`].
#[verifier::external_body]
fn generic_debug_text(g: &crate::types::DefinedGenericBuilder) -> (r: String)
    ensures
        r@ == generic_debug_of(g.name@, g.viral, crate::types::tts_view(g.allow@)),
{
    format!("{:?}", g)
}

impl ExprCont {
    /// What the expression does, as text: a value pushed (as `Debug` writes
    /// it), a closure made (with its address), a function called, a file
    /// included or a keyword (see [`keyword_text`]).
    pub fn describe(&self) -> (r: String)
        ensures
            match *self {
                ExprCont::Immediate(Value::Closure(_)) => crate::text::has_prefix(r@, "instantiate Closure at "@),
                ExprCont::Immediate(v) => r@ == "Push value "@ + crate::builtins::debug_of(v@),
                ExprCont::FnCall(n) => r@ == "Execute `"@ + n@ + "`"@,
                ExprCont::IncludedCode(c) => r@ == "Included file "@ + c.source@,
                ExprCont::Keyword(k) => match k {
                    KeywordKind::DefinedGeneric(g) => r@ == "Keyword: "@ + keyword_text(k) + generic_debug_of(
                        g.name@,
                        g.viral,
                        crate::types::tts_view(g.allow@),
                    ),
                    _ => r@ == "Keyword: "@ + keyword_text(k),
                },
            },
    {
        proof {
            reveal_strlit("instantiate Closure at ");
            reveal_strlit("Push value ");
            reveal_strlit("Execute `");
            reveal_strlit("`");
            reveal_strlit("Included file ");
            reveal_strlit("Keyword: ");
            reveal_strlit("Define generic ");
            reveal_strlit("Break");
            reveal_strlit("Return");
            reveal_strlit("` into Closure");
            reveal_strlit("If");
            reveal_strlit("Bubble error");
            reveal_strlit("While");
            reveal_strlit("Define fn");
            reveal_strlit(" `");
            reveal_strlit("` as ");
            reveal_strlit(" → ");
            reveal_strlit("` consuming ");
            reveal_strlit("Switch");
        }
        let mut out: Vec<char> = Vec::new();
        match self {
            ExprCont::Immediate(Value::Closure(cl)) => {
                append(&mut out, "instantiate Closure at ");
                let ghost h = out@;
                let a = address_text(cl);
                append_string(&mut out, &a);
                proof {
                    assert(out@.subrange(0, h.len() as int) =~= h);
                }
            },
            ExprCont::Immediate(v) => {
                append(&mut out, "Push value ");
                let ghost h = out@;
                let d = crate::builtins::value_debug_text(v);
                append_string(&mut out, &d);
                proof {
                    assert(out@ =~= "Push value "@ + crate::builtins::debug_of(v@));
                }
            },
            ExprCont::FnCall(n) => {
                append(&mut out, "Execute `");
                append_string(&mut out, n);
                append(&mut out, "`");
            },
            ExprCont::IncludedCode(c) => {
                append(&mut out, "Included file ");
                append_string(&mut out, &c.source);
            },
            ExprCont::Keyword(k) => {
                append(&mut out, "Keyword: ");
                match k {
                    KeywordKind::DefinedGeneric(g) => {
                        append(&mut out, "Define generic ");
                        let ghost h = out@;
                        let d = generic_debug_text(g);
                        append_string(&mut out, &d);
                        proof {
                            assert(h =~= "Keyword: "@ + keyword_text(*k));
                            assert(out@ =~= h + d@);
                        }
                    },
                    KeywordKind::Break => append(&mut out, "Break"),
                    KeywordKind::Return => append(&mut out, "Return"),
                    KeywordKind::IntoClosure { fn_name } => {
                        append(&mut out, "`");
                        append_string(&mut out, fn_name);
                        append(&mut out, "` into Closure");
                    },
                    KeywordKind::Ifs { .. } => append(&mut out, "If"),
                    KeywordKind::BubbleError => append(&mut out, "Bubble error"),
                    KeywordKind::While { .. } => append(&mut out, "While"),
                    KeywordKind::FnDef { name, scope, args, out_args, .. } => {
                        append(&mut out, "Define fn");
                        write_scope(*scope, &mut out);
                        append(&mut out, " `");
                        append_string(&mut out, name);
                        match out_args {
                            Some(o) => {
                                append(&mut out, "` as ");
                                write_fn_args(args, &mut out);
                                append(&mut out, " → ");
                                write_args(o, &mut out);
                            },
                            None => {
                                append(&mut out, "` consuming ");
                                write_fn_args(args, &mut out);
                            },
                        }
                    },
                    KeywordKind::Switch { .. } => append(&mut out, "Switch"),
                }
            },
        }
        proof {
            let t = out@;
            match self {
                ExprCont::Immediate(_) => {},
                ExprCont::FnCall(n) => {
                    assert(t =~= "Execute `"@ + n@ + "`"@);
                },
                ExprCont::IncludedCode(c) => {
                    assert(t =~= "Included file "@ + c.source@);
                },
                ExprCont::Keyword(k) => {
                    match k {
                        KeywordKind::DefinedGeneric(_) => {},
                        _ => {
                            assert(t =~= "Keyword: "@ + keyword_text(*k));
                        },
                    }
                },
            }
        }
        crate::text::string_of(out.as_slice())
    }
}

impl ParseState {
    /// What the parser is making and waiting for, as text.
    pub fn describe(&self) -> (r: &'static str)
        ensures
            match *self {
                ParseState::Nothing => r@ == "Making nothing"@,
                ParseState::MakeIfs(..) => r@ == "Making ifs, awaiting conditional check or end"@,
                ParseState::MakeIfsCode { .. } => r@ == "Making ifs, awaiting code block to execute"@,
                ParseState::MakeFnArgs(..) => r@ == "Making function, awaiting args"@,
                ParseState::MakeFnNameOrOutArgs(..) => r@ == "Making function, awaiting name or output args"@,
                ParseState::MakeFnName(..) => r@ == "Making function, awaiting name"@,
                ParseState::MakeFnBlock(..) => r@ == "MakeWhile function, awaiting code block to execute"@,
                ParseState::MakeSwitch(..) => r@ == "Making switch case, awaiting value to match"@,
                ParseState::MakeSwitchCode(..) => r@ == "Making switch case, awaiting code block to execute"@,
                ParseState::MakeWhile => r@ == "Making while loop, awaiting check code block"@,
                ParseState::MakeWhileCode(..) => r@ == "MakeWhile while lop, awaiting code block to execute"@,
                ParseState::MakeClosureBlockOrOutArgs(..) => r@
                    == "Making closure, awaiting code block to execute or output args"@,
                ParseState::MakeClosureBlock(..) => r@ == "Making closure, awaiting code block to execute"@,
            },
    {
        match self {
            ParseState::Nothing => "Making nothing",
            ParseState::MakeIfs(..) => "Making ifs, awaiting conditional check or end",
            ParseState::MakeIfsCode { .. } => "Making ifs, awaiting code block to execute",
            ParseState::MakeFnArgs(..) => "Making function, awaiting args",
            ParseState::MakeFnNameOrOutArgs(..) => "Making function, awaiting name or output args",
            ParseState::MakeFnName(..) => "Making function, awaiting name",
            ParseState::MakeFnBlock(..) => "MakeWhile function, awaiting code block to execute",
            ParseState::MakeSwitch(..) => "Making switch case, awaiting value to match",
            ParseState::MakeSwitchCode(..) => "Making switch case, awaiting code block to execute",
            ParseState::MakeWhile => "Making while loop, awaiting check code block",
            ParseState::MakeWhileCode(..) => "MakeWhile while lop, awaiting code block to execute",
            ParseState::MakeClosureBlockOrOutArgs(..) => "Making closure, awaiting code block to execute or output args",
            ParseState::MakeClosureBlock(..) => "Making closure, awaiting code block to execute",
        }
    }
}

} // verus!
