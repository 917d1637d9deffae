use stck::api;
use stck::cache::{select_lines, span_text, FileCacher, Isolated, MockFileCacher};
use stck::error::{Error, LineRange, LineSpan, RuntimeError, RuntimeErrorKind, StckError};
use stck::internals::{ExprCont, KeywordKind, RuntimeContext, RustHook, RustStckFn, TokenCont, Value, ValueMap};
use stck::module::Module;
use stck::preproc::{dir_of, ProcCommand};
use stck::runtime::Frame;
use stck::stack::Stack;
use stck::text::{join_chars, parse_usize, split_chars};
use stck::tools::{parse_line, span_expand_safe};
use stck::types::TypeTester;
use std::rc::Rc;

fn run(text: &str) -> Result<RuntimeContext, Error> {
    let tokens = api::get_tokens_str(text, &"test".to_string(), &mut Isolated::new())?;
    let code = api::parse_raw_tokens(tokens)?;
    let mut runtime = RuntimeContext::new();
    runtime.execute_entire_code(&code).map_err(RuntimeError::from)?;
    Ok(runtime)
}

fn tokens_of(text: &str) -> Result<Vec<TokenCont>, StckError> {
    let block = api::get_tokens_str(text, &"test".to_string(), &mut Isolated::new())?;
    Ok(block.tokens.into_iter().map(|t| t.cont).collect())
}

fn parse_error(text: &str) -> StckError {
    let tokens = api::get_tokens_str(text, &"test".to_string(), &mut Isolated::new()).unwrap();
    match api::parse_raw_tokens(tokens) {
        Ok(code) => panic!("parsed: {:?}", code.exprs),
        Err(e) => e,
    }
}

#[test]
fn map_insert_then_get() {
    let mut m = ValueMap::new();
    m.insert("a".to_string(), Value::Num(1));
    m.insert("b".to_string(), Value::Num(2));
    m.insert("a".to_string(), Value::Num(3));
    assert_eq!(m.get(&"a".to_string()), Some(&Value::Num(3)));
    assert_eq!(m.get(&"b".to_string()), Some(&Value::Num(2)));
    assert_eq!(m.get(&"c".to_string()), None);
    assert_eq!(m.len(), 2);
}

#[test]
fn stack_pop_after_push() {
    let mut s = Stack::new();
    s.push(Value::Num(1));
    s.push(Value::Str("x".to_string()));
    assert_eq!(s.pop(), Some(Value::Str("x".to_string())));
    assert_eq!(s.pop(), Some(Value::Num(1)));
    assert_eq!(s.pop(), None);
}

#[test]
fn split_then_join_gives_text_back() {
    let text: Vec<char> = "if  not x".chars().collect();
    let parts = split_chars(&text, ' ');
    let words: Vec<String> = parts.iter().map(|p| p.iter().collect()).collect();
    assert_eq!(words, vec!["if", "", "not", "x"]);
    assert_eq!(join_chars(&parts, ' '), text);
}

#[test]
fn preproc_keeps_plain_tokens() {
    let got = tokens_of("1 2 +\n").unwrap();
    assert_eq!(got, vec![TokenCont::Number(1), TokenCont::Number(2), TokenCont::Ident("+".to_string()), TokenCont::EndOfBlock]);
}

#[test]
fn pragma_if_else_picks_one_branch() {
    let set = tokens_of("(pragma set x)(pragma if x) 1 (pragma else) 2 (pragma end if)\n").unwrap();
    assert_eq!(set, vec![TokenCont::Number(1), TokenCont::EndOfBlock]);
    let unset = tokens_of("(pragma if x) 1 (pragma else) 2 (pragma end if)\n").unwrap();
    assert_eq!(unset, vec![TokenCont::Number(2), TokenCont::EndOfBlock]);
    let not = tokens_of("(pragma set x)(pragma unset x)(pragma if not x) 3 (pragma end if)\n").unwrap();
    assert_eq!(not, vec![TokenCont::Number(3), TokenCont::EndOfBlock]);
}

#[test]
fn pragma_errors() {
    match tokens_of("(pragma end if)\n") {
        Err(StckError::NoSectionToClose(span)) => assert_eq!(span, LineRange::from_points(1, 1)),
        other => panic!("{other:?}"),
    }
    match tokens_of("(pragma else)\n") {
        Err(StckError::CantElseCurrentSection(_, None)) => {}
        other => panic!("{other:?}"),
    }
    match tokens_of("(pragma if x)(pragma else)(pragma else)\n") {
        Err(StckError::CantElseCurrentSection(_, Some(ProcCommand::IfElse))) => {}
        other => panic!("{other:?}"),
    }
    match tokens_of("(pragma frobnicate  a)\n") {
        Err(StckError::InvalidPragma(text)) => assert_eq!(text, "frobnicate  a"),
        other => panic!("{other:?}"),
    }
}

#[test]
fn includes_read_through_the_cacher() {
    let mut cacher = MockFileCacher::new();
    cacher.mock_file("lib/util.stck".to_string(), "(pragma set util) 5\n".to_string());
    let block = api::get_tokens_str("(include util.stck) (pragma if util) 6 (pragma end if)\n", &"lib/main.stck".to_string(), &mut cacher).unwrap();
    assert_eq!(block.tokens.len(), 3);
    match &block.tokens[0].cont {
        TokenCont::IncludedBlock(inner) => {
            assert_eq!(inner.source, "lib/util.stck");
            assert_eq!(inner.tokens[0].cont, TokenCont::Number(5));
        }
        other => panic!("{other:?}"),
    }
    assert_eq!(block.tokens[1].cont, TokenCont::Number(6));
}

#[test]
fn missing_include_is_refused() {
    match api::get_tokens_str("(include nothing.stck)\n", &"main.stck".to_string(), &mut Isolated::new()) {
        Err(StckError::CantReadFile(p)) => assert_eq!(p, "nothing.stck"),
        other => panic!("{other:?}"),
    }
}

#[test]
fn self_include_stops() {
    let mut cacher = MockFileCacher::new();
    cacher.mock_file("loop.stck".to_string(), "(include loop.stck)\n".to_string());
    match api::get_tokens_str("(include loop.stck)\n", &"main.stck".to_string(), &mut cacher) {
        Err(StckError::IncludeTooDeep(p)) => assert_eq!(p, "loop.stck"),
        other => panic!("{other:?}"),
    }
}

#[test]
fn include_directories() {
    assert_eq!(dir_of(&"a/b.stck".to_string()), "a");
    assert_eq!(dir_of(&"b.stck".to_string()), "");
    assert_eq!(dir_of(&"/".to_string()), ".");
}

#[test]
fn zero_arg_closure_is_refused() {
    match parse_error("[ ] { 1 }\n") {
        StckError::CantInstanceClosureZeroArgs { span } => assert_eq!(span, LineRange::from_points(1, 1)),
        other => panic!("{other:?}"),
    }
}

#[test]
fn parser_errors() {
    match parse_error("(fn) x name { }\n") {
        StckError::WrongParamList(name, source) => {
            assert_eq!(name, "x");
            assert_eq!(source, "test");
        }
        other => panic!("{other:?}"),
    }
    match parse_error("(while) 1\n") {
        StckError::CantParseToken(_, token, source) => {
            assert_eq!(*token, TokenCont::Number(1));
            assert_eq!(source, "test");
        }
        other => panic!("{other:?}"),
    }
}

#[test]
fn switch_and_ifs_end_at_other_tokens() {
    let tokens = api::get_tokens_str("(switch) 1 { 2 } { 3 } 4\n", &"test".to_string(), &mut Isolated::new()).unwrap();
    let code = api::parse_raw_tokens(tokens).unwrap();
    assert_eq!(code.exprs.len(), 2);
    match &code.exprs[0].cont {
        ExprCont::Keyword(KeywordKind::Switch { cases, default }) => {
            assert_eq!(cases.len(), 1);
            assert_eq!(cases[0].test, Value::Num(1));
            assert!(default.is_some());
        }
        other => panic!("{other:?}"),
    }
    assert_eq!(code.exprs[1].cont, ExprCont::Immediate(Value::Num(4)));
}

#[test]
fn tokenizer_errors() {
    match stck::token::Context::new("\"open").tokenize("t".to_string()) {
        Err(StckError::UnexpectedEOF(_)) => {}
        other => panic!("{other:?}"),
    }
    match stck::token::Context::new("(nokeyword)").tokenize("t".to_string()) {
        Err(StckError::UnknownKeyword(k)) => assert_eq!(k, "nokeyword"),
        other => panic!("{other:?}"),
    }
    match stck::token::Context::new("99999999999999999999 ").tokenize("t".to_string()) {
        Err(StckError::ParseInt(_)) => {}
        other => panic!("{other:?}"),
    }
    match stck::token::Context::new("[ a<nothing> ]").tokenize("t".to_string()) {
        Err(StckError::UnknownType(t)) => assert_eq!(t, "nothing"),
        other => panic!("{other:?}"),
    }
}

#[test]
fn isolated_reads_back_what_it_holds() {
    let mut iso = Isolated::new();
    assert!(iso.read_file(&"f".to_string()).is_err());
    iso.force_add_file("f".to_string(), "one".to_string());
    assert_eq!(iso.read_file(&"f".to_string()), Ok("one".to_string()));
    iso.add_file_cached("f".to_string(), "two".to_string());
    assert_eq!(iso.read_file(&"f".to_string()), Ok("one".to_string()));
    iso.force_add_file("f".to_string(), "three".to_string());
    assert_eq!(iso.read_file(&"f".to_string()), Ok("three".to_string()));
    assert!(iso.has_file(&"f".to_string()));
    assert!(!iso.has_file(&"g".to_string()));
}

#[test]
fn span_lines_of_a_file() {
    let text = "a\nb\nc\nd".to_string();
    assert_eq!(select_lines(&text, &LineRange::from_points(2, 3)), "b\nc");
    assert_eq!(select_lines(&text, &LineRange::from_points(4, 9)), "d");
    assert_eq!(select_lines(&text, &LineRange::from_points(7, 9)), "");
    let mut iso = Isolated::new();
    iso.force_add_file("f".to_string(), text);
    assert_eq!(iso.get_span(&"f".to_string(), &LineRange::from_points(1, 1)), Ok("a".to_string()));
}

#[test]
fn line_range_text() {
    assert_eq!(LineRange::from_points(3, 3).describe(), "3");
    assert_eq!(LineRange::from_points(3, 4).describe(), "3");
    assert_eq!(LineRange::from_points(3, 5).describe(), "3:+2");
    assert_eq!(LineRange::from_points(3, 5).delta(), 2);
}

#[test]
fn line_span_counts_feeds() {
    let mut s = LineSpan::new();
    s.add(4);
    s.add(9);
    s.add(4);
    s.add(15);
    assert_eq!(s.line_range(5, 12), LineRange::from_points(2, 3));
    assert_eq!(s.line_range(0, 3), LineRange::from_points(1, 1));
    assert_eq!(s.line_range(16, 20), LineRange::from_points(4, 4));
}

struct Nop;

impl RustHook for Nop {
    fn call(&self, _ctx: &mut Frame, _source: &String) {}
}

#[test]
fn module_names_and_hooks() {
    assert!(matches!(Module::new("#io".to_string()), Err(StckError::UserModuleWithBang(n)) if n == "#io"));
    assert!(matches!(Module::new_protected("io".to_string()), Err(StckError::ProtectedModuleWithoutBang(n)) if n == "io"));
    let mut m = Module::new("mine".to_string()).unwrap();
    assert!(m.add_fn(RustStckFn { name: "f".to_string(), code: Rc::new(Nop) }).is_none());
    let old = m.add_fn(RustStckFn { name: "f".to_string(), code: Rc::new(Nop) });
    assert_eq!(old.map(|h| h.name), Some("f".to_string()));
    assert_eq!(m.funcs.len(), 1);
    let p = Module::new_protected("#io".to_string()).unwrap();
    assert_eq!(p.name, "#io");
}

#[test]
fn format_directives() {
    let mut st = Stack::new();
    st.push(Value::Num(3));
    let r = stck::builtins::fmt(&"%d apples%%".to_string(), &mut st);
    assert_eq!(r.unwrap(), "3 apples%");
    assert_eq!(st.len(), 0);
    let mut st2 = Stack::new();
    st2.push(Value::Num(5));
    let r2 = stck::builtins::fmt(&"<%v>".to_string(), &mut st2);
    assert_eq!(r2.unwrap(), "<Num(5)>");
}

#[test]
fn generic_type_names_are_uppercase() {
    assert_eq!(TypeTester::parse_text("T").unwrap(), TypeTester::Generic("T".to_string()));
    assert_eq!(TypeTester::parse_text("num").unwrap(), TypeTester::Num);
    assert!(TypeTester::parse_text("t").is_err());
}

#[test]
fn arithmetic_runs() {
    let ctx = run("5 2 -\n").unwrap();
    assert_eq!(ctx.get_stack(), [Value::Num(3)]);
}

#[test]
fn type_and_expression_texts() {
    let t = TypeTester::Closure(
        stck::types::TypedFnPart::Typed(vec![TypeTester::Num, TypeTester::Array(Box::new(TypeTester::Str))]),
        stck::types::TypedFnPart::Any,
    );
    assert_eq!(t.type_text(), "fn< num array<str> ><?>");
    assert_eq!(TypeTester::Result(Box::new((TypeTester::Num, TypeTester::Generic("E".to_string())))).type_text(), "result<num><E>");
    assert_eq!(ExprCont::FnCall("dup".to_string()).describe(), "Execute `dup`");
    assert!(ExprCont::Immediate(Value::Num(2)).describe().starts_with("Push value Num(2)"));
    let tokens = api::get_tokens_str("(fn*) [ a b<num> ] [ <str> ] f { a }\n", &"test".to_string(), &mut Isolated::new()).unwrap();
    let code = api::parse_raw_tokens(tokens).unwrap();
    assert_eq!(code.exprs[0].cont.describe(), "Keyword: Define fn* `f` as [ a b<num> ] → [ <str> ]");
    assert_eq!(stck::parse::State::MakeWhile.describe(), "Making while loop, awaiting check code block");
}

#[test]
fn range_requests_are_split() {
    assert_eq!(parse_line("src/a.stck:3..17"), Some(("src/a.stck".to_string(), 3, 17)));
    assert_eq!(parse_line("x:y:0..4"), None);
    assert_eq!(parse_line("a:+2..5"), Some(("a".to_string(), 2, 5)));
    assert_eq!(parse_line("no-colon 1..2"), None);
    assert_eq!(parse_line("a:1-2"), None);
    assert_eq!(parse_line("a:..2"), None);
    assert_eq!(parse_line("a:1..2..3"), None);
}

#[test]
fn unsigned_parsing() {
    let cs = |t: &str| t.chars().collect::<Vec<char>>();
    assert_eq!(parse_usize(&cs("0")), Some(0));
    assert_eq!(parse_usize(&cs("+42")), Some(42));
    assert_eq!(parse_usize(&cs("-1")), None);
    assert_eq!(parse_usize(&cs("")), None);
    assert_eq!(parse_usize(&cs("+")), None);
    assert_eq!(parse_usize(&cs("18446744073709551615")), Some(usize::MAX));
    assert_eq!(parse_usize(&cs("18446744073709551616")), None);
}

#[test]
fn spans_are_widened_within_bounds() {
    assert_eq!(span_expand_safe(25, 30, 100), (15, 40));
    assert_eq!(span_expand_safe(4, 30, 35), (0, 35));
    assert_eq!(span_expand_safe(10, 10, 5), (0, 5));
}

fn run_error(text: &str) -> RuntimeErrorKind {
    match run(text) {
        Err(Error::RuntimeError(RuntimeError::RuntimeCtx(e))) => *e.kind,
        Err(e) => panic!("other error: {:?}", e),
        Ok(ctx) => panic!("ran: {:?}", ctx.get_stack()),
    }
}

#[test]
fn while_counts_down() {
    let ctx = run("3 \"i\" set (while) { \"i\" get 0 > } { \"i\" get 1 - \"i\" set 7 }\n").unwrap();
    assert_eq!(ctx.get_stack(), [Value::Num(7), Value::Num(7), Value::Num(7)]);
    assert_eq!(ctx.get_vars().get(&"i".to_string()), Some(&Value::Num(0)));
}

#[test]
fn break_ends_a_while() {
    let ctx = run("(while) { 1 1 = } { 9 (break) 8 } 6\n").unwrap();
    assert_eq!(ctx.get_stack(), [Value::Num(9), Value::Num(6)]);
}

#[test]
fn ifs_runs_the_first_true_branch() {
    let ctx = run("(ifs) { 1 2 > } { 10 } { 2 1 > } { 20 } { 3 1 > } { 30 }\n").unwrap();
    assert_eq!(ctx.get_stack(), [Value::Num(20)]);
    let ctx = run("(ifs) { 1 2 > } { 10 } 4\n").unwrap();
    assert_eq!(ctx.get_stack(), [Value::Num(4)]);
}

#[test]
fn checks_must_leave_one_boolean() {
    assert!(matches!(run_error("(ifs) { 1 } { 2 }\n"), RuntimeErrorKind::WrongTypeOnCheck { .. }));
    assert!(matches!(run_error("(ifs) { 1 2 } { 3 }\n"), RuntimeErrorKind::WrongStackSizeDiffOnCheck { .. }));
    assert!(matches!(run_error("(ifs) { } { 3 }\n"), RuntimeErrorKind::WrongStackSizeDiffOnCheck { .. }));
}

#[test]
fn switch_picks_the_matching_case() {
    let ctx = run("5 (switch) 1 { 10 } 5 { 50 } { 0 }\n").unwrap();
    assert_eq!(ctx.get_stack(), [Value::Num(50)]);
    let ctx = run("7 (switch) 1 { 10 } 5 { 50 } { 0 }\n").unwrap();
    assert_eq!(ctx.get_stack(), [Value::Num(0)]);
    let ctx = run("\"5\" (switch) 5 { 50 }\n").unwrap();
    assert_eq!(ctx.get_stack(), []);
    assert!(matches!(run_error("(switch) 1 { 10 }\n"), RuntimeErrorKind::SwitchCaseWithNoValue));
}

#[test]
fn bubbling_unwraps_or_returns() {
    let ctx = run("5 ok (!) 1\n").unwrap();
    assert_eq!(ctx.get_stack(), [Value::Num(5), Value::Num(1)]);
    let ctx = run("\"bad\" err (!) 1\n").unwrap();
    assert_eq!(ctx.get_stack(), [Value::Result(Box::new(Err(Value::Str("bad".to_string()))))]);
}

#[test]
fn a_context_runs_more_code_on_what_it_left() {
    let whole = run("1 2 \"x\" set 3\n").unwrap();
    let first = api::parse_raw_tokens(api::get_tokens_str("1 2 \"x\" set\n", &"a".to_string(), &mut Isolated::new()).unwrap()).unwrap();
    let second = api::parse_raw_tokens(api::get_tokens_str("3\n", &"b".to_string(), &mut Isolated::new()).unwrap()).unwrap();
    let mut ctx = RuntimeContext::new();
    ctx.execute_entire_code(&first).unwrap();
    ctx.execute_entire_code(&second).unwrap();
    assert_eq!(ctx.get_stack(), whole.get_stack());
    assert_eq!(ctx.get_vars().get(&"x".to_string()), whole.get_vars().get(&"x".to_string()));
}

#[test]
fn user_functions_take_typed_arguments() {
    let ctx = run("(fn) [ a<num> b<num> ] [ <num> ] sub { a b - } 7 3 sub\n").unwrap();
    assert_eq!(ctx.get_stack(), [Value::Num(4)]);
    let ctx = run("(fn) * all { - } 9 4 all 1\n").unwrap();
    assert_eq!(ctx.get_stack(), [Value::Num(5), Value::Num(1)]);
    let ctx = run("(fn) [ ] r { 1 (return) 2 } r 3\n").unwrap();
    assert_eq!(ctx.get_stack(), [Value::Num(1), Value::Num(3)]);
}

#[test]
fn user_function_errors() {
    assert!(matches!(run_error("(fn) [ a b ] f { a } 1 f\n"), RuntimeErrorKind::UserFnMissingArgs { .. }));
    assert!(matches!(run_error("(fn) [ a<num> ] f { a } \"x\" f\n"), RuntimeErrorKind::Type(..)));
    assert!(matches!(run_error("(fn) [ a ] [ <num> <num> ] f { a } 1 f\n"), RuntimeErrorKind::OutputCount { .. }));
    assert!(matches!(run_error("(fn) [ a ] [ <str> ] f { a } 1 f\n"), RuntimeErrorKind::Type(..)));
}

#[test]
fn function_scopes_and_variables() {
    let ctx = run("(fn*) [ ] g { 5 \"x\" set } g \"x\" get\n").unwrap();
    assert_eq!(ctx.get_stack(), [Value::Num(5)]);
    assert!(matches!(run_error("(fn) [ ] l { 5 \"x\" set } l \"x\" get\n"), RuntimeErrorKind::NoSuchVariable(..)));
    let ctx = run("1 \"y\" set (fn) [ ] loc { \"y\" get } loc\n").unwrap();
    assert_eq!(ctx.get_stack(), [Value::Num(1)]);
    assert!(matches!(run_error("1 \"y\" set (fn-) [ ] iso { \"y\" get } iso\n"), RuntimeErrorKind::NoSuchVariable(..)));
}

#[test]
fn defined_functions_stay_for_the_next_run() {
    let first = api::parse_raw_tokens(
        api::get_tokens_str("(fn) [ a<num> ] [ <num> ] dec { a 1 - }\n", &"a".to_string(), &mut Isolated::new()).unwrap(),
    )
    .unwrap();
    let second = api::parse_raw_tokens(api::get_tokens_str("5 dec dec\n", &"b".to_string(), &mut Isolated::new()).unwrap()).unwrap();
    let mut ctx = RuntimeContext::new();
    ctx.execute_entire_code(&first).unwrap();
    ctx.execute_entire_code(&second).unwrap();
    assert_eq!(ctx.get_stack(), [Value::Num(3)]);
}

#[test]
fn step_limit_stops_long_runs() {
    let code = api::parse_raw_tokens(api::get_tokens_str("1 2 3\n", &"s".to_string(), &mut Isolated::new()).unwrap()).unwrap();
    let mut short = RuntimeContext::new();
    short.frame.step_limit = 2;
    match short.execute_entire_code(&code) {
        Err(e) => assert!(matches!(*e.kind, RuntimeErrorKind::OutOfSteps)),
        Ok(_) => panic!("ran past the step limit"),
    }
    assert_eq!(short.get_stack(), [Value::Num(1), Value::Num(2)]);
    let mut enough = RuntimeContext::new();
    enough.frame.step_limit = 3;
    enough.execute_entire_code(&code).unwrap();
    let mut more = RuntimeContext::new();
    more.frame.step_limit = 100;
    more.execute_entire_code(&code).unwrap();
    assert_eq!(enough.get_stack(), more.get_stack());
    assert_eq!(more.get_stack(), [Value::Num(1), Value::Num(2), Value::Num(3)]);
}

#[test]
fn unknown_names_are_refused() {
    assert!(matches!(run_error("1 nosuchname\n"), RuntimeErrorKind::MissingIdent(n) if n == "nosuchname"));
    assert!(matches!(run_error("(@nosuchfn)\n"), RuntimeErrorKind::MissingUserFunction(n) if n == "nosuchfn"));
}

#[test]
fn closures_run_when_filled() {
    let ctx = run("[ a b ] { a b - } 9 @ 4 @\n").unwrap();
    assert_eq!(ctx.get_stack(), [Value::Num(5)]);
    let ctx = run("(fn) [ x<num> y<num> ] [ <num> ] sub { x y - } (@sub) 10 @ 3 @\n").unwrap();
    assert_eq!(ctx.get_stack(), [Value::Num(7)]);
    assert!(matches!(run_error("[ a ] [ <num> <num> ] { a } 1 @\n"), RuntimeErrorKind::OutputClosureCount { .. }));
}

#[test]
fn file_text_from_the_cacher_answer() {
    assert_eq!(api::file_text(&"a.stck".to_string(), Ok("1 2\n".to_string())).unwrap(), "1 2\n");
    match api::file_text(&"a.stck".to_string(), Err("gone".to_string())) {
        Err(StckError::CantReadFile(p)) => assert_eq!(p, "a.stck"),
        other => panic!("{other:?}"),
    }
}

#[test]
fn span_text_from_the_cacher_answer() {
    assert_eq!(span_text(Ok("a\nb\nc\nd".to_string()), &LineRange::from_points(2, 3)), Ok("b\nc".to_string()));
    assert_eq!(span_text(Err("gone".to_string()), &LineRange::from_points(1, 1)), Err("gone".to_string()));
}

#[test]
fn files_are_read_tokenized_and_parsed() {
    let mut cacher = MockFileCacher::new();
    cacher.mock_file("main.stck".to_string(), "(pragma set x) (pragma if x) 4 (pragma end if) 5\n".to_string());
    let block = api::get_tokens(&"main.stck".to_string(), &mut cacher).unwrap();
    assert_eq!(block.source, "main.stck");
    assert_eq!(block.tokens[0].cont, TokenCont::Number(4));
    assert_eq!(block.tokens[1].cont, TokenCont::Number(5));
    let code = api::get_project_code(&"main.stck".to_string(), &mut cacher).unwrap();
    assert_eq!(code.source, "main.stck");
    assert_eq!(code.exprs.len(), 2);
    match api::get_tokens(&"other.stck".to_string(), &mut cacher) {
        Err(StckError::CantReadFile(p)) => assert_eq!(p, "other.stck"),
        other => panic!("{other:?}"),
    }
    match api::get_project_code(&"other.stck".to_string(), &mut Isolated::new()) {
        Err(StckError::CantReadFile(p)) => assert_eq!(p, "other.stck"),
        other => panic!("{other:?}"),
    }
}

#[test]
fn type_names_parse_through_from_str() {
    assert_eq!("num".parse::<TypeTester>().unwrap(), TypeTester::Num);
    match "t".parse::<TypeTester>() {
        Err(StckError::UnknownType(m)) => assert_eq!(m, "t"),
        other => panic!("{other:?}"),
    }
}

#[test]
fn format_payloads_and_empty_debug() {
    let mut st = Stack::new();
    let r = stck::builtins::fmt(&"a%vb".to_string(), &mut st);
    assert_eq!(r.unwrap(), "a<Nothing in stack>b");
    let mut st2 = Stack::new();
    st2.push(Value::Bool(true));
    match stck::builtins::fmt(&"%d".to_string(), &mut st2) {
        Err(RuntimeErrorKind::WrongValueType(f, v, c)) => {
            assert_eq!(f, "%d");
            assert_eq!(v, Value::Bool(true));
            assert_eq!(c, 'd');
        }
        other => panic!("{other:?}"),
    }
    assert_eq!(st2.len(), 0);
    let mut st3 = Stack::new();
    match stck::builtins::fmt(&"%s".to_string(), &mut st3) {
        Err(RuntimeErrorKind::MissingValue(f, c)) => {
            assert_eq!(f, "%s");
            assert_eq!(c, 's');
        }
        other => panic!("{other:?}"),
    }
    match stck::builtins::fmt(&"%q".to_string(), &mut Stack::new()) {
        Err(RuntimeErrorKind::UnknownStringFormat(f, c)) => {
            assert_eq!(f, "%q");
            assert_eq!(c, 'q');
        }
        other => panic!("{other:?}"),
    }
}

#[test]
fn run_errors_carry_their_payloads() {
    match run_error("(fn) [ a b ] f { a } 1 f\n") {
        RuntimeErrorKind::UserFnMissingArgs { name, got, needs } => {
            assert_eq!(name, "f");
            assert_eq!(got, vec![Value::Num(1)]);
            assert_eq!(needs, vec!["a".to_string(), "b".to_string()]);
        }
        other => panic!("{other:?}"),
    }
    match run_error("7 (ifs) { 1 2 } { 3 }\n") {
        RuntimeErrorKind::WrongStackSizeDiffOnCheck { old_stack_size, new_stack_size, new_should_stack_size } => {
            assert_eq!((old_stack_size, new_stack_size, new_should_stack_size), (1, 3, 2));
        }
        other => panic!("{other:?}"),
    }
    match run_error("(ifs) { 4 } { 3 }\n") {
        RuntimeErrorKind::WrongTypeOnCheck { got } => assert_eq!(got, Value::Num(4)),
        other => panic!("{other:?}"),
    }
    match run_error("foo\n") {
        RuntimeErrorKind::MissingIdent(n) => assert_eq!(n, "foo"),
        other => panic!("{other:?}"),
    }
}

#[test]
fn push_is_described_by_debug_text() {
    assert_eq!(ExprCont::Immediate(Value::Num(2)).describe(), "Push value Num(2)");
}

#[test]
fn line_span_counts_feeds_once() {
    let mut ls = LineSpan::new();
    ls.add(5);
    ls.add(10);
    ls.add(5);
    let r = ls.line_range(6, 12);
    assert_eq!((r.start, r.end), (2, 3));
}

#[test]
fn host_builtins_without_a_host() {
    let ctx = run("\"ls\" sh sys$argv \"h\u{e9}llo\" \"out.txt\" write-to\n").unwrap();
    assert_eq!(
        ctx.get_stack(),
        [
            Value::Result(Box::new(Ok(Value::Num(0)))),
            Value::Array(vec![]),
            Value::Result(Box::new(Ok(Value::Num(6)))),
        ]
    );
}

#[test]
fn values_from_plain_values() {
    assert_eq!(Value::from('c'), Value::Char('c'));
    assert_eq!(Value::from("s".to_string()), Value::Str("s".to_string()));
    assert_eq!(Value::from(4isize), Value::Num(4));
    assert_eq!(Value::from(true), Value::Bool(true));
    assert_eq!(Value::from(vec![Value::Num(1)]), Value::Array(vec![Value::Num(1)]));
    assert_eq!(Value::from(Ok::<Value, Value>(Value::Num(1))), Value::Result(Box::new(Ok(Value::Num(1)))));
    assert_eq!(Value::from(Some(Value::Num(2))), Value::Option(Some(Box::new(Value::Num(2)))));
    assert_eq!(Value::from(None::<Value>), Value::Option(None));
}

#[test]
fn spans_come_from_the_cached_file() {
    let mut cacher = MockFileCacher::new();
    cacher.mock_file("f".to_string(), "one\ntwo\nthree".to_string());
    assert_eq!(cacher.get_span(&"f".to_string(), &LineRange::from_points(2, 3)), Ok("two\nthree".to_string()));
    assert!(cacher.get_span(&"g".to_string(), &LineRange::from_points(1, 1)).is_err());
}
