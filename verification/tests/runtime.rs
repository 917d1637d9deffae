use stck::api;
use stck::cache::Isolated;
use stck::error::{Error, RuntimeError};
use stck::internals::{RuntimeContext, RustHook, RustStckFn, Value};
use stck::runtime::Frame;
use std::rc::Rc;

fn execute_string(cont: &str, test_name: &str) -> Result<RuntimeContext, Error> {
    let tokens = api::get_tokens_str(cont, &test_name.to_string(), &mut Isolated::new())?;
    let code = api::parse_raw_tokens(tokens)?;
    let mut runtime = RuntimeContext::new();
    runtime.execute_entire_code(&code).map_err(RuntimeError::from)?;
    Ok(runtime)
}

struct Eval;

impl RustHook for Eval {
    fn call(&self, ctx: &mut Frame, source: &String) {
        let st = ctx.stack.pop_this(Value::get_str).unwrap().unwrap();
        let tokens = api::get_tokens_str(&st, &format!("Eval at {source:?}"), &mut Isolated::new()).unwrap();
        let code = api::parse_raw_tokens(tokens).unwrap();
        ctx.execute_entire_code(&code).unwrap();
    }
}

#[test]
fn rust_hook() -> Result<(), Error> {
    let tokens = api::get_tokens_str("\"7 3 -\n\" eval\n", &"test rust hook".to_string(), &mut Isolated::new())?;
    let code = api::parse_raw_tokens(tokens)?;
    let mut runtime = RuntimeContext::new();
    let hook = RustStckFn { name: "eval".to_string(), code: Rc::new(Eval) };
    runtime.add_rust_hook(hook);
    runtime.execute_entire_code(&code).map_err(RuntimeError::from)?;
    let stack = runtime.get_stack();
    let expected_stack = [Value::Num(4)];
    assert_eq!(stack, expected_stack);
    Ok(())
}

#[test]
fn closure_parent_args() -> Result<(), Error> {
    let ctx = execute_string(
        "
(fn) [ i<num> ] [ <num> ] double { i 2 * }
(fn) [ first<fn> seccond<fn> ] [ joint<fn> ] join {
    [ v ]{ first seccond v @ @ }
}

(@double) (@double) join 2 @


[ a ] {
    [ b ] {
        [ _ ] {
            a b -
        }
    }
}

3 @ 4 @ '_' @
",
        "Test nested arguments",
    )?;
    let stack = ctx.get_stack();
    let expected_stack = [Value::Num(8), Value::Num(-1)];
    assert_eq!(stack, expected_stack);
    Ok(())
}

struct Recorder(std::cell::RefCell<Vec<String>>);

impl stck::runtime::Host for Recorder {
    fn print(&self, text: &String) {
        self.0.borrow_mut().push(format!("print {text}"));
    }
    fn exit(&self, code: isize) {
        self.0.borrow_mut().push(format!("exit {code}"));
    }
    fn argv(&self) -> Vec<String> {
        vec!["a".to_string()]
    }
    fn sh(&self, command: &String) -> Result<isize, String> {
        self.0.borrow_mut().push(format!("sh {command}"));
        Ok(7)
    }
    fn write_to(&self, content: &String, file: &String) -> Result<isize, String> {
        self.0.borrow_mut().push(format!("write {content} {file}"));
        Ok(1)
    }
    fn debug(&self, _text: &String) {
        self.0.borrow_mut().push("debug".to_string());
    }
}

#[test]
fn host_gets_the_requests_in_order() {
    let tokens = api::get_tokens_str("\"hi\" print 3 sys$exit \"ls\" sh\n", &"host".to_string(), &mut Isolated::new()).unwrap();
    let code = api::parse_raw_tokens(tokens).unwrap();
    let rec = Rc::new(Recorder(std::cell::RefCell::new(Vec::new())));
    let mut ctx = RuntimeContext::new();
    ctx.set_host(Some(rec.clone()));
    ctx.execute_entire_code(&code).unwrap();
    assert_eq!(*rec.0.borrow(), vec!["print hi".to_string(), "exit 3".to_string(), "sh ls".to_string()]);
    assert_eq!(ctx.get_stack(), [Value::Result(Box::new(Ok(Value::Num(7))))]);
}
