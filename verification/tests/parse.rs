use stck::cache::Isolated;
use stck::error::LineRange;
use stck::internals::{Expr, ExprCont::{FnCall, Immediate, Keyword}, FnArgDef, FnArgs, FnScope, KeywordKind, Value};
use stck::types::TypeTester;

#[test]
fn parse_tokens() -> Result<(), stck::error::Error> {
    let text_name = "parse_tokens test";
    let text = "
(fn) [ typed<num> in_puts ] [ sum<num> ] fn-name {
    inputs typed 0 - -
}";
    let token_block = stck::api::get_tokens_str(text, &text_name.to_string(), &mut Isolated::new())?;
    let expr = stck::api::parse_raw_tokens(token_block)?;
    assert_eq!(expr.source, text_name.to_string());
    assert_eq!(expr.expr_count(), 1);
    let expr_expected: Vec<Expr> = vec![Expr {
        span: LineRange::from_points(2, 4),
        cont: Keyword(KeywordKind::FnDef {
            name: "fn-name".to_string(),
            scope: FnScope::Local,
            args: FnArgs::Args(vec![
                FnArgDef { name: "typed".to_string(), type_check: Some(TypeTester::Num) },
                FnArgDef { name: "in_puts".to_string(), type_check: None },
            ]),
            code: vec![
                Expr { span: LineRange::from_points(3, 3), cont: FnCall("inputs".to_string()) },
                Expr { span: LineRange::from_points(3, 3), cont: FnCall("typed".to_string()) },
                Expr { span: LineRange::from_points(3, 3), cont: Immediate(Value::Num(0)) },
                Expr { span: LineRange::from_points(3, 3), cont: FnCall("-".to_string()) },
                Expr { span: LineRange::from_points(3, 3), cont: FnCall("-".to_string()) },
            ],
            out_args: Some(vec![FnArgDef { name: "sum".to_string(), type_check: Some(TypeTester::Num) }]),
        }),
    }];
    assert_eq!(expr.exprs, expr_expected);

    Ok(())
}
