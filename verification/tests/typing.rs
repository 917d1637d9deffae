use stck::internals::{Closure, ClosurePartialArgs, FnArgDef, TypedOutputs, Value, ValueMap};
use stck::types::{TypeTester as TT, TypedFnPart};

type TR = std::result::Result<(), TT>;
const T_OK: TR = TR::Ok(());

fn t_err(d: &TT) -> TR {
    TR::Err(d.clone())
}

fn sum_closure() -> Result<Value, stck::error::RuntimeErrorKind> {
    Ok(Value::Closure(Box::new(Closure {
        code: vec![],
        request_args: ClosurePartialArgs::convert(
            vec![FnArgDef::new("a".to_string(), Some(TT::Num)), FnArgDef::new("b".to_string(), Some(TT::Num))],
            &"test closure".to_string(),
        )?,
        output_types: Some(TypedOutputs::new(vec![FnArgDef::new(String::new(), Some(TT::Num))])),
    })))
}

#[test]
fn test_simple_types() -> Result<(), stck::error::RuntimeErrorKind> {
    let closure_sum = sum_closure()?;

    let values = [
        Value::Num(0),
        Value::Str(String::new()),
        Value::Array(vec![Value::Num(0), Value::Str(String::new())]),
        closure_sum,
        Value::Option(Some(Box::new(Value::Num(0)))),
        Value::Result(Box::new(Ok(Value::Num(0)))),
        Value::Mapping(ValueMap::new()),
        Value::Char('a'),
        Value::Bool(false),
    ];
    let types = [TT::Num, TT::Str, TT::ArrayAny, TT::ClosureAny, TT::OptionAny, TT::ResultAny, TT::MapAny, TT::Char, TT::Bool];

    for (tt, vl) in types.iter().zip(values.iter()) {
        assert_eq!(tt.check(vl), T_OK);
    }

    for (tt_index, tt) in types.iter().enumerate() {
        for (v_index, v) in values.iter().enumerate() {
            if v_index != tt_index {
                assert_eq!(tt.check(v), t_err(tt));
            }
        }
    }
    Ok(())
}

#[test]
fn test_array_type() {
    let arr_of_num_type = TT::Array(Box::new(TT::Num));
    let arr_or_num = Value::Array(vec![Value::Num(3), Value::Num(0)]);
    let type_test = arr_of_num_type.check(&arr_or_num);

    assert_eq!(type_test, T_OK);
}

#[test]
fn test_closure_type() -> Result<(), stck::error::RuntimeErrorKind> {
    let closure_sum_type = TT::Closure(TypedFnPart::Typed(vec![TT::Num, TT::Num]), TypedFnPart::Typed(vec![TT::Num]));
    let closure_sum = sum_closure()?;
    let type_test = closure_sum_type.check(&closure_sum);
    assert_eq!(type_test, T_OK);
    Ok(())
}
