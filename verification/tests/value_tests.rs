use reqlang_expr::builtins::{BuiltinFn, BuiltinImpl};
use reqlang_expr::errors::{ExprError, RuntimeError};
use reqlang_expr::types::Type;
use reqlang_expr::value::Value;

fn example_builtin() -> BuiltinImpl {
    BuiltinImpl::Returns(String::new())
}

#[test]
fn get_bool_on_string() {
    assert_eq!(
        Err(vec![(
            RuntimeError::TypeMismatch {
                expected: Type::Bool,
                actual: Type::String
            }
            .into(),
            0..0
        )]),
        Value::String("string".to_string()).get_bool()
    );
}

#[test]
fn get_bool_on_bool_true() {
    assert_eq!(Ok(true), Value::Bool(true).get_bool());
}

#[test]
fn get_string_on_bool() {
    assert_eq!(
        Err(vec![(
            RuntimeError::TypeMismatch {
                expected: Type::String,
                actual: Type::Bool
            }
            .into(),
            0..0
        )]),
        Value::Bool(true).get_string()
    );
}

#[test]
fn get_string_on_string() {
    let value = Value::String("test".to_string());
    assert_eq!(Ok("test"), value.get_string());
}

#[test]
fn get_func_on_string() {
    let value = Value::String("not a function".to_string());
    assert_eq!(
        Err(vec![(
            RuntimeError::TypeMismatch {
                expected: Type::Fn {
                    args: vec![],
                    variadic_arg: Some(Type::Value.into()),
                    return_type: Type::Value.into()
                },
                actual: Type::String
            }
            .into(),
            0..0
        )]),
        value.get_func()
    );
}

#[test]
fn get_func_on_func() {
    let expected_fn: Box<BuiltinFn> = BuiltinFn {
        name: String::from("name"),
        args: vec![],
        return_type: Type::Unknown,
        func: example_builtin(),
    }
    .into();

    let value = Value::Fn(Box::new(expected_fn.duplicate()));

    assert_eq!(Ok(expected_fn), value.get_func());
}

#[test]
fn get_func_on_bool() {
    let value = Value::Bool(true);
    assert_eq!(
        Err(vec![(
            RuntimeError::TypeMismatch {
                expected: Type::Fn {
                    args: vec![],
                    variadic_arg: Some(Type::Value.into()),
                    return_type: Type::Value.into()
                },
                actual: Type::Bool
            }
            .into(),
            0..0
        )]),
        value.get_func()
    );
}

#[test]
fn display_of_values() {
    assert_eq!("`hi`", Value::String("hi".to_string()).to_display_string());
    assert_eq!("true", Value::Bool(true).to_display_string());
    assert_eq!("false", Value::Bool(false).to_display_string());
    assert_eq!("id(value: Value) -> Value", Value::Fn(Box::new(BuiltinFn::ID())).to_display_string());
    assert_eq!("Type<Bool>", Value::Type(Box::new(Type::Type(Box::new(Type::Bool)))).to_display_string());
}

#[test]
fn values_are_equal_by_content_and_functions_by_name() {
    assert!(Value::String("a".to_string()).equals(&Value::String("a".to_string())));
    assert!(!Value::String("a".to_string()).equals(&Value::Bool(true)));
    assert!(Value::Fn(Box::new(BuiltinFn::ID())).equals(&Value::Fn(Box::new(BuiltinFn::ID()))));
    assert!(!Value::Fn(Box::new(BuiltinFn::ID())).equals(&Value::Fn(Box::new(BuiltinFn::NOOP()))));
}

#[test]
fn bool_converts_into_value() {
    let v: Value = true.into();
    assert_eq!(Value::Bool(true), v);
    let e: ExprError = RuntimeError::EmptyStack.into();
    assert_eq!(ExprError::RuntimeError(RuntimeError::EmptyStack), e);
}
