use reqlang_expr::builtins::BuiltinFn;
use reqlang_expr::types::Type;
use reqlang_expr::value::Value;

#[test]
fn test_from_type_value() {
    let type_value = Value::Type(Type::String.into());
    let ty: Type = type_value.into();
    assert_eq!(Type::String, ty);
}

#[test]
fn test_get_type_type_value() {
    let string_value = Value::Type(Type::String.into());
    let ty: Type = string_value.get_type();
    assert_eq!(Type::String, ty);
}

#[test]
fn test_from_string_value() {
    let string_value = Value::String("test".to_string());
    let ty: Type = string_value.into();
    assert_eq!(Type::String, ty);
}

#[test]
fn test_get_type_string_value() {
    let string_value = Value::String("test".to_string());
    let ty: Type = string_value.get_type();
    assert_eq!(Type::String, ty);
}

#[test]
fn test_from_bool_value() {
    let bool_value = Value::Bool(true);
    let ty: Type = bool_value.into();
    assert_eq!(Type::Bool, ty);
}

#[test]
fn test_get_type_bool_value() {
    let bool_value = Value::Bool(true);
    let ty: Type = bool_value.get_type();
    assert_eq!(Type::Bool, ty);
}

#[test]
fn test_from_fn_value() {
    let builtin_fn = Value::Fn(BuiltinFn::ID().into());

    let ty: Type = builtin_fn.into();

    assert_eq!(
        Type::Fn {
            args: vec![Type::Value],
            variadic_arg: None,
            return_type: Box::new(Type::Value),
        },
        ty
    );
}

#[test]
fn test_get_type_fn_value() {
    let builtin_fn = Value::Fn(BuiltinFn::ID().into());

    let ty: Type = builtin_fn.get_type();

    assert_eq!(
        Type::Fn {
            args: vec![Type::Value],
            variadic_arg: None,
            return_type: Box::new(Type::Value),
        },
        ty
    );
}

#[test]
fn test_name_value() {
    assert_eq!("Value", Type::Value.name());
}

#[test]
fn test_name_string() {
    assert_eq!("String", Type::String.name());
}

#[test]
fn test_name_fn_0_args() {
    assert_eq!(
        "Fn() -> String",
        Type::Fn {
            args: vec![],
            variadic_arg: None,
            return_type: Type::String.into(),
        }
        .name()
    );
}

#[test]
fn test_name_fn_0_args_and_varadic() {
    assert_eq!(
        "Fn(...Value) -> String",
        Type::Fn {
            args: vec![],
            variadic_arg: Some(Type::Value.into()),
            return_type: Type::String.into(),
        }
        .name()
    );
}

#[test]
fn test_name_fn_1_args() {
    assert_eq!(
        "Fn(Value) -> String",
        Type::Fn {
            args: vec![Type::Value],
            variadic_arg: None,
            return_type: Type::String.into(),
        }
        .name()
    );
}

#[test]
fn test_name_fn_2_args() {
    assert_eq!(
        "Fn(Value, String) -> String",
        Type::Fn {
            args: vec![Type::Value, Type::String],
            variadic_arg: None,
            return_type: Type::String.into(),
        }
        .name()
    );
}

#[test]
fn test_name_fn_2_args_and_varadic() {
    assert_eq!(
        "Fn(Value, String, ...Value) -> String",
        Type::Fn {
            args: vec![Type::Value, Type::String],
            variadic_arg: Some(Type::Value.into()),
            return_type: Type::String.into(),
        }
        .name()
    );
}

#[test]
fn test_name_bool() {
    assert_eq!("Bool", Type::Bool.name());
}

#[test]
fn name_of_nested_type_and_unknown() {
    assert_eq!("Type<String>", Type::Type(Box::new(Type::String)).name());
    assert_eq!("Unknown", Type::Unknown.name());
}
