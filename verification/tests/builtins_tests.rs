use reqlang_expr::builtins::{BuiltinFn, BuiltinImpl, FnArg};
use reqlang_expr::types::Type;

fn example_builtin() -> BuiltinImpl {
    BuiltinImpl::Returns(String::new())
}

#[test]
fn test_builtins_display_var_arity() {
    let f = BuiltinFn {
        name: String::from("test_builtin"),
        args: vec![FnArg::new_varadic("rest", Type::String)],
        return_type: Type::String,
        func: example_builtin(),
    };
    assert_eq!("test_builtin(...rest: String) -> String", f.signature())
}

#[test]
fn test_builtins_display_0_arity() {
    assert_eq!(
        "test_builtin() -> String",
        BuiltinFn {
            name: String::from("test_builtin"),
            args: vec![],
            return_type: Type::String,
            func: example_builtin()
        }
        .signature()
    )
}

#[test]
fn test_builtins_debug_0_arity() {
    assert_eq!(
        "test_builtin() -> String",
        BuiltinFn {
            name: String::from("test_builtin"),
            args: vec![],
            return_type: Type::String,
            func: example_builtin()
        }
        .signature()
    )
}

#[test]
fn test_builtins_display_1_arity() {
    assert_eq!(
        "test_builtin(value: String) -> String",
        BuiltinFn {
            name: String::from("test_builtin"),
            args: vec![FnArg::new("value", Type::String)],
            return_type: Type::String,
            func: example_builtin()
        }
        .signature()
    )
}

#[test]
fn test_builtins_debug_1_arity() {
    assert_eq!(
        "test_builtin(value: String) -> String",
        BuiltinFn {
            name: String::from("test_builtin"),
            args: vec![FnArg::new("value", Type::String)],
            return_type: Type::String,
            func: example_builtin()
        }
        .signature()
    )
}

#[test]
fn test_builtins_display_2_arity() {
    assert_eq!(
        "test_builtin(a: String, b: String) -> String",
        BuiltinFn {
            name: String::from("test_builtin"),
            args: vec![FnArg::new("a", Type::String), FnArg::new("b", Type::String)],
            return_type: Type::String,
            func: example_builtin()
        }
        .signature()
    )
}

#[test]
fn test_builtins_debug_2_arity() {
    assert_eq!(
        "test_builtin(a: String, b: String) -> String",
        BuiltinFn {
            name: String::from("test_builtin"),
            args: vec![FnArg::new("a", Type::String), FnArg::new("b", Type::String)],
            return_type: Type::String,
            func: example_builtin()
        }
        .signature()
    )
}

#[test]
fn arity_of_fixed_and_variadic_builtins() {
    let not = BuiltinFn::NOT();
    assert_eq!(1, not.arity());
    assert!(!not.is_variadic());
    assert!(not.arity_matches(1));
    assert!(!not.arity_matches(0));
    assert!(!not.arity_matches(2));

    let concat = BuiltinFn::CONCAT();
    assert_eq!(2, concat.arity());
    assert!(concat.is_variadic());
    assert!(!concat.arity_matches(1));
    assert!(concat.arity_matches(2));
    assert!(concat.arity_matches(5));
}

#[test]
fn default_builtins_are_in_lookup_order() {
    let names: Vec<String> = BuiltinFn::default_builtins().into_iter().map(|f| f.name).collect();
    assert_eq!(
        vec![
            "id", "noop", "is_empty", "and", "or", "cond", "to_str", "concat", "contains", "trim",
            "trim_start", "trim_end", "lowercase", "uppercase", "type", "eq", "not", "jsonobj"
        ],
        names
    );
}

#[test]
fn builtin_type_from_filters_variadic_arguments() {
    let ty: Type = BuiltinFn::CONCAT().into();
    assert_eq!(
        Type::Fn {
            args: vec![Type::Value, Type::Value],
            variadic_arg: Some(Box::new(Type::Value)),
            return_type: Box::new(Type::String),
        },
        ty
    );
    assert_eq!("Fn(Value, Value, ...Value) -> String", ty.name());
}
