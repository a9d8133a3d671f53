use reqlang_expr::compiler::{get_version_bytes, CompileTimeEnv, ExprByteCode};
use reqlang_expr::errors::{ExprError, RuntimeError};
use reqlang_expr::lookup;
use reqlang_expr::opcode;
use reqlang_expr::vm::{RuntimeEnv, Vm};

#[test]
fn test_popping_from_empty_stack() {
    let mut vm = Vm::new();

    let mut codes = get_version_bytes().to_vec();

    // Get builtin function `id`
    codes.push(opcode::GET);
    codes.push(lookup::BUILTIN);
    codes.push(0);

    // Specify call will be passing 1 argument
    // but don't push the bytecode for the argument passed
    codes.push(opcode::CALL);
    codes.push(1);

    let bytecode = Box::new(ExprByteCode::new(codes, vec![], vec![]));
    let env = CompileTimeEnv::default();
    let runtime_env = RuntimeEnv::default();

    assert_eq!(
        Err(vec![(
            ExprError::RuntimeError(RuntimeError::EmptyStack),
            0..0
        )]),
        vm.interpret(bytecode, &env, &runtime_env)
    );
}
