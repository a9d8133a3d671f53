use reqlang_expr::compiler::{get_version_bytes, CompileTimeEnv, ExprByteCode};
use reqlang_expr::opcode;

#[test]
pub fn current_version_bytes() {
    let version_bytes = get_version_bytes();

    assert_eq!(version_bytes, [0, 8, 0, 0]);
}

#[test]
pub fn valid_bytecode_version_bytes() {
    let mut codes = get_version_bytes().to_vec();
    codes.push(opcode::TRUE);

    ExprByteCode::new(codes.to_vec(), vec![], vec![]);
}

#[test]
pub fn get_version_bytes_from_bytecode() {
    let mut codes = get_version_bytes().to_vec();
    codes.push(opcode::TRUE);

    let bytecode = ExprByteCode::new(codes.to_vec(), vec![], vec![]);

    assert_eq!(bytecode.version(), &get_version_bytes());
}

#[test]
fn adding_a_client_context_key_twice_adds_it_once() {
    let mut env = CompileTimeEnv::new(vec![], vec![], vec![], vec!["a".to_string()]);
    assert_eq!(0, env.add_to_client_context("a"));
    assert_eq!(1, env.add_to_client_context("b"));
    assert_eq!(1, env.add_to_client_context("b"));
    assert_eq!(Some(&"b".to_string()), env.get_client_context(1));
    assert_eq!(None, env.get_client_context(2));
    assert_eq!(Some((&"b".to_string(), 1u8)), env.get_client_context_index("b"));
}
