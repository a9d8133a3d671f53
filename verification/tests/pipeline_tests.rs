use reqlang_expr::ast::{Expr, ExprCall};
use reqlang_expr::builtins::{BuiltinFn, BuiltinImpl};
use reqlang_expr::compiler::{compile, get_version_bytes, CompileTimeEnv, ExprByteCode};
use reqlang_expr::disassembler::Disassembler;
use reqlang_expr::errors::{CompileError, ExprResult, LexicalError, SyntaxError};
use reqlang_expr::lexer::{lex, Token};
use reqlang_expr::lookup;
use reqlang_expr::opcode;
use reqlang_expr::parser::parse;
use reqlang_expr::types::Type;
use reqlang_expr::value::Value;
use reqlang_expr::vm::{RuntimeEnv, Vm};

fn make_test_bytecode(input: Vec<u8>) -> Vec<u8> {
    let mut codes = get_version_bytes().to_vec();
    codes.extend(input);
    codes
}

fn foo_builtin() -> BuiltinFn {
    BuiltinFn {
        name: String::from("foo"),
        args: vec![],
        return_type: Type::String,
        func: BuiltinImpl::Returns(String::new()),
    }
}

fn test_env(vars: Vec<&str>, prompts: Vec<&str>, secrets: Vec<&str>, builtins: Vec<BuiltinFn>) -> (CompileTimeEnv, usize) {
    let owned = |v: Vec<&str>| v.into_iter().map(String::from).collect::<Vec<String>>();
    let mut env = CompileTimeEnv::new(owned(vars), owned(prompts), owned(secrets), vec![]);
    env.add_user_builtins(builtins);
    let i = env.add_to_client_context("intest");
    (env, i)
}

fn compile_source(source: &str, env: &CompileTimeEnv) -> ExprResult<ExprByteCode> {
    let ast = parse(source)?;
    compile(&(ast, 0..source.len()), env)
}

fn interpret_source(source: &str, env: &CompileTimeEnv, i: usize, mut runtime_env: RuntimeEnv) -> ExprResult<Value> {
    let bytecode = compile_source(source, env)?;
    runtime_env.add_to_client_context(i, Value::Bool(true));
    let mut vm = Vm::new();
    vm.interpret(Box::new(bytecode), env, &runtime_env)
}

fn expected_expr() -> Vec<String> {
    vec![r#""(""#.to_string(), r#""true""#.to_string(), r#""false""#.to_string(), "string".to_string(), "identifier".to_string()]
}

fn expected_in_call() -> Vec<String> {
    vec![
        r#""(""#.to_string(),
        r#"")""#.to_string(),
        r#""true""#.to_string(),
        r#""false""#.to_string(),
        "string".to_string(),
        "identifier".to_string(),
    ]
}

#[test]
fn user_builtin_identifier_scenario() {
    let source = "foo";
    assert_eq!(vec![Ok((0, Token::identifier("foo"), 3))], lex(source));
    assert_eq!(Ok(Expr::identifier("foo")), parse(source));
    let (env, i) = test_env(vec![], vec![], vec![], vec![foo_builtin()]);
    let bytecode = compile_source(source, &env);
    assert_eq!(
        Ok(ExprByteCode::new(make_test_bytecode(vec![opcode::GET, lookup::USER_BUILTIN, 0]), vec![], vec![])),
        bytecode
    );
    let bytecode = bytecode.unwrap();
    assert_eq!(
        "VERSION 0800\n----\n0000 GET USER_BUILTIN    0 == 'foo'\n",
        Disassembler::new(&bytecode, &env).disassemble()
    );
    assert_eq!(Ok(Value::Fn(Box::new(foo_builtin()))), interpret_source(source, &env, i, RuntimeEnv::default()));
}

#[test]
fn string_literal_scenario() {
    let source = "`test string`";
    assert_eq!(vec![Ok((0, Token::String("test string".to_string()), 13))], lex(source));
    assert_eq!(Ok(Expr::string("test string")), parse(source));
    let (env, i) = test_env(vec![], vec![], vec![], vec![]);
    let bytecode = compile_source(source, &env).unwrap();
    assert_eq!(
        ExprByteCode::new(
            make_test_bytecode(vec![opcode::CONSTANT, 0]),
            vec![Value::String("test string".to_string())],
            vec![]
        ),
        bytecode
    );
    assert_eq!(
        "VERSION 0800\n----\n0000 CONSTANT            0 == 'test string'\n",
        Disassembler::new(&bytecode, &env).disassemble()
    );
    assert_eq!(Ok(Value::String("test string".to_string())), interpret_source(source, &env, i, RuntimeEnv::default()));
}

#[test]
fn call_noop_scenario() {
    let source = "(noop)";
    assert_eq!(
        vec![Ok((0, Token::LParan, 1)), Ok((1, Token::identifier("noop"), 5)), Ok((5, Token::RParan, 6))],
        lex(source)
    );
    assert_eq!(Ok(Expr::call((Expr::identifier("noop"), 1..5), vec![])), parse(source));
    let (env, i) = test_env(vec![], vec![], vec![], vec![]);
    let bytecode = compile_source(source, &env).unwrap();
    assert_eq!(
        ExprByteCode::new(make_test_bytecode(vec![opcode::GET, lookup::BUILTIN, 1, opcode::CALL, 0]), vec![], vec![]),
        bytecode
    );
    assert_eq!(
        "VERSION 0800\n----\n0000 GET BUILTIN         1 == 'noop'\n0003 CALL             (0 args)\n",
        Disassembler::new(&bytecode, &env).disassemble()
    );
    assert_eq!(Ok(Value::String("noop".to_string())), interpret_source(source, &env, i, RuntimeEnv::default()));
}

#[test]
fn call_id_with_noop_call_scenario() {
    let source = "(id (noop))";
    assert_eq!(
        vec![
            Ok((0, Token::LParan, 1)),
            Ok((1, Token::identifier("id"), 3)),
            Ok((4, Token::LParan, 5)),
            Ok((5, Token::identifier("noop"), 9)),
            Ok((9, Token::RParan, 10)),
            Ok((10, Token::RParan, 11)),
        ],
        lex(source)
    );
    assert_eq!(
        Ok(Expr::call(
            (Expr::identifier("id"), 1..3),
            vec![(Expr::call((Expr::identifier("noop"), 5..9), vec![]), 4..10)]
        )),
        parse(source)
    );
    let (env, i) = test_env(vec![], vec![], vec![], vec![]);
    let bytecode = compile_source(source, &env).unwrap();
    assert_eq!(
        ExprByteCode::new(
            make_test_bytecode(vec![
                opcode::GET, lookup::BUILTIN, 0, opcode::GET, lookup::BUILTIN, 1, opcode::CALL, 0, opcode::CALL, 1
            ]),
            vec![],
            vec![]
        ),
        bytecode
    );
    assert_eq!(
        "VERSION 0800\n----\n0000 GET BUILTIN         0 == 'id'\n0003 GET BUILTIN         1 == 'noop'\n0006 CALL             (0 args)\n0008 CALL             (1 args)\n",
        Disassembler::new(&bytecode, &env).disassemble()
    );
    assert_eq!(Ok(Value::String("noop".to_string())), interpret_source(source, &env, i, RuntimeEnv::default()));
}

#[test]
fn call_id_with_var_scenario() {
    let source = "(id :b)";
    assert_eq!(
        Ok(Expr::call((Expr::identifier("id"), 1..3), vec![(Expr::identifier_with_type(":b", Type::String), 4..6)])),
        parse(source)
    );
    let (env, i) = test_env(vec!["b"], vec![], vec![], vec![]);
    let bytecode = compile_source(source, &env).unwrap();
    assert_eq!(
        "VERSION 0800\n----\n0000 GET BUILTIN         0 == 'id'\n0003 GET VAR             0 == 'b'\n0006 CALL             (1 args)\n",
        Disassembler::new(&bytecode, &env).disassemble()
    );
    let runtime_env = RuntimeEnv { vars: vec!["b_value".to_string()], ..Default::default() };
    assert_eq!(Ok(Value::String("b_value".to_string())), interpret_source(source, &env, i, runtime_env));
}

#[test]
fn identifier_kinds_get_their_types() {
    assert_eq!(Ok(Expr::identifier_with_type("?b", Type::String)), parse("?b"));
    assert_eq!(Ok(Expr::identifier_with_type("!b", Type::String)), parse("!b"));
    assert_eq!(Ok(Expr::identifier_with_type("@b", Type::Value)), parse("@b"));
}

#[test]
fn client_context_scenario() {
    let source = "@intest";
    let (env, i) = test_env(vec![], vec![], vec![], vec![]);
    let bytecode = compile_source(source, &env).unwrap();
    assert_eq!(
        "VERSION 0800\n----\n0000 GET CLIENT_CTX      0 == 'intest'\n",
        Disassembler::new(&bytecode, &env).disassemble()
    );
    assert_eq!(Ok(Value::Bool(true)), interpret_source(source, &env, i, RuntimeEnv::default()));
}

#[test]
fn prompts_and_secrets_scenario() {
    let (env, i) = test_env(vec![], vec!["p"], vec!["s"], vec![]);
    let runtime_env = || RuntimeEnv {
        prompts: vec!["prompt value".to_string()],
        secrets: vec!["secret value".to_string()],
        ..Default::default()
    };
    assert_eq!(Ok(Value::String("prompt value".to_string())), interpret_source("(id ?p)", &env, i, runtime_env()));
    assert_eq!(Ok(Value::Bool(true)), interpret_source("(contains `value` !s)", &env, i, runtime_env()));
}

#[test]
fn booleans_and_logic_scenarios() {
    let (env, i) = test_env(vec![], vec![], vec![], vec![]);
    let run = |s: &str| interpret_source(s, &env, i, RuntimeEnv::default());
    assert_eq!(Ok(Value::Bool(true)), run("true"));
    assert_eq!(Ok(Value::Bool(false)), run("false"));
    assert_eq!(Ok(Value::Bool(false)), run("(not true)"));
    assert_eq!(Ok(Value::Bool(false)), run("(and true false)"));
    assert_eq!(Ok(Value::Bool(true)), run("(and true true)"));
    assert_eq!(Ok(Value::Bool(true)), run("(or false true)"));
    assert_eq!(Ok(Value::Bool(false)), run("(or false false)"));
    assert_eq!(Ok(Value::String("foo".to_string())), run("(cond true `foo` `bar`)"));
    assert_eq!(Ok(Value::String("bar".to_string())), run("(cond false `foo` `bar`)"));
}

#[test]
fn string_builtin_scenarios() {
    let (env, i) = test_env(vec![], vec![], vec![], vec![]);
    let run = |s: &str| interpret_source(s, &env, i, RuntimeEnv::default());
    assert_eq!(Ok(Value::Bool(true)), run("(is_empty ``)"));
    assert_eq!(Ok(Value::Bool(false)), run("(is_empty `foo`)"));
    assert_eq!(Ok(Value::String("foo".to_string())), run("(to_str `foo`)"));
    assert_eq!(Ok(Value::String("true".to_string())), run("(to_str true)"));
    assert_eq!(Ok(Value::String("id(value: Value) -> Value".to_string())), run("(to_str id)"));
    assert_eq!(Ok(Value::String("foobar".to_string())), run("(concat `foo` `bar`)"));
    assert_eq!(Ok(Value::String("abcdefghij".to_string())), run("(concat `a` `b` `c` `d` `e` `f` `g` `h` `i` `j`)"));
    assert_eq!(Ok(Value::String("foofalse".to_string())), run("(concat `foo` false)"));
    assert_eq!(Ok(Value::Bool(true)), run("(contains `foo` `foobar`)"));
    assert_eq!(Ok(Value::Bool(false)), run("(contains `baz` `foobar`)"));
    assert_eq!(Ok(Value::String("Hello".to_string())), run("(trim ` Hello `)"));
    assert_eq!(Ok(Value::String("Hello ".to_string())), run("(trim_start ` Hello `)"));
    assert_eq!(Ok(Value::String(" Hello".to_string())), run("(trim_end ` Hello `)"));
    assert_eq!(Ok(Value::String("hello".to_string())), run("(lowercase `HeLLo`)"));
    assert_eq!(Ok(Value::String("HELLO".to_string())), run("(uppercase `HeLLo`)"));
}

#[test]
fn type_and_eq_scenarios() {
    let (env, i) = test_env(vec![], vec![], vec![], vec![]);
    let run = |s: &str| interpret_source(s, &env, i, RuntimeEnv::default());
    assert_eq!(Ok(Value::Type(Box::new(Type::Type(Box::new(Type::String))))), run("(type `foo`)"));
    assert_eq!(Ok(Value::Type(Box::new(Type::Type(Box::new(Type::Bool))))), run("(type true)"));
    assert_eq!(
        Ok(Value::Type(Box::new(Type::Type(Box::new(Type::Fn {
            args: vec![Type::Value, Type::Value],
            variadic_arg: Some(Box::new(Type::Value)),
            return_type: Box::new(Type::String),
        }))))),
        run("(type concat)")
    );
    assert_eq!(Ok(Value::Bool(true)), run("(eq true true)"));
    assert_eq!(Ok(Value::Bool(false)), run("(eq false true)"));
    assert_eq!(Ok(Value::Bool(true)), run("(eq `a` `a`)"));
    assert_eq!(Ok(Value::Bool(false)), run("(eq `a` `b`)"));
    assert_eq!(Ok(Value::Bool(true)), run("(eq id id)"));
    assert_eq!(Ok(Value::Bool(false)), run("(eq id noop)"));
    assert_eq!(Ok(Value::String("foo".to_string())), run("((id id) `foo`)"));
}

#[test]
fn jsonobj_scenarios() {
    let (env, i) = test_env(vec![], vec![], vec![], vec![]);
    let run = |s: &str| interpret_source(s, &env, i, RuntimeEnv::default());
    assert_eq!(
        Ok(Value::String("\"Hello\"".to_string())),
        run("(jsonobj `{\"greeting\": \"Hello\", \"name\": \"World\"}` `greeting`)")
    );
    assert_eq!(Ok(Value::String("[1,2]".to_string())), run("(jsonobj `{\"a\": {\"b\": [1, 2]}}` `a` `b`)"));
    assert_eq!(Ok(Value::String("{\"a\":1}".to_string())), run("(jsonobj `{\"a\": 1}` `z`)"));
    assert_eq!(Ok(Value::String("{\"a\":1}".to_string())), run("(jsonobj `{\"a\": 1}` true)"));
}

#[test]
fn jsonobj_reads_the_json_once() {
    let (env, i) = test_env(vec![], vec![], vec![], vec![]);
    let run = |s: &str| interpret_source(s, &env, i, RuntimeEnv::default());
    for number in ["1.1703423503260529e45", "0.30000000000000004", "2.2250738585072014e-308", "9.007199254740993e15"] {
        let json = format!("{{\"a\": {{\"b\": {}}}}}", number);
        let parsed: serde_json::Value = serde_json::from_str(&json).unwrap();
        let expected = parsed["a"]["b"].to_string();
        assert_eq!(Ok(Value::String(expected)), run(&format!("(jsonobj `{}` `a` `b`)", json)));
    }
}

#[test]
fn jsonobj_stops_on_a_key_into_a_non_object() {
    let (env, _) = test_env(vec![], vec![], vec![], vec![]);
    let bytecode = compile_source("(jsonobj `{\"a\": 1}` `a` `b`)", &env).unwrap();
    let mut vm = Vm::new();
    assert_eq!(None, vm.try_interpret(Box::new(bytecode), &env, &RuntimeEnv::default()));
}

#[test]
fn runtime_type_mismatch_from_builtin() {
    let (env, i) = test_env(vec!["b"], vec![], vec![], vec![]);
    let runtime_env = RuntimeEnv { vars: vec!["x".to_string()], ..Default::default() };
    assert_eq!(
        Err(vec![(
            reqlang_expr::errors::RuntimeError::TypeMismatch { expected: Type::Bool, actual: Type::String }.into(),
            0..0
        )]),
        interpret_source("(not :b)", &env, i, runtime_env)
    );
}

#[test]
fn unit_is_a_syntax_error() {
    let source = "()";
    assert_eq!(vec![Ok((0, Token::LParan, 1)), Ok((1, Token::RParan, 2))], lex(source));
    assert_eq!(
        Err(vec![(SyntaxError::UnrecognizedToken { token: String::from(")"), expected: expected_expr() }.into(), 1..2)]),
        parse(source)
    );
}

#[test]
fn identifier_starting_with_invalid_character() {
    let source = ".foo";
    assert_eq!(vec![Err((LexicalError::InvalidToken.into(), 0..0)), Ok((1, Token::identifier("foo"), 4))], lex(source));
    assert_eq!(Err(vec![(LexicalError::InvalidToken.into(), 0..0)]), parse(source));
}

#[test]
fn identifier_after_identifier_is_extra() {
    let source = "foo!bar";
    assert_eq!(vec![Ok((0, Token::identifier("foo"), 3)), Ok((3, Token::identifier("!bar"), 7))], lex(source));
    assert_eq!(
        Err(vec![(SyntaxError::UnrecognizedToken { token: String::from("!bar"), expected: vec![] }.into(), 3..7)]),
        parse(source)
    );
    assert_eq!(
        Err(vec![(SyntaxError::UnrecognizedToken { token: String::from("bar"), expected: vec![] }.into(), 4..7)]),
        parse("foo bar")
    );
}

#[test]
fn unterminated_string_is_one_lex_error() {
    let source = "`test string";
    assert_eq!(vec![Err((LexicalError::InvalidToken.into(), 0..0))], lex(source));
    assert_eq!(Err(vec![(LexicalError::InvalidToken.into(), 0..0)]), parse(source));
}

#[test]
fn missing_end_paran_is_unexpected_end() {
    assert_eq!(
        Err(vec![(SyntaxError::UnrecognizedEOF { expected: expected_in_call() }.into(), 19..19)]),
        parse("(to_str (id (noop))")
    );
    assert_eq!(Err(vec![(SyntaxError::UnrecognizedEOF { expected: expected_expr() }.into(), 0..0)]), parse(""));
    assert_eq!(Err(vec![(SyntaxError::UnrecognizedEOF { expected: expected_expr() }.into(), 1..1)]), parse("(  "));
}

#[test]
fn keywords_and_spans_with_multibyte_text() {
    assert_eq!(
        vec![
            Ok((0, Token::LParan, 1)),
            Ok((1, Token::String("é".to_string()), 5)),
            Ok((6, Token::True, 10)),
            Ok((11, Token::identifier("trueish"), 18)),
            Ok((18, Token::RParan, 19)),
        ],
        lex("(`é` true trueish)")
    );
    assert_eq!(vec![Err((LexicalError::InvalidToken.into(), 0..0)), Ok((3, Token::False, 8))], lex("é false"));
    assert_eq!(
        vec![Err((LexicalError::InvalidToken.into(), 0..0)), Err((LexicalError::InvalidToken.into(), 0..0))],
        lex("!1")
    );
}

#[test]
fn undefined_identifiers_scenario() {
    let (env, _) = test_env(vec![], vec![], vec![], vec![]);
    assert_eq!(Err(vec![(CompileError::Undefined("foo".to_string()).into(), 0..3)]), compile_source("foo", &env));
    assert_eq!(
        Err(vec![
            (CompileError::Undefined("foo".to_string()).into(), 8..11),
            (CompileError::Undefined("foo".to_string()).into(), 12..15)
        ]),
        compile_source("(concat foo foo)", &env)
    );
    assert_eq!(
        Ok(Expr::Call(Box::new(ExprCall {
            callee: (Expr::identifier("concat"), 1..7),
            args: vec![(Expr::identifier("foo"), 8..11), (Expr::identifier("foo"), 12..15)]
        }))),
        parse("(concat foo foo)")
    );
}

#[test]
fn wrong_arguments_scenarios() {
    let (env, _) = test_env(vec![], vec![], vec![], vec![]);
    assert_eq!(
        Err(vec![(CompileError::WrongNumberOfArgs { expected: 1, actual: 0 }.into(), 0..5)]),
        compile_source("(not)", &env)
    );
    assert_eq!(
        Err(vec![(CompileError::WrongNumberOfArgs { expected: 1, actual: 2 }.into(), 0..16)]),
        compile_source("(not true false)", &env)
    );
    assert_eq!(
        Err(vec![(CompileError::TypeMismatch { expected: Type::Bool, actual: Type::String }.into(), 5..11)]),
        compile_source("(not `true`)", &env)
    );
    assert_eq!(
        Err(vec![
            (CompileError::WrongNumberOfArgs { expected: 1, actual: 2 }.into(), 0..17),
            (CompileError::TypeMismatch { expected: Type::Bool, actual: Type::String }.into(), 5..11)
        ]),
        compile_source("(not `true` true)", &env)
    );
}

#[test]
fn repeated_strings_share_a_constant() {
    let (env, _) = test_env(vec![], vec![], vec![], vec![]);
    let bytecode = compile_source("(concat `a` `b` `a`)", &env).unwrap();
    assert_eq!(
        vec![Value::String("a".to_string()), Value::String("b".to_string())],
        bytecode.constants().iter().map(|v| v.duplicate()).collect::<Vec<Value>>()
    );
    assert_eq!(
        &[opcode::GET, lookup::BUILTIN, 7, opcode::CONSTANT, 0, opcode::CONSTANT, 1, opcode::CONSTANT, 0, opcode::CALL, 3],
        bytecode.codes()
    );
}

#[test]
fn call_code_is_callee_then_arguments_then_call() {
    let (env, _) = test_env(vec!["a", "b"], vec!["p"], vec![], vec![]);
    let bytecode = compile_source("(concat `x` :b (concat ?p `x` `y`))", &env).unwrap();
    let concat = 7u8;
    let expected = make_test_bytecode(vec![
        opcode::GET, lookup::BUILTIN, concat,
        opcode::CONSTANT, 0,
        opcode::GET, lookup::VAR, 1,
        opcode::GET, lookup::BUILTIN, concat,
        opcode::GET, lookup::PROMPT, 0,
        opcode::CONSTANT, 0,
        opcode::CONSTANT, 1,
        opcode::CALL, 3,
        opcode::CALL, 3,
    ]);
    assert_eq!(&get_version_bytes(), bytecode.version());
    assert_eq!(&expected[4..], bytecode.codes());
    assert_eq!(&[Value::String("x".to_string()), Value::String("y".to_string())], bytecode.constants());
}

#[test]
fn compiled_code_refers_only_to_what_exists() {
    let (env, _) = test_env(vec!["a", "b"], vec!["p"], vec!["s"], vec![]);
    let bytecode = compile_source("(concat `x` :b !s (concat ?p `x` `y` (to_str (eq `z` `x`))))", &env).unwrap();
    let codes = bytecode.codes();
    let mut ip = 0;
    while ip < codes.len() {
        match codes[ip] {
            op if op == opcode::GET => {
                let len = match codes[ip + 1] {
                    l if l == lookup::BUILTIN => BuiltinFn::default_builtins().len(),
                    l if l == lookup::VAR => 2,
                    l if l == lookup::PROMPT => 1,
                    l if l == lookup::SECRET => 1,
                    l => panic!("unexpected lookup {}", l),
                };
                assert!((codes[ip + 2] as usize) < len);
                ip += 3;
            }
            op if op == opcode::CONSTANT => {
                assert!((codes[ip + 1] as usize) < bytecode.constants().len());
                ip += 2;
            }
            op if op == opcode::CALL => ip += 2,
            op if op == opcode::TRUE || op == opcode::FALSE => ip += 1,
            op => panic!("unexpected op code {}", op),
        }
    }
    assert_eq!(codes.len(), ip);
    assert_eq!(3, bytecode.constants().len());
}
