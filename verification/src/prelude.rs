//! The items most programs using the library need, in one place.
pub use crate::ast::{Expr, ExprBool, ExprCall, ExprIdentifier, ExprS, ExprString, IdentifierKind};
pub use crate::builtins::{BuiltinFn, BuiltinImpl, FnArg, FnArity};
pub use crate::compiler::{compile, get_version_bytes, try_compile, CompileTimeEnv, ExprByteCode};
pub use crate::errors::{CompileError, ExprError, ExprErrorS, ExprResult, LexicalError, RuntimeError, SyntaxError};
pub use crate::lexer::{lex, LexItem, Lexer, Token};
pub use crate::lookup;
pub use crate::opcode;
pub use crate::parser::{parse, ParseError};
pub use crate::span::{Span, Spanned};
pub use crate::types::Type;
pub use crate::value::Value;
pub use crate::vm::{RuntimeEnv, Vm};
