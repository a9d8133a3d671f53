//! Abstract syntax tree types
use vstd::prelude::*;
use crate::span::{Span, Spanned};
use crate::text::owned;
use crate::types::{Type, TypeM};

verus! {

broadcast use vstd::std_specs::vec::group_vec_axioms;

/// An expression.
#[derive(Debug, PartialEq)]
pub enum Expr {
    Bool(Box<ExprBool>),
    Identifier(Box<ExprIdentifier>),
    Call(Box<ExprCall>),
    String(Box<ExprString>),
    Error,
}

/// An identifier: its full text, its kind, and its type where known.
#[derive(Debug, PartialEq)]
pub struct ExprIdentifier(pub String, pub IdentifierKind, pub Option<Type>);

/// What an identifier refers to, given by its sigil.
#[derive(Debug, PartialEq, Eq, Structural, Clone, Copy)]
pub enum IdentifierKind {
    Builtin,
    Var,
    Prompt,
    Secret,
    Client,
}

/// A string literal.
#[derive(Debug, PartialEq)]
pub struct ExprString(pub String);

/// A call: the callee and its arguments.
#[derive(Debug, PartialEq)]
pub struct ExprCall {
    pub callee: ExprS,
    pub args: Vec<ExprS>,
}

/// A boolean literal.
#[derive(Debug, PartialEq)]
pub struct ExprBool(pub bool);

/// An expression with its span.
pub type ExprS = Spanned<Expr>;

/// The model of an [`Expr`].
pub enum ExprM {
    Bool(bool),
    Ident(Seq<char>, IdentifierKind, Option<TypeM>),
    Call(Box<ExprSM>, Seq<ExprSM>),
    Str(Seq<char>),
    Error,
}

/// The model of an expression with its span: the expression and the span's bounds.
pub type ExprSM = (ExprM, usize, usize);

/// The model of an expression.
pub open spec fn expr_view(e: &Expr) -> ExprM
    decreases e,
{
    match e {
        Expr::Bool(b) => ExprM::Bool(b.0),
        Expr::Identifier(i) => ExprM::Ident(
            i.0@,
            i.1,
            match &i.2 {
                Some(t) => Some(t@),
                None => None,
            },
        ),
        Expr::Call(c) => ExprM::Call(Box::new(expr_s_view(&c.callee)), exprs_view(c.args@)),
        Expr::String(s) => ExprM::Str(s.0@),
        Expr::Error => ExprM::Error,
    }
}

/// The model of an expression with its span.
pub open spec fn expr_s_view(e: &ExprS) -> ExprSM
    decreases e,
{
    (expr_view(&e.0), e.1.start, e.1.end)
}

/// The models of a sequence of expressions with spans.
pub open spec fn exprs_view(es: Seq<ExprS>) -> Seq<ExprSM>
    decreases es,
{
    if es.len() == 0 {
        Seq::empty()
    } else {
        seq![expr_s_view(&es[0])] + exprs_view(es.drop_first())
    }
}

/// The models of a sequence, one by one.
pub proof fn lemma_exprs_view(es: Seq<ExprS>)
    ensures
        exprs_view(es).len() == es.len(),
        forall|i: int| 0 <= i < es.len() ==> #[trigger] exprs_view(es)[i] == expr_s_view(&es[i]),
    decreases es.len(),
{
    if es.len() > 0 {
        lemma_exprs_view(es.drop_first());
        assert forall|i: int| 0 <= i < es.len() implies #[trigger] exprs_view(es)[i] == expr_s_view(&es[i]) by {
            if i > 0 {
                assert(es.drop_first()[i - 1] == es[i]);
            }
        }
    }
}

impl View for Expr {
    type V = ExprM;

    open spec fn view(&self) -> ExprM {
        expr_view(self)
    }
}

/// The kind of an identifier given its first character.
pub open spec fn kind_of_sigil(c: char) -> IdentifierKind {
    if c == '?' {
        IdentifierKind::Prompt
    } else if c == '!' {
        IdentifierKind::Secret
    } else if c == ':' {
        IdentifierKind::Var
    } else if c == '@' {
        IdentifierKind::Client
    } else {
        IdentifierKind::Builtin
    }
}

/// Whether the first character of `s` can be cut off as a one byte sigil.
pub open spec fn has_ascii_head(s: Seq<char>) -> bool {
    s.len() > 0 && (s[0] as u32) < 128
}

/// Whether the lookup name of an identifier can be taken: builtins always,
/// other kinds when the name starts with a one byte sigil.
pub open spec fn lookup_name_ok(name: Seq<char>, kind: IdentifierKind) -> bool {
    kind == IdentifierKind::Builtin || has_ascii_head(name)
}

/// The name an identifier is looked up by: without its sigil, except for builtins.
pub open spec fn lookup_name_of(name: Seq<char>, kind: IdentifierKind) -> Seq<char> {
    if kind == IdentifierKind::Builtin { name } else { name.drop_first() }
}

/// The type an expression is known to have before it runs.
pub open spec fn expr_type(e: ExprM) -> TypeM {
    match e {
        ExprM::Bool(_) => TypeM::Bool,
        ExprM::Str(_) => TypeM::String,
        _ => TypeM::Unknown,
    }
}

impl ExprIdentifier {
    /// An identifier for `identifier`, of the kind its sigil gives, without a type.
    pub fn new(identifier: &str) -> (r: Self)
        requires
            has_ascii_head(identifier@),
        ensures
            r.0@ == identifier@,
            r.1 == kind_of_sigil(identifier@[0]),
            r.2.is_none(),
    {
        Self(owned(identifier), Self::get_identifier_kind(identifier), None)
    }

    /// The kind of identifier its first character gives.
    pub fn get_identifier_kind(identifier: &str) -> (r: IdentifierKind)
        requires
            has_ascii_head(identifier@),
        ensures
            r == kind_of_sigil(identifier@[0]),
    {
        let c = identifier.get_char(0);
        if c == '?' {
            IdentifierKind::Prompt
        } else if c == '!' {
            IdentifierKind::Secret
        } else if c == ':' {
            IdentifierKind::Var
        } else if c == '@' {
            IdentifierKind::Client
        } else {
            IdentifierKind::Builtin
        }
    }

    /// The full name of the identifier from the source code, sigil included.
    pub fn full_name(&self) -> (r: &str)
        ensures
            r@ == self.0@,
    {
        self.0.as_str()
    }

    /// The look up name for the identifier: the name without its sigil for
    /// variables, prompts, secrets and client identifiers; the whole name for
    /// builtins.
    pub fn lookup_name(&self) -> (r: &str)
        requires
            lookup_name_ok(self.0@, self.1),
        ensures
            r@ == lookup_name_of(self.0@, self.1),
    {
        match self.1 {
            IdentifierKind::Builtin => self.0.as_str(),
            _ => {
                let s = self.0.as_str();
                let n = s.unicode_len();
                let r = s.substring_char(1, n);
                assert(r@ =~= s@.drop_first());
                r
            },
        }
    }

    /// The sigil, the first character of the identifier.
    pub fn sigil(&self) -> (r: &str)
        requires
            has_ascii_head(self.0@),
        ensures
            r@ == self.0@.take(1),
    {
        let s = self.0.as_str();
        let r = s.substring_char(0, 1);
        assert(r@ =~= s@.take(1));
        r
    }

    /// The kind of the identifier.
    pub fn identifier_kind(&self) -> (r: &IdentifierKind)
        ensures
            *r == self.1,
    {
        &self.1
    }

    /// The type the identifier is known to have, if any.
    pub fn get_type(&self) -> (r: &Option<Type>)
        ensures
            *r == self.2,
    {
        &self.2
    }
}

impl ExprString {
    /// A string literal of `string`.
    pub fn new(string: &str) -> (r: Self)
        ensures
            r.0@ == string@,
    {
        Self(owned(string))
    }
}

impl ExprBool {
    /// A boolean literal of `value`.
    pub fn new(value: bool) -> (r: Self)
        ensures
            r.0 == value,
    {
        Self(value)
    }
}

impl Expr {
    /// An identifier expression without a type.
    pub fn identifier(identifier: &str) -> (r: Self)
        requires
            has_ascii_head(identifier@),
        ensures
            r@ == ExprM::Ident(identifier@, kind_of_sigil(identifier@[0]), None),
    {
        Self::Identifier(Box::new(ExprIdentifier::new(identifier)))
    }

    /// An identifier expression of a known type.
    pub fn identifier_with_type(identifier: &str, ty: Type) -> (r: Self)
        requires
            has_ascii_head(identifier@),
        ensures
            r@ == ExprM::Ident(identifier@, kind_of_sigil(identifier@[0]), Some(ty@)),
    {
        let i = ExprIdentifier::new(identifier);
        Self::Identifier(Box::new(ExprIdentifier(i.0, i.1, Some(ty))))
    }

    /// The look up name of an identifier expression.
    pub fn identifier_name(&self) -> (r: Option<&str>)
        requires
            self matches Expr::Identifier(i) ==> lookup_name_ok(i.0@, i.1),
        ensures
            match self@ {
                ExprM::Ident(name, kind, _) => r matches Some(s) && s@ == lookup_name_of(name, kind),
                _ => r is None,
            },
    {
        match self {
            Expr::Identifier(i) => Some(i.lookup_name()),
            _ => None,
        }
    }

    /// A string literal expression.
    pub fn string(string: &str) -> (r: Self)
        ensures
            r@ == ExprM::Str(string@),
    {
        Self::String(Box::new(ExprString::new(string)))
    }

    /// A call expression.
    pub fn call(callee: ExprS, args: Vec<ExprS>) -> (r: Self)
        ensures
            r@ == ExprM::Call(Box::new(expr_s_view(&callee)), exprs_view(args@)),
    {
        Self::Call(Box::new(ExprCall { callee, args }))
    }

    /// A boolean literal expression.
    pub fn bool(value: bool) -> (r: Self)
        ensures
            r@ == ExprM::Bool(value),
    {
        Self::Bool(Box::new(ExprBool::new(value)))
    }

    /// Whether the expression is known to be a boolean.
    pub fn is_bool(&self) -> (r: bool)
        ensures
            r == (expr_type(self@) == TypeM::Bool),
    {
        match self {
            Expr::Bool(_) => true,
            _ => false,
        }
    }

    /// The type the expression is known to have before it runs.
    pub fn get_type(&self) -> (r: Type)
        ensures
            r@ == expr_type(self@),
    {
        match self {
            Expr::Bool(_) => Type::Bool,
            Expr::String(_) => Type::String,
            _ => Type::Unknown,
        }
    }
}

} // verus!
