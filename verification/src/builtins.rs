//! Builtin functions callable from expressions.
use vstd::prelude::*;
use crate::errors::{ExprErrorS, ExprResult, ErrorM, errors_view};
use crate::text::{owned, push_str, join_sep, string_views, join_strings, trim_of, trim_start_of,
    trim_end_of, occurs_in, trim_string, trim_start_string, trim_end_string, contains_str};
use crate::types::{Type, TypeM, ty_name};
use crate::value::{Value, ValueM, value_type, display_of, value_eq};
use serde_json::Value as JsonTree;

verus! {

/// An argument a builtin function expects.
#[derive(Debug)]
pub struct FnArg {
    pub name: String,
    pub ty: Type,
    pub variadic: bool,
}

/// The model of a [`FnArg`].
pub struct ArgM {
    pub name: Seq<char>,
    pub ty: TypeM,
    pub variadic: bool,
}

impl View for FnArg {
    type V = ArgM;

    open spec fn view(&self) -> ArgM {
        ArgM { name: self.name@, ty: self.ty@, variadic: self.variadic }
    }
}

/// The model of an argument with the given fields.
pub open spec fn arg_m(name: Seq<char>, ty: TypeM, variadic: bool) -> ArgM {
    ArgM { name, ty, variadic }
}

/// The models of a sequence of arguments.
pub open spec fn args_view(args: Seq<FnArg>) -> Seq<ArgM> {
    args.map_values(|a: FnArg| a@)
}

impl FnArg {
    /// A regular argument.
    pub fn new(name: &str, ty: Type) -> (r: Self)
        ensures
            r@ == arg_m(name@, ty@, false),
    {
        Self { name: owned(name), ty, variadic: false }
    }

    /// A variadic argument, which takes any number of values.
    pub fn new_varadic(name: &str, ty: Type) -> (r: Self)
        ensures
            r@ == arg_m(name@, ty@, true),
    {
        Self { name: owned(name), ty, variadic: true }
    }

    /// A copy of this argument.
    pub fn duplicate(&self) -> (r: Self)
        ensures
            r@ == self@,
    {
        FnArg { name: self.name.clone(), ty: self.ty.duplicate(), variadic: self.variadic }
    }
}

/// What a builtin function does when it is called.
#[derive(Debug, PartialEq)]
pub enum BuiltinImpl {
    Id,
    Noop,
    IsEmpty,
    And,
    Or,
    Cond,
    ToStr,
    Concat,
    Contains,
    Trim,
    TrimStart,
    TrimEnd,
    Lowercase,
    Uppercase,
    TypeOf,
    Eq,
    Not,
    JsonObj,
    /// A host defined function that ignores its arguments and returns this string.
    Returns(String),
}

/// The model of a [`BuiltinImpl`].
pub enum ImplM {
    Id,
    Noop,
    IsEmpty,
    And,
    Or,
    Cond,
    ToStr,
    Concat,
    Contains,
    Trim,
    TrimStart,
    TrimEnd,
    Lowercase,
    Uppercase,
    TypeOf,
    Eq,
    Not,
    JsonObj,
    Returns(Seq<char>),
}

impl View for BuiltinImpl {
    type V = ImplM;

    open spec fn view(&self) -> ImplM {
        match self {
            BuiltinImpl::Id => ImplM::Id,
            BuiltinImpl::Noop => ImplM::Noop,
            BuiltinImpl::IsEmpty => ImplM::IsEmpty,
            BuiltinImpl::And => ImplM::And,
            BuiltinImpl::Or => ImplM::Or,
            BuiltinImpl::Cond => ImplM::Cond,
            BuiltinImpl::ToStr => ImplM::ToStr,
            BuiltinImpl::Concat => ImplM::Concat,
            BuiltinImpl::Contains => ImplM::Contains,
            BuiltinImpl::Trim => ImplM::Trim,
            BuiltinImpl::TrimStart => ImplM::TrimStart,
            BuiltinImpl::TrimEnd => ImplM::TrimEnd,
            BuiltinImpl::Lowercase => ImplM::Lowercase,
            BuiltinImpl::Uppercase => ImplM::Uppercase,
            BuiltinImpl::TypeOf => ImplM::TypeOf,
            BuiltinImpl::Eq => ImplM::Eq,
            BuiltinImpl::Not => ImplM::Not,
            BuiltinImpl::JsonObj => ImplM::JsonObj,
            BuiltinImpl::Returns(s) => ImplM::Returns(s@),
        }
    }
}

impl BuiltinImpl {
    /// A copy of this implementation.
    pub fn duplicate(&self) -> (r: Self)
        ensures
            r@ == self@,
    {
        match self {
            BuiltinImpl::Id => BuiltinImpl::Id,
            BuiltinImpl::Noop => BuiltinImpl::Noop,
            BuiltinImpl::IsEmpty => BuiltinImpl::IsEmpty,
            BuiltinImpl::And => BuiltinImpl::And,
            BuiltinImpl::Or => BuiltinImpl::Or,
            BuiltinImpl::Cond => BuiltinImpl::Cond,
            BuiltinImpl::ToStr => BuiltinImpl::ToStr,
            BuiltinImpl::Concat => BuiltinImpl::Concat,
            BuiltinImpl::Contains => BuiltinImpl::Contains,
            BuiltinImpl::Trim => BuiltinImpl::Trim,
            BuiltinImpl::TrimStart => BuiltinImpl::TrimStart,
            BuiltinImpl::TrimEnd => BuiltinImpl::TrimEnd,
            BuiltinImpl::Lowercase => BuiltinImpl::Lowercase,
            BuiltinImpl::Uppercase => BuiltinImpl::Uppercase,
            BuiltinImpl::TypeOf => BuiltinImpl::TypeOf,
            BuiltinImpl::Eq => BuiltinImpl::Eq,
            BuiltinImpl::Not => BuiltinImpl::Not,
            BuiltinImpl::JsonObj => BuiltinImpl::JsonObj,
            BuiltinImpl::Returns(s) => BuiltinImpl::Returns(s.clone()),
        }
    }
}

/// A builtin function used in expressions.
#[derive(Debug)]
pub struct BuiltinFn {
    /// Needs to follow identifier naming rules
    pub name: String,
    /// Arguments the function expects
    pub args: Vec<FnArg>,
    /// Type returned by the function
    pub return_type: Type,
    /// What the function does when it is called
    pub func: BuiltinImpl,
}

/// The number of arguments a function takes: exactly `n`, or at least `n`.
#[derive(Debug, PartialEq, Eq, Structural)]
pub enum FnArity {
    N(u8),
    Variadic { n: u8 },
}

/// The model of a [`BuiltinFn`].
pub struct FnM {
    pub name: Seq<char>,
    pub args: Seq<ArgM>,
    pub return_type: TypeM,
    pub func: ImplM,
}

impl View for BuiltinFn {
    type V = FnM;

    open spec fn view(&self) -> FnM {
        FnM { name: self.name@, args: args_view(self.args@), return_type: self.return_type@, func: self.func@ }
    }
}

impl PartialEq for BuiltinFn {
    fn eq(&self, other: &Self) -> (r: bool) {
        self.name == other.name
    }
}

impl vstd::std_specs::cmp::PartialEqSpecImpl for BuiltinFn {
    open spec fn obeys_eq_spec() -> bool {
        true
    }

    open spec fn eq_spec(&self, other: &BuiltinFn) -> bool {
        self.name@ == other.name@
    }
}

/// Whether the last argument of `f` is variadic.
pub open spec fn fn_is_variadic(f: FnM) -> bool {
    f.args.len() > 0 && f.args.last().variadic
}

/// The number of arguments `f` requires, as the 8 bit count the compiler uses.
pub open spec fn fn_arity(f: FnM) -> int {
    if fn_is_variadic(f) { (f.args.len() % 256) - 1 } else { (f.args.len() % 256) as int }
}

/// Whether computing the arity of `f` stays in range.
pub open spec fn fn_arity_ok(f: FnM) -> bool {
    !(fn_is_variadic(f) && f.args.len() % 256 == 0)
}

/// Whether a call with `n` arguments fits `f`.
pub open spec fn fn_arity_matches(f: FnM, n: int) -> bool {
    if fn_is_variadic(f) { fn_arity(f) <= n } else { fn_arity(f) == n }
}

/// The type of a function value: its argument types, with a trailing
/// variadic argument as the variadic type.
pub open spec fn fn_type(f: FnM) -> TypeM {
    let tys = f.args.map_values(|a: ArgM| a.ty);
    if fn_is_variadic(f) {
        TypeM::Fn {
            args: tys.drop_last(),
            variadic_arg: Some(Box::new(f.args.last().ty)),
            return_type: Box::new(f.return_type),
        }
    } else {
        TypeM::Fn { args: tys, variadic_arg: None, return_type: Box::new(f.return_type) }
    }
}

/// How an argument is displayed: `...name: Type` or `name: Type`.
pub open spec fn arg_text(a: ArgM) -> Seq<char> {
    (if a.variadic { "..."@ } else { Seq::empty() }) + a.name + ": "@ + ty_name(a.ty)
}

/// The signature of a function, such as `concat(a: Value, b: Value, ...rest: Value) -> String`.
pub open spec fn signature_of(f: FnM) -> Seq<char> {
    f.name + "("@ + join_sep(f.args.map_values(|a: ArgM| arg_text(a)), ", "@) + ") -> "@ + ty_name(
        f.return_type,
    )
}

/// The models of the default builtins, in lookup order.
pub open spec fn default_builtins_m() -> Seq<FnM> {
    Seq::new(18, |i: int| BuiltinFn::default_builtin_m(i))
}

/// The outcome of applying a builtin to arguments.
pub enum ApplyM {
    Done(ValueM),
    Fail(ErrorM),
    /// The arguments do not fit: the call cannot proceed.
    Stuck,
}

/// Lowercase mapping of a string (`str::to_lowercase`).
pub uninterp spec fn lowercase_of(s: Seq<char>) -> Seq<char>;

/// Uppercase mapping of a string (`str::to_uppercase`).
pub uninterp spec fn uppercase_of(s: Seq<char>) -> Seq<char>;

/// `str::to_lowercase`: the Unicode lowercase mapping of `s`, which depends
/// on `s` alone; its exact content is left unstated.
#[verifier::external_body]
fn str_to_lowercase(s: &str) -> (r: String)
    ensures
        r@ == lowercase_of(s@),
{
    s.to_lowercase()
}

/// `str::to_uppercase`: the Unicode uppercase mapping of `s`, which depends
/// on `s` alone; its exact content is left unstated.
#[verifier::external_body]
fn str_to_uppercase(s: &str) -> (r: String)
    ensures
        r@ == uppercase_of(s@),
{
    s.to_uppercase()
}

/// The model of looking up a member of a JSON value.
pub enum JsonMemberM {
    /// The value is not a JSON object.
    NotObject,
    /// The object has no member of that name.
    Missing,
    /// The member's value, as compact JSON text.
    Found(Seq<char>),
}

/// The compact JSON text of the value `text` parses to, where it parses
/// (`serde_json::from_str` into a `serde_json::Value`, then `to_string`).
pub uninterp spec fn json_compact(text: Seq<char>) -> Option<Seq<char>>;

/// The member `key` of the JSON value whose compact text is `text`
/// (`serde_json::Value::as_object`, `Map::get`, then `to_string` on the
/// member). serde_json prints distinct values as distinct compact texts, so
/// the text fixes the value.
pub uninterp spec fn json_member_of(text: Seq<char>, key: Seq<char>) -> JsonMemberM;

/// serde_json's parsed JSON value, carried without looking inside.
#[verifier::external_type_specification]
#[verifier::external_body]
pub struct ExJsonValue(JsonTree);

/// A parsed JSON value, carried along with its compact JSON text. Only
/// `json_parse` and `json_member` below build one, and each sets `text` to
/// what `to_string` gives on `value`.
struct JsonValue {
    value: JsonTree,
    text: String,
}

impl View for JsonValue {
    type V = Seq<char>;

    closed spec fn view(&self) -> Seq<char> {
        self.text@
    }
}

/// How looking up a member of a parsed JSON value comes out.
enum JsonStep {
    NotObject,
    Missing,
    Found(JsonValue),
}

/// The model of a member lookup outcome.
spec fn json_step_view(m: JsonStep) -> JsonMemberM {
    match m {
        JsonStep::NotObject => JsonMemberM::NotObject,
        JsonStep::Missing => JsonMemberM::Missing,
        JsonStep::Found(v) => JsonMemberM::Found(v@),
    }
}

/// `serde_json::from_str::<serde_json::Value>`, then `Value::to_string` on
/// what it gives: the parsed value with its compact JSON text, or `None`
/// where `text` is not JSON. Which text comes out is named, not stated.
#[verifier::external_body]
fn json_parse(text: &str) -> (r: Option<JsonValue>)
    ensures
        match r {
            Some(v) => json_compact(text@) == Some(v@),
            None => json_compact(text@) is None,
        },
{
    match serde_json::from_str::<JsonTree>(text) {
        Ok(v) => Some(JsonValue { text: v.to_string(), value: v }),
        Err(_) => None,
    }
}

/// `serde_json::Value::as_object` and `Map::get` with `key` on a parsed
/// value, then `clone` and `to_string` on the member: whether the value is an
/// object, and the member with its compact JSON text where it has one. Which
/// member comes out is named, not stated.
#[verifier::external_body]
fn json_member(v: &JsonValue, key: &str) -> (r: JsonStep)
    ensures
        json_step_view(r) == json_member_of(v@, key@),
{
    match v.value.as_object() {
        None => JsonStep::NotObject,
        Some(m) => match m.get(key) {
            None => JsonStep::Missing,
            Some(x) => JsonStep::Found(JsonValue { text: x.to_string(), value: x.clone() }),
        },
    }
}

/// Walking the keys `keys` into the JSON value whose compact text is `json`,
/// giving the compact text of where the walk ends: a string key steps
/// into that member where there is one and stays where there is none, and
/// other values are passed over; `None` where a string key meets a value
/// that is not an object.
pub open spec fn json_walk(json: Seq<char>, keys: Seq<ValueM>) -> Option<Seq<char>>
    decreases keys.len(),
{
    if keys.len() == 0 {
        Some(json)
    } else {
        match keys[0] {
            ValueM::Str(k) => match json_member_of(json, k) {
                JsonMemberM::NotObject => None,
                JsonMemberM::Missing => json_walk(json, keys.drop_first()),
                JsonMemberM::Found(m) => json_walk(m, keys.drop_first()),
            },
            _ => json_walk(json, keys.drop_first()),
        }
    }
}

/// What `jsonobj` gives: the first argument parsed once as JSON, that value
/// walked along the remaining arguments, and where the walk ends as compact
/// JSON text.
pub open spec fn jsonobj_spec(args: Seq<ValueM>) -> ApplyM {
    match string_arg(args, 0) {
        None => ApplyM::Stuck,
        Some(Err(e)) => ApplyM::Fail(e),
        Some(Ok(text)) => match json_compact(text) {
            None => ApplyM::Stuck,
            Some(c) => match json_walk(c, args.drop_first()) {
                Some(out) => ApplyM::Done(ValueM::Str(out)),
                None => ApplyM::Stuck,
            },
        },
    }
}

/// A string argument: the string, a type mismatch, or stuck when absent.
pub open spec fn string_arg(args: Seq<ValueM>, i: int) -> Option<Result<Seq<char>, ErrorM>> {
    if i >= args.len() {
        None
    } else {
        match args[i] {
            ValueM::Str(s) => Some(Ok(s)),
            v => Some(Err(ErrorM::RuntimeTypeMismatch(TypeM::String, value_type(v)))),
        }
    }
}

/// A boolean argument: the boolean, a type mismatch, or stuck when absent.
pub open spec fn bool_arg(args: Seq<ValueM>, i: int) -> Option<Result<bool, ErrorM>> {
    if i >= args.len() {
        None
    } else {
        match args[i] {
            ValueM::Bool(b) => Some(Ok(b)),
            v => Some(Err(ErrorM::RuntimeTypeMismatch(TypeM::Bool, value_type(v)))),
        }
    }
}

/// Applies a one string builtin.
pub open spec fn apply_string_fn(args: Seq<ValueM>, f: spec_fn(Seq<char>) -> ValueM) -> ApplyM {
    match string_arg(args, 0) {
        None => ApplyM::Stuck,
        Some(Err(e)) => ApplyM::Fail(e),
        Some(Ok(s)) => ApplyM::Done(f(s)),
    }
}

/// Applies a two boolean builtin.
pub open spec fn apply_bool2(args: Seq<ValueM>, f: spec_fn(bool, bool) -> bool) -> ApplyM {
    match bool_arg(args, 0) {
        None => ApplyM::Stuck,
        Some(Err(e)) => ApplyM::Fail(e),
        Some(Ok(a)) => match bool_arg(args, 1) {
            None => ApplyM::Stuck,
            Some(Err(e)) => ApplyM::Fail(e),
            Some(Ok(b)) => ApplyM::Done(ValueM::Bool(f(a, b))),
        },
    }
}

/// A value as `to_str` and `concat` render it: strings as they are, other
/// values by their display text.
pub open spec fn text_of(v: ValueM) -> Seq<char> {
    match v {
        ValueM::Str(s) => s,
        _ => display_of(v),
    }
}

/// The concatenated text of values.
pub open spec fn concat_text(vs: Seq<ValueM>) -> Seq<char>
    decreases vs.len(),
{
    if vs.len() == 0 { Seq::empty() } else { concat_text(vs.drop_last()) + text_of(vs.last()) }
}

/// What applying builtin `f` to `args` gives.
pub open spec fn apply_spec(f: ImplM, args: Seq<ValueM>) -> ApplyM {
    match f {
        ImplM::Id => if args.len() >= 1 { ApplyM::Done(args[0]) } else { ApplyM::Stuck },
        ImplM::Noop => ApplyM::Done(ValueM::Str("noop"@)),
        ImplM::IsEmpty => apply_string_fn(args, |s: Seq<char>| ValueM::Bool(s.len() == 0)),
        ImplM::And => apply_bool2(args, |a: bool, b: bool| a && b),
        ImplM::Or => apply_bool2(args, |a: bool, b: bool| a || b),
        ImplM::Cond => match bool_arg(args, 0) {
            None => ApplyM::Stuck,
            Some(Err(e)) => ApplyM::Fail(e),
            Some(Ok(c)) => if args.len() >= 3 {
                ApplyM::Done(if c { args[1] } else { args[2] })
            } else {
                ApplyM::Stuck
            },
        },
        ImplM::ToStr => if args.len() >= 1 {
            ApplyM::Done(ValueM::Str(text_of(args[0])))
        } else {
            ApplyM::Stuck
        },
        ImplM::Concat => ApplyM::Done(ValueM::Str(concat_text(args))),
        ImplM::Contains => match string_arg(args, 0) {
            None => ApplyM::Stuck,
            Some(Err(e)) => ApplyM::Fail(e),
            Some(Ok(needle)) => match string_arg(args, 1) {
                None => ApplyM::Stuck,
                Some(Err(e)) => ApplyM::Fail(e),
                Some(Ok(hay)) => ApplyM::Done(ValueM::Bool(occurs_in(needle, hay))),
            },
        },
        ImplM::Trim => apply_string_fn(args, |s: Seq<char>| ValueM::Str(trim_of(s))),
        ImplM::TrimStart => apply_string_fn(args, |s: Seq<char>| ValueM::Str(trim_start_of(s))),
        ImplM::TrimEnd => apply_string_fn(args, |s: Seq<char>| ValueM::Str(trim_end_of(s))),
        ImplM::Lowercase => apply_string_fn(args, |s: Seq<char>| ValueM::Str(lowercase_of(s))),
        ImplM::Uppercase => apply_string_fn(args, |s: Seq<char>| ValueM::Str(uppercase_of(s))),
        ImplM::TypeOf => if args.len() >= 1 {
            ApplyM::Done(ValueM::Ty(TypeM::Type(Box::new(value_type(args[0])))))
        } else {
            ApplyM::Stuck
        },
        ImplM::Eq => if args.len() >= 2 {
            ApplyM::Done(ValueM::Bool(value_eq(args[0], args[1])))
        } else {
            ApplyM::Stuck
        },
        ImplM::Not => match bool_arg(args, 0) {
            None => ApplyM::Stuck,
            Some(Err(e)) => ApplyM::Fail(e),
            Some(Ok(b)) => ApplyM::Done(ValueM::Bool(!b)),
        },
        ImplM::JsonObj => jsonobj_spec(args),
        ImplM::Returns(s) => ApplyM::Done(ValueM::Str(s)),
    }
}

/// The models of a sequence of values.
pub open spec fn values_view(vs: Seq<Value>) -> Seq<ValueM> {
    vs.map_values(|v: Value| v@)
}

/// Whether an executable call result agrees with its model.
pub open spec fn apply_agrees(r: Option<ExprResult<Value>>, m: ApplyM) -> bool {
    match m {
        ApplyM::Done(v) => r matches Some(Ok(x)) && x@ == v,
        ApplyM::Fail(e) => r matches Some(Err(es)) && errors_view(es@) == seq![(e, 0usize, 0usize)],
        ApplyM::Stuck => r is None,
    }
}

/// Applies `func` to `args`; `None` where the arguments do not fit the function.
pub fn apply_builtin(func: &BuiltinImpl, args: Vec<Value>) -> (r: Option<ExprResult<Value>>)
    ensures
        apply_agrees(r, apply_spec(func@, values_view(args@))),
{
    match func {
        BuiltinImpl::Id => id(&args),
        BuiltinImpl::Noop => noop(&args),
        BuiltinImpl::IsEmpty => is_empty(&args),
        BuiltinImpl::And => and(&args),
        BuiltinImpl::Or => or(&args),
        BuiltinImpl::Cond => cond(&args),
        BuiltinImpl::ToStr => to_str(&args),
        BuiltinImpl::Concat => concat(&args),
        BuiltinImpl::Contains => contains(&args),
        BuiltinImpl::Trim => trim(&args),
        BuiltinImpl::TrimStart => trim_start(&args),
        BuiltinImpl::TrimEnd => trim_end(&args),
        BuiltinImpl::Lowercase => lowercase(&args),
        BuiltinImpl::Uppercase => uppercase(&args),
        BuiltinImpl::TypeOf => type_of(&args),
        BuiltinImpl::Eq => eq(&args),
        BuiltinImpl::Not => not(&args),
        BuiltinImpl::JsonObj => jsonobj(&args),
        BuiltinImpl::Returns(s) => Some(Ok(Value::String(s.clone()))),
    }
}

/// Every argument's model is the argument's view.
proof fn lemma_args_views(args: Seq<Value>)
    ensures
        values_view(args).len() == args.len(),
        forall|i: int| 0 <= i < args.len() ==> #[trigger] values_view(args)[i] == args[i]@,
{
}

/// The `id` builtin: the value passed.
fn id(args: &Vec<Value>) -> (r: Option<ExprResult<Value>>)
    ensures
        apply_agrees(r, apply_spec(ImplM::Id, values_view(args@))),
{
    proof { lemma_args_views(args@); }
    if args.len() < 1 {
        return None;
    }
    Some(Ok(args[0].duplicate()))
}

/// The `noop` builtin: the string `noop`.
fn noop(args: &Vec<Value>) -> (r: Option<ExprResult<Value>>)
    ensures
        apply_agrees(r, apply_spec(ImplM::Noop, values_view(args@))),
{
    Some(Ok(Value::String(owned("noop"))))
}

/// The `is_empty` builtin: whether the string passed is empty.
fn is_empty(args: &Vec<Value>) -> (r: Option<ExprResult<Value>>)
    ensures
        apply_agrees(r, apply_spec(ImplM::IsEmpty, values_view(args@))),
{
    proof { lemma_args_views(args@); }
    if args.len() < 1 {
        return None;
    }
    match args[0].get_string() {
        Ok(s) => Some(Ok(Value::Bool(s.is_empty()))),
        Err(e) => Some(Err(e)),
    }
}

/// The two boolean arguments of `and` and `or`.
fn bool_pair(args: &Vec<Value>) -> (r: Option<Result<(bool, bool), Vec<ExprErrorS>>>)
    ensures
        match bool_arg(values_view(args@), 0) {
            None => r is None,
            Some(Err(e)) => r matches Some(Err(x)) && errors_view(x@) == seq![(e, 0usize, 0usize)],
            Some(Ok(a)) => match bool_arg(values_view(args@), 1) {
                None => r is None,
                Some(Err(e)) => r matches Some(Err(x)) && errors_view(x@) == seq![(e, 0usize, 0usize)],
                Some(Ok(b)) => r == Some(Ok::<(bool, bool), Vec<ExprErrorS>>((a, b))),
            },
        },
{
    proof { lemma_args_views(args@); }
    if args.len() < 1 {
        return None;
    }
    let a = match args[0].get_bool() {
        Ok(a) => a,
        Err(e) => return Some(Err(e)),
    };
    if args.len() < 2 {
        return None;
    }
    let b = match args[1].get_bool() {
        Ok(b) => b,
        Err(e) => return Some(Err(e)),
    };
    Some(Ok((a, b)))
}

/// The `and` builtin: whether both booleans are `true`.
fn and(args: &Vec<Value>) -> (r: Option<ExprResult<Value>>)
    ensures
        apply_agrees(r, apply_spec(ImplM::And, values_view(args@))),
{
    match bool_pair(args) {
        None => None,
        Some(Err(e)) => Some(Err(e)),
        Some(Ok((a, b))) => Some(Ok(Value::Bool(a && b))),
    }
}

/// The `or` builtin: whether at least one boolean is `true`.
fn or(args: &Vec<Value>) -> (r: Option<ExprResult<Value>>)
    ensures
        apply_agrees(r, apply_spec(ImplM::Or, values_view(args@))),
{
    match bool_pair(args) {
        None => None,
        Some(Err(e)) => Some(Err(e)),
        Some(Ok((a, b))) => Some(Ok(Value::Bool(a || b))),
    }
}

/// The `cond` builtin: the second argument where the first is `true`, else the third.
fn cond(args: &Vec<Value>) -> (r: Option<ExprResult<Value>>)
    ensures
        apply_agrees(r, apply_spec(ImplM::Cond, values_view(args@))),
{
    proof { lemma_args_views(args@); }
    if args.len() < 1 {
        return None;
    }
    let c = match args[0].get_bool() {
        Ok(c) => c,
        Err(e) => return Some(Err(e)),
    };
    if args.len() < 3 {
        return None;
    }
    if c {
        Some(Ok(args[1].duplicate()))
    } else {
        Some(Ok(args[2].duplicate()))
    }
}

/// The `to_str` builtin: the text of the value passed.
fn to_str(args: &Vec<Value>) -> (r: Option<ExprResult<Value>>)
    ensures
        apply_agrees(r, apply_spec(ImplM::ToStr, values_view(args@))),
{
    proof { lemma_args_views(args@); }
    if args.len() < 1 {
        return None;
    }
    Some(Ok(Value::String(text_of_value(&args[0]))))
}

/// The `concat` builtin: the texts of all values passed, run together.
fn concat(args: &Vec<Value>) -> (r: Option<ExprResult<Value>>)
    ensures
        apply_agrees(r, apply_spec(ImplM::Concat, values_view(args@))),
{
    let ghost vs = values_view(args@);
    proof { lemma_args_views(args@); }
    let mut result = String::new();
    let mut i: usize = 0;
    while i < args.len()
        invariant
            i <= args.len(),
            vs == values_view(args@),
            vs.len() == args.len(),
            forall|k: int| 0 <= k < args.len() ==> #[trigger] vs[k] == args@[k]@,
            result@ == concat_text(vs.take(i as int)),
        decreases args.len() - i,
    {
        let t = text_of_value(&args[i]);
        push_str(&mut result, t.as_str());
        assert(vs.take(i + 1).drop_last() =~= vs.take(i as int));
        i = i + 1;
    }
    assert(vs.take(args.len() as int) =~= vs);
    Some(Ok(Value::String(result)))
}

/// The `contains` builtin: whether the first string occurs in the second.
fn contains(args: &Vec<Value>) -> (r: Option<ExprResult<Value>>)
    ensures
        apply_agrees(r, apply_spec(ImplM::Contains, values_view(args@))),
{
    proof { lemma_args_views(args@); }
    if args.len() < 1 {
        return None;
    }
    let needle = match args[0].get_string() {
        Ok(s) => s,
        Err(e) => return Some(Err(e)),
    };
    if args.len() < 2 {
        return None;
    }
    let hay = match args[1].get_string() {
        Ok(s) => s,
        Err(e) => return Some(Err(e)),
    };
    Some(Ok(Value::Bool(contains_str(hay, needle))))
}

/// The string argument of a builtin of one string.
fn string_arg_of(args: &Vec<Value>) -> (r: Option<Result<&str, Vec<ExprErrorS>>>)
    ensures
        match string_arg(values_view(args@), 0) {
            None => r is None,
            Some(Err(e)) => r matches Some(Err(x)) && errors_view(x@) == seq![(e, 0usize, 0usize)],
            Some(Ok(s)) => r matches Some(Ok(x)) && x@ == s,
        },
{
    proof { lemma_args_views(args@); }
    if args.len() < 1 {
        return None;
    }
    Some(args[0].get_string())
}

/// The `trim` builtin: the string without leading and trailing white space.
fn trim(args: &Vec<Value>) -> (r: Option<ExprResult<Value>>)
    ensures
        apply_agrees(r, apply_spec(ImplM::Trim, values_view(args@))),
{
    match string_arg_of(args) {
        None => None,
        Some(Err(e)) => Some(Err(e)),
        Some(Ok(s)) => Some(Ok(Value::String(trim_string(s)))),
    }
}

/// The `trim_start` builtin: the string without leading white space.
fn trim_start(args: &Vec<Value>) -> (r: Option<ExprResult<Value>>)
    ensures
        apply_agrees(r, apply_spec(ImplM::TrimStart, values_view(args@))),
{
    match string_arg_of(args) {
        None => None,
        Some(Err(e)) => Some(Err(e)),
        Some(Ok(s)) => Some(Ok(Value::String(trim_start_string(s)))),
    }
}

/// The `trim_end` builtin: the string without trailing white space.
fn trim_end(args: &Vec<Value>) -> (r: Option<ExprResult<Value>>)
    ensures
        apply_agrees(r, apply_spec(ImplM::TrimEnd, values_view(args@))),
{
    match string_arg_of(args) {
        None => None,
        Some(Err(e)) => Some(Err(e)),
        Some(Ok(s)) => Some(Ok(Value::String(trim_end_string(s)))),
    }
}

/// The `lowercase` builtin: the string lowercased.
fn lowercase(args: &Vec<Value>) -> (r: Option<ExprResult<Value>>)
    ensures
        apply_agrees(r, apply_spec(ImplM::Lowercase, values_view(args@))),
{
    match string_arg_of(args) {
        None => None,
        Some(Err(e)) => Some(Err(e)),
        Some(Ok(s)) => Some(Ok(Value::String(str_to_lowercase(s)))),
    }
}

/// The `uppercase` builtin: the string uppercased.
fn uppercase(args: &Vec<Value>) -> (r: Option<ExprResult<Value>>)
    ensures
        apply_agrees(r, apply_spec(ImplM::Uppercase, values_view(args@))),
{
    match string_arg_of(args) {
        None => None,
        Some(Err(e)) => Some(Err(e)),
        Some(Ok(s)) => Some(Ok(Value::String(str_to_uppercase(s)))),
    }
}

/// The `type` builtin: the type of the value passed, as a type value.
fn type_of(args: &Vec<Value>) -> (r: Option<ExprResult<Value>>)
    ensures
        apply_agrees(r, apply_spec(ImplM::TypeOf, values_view(args@))),
{
    proof { lemma_args_views(args@); }
    if args.len() < 1 {
        return None;
    }
    Some(Ok(Value::Type(Box::new(Type::Type(Box::new(args[0].get_type()))))))
}

/// The `eq` builtin: whether the two values are equal.
fn eq(args: &Vec<Value>) -> (r: Option<ExprResult<Value>>)
    ensures
        apply_agrees(r, apply_spec(ImplM::Eq, values_view(args@))),
{
    proof { lemma_args_views(args@); }
    if args.len() < 2 {
        return None;
    }
    Some(Ok(Value::Bool(args[0].equals(&args[1]))))
}

/// The `not` builtin: the boolean negated.
fn not(args: &Vec<Value>) -> (r: Option<ExprResult<Value>>)
    ensures
        apply_agrees(r, apply_spec(ImplM::Not, values_view(args@))),
{
    proof { lemma_args_views(args@); }
    if args.len() < 1 {
        return None;
    }
    match args[0].get_bool() {
        Ok(b) => Some(Ok(Value::Bool(!b))),
        Err(e) => Some(Err(e)),
    }
}

/// The `jsonobj` builtin: looks up a path of keys in a JSON object.
fn jsonobj(args: &Vec<Value>) -> (r: Option<ExprResult<Value>>)
    ensures
        apply_agrees(r, jsonobj_spec(values_view(args@))),
{
    let ghost vs = values_view(args@);
    assert(vs.len() == args.len());
    assert(forall|i: int| 0 <= i < args.len() ==> #[trigger] vs[i] == args@[i]@);
    if args.len() < 1 {
        return None;
    }
    let text = match args[0].get_string() {
        Ok(s) => s,
        Err(e) => return Some(Err(e)),
    };
    let mut json = match json_parse(text) {
        Some(c) => c,
        None => return None,
    };
    let ghost keys = vs.drop_first();
    let ghost start = json@;
    let mut i: usize = 1;
    assert(keys.skip(0) =~= keys);
    while i < args.len()
        invariant
            1 <= i <= args.len(),
            vs == values_view(args@),
            keys == vs.drop_first(),
            vs.len() == args.len(),
            forall|k: int| 0 <= k < args.len() ==> #[trigger] vs[k] == args@[k]@,
            json_walk(start, keys) == json_walk(json@, keys.skip(i - 1)),
            jsonobj_spec(vs) == match json_walk(start, keys) {
                Some(out) => ApplyM::Done(ValueM::Str(out)),
                None => ApplyM::Stuck,
            },
        decreases args.len() - i,
    {
        let ghost rest = keys.skip(i - 1);
        assert(rest[0] == vs[i as int]);
        assert(rest.drop_first() =~= keys.skip(i as int));
        match &args[i] {
            Value::String(key) => {
                assert(rest[0] == ValueM::Str(key@));
                match json_member(&json, key.as_str()) {
                    JsonStep::NotObject => {
                        assert(json_walk(json@, rest) is None);
                        return None;
                    },
                    JsonStep::Missing => {},
                    JsonStep::Found(m) => {
                        json = m;
                    },
                }
            },
            _ => {},
        }
        i = i + 1;
    }
    assert(keys.skip(args.len() - 1) =~= Seq::<ValueM>::empty());
    Some(Ok(Value::String(json.text)))
}

/// The text of a value as `to_str` and `concat` render it.
fn text_of_value(v: &Value) -> (r: String)
    ensures
        r@ == text_of(v@),
{
    match v {
        Value::String(s) => s.clone(),
        _ => v.to_display_string(),
    }
}

impl BuiltinFn {
    /// The model of the default builtin at position `i` of [`BuiltinFn::default_builtins`].
    pub open spec fn default_builtin_m(i: int) -> FnM {
        if i == 0 {
            FnM { name: "id"@, args: seq![arg_m("value"@, TypeM::Value, false)], return_type: TypeM::Value, func: ImplM::Id }
        } else if i == 1 {
            FnM { name: "noop"@, args: Seq::empty(), return_type: TypeM::String, func: ImplM::Noop }
        } else if i == 2 {
            FnM { name: "is_empty"@, args: seq![arg_m("value"@, TypeM::String, false)], return_type: TypeM::Bool, func: ImplM::IsEmpty }
        } else if i == 3 {
            FnM { name: "and"@, args: seq![arg_m("a"@, TypeM::Bool, false), arg_m("b"@, TypeM::Bool, false)], return_type: TypeM::Bool, func: ImplM::And }
        } else if i == 4 {
            FnM { name: "or"@, args: seq![arg_m("a"@, TypeM::Bool, false), arg_m("b"@, TypeM::Bool, false)], return_type: TypeM::Bool, func: ImplM::Or }
        } else if i == 5 {
            FnM { name: "cond"@, args: seq![arg_m("cond"@, TypeM::Bool, false), arg_m("then"@, TypeM::Value, false), arg_m("else"@, TypeM::Value, false)], return_type: TypeM::Bool, func: ImplM::Cond }
        } else if i == 6 {
            FnM { name: "to_str"@, args: seq![arg_m("value"@, TypeM::Value, false)], return_type: TypeM::String, func: ImplM::ToStr }
        } else if i == 7 {
            FnM { name: "concat"@, args: seq![arg_m("a"@, TypeM::Value, false), arg_m("b"@, TypeM::Value, false), arg_m("rest"@, TypeM::Value, true)], return_type: TypeM::String, func: ImplM::Concat }
        } else if i == 8 {
            FnM { name: "contains"@, args: seq![arg_m("needle"@, TypeM::String, false), arg_m("haystack"@, TypeM::String, false)], return_type: TypeM::Bool, func: ImplM::Contains }
        } else if i == 9 {
            FnM { name: "trim"@, args: seq![arg_m("value"@, TypeM::String, false)], return_type: TypeM::String, func: ImplM::Trim }
        } else if i == 10 {
            FnM { name: "trim_start"@, args: seq![arg_m("value"@, TypeM::String, false)], return_type: TypeM::String, func: ImplM::TrimStart }
        } else if i == 11 {
            FnM { name: "trim_end"@, args: seq![arg_m("value"@, TypeM::String, false)], return_type: TypeM::String, func: ImplM::TrimEnd }
        } else if i == 12 {
            FnM { name: "lowercase"@, args: seq![arg_m("value"@, TypeM::String, false)], return_type: TypeM::String, func: ImplM::Lowercase }
        } else if i == 13 {
            FnM { name: "uppercase"@, args: seq![arg_m("value"@, TypeM::String, false)], return_type: TypeM::String, func: ImplM::Uppercase }
        } else if i == 14 {
            FnM { name: "type"@, args: seq![arg_m("value"@, TypeM::Value, false)], return_type: TypeM::String, func: ImplM::TypeOf }
        } else if i == 15 {
            FnM { name: "eq"@, args: seq![arg_m("a"@, TypeM::Value, false), arg_m("b"@, TypeM::Value, false)], return_type: TypeM::Bool, func: ImplM::Eq }
        } else if i == 16 {
            FnM { name: "not"@, args: seq![arg_m("value"@, TypeM::Bool, false)], return_type: TypeM::Bool, func: ImplM::Not }
        } else {
            FnM { name: "jsonobj"@, args: seq![arg_m("json_obj"@, TypeM::String, false), arg_m("obj_keys"@, TypeM::Value, true)], return_type: TypeM::Value, func: ImplM::JsonObj }
        }
    }

    /// The `id` builtin.
    #[allow(non_snake_case)]
    pub fn ID() -> (r: BuiltinFn)
        ensures
            r@ == Self::default_builtin_m(0),
    {
        let mut args: Vec<FnArg> = Vec::new();
        args.push(FnArg { name: owned("value"), ty: Type::Value, variadic: false });
        let r = BuiltinFn { name: owned("id"), args, return_type: Type::Value, func: BuiltinImpl::Id };
        assert(args_view(r.args@) =~= seq![arg_m("value"@, TypeM::Value, false)]);
        r
    }

    /// The `noop` builtin.
    #[allow(non_snake_case)]
    pub fn NOOP() -> (r: BuiltinFn)
        ensures
            r@ == Self::default_builtin_m(1),
    {
        let mut args: Vec<FnArg> = Vec::new();
        let r = BuiltinFn { name: owned("noop"), args, return_type: Type::String, func: BuiltinImpl::Noop };
        assert(args_view(r.args@) =~= Seq::<ArgM>::empty());
        r
    }

    /// The `is_empty` builtin.
    #[allow(non_snake_case)]
    pub fn IS_EMPTY() -> (r: BuiltinFn)
        ensures
            r@ == Self::default_builtin_m(2),
    {
        let mut args: Vec<FnArg> = Vec::new();
        args.push(FnArg { name: owned("value"), ty: Type::String, variadic: false });
        let r = BuiltinFn { name: owned("is_empty"), args, return_type: Type::Bool, func: BuiltinImpl::IsEmpty };
        assert(args_view(r.args@) =~= seq![arg_m("value"@, TypeM::String, false)]);
        r
    }

    /// The `and` builtin.
    #[allow(non_snake_case)]
    pub fn AND() -> (r: BuiltinFn)
        ensures
            r@ == Self::default_builtin_m(3),
    {
        let mut args: Vec<FnArg> = Vec::new();
        args.push(FnArg { name: owned("a"), ty: Type::Bool, variadic: false });
        args.push(FnArg { name: owned("b"), ty: Type::Bool, variadic: false });
        let r = BuiltinFn { name: owned("and"), args, return_type: Type::Bool, func: BuiltinImpl::And };
        assert(args_view(r.args@) =~= seq![arg_m("a"@, TypeM::Bool, false), arg_m("b"@, TypeM::Bool, false)]);
        r
    }

    /// The `or` builtin.
    #[allow(non_snake_case)]
    pub fn OR() -> (r: BuiltinFn)
        ensures
            r@ == Self::default_builtin_m(4),
    {
        let mut args: Vec<FnArg> = Vec::new();
        args.push(FnArg { name: owned("a"), ty: Type::Bool, variadic: false });
        args.push(FnArg { name: owned("b"), ty: Type::Bool, variadic: false });
        let r = BuiltinFn { name: owned("or"), args, return_type: Type::Bool, func: BuiltinImpl::Or };
        assert(args_view(r.args@) =~= seq![arg_m("a"@, TypeM::Bool, false), arg_m("b"@, TypeM::Bool, false)]);
        r
    }

    /// The `cond` builtin.
    #[allow(non_snake_case)]
    pub fn COND() -> (r: BuiltinFn)
        ensures
            r@ == Self::default_builtin_m(5),
    {
        let mut args: Vec<FnArg> = Vec::new();
        args.push(FnArg { name: owned("cond"), ty: Type::Bool, variadic: false });
        args.push(FnArg { name: owned("then"), ty: Type::Value, variadic: false });
        args.push(FnArg { name: owned("else"), ty: Type::Value, variadic: false });
        let r = BuiltinFn { name: owned("cond"), args, return_type: Type::Bool, func: BuiltinImpl::Cond };
        assert(args_view(r.args@) =~= seq![arg_m("cond"@, TypeM::Bool, false), arg_m("then"@, TypeM::Value, false), arg_m("else"@, TypeM::Value, false)]);
        r
    }

    /// The `to_str` builtin.
    #[allow(non_snake_case)]
    pub fn TO_STR() -> (r: BuiltinFn)
        ensures
            r@ == Self::default_builtin_m(6),
    {
        let mut args: Vec<FnArg> = Vec::new();
        args.push(FnArg { name: owned("value"), ty: Type::Value, variadic: false });
        let r = BuiltinFn { name: owned("to_str"), args, return_type: Type::String, func: BuiltinImpl::ToStr };
        assert(args_view(r.args@) =~= seq![arg_m("value"@, TypeM::Value, false)]);
        r
    }

    /// The `concat` builtin.
    #[allow(non_snake_case)]
    pub fn CONCAT() -> (r: BuiltinFn)
        ensures
            r@ == Self::default_builtin_m(7),
    {
        let mut args: Vec<FnArg> = Vec::new();
        args.push(FnArg { name: owned("a"), ty: Type::Value, variadic: false });
        args.push(FnArg { name: owned("b"), ty: Type::Value, variadic: false });
        args.push(FnArg { name: owned("rest"), ty: Type::Value, variadic: true });
        let r = BuiltinFn { name: owned("concat"), args, return_type: Type::String, func: BuiltinImpl::Concat };
        assert(args_view(r.args@) =~= seq![arg_m("a"@, TypeM::Value, false), arg_m("b"@, TypeM::Value, false), arg_m("rest"@, TypeM::Value, true)]);
        r
    }

    /// The `contains` builtin.
    #[allow(non_snake_case)]
    pub fn CONTAINS() -> (r: BuiltinFn)
        ensures
            r@ == Self::default_builtin_m(8),
    {
        let mut args: Vec<FnArg> = Vec::new();
        args.push(FnArg { name: owned("needle"), ty: Type::String, variadic: false });
        args.push(FnArg { name: owned("haystack"), ty: Type::String, variadic: false });
        let r = BuiltinFn { name: owned("contains"), args, return_type: Type::Bool, func: BuiltinImpl::Contains };
        assert(args_view(r.args@) =~= seq![arg_m("needle"@, TypeM::String, false), arg_m("haystack"@, TypeM::String, false)]);
        r
    }

    /// The `trim` builtin.
    #[allow(non_snake_case)]
    pub fn TRIM() -> (r: BuiltinFn)
        ensures
            r@ == Self::default_builtin_m(9),
    {
        let mut args: Vec<FnArg> = Vec::new();
        args.push(FnArg { name: owned("value"), ty: Type::String, variadic: false });
        let r = BuiltinFn { name: owned("trim"), args, return_type: Type::String, func: BuiltinImpl::Trim };
        assert(args_view(r.args@) =~= seq![arg_m("value"@, TypeM::String, false)]);
        r
    }

    /// The `trim_start` builtin.
    #[allow(non_snake_case)]
    pub fn TRIM_START() -> (r: BuiltinFn)
        ensures
            r@ == Self::default_builtin_m(10),
    {
        let mut args: Vec<FnArg> = Vec::new();
        args.push(FnArg { name: owned("value"), ty: Type::String, variadic: false });
        let r = BuiltinFn { name: owned("trim_start"), args, return_type: Type::String, func: BuiltinImpl::TrimStart };
        assert(args_view(r.args@) =~= seq![arg_m("value"@, TypeM::String, false)]);
        r
    }

    /// The `trim_end` builtin.
    #[allow(non_snake_case)]
    pub fn TRIM_END() -> (r: BuiltinFn)
        ensures
            r@ == Self::default_builtin_m(11),
    {
        let mut args: Vec<FnArg> = Vec::new();
        args.push(FnArg { name: owned("value"), ty: Type::String, variadic: false });
        let r = BuiltinFn { name: owned("trim_end"), args, return_type: Type::String, func: BuiltinImpl::TrimEnd };
        assert(args_view(r.args@) =~= seq![arg_m("value"@, TypeM::String, false)]);
        r
    }

    /// The `lowercase` builtin.
    #[allow(non_snake_case)]
    pub fn LOWERCASE() -> (r: BuiltinFn)
        ensures
            r@ == Self::default_builtin_m(12),
    {
        let mut args: Vec<FnArg> = Vec::new();
        args.push(FnArg { name: owned("value"), ty: Type::String, variadic: false });
        let r = BuiltinFn { name: owned("lowercase"), args, return_type: Type::String, func: BuiltinImpl::Lowercase };
        assert(args_view(r.args@) =~= seq![arg_m("value"@, TypeM::String, false)]);
        r
    }

    /// The `uppercase` builtin.
    #[allow(non_snake_case)]
    pub fn UPPERCASE() -> (r: BuiltinFn)
        ensures
            r@ == Self::default_builtin_m(13),
    {
        let mut args: Vec<FnArg> = Vec::new();
        args.push(FnArg { name: owned("value"), ty: Type::String, variadic: false });
        let r = BuiltinFn { name: owned("uppercase"), args, return_type: Type::String, func: BuiltinImpl::Uppercase };
        assert(args_view(r.args@) =~= seq![arg_m("value"@, TypeM::String, false)]);
        r
    }

    /// The `type` builtin.
    #[allow(non_snake_case)]
    pub fn TYPE() -> (r: BuiltinFn)
        ensures
            r@ == Self::default_builtin_m(14),
    {
        let mut args: Vec<FnArg> = Vec::new();
        args.push(FnArg { name: owned("value"), ty: Type::Value, variadic: false });
        let r = BuiltinFn { name: owned("type"), args, return_type: Type::String, func: BuiltinImpl::TypeOf };
        assert(args_view(r.args@) =~= seq![arg_m("value"@, TypeM::Value, false)]);
        r
    }

    /// The `eq` builtin.
    #[allow(non_snake_case)]
    pub fn EQ() -> (r: BuiltinFn)
        ensures
            r@ == Self::default_builtin_m(15),
    {
        let mut args: Vec<FnArg> = Vec::new();
        args.push(FnArg { name: owned("a"), ty: Type::Value, variadic: false });
        args.push(FnArg { name: owned("b"), ty: Type::Value, variadic: false });
        let r = BuiltinFn { name: owned("eq"), args, return_type: Type::Bool, func: BuiltinImpl::Eq };
        assert(args_view(r.args@) =~= seq![arg_m("a"@, TypeM::Value, false), arg_m("b"@, TypeM::Value, false)]);
        r
    }

    /// The `not` builtin.
    #[allow(non_snake_case)]
    pub fn NOT() -> (r: BuiltinFn)
        ensures
            r@ == Self::default_builtin_m(16),
    {
        let mut args: Vec<FnArg> = Vec::new();
        args.push(FnArg { name: owned("value"), ty: Type::Bool, variadic: false });
        let r = BuiltinFn { name: owned("not"), args, return_type: Type::Bool, func: BuiltinImpl::Not };
        assert(args_view(r.args@) =~= seq![arg_m("value"@, TypeM::Bool, false)]);
        r
    }

    /// The `jsonobj` builtin.
    #[allow(non_snake_case)]
    pub fn JSONOBJ() -> (r: BuiltinFn)
        ensures
            r@ == Self::default_builtin_m(17),
    {
        let mut args: Vec<FnArg> = Vec::new();
        args.push(FnArg { name: owned("json_obj"), ty: Type::String, variadic: false });
        args.push(FnArg { name: owned("obj_keys"), ty: Type::Value, variadic: true });
        let r = BuiltinFn { name: owned("jsonobj"), args, return_type: Type::Value, func: BuiltinImpl::JsonObj };
        assert(args_view(r.args@) =~= seq![arg_m("json_obj"@, TypeM::String, false), arg_m("obj_keys"@, TypeM::Value, true)]);
        r
    }

    /// The default set of builtin functions; a builtin's position here is its lookup index.
    pub fn default_builtins() -> (r: Vec<BuiltinFn>)
        ensures
            r.len() == 18,
            forall|i: int| 0 <= i < 18 ==> #[trigger] r@[i]@ == Self::default_builtin_m(i),
    {
        let mut r: Vec<BuiltinFn> = Vec::new();
        r.push(Self::ID());
        r.push(Self::NOOP());
        r.push(Self::IS_EMPTY());
        r.push(Self::AND());
        r.push(Self::OR());
        r.push(Self::COND());
        r.push(Self::TO_STR());
        r.push(Self::CONCAT());
        r.push(Self::CONTAINS());
        r.push(Self::TRIM());
        r.push(Self::TRIM_START());
        r.push(Self::TRIM_END());
        r.push(Self::LOWERCASE());
        r.push(Self::UPPERCASE());
        r.push(Self::TYPE());
        r.push(Self::EQ());
        r.push(Self::NOT());
        r.push(Self::JSONOBJ());
        r
    }

    /// Whether the last argument is variadic.
    pub fn is_variadic(&self) -> (r: bool)
        ensures
            r == fn_is_variadic(self@),
    {
        if self.args.len() == 0 {
            false
        } else {
            self.args[self.args.len() - 1].variadic
        }
    }

    /// The number of arguments the function requires.
    pub fn arity(&self) -> (r: u8)
        requires
            fn_arity_ok(self@),
        ensures
            r == fn_arity(self@),
    {
        let len = (self.args.len() % 256) as u8;
        if self.is_variadic() {
            len - 1
        } else {
            len
        }
    }

    /// Whether a call with `arity` arguments fits the function.
    pub fn arity_matches(&self, arity: u8) -> (r: bool)
        requires
            fn_arity_ok(self@),
        ensures
            r == fn_arity_matches(self@, arity as int),
    {
        if self.is_variadic() {
            self.arity() <= arity
        } else {
            self.arity() == arity
        }
    }

    /// The type of the function.
    pub fn get_type(&self) -> (r: Type)
        ensures
            r@ == fn_type(self@),
    {
        let mut tys: Vec<Type> = Vec::new();
        let mut i: usize = 0;
        while i < self.args.len()
            invariant
                i <= self.args.len(),
                tys.len() == i,
                forall|k: int| 0 <= k < i ==> #[trigger] tys@[k]@ == self.args@[k].ty@,
            decreases self.args.len() - i,
        {
            tys.push(self.args[i].ty.duplicate());
            i = i + 1;
        }
        let ghost all = self@.args.map_values(|a: ArgM| a.ty);
        proof {
            crate::types::lemma_types_view(tys@);
        }
        assert(all.len() == tys.len());
        assert(forall|k: int| 0 <= k < tys.len() ==> #[trigger] all[k] == tys@[k]@) by {
            assert forall|k: int| 0 <= k < tys.len() implies #[trigger] all[k] == tys@[k]@ by {
                assert(self@.args[k] == self.args@[k]@);
            }
        }
        if self.is_variadic() {
            let ghost before = tys@;
            let last = tys.pop().unwrap();
            proof {
                crate::types::lemma_types_view(tys@);
                assert(tys@ =~= before.drop_last());
                assert(crate::types::types_view(tys@) =~= all.drop_last());
                assert(self@.args.last() == self.args@[self.args.len() - 1]@);
                assert(last@ == self@.args.last().ty);
            }
            Type::Fn { args: tys, variadic_arg: Some(Box::new(last)), return_type: Box::new(self.return_type.duplicate()) }
        } else {
            assert(crate::types::types_view(tys@) =~= all);
            Type::Fn { args: tys, variadic_arg: None, return_type: Box::new(self.return_type.duplicate()) }
        }
    }

    /// The signature text, such as `id(value: Value) -> Value`.
    pub fn signature(&self) -> (r: String)
        ensures
            r@ == signature_of(self@),
    {
        let mut parts: Vec<String> = Vec::new();
        let ghost texts = self@.args.map_values(|a: ArgM| arg_text(a));
        let mut i: usize = 0;
        while i < self.args.len()
            invariant
                i <= self.args.len(),
                texts == self@.args.map_values(|a: ArgM| arg_text(a)),
                string_views(parts@) =~= texts.take(i as int),
            decreases self.args.len() - i,
        {
            let a = &self.args[i];
            let mut t = if a.variadic { owned("...") } else { String::new() };
            push_str(&mut t, a.name.as_str());
            push_str(&mut t, ": ");
            let tn = a.ty.name();
            push_str(&mut t, tn.as_str());
            assert(self@.args[i as int] == self.args@[i as int]@);
            assert(t@ == texts[i as int]);
            let ghost old_parts = parts@;
            parts.push(t);
            assert(string_views(parts@) =~= string_views(old_parts).push(texts[i as int]));
            assert(texts.take(i + 1) =~= texts.take(i as int).push(texts[i as int]));
            i = i + 1;
        }
        assert(texts.take(self.args.len() as int) =~= texts);
        let joined = join_strings(&parts, ", ");
        let mut r = self.name.clone();
        push_str(&mut r, "(");
        push_str(&mut r, joined.as_str());
        push_str(&mut r, ") -> ");
        let rn = self.return_type.name();
        push_str(&mut r, rn.as_str());
        r
    }

    /// A copy of this function.
    pub fn duplicate(&self) -> (r: BuiltinFn)
        ensures
            r@ == self@,
    {
        let mut args: Vec<FnArg> = Vec::new();
        let mut i: usize = 0;
        while i < self.args.len()
            invariant
                i <= self.args.len(),
                args.len() == i,
                forall|k: int| 0 <= k < i ==> #[trigger] args@[k]@ == self.args@[k]@,
            decreases self.args.len() - i,
        {
            args.push(self.args[i].duplicate());
            i = i + 1;
        }
        let r = BuiltinFn {
            name: self.name.clone(),
            args,
            return_type: self.return_type.duplicate(),
            func: self.func.duplicate(),
        };
        assert(args_view(r.args@) =~= args_view(self.args@));
        r
    }
}


/// The types of the arguments that are not variadic, in order.
pub open spec fn fixed_arg_types(args: Seq<ArgM>) -> Seq<TypeM>
    decreases args.len(),
{
    if args.len() == 0 {
        Seq::empty()
    } else {
        fixed_arg_types(args.drop_last()) + if args.last().variadic { Seq::empty() } else { seq![args.last().ty] }
    }
}

/// The type of the first variadic argument, if any.
pub open spec fn first_variadic_type(args: Seq<ArgM>) -> Option<Box<TypeM>>
    decreases args.len(),
{
    if args.len() == 0 {
        None
    } else {
        match first_variadic_type(args.drop_last()) {
            Some(t) => Some(t),
            None => if args.last().variadic { Some(Box::new(args.last().ty)) } else { None },
        }
    }
}

impl From<BuiltinFn> for Type {
    /// The function type of a builtin: the types of its arguments that are not
    /// variadic, the type of its first variadic argument, and its return type.
    /// What is stated of the result is its view, given here.
    fn from(value: BuiltinFn) -> (r: Self)
        ensures
            r@ == (TypeM::Fn {
                args: fixed_arg_types(value@.args),
                variadic_arg: first_variadic_type(value@.args),
                return_type: Box::new(value@.return_type),
            }),
    {
        let ghost am = value@.args;
        let mut args: Vec<Type> = Vec::new();
        let mut varg: Option<Box<Type>> = None;
        let mut i: usize = 0;
        proof {
            crate::types::lemma_types_view(args@);
            assert(crate::types::types_view(args@) =~= fixed_arg_types(am.take(0)));
            assert(am.take(0) =~= Seq::<ArgM>::empty());
        }
        while i < value.args.len()
            invariant
                i <= value.args.len(),
                am == value@.args,
                am.len() == value.args.len(),
                forall|k: int| 0 <= k < value.args.len() ==> #[trigger] am[k] == value.args@[k]@,
                crate::types::types_view(args@) == fixed_arg_types(am.take(i as int)),
                match varg {
                    Some(t) => first_variadic_type(am.take(i as int)) == Some(Box::new(t@)),
                    None => first_variadic_type(am.take(i as int)) is None,
                },
            decreases value.args.len() - i,
        {
            let a = &value.args[i];
            assert(am.take(i + 1).drop_last() =~= am.take(i as int));
            assert(am.take(i + 1).last() == am[i as int]);
            if !a.variadic {
                let ghost before = args@;
                args.push(a.ty.duplicate());
                proof {
                    crate::types::lemma_types_view(before);
                    crate::types::lemma_types_view(args@);
                    assert(crate::types::types_view(args@) =~= crate::types::types_view(before).push(a.ty@));
                }
            } else {
                assert(fixed_arg_types(am.take(i + 1)) =~= fixed_arg_types(am.take(i as int)));
                if varg.is_none() {
                    varg = Some(Box::new(a.ty.duplicate()));
                }
            }
            i = i + 1;
        }
        assert(am.take(value.args.len() as int) =~= am);
        Type::Fn { args, variadic_arg: varg, return_type: Box::new(value.return_type) }
    }
}

impl vstd::std_specs::convert::FromSpecImpl<BuiltinFn> for Type {
    /// The result of `from` is stated by its view alone: a `Type` holding a
    /// `Vec` is not fixed by its view.
    open spec fn obeys_from_spec() -> bool {
        false
    }

    open spec fn from_spec(value: BuiltinFn) -> Self {
        choose|t: Type| t@ == (TypeM::Fn {
            args: fixed_arg_types(value@.args),
            variadic_arg: first_variadic_type(value@.args),
            return_type: Box::new(value@.return_type),
        })
    }
}


/// The logical builtins on booleans: `or` is true exactly when at least one
/// of its two arguments is, `and` exactly when both are, `not` gives the
/// other boolean, and `cond` gives its second argument when its first is
/// true and its third when it is false.
pub proof fn logical_builtins_on_booleans(a: bool, b: bool, x: ValueM, y: ValueM)
    ensures
        apply_spec(ImplM::Or, seq![ValueM::Bool(a), ValueM::Bool(b)]) == ApplyM::Done(ValueM::Bool(a || b)),
        apply_spec(ImplM::And, seq![ValueM::Bool(a), ValueM::Bool(b)]) == ApplyM::Done(ValueM::Bool(a && b)),
        apply_spec(ImplM::Not, seq![ValueM::Bool(a)]) == ApplyM::Done(ValueM::Bool(!a)),
        apply_spec(ImplM::Cond, seq![ValueM::Bool(a), x, y]) == ApplyM::Done(if a { x } else { y }),
        apply_spec(ImplM::Or, seq![ValueM::Bool(true), ValueM::Bool(b)]) == ApplyM::Done(ValueM::Bool(true)),
        apply_spec(ImplM::Or, seq![ValueM::Bool(a), ValueM::Bool(true)]) == ApplyM::Done(ValueM::Bool(true)),
        apply_spec(ImplM::And, seq![ValueM::Bool(false), ValueM::Bool(b)]) == ApplyM::Done(ValueM::Bool(false)),
        apply_spec(ImplM::And, seq![ValueM::Bool(a), ValueM::Bool(false)]) == ApplyM::Done(ValueM::Bool(false)),
{
}

} // verus!
