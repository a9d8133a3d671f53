//! The compiler and associated types
use vstd::prelude::*;
use crate::ast::{
    Expr, ExprS, ExprM, ExprSM, IdentifierKind, expr_view, expr_s_view, exprs_view, lemma_exprs_view,
    lookup_name_ok, lookup_name_of, expr_type,
};
use crate::builtins::{default_builtins_m, BuiltinFn, FnM, ArgM, fn_arity, fn_arity_ok, fn_arity_matches, fn_is_variadic, values_view};
use crate::errors::{ExprError, ExprErrorS, ExprResult, CompileError, ErrorM, ErrorSM, errors_view, error_s_view};
pub use crate::lookup;
pub use crate::opcode;
use crate::types::{Type, TypeM, types_view};
use crate::value::{Value, ValueM};
use crate::text::owned;

verus! {

broadcast use vstd::std_specs::vec::group_vec_axioms;

/// The names and functions known when compiling.
#[derive(Debug)]
pub struct CompileTimeEnv {
    builtins: Vec<BuiltinFn>,
    user_builtins: Vec<BuiltinFn>,
    vars: Vec<String>,
    prompts: Vec<String>,
    secrets: Vec<String>,
    client_context: Vec<String>,
}

/// The model of a [`CompileTimeEnv`].
pub struct EnvM {
    pub builtins: Seq<FnM>,
    pub user_builtins: Seq<FnM>,
    pub vars: Seq<Seq<char>>,
    pub prompts: Seq<Seq<char>>,
    pub secrets: Seq<Seq<char>>,
    pub client_context: Seq<Seq<char>>,
}

/// The models of a sequence of builtins.
pub open spec fn fns_view(fs: Seq<BuiltinFn>) -> Seq<FnM> {
    fs.map_values(|f: BuiltinFn| f@)
}

/// The texts of a sequence of strings.
pub open spec fn strs_view(ss: Seq<String>) -> Seq<Seq<char>> {
    ss.map_values(|s: String| s@)
}

impl View for CompileTimeEnv {
    type V = EnvM;

    closed spec fn view(&self) -> EnvM {
        EnvM {
            builtins: fns_view(self.builtins@),
            user_builtins: fns_view(self.user_builtins@),
            vars: strs_view(self.vars@),
            prompts: strs_view(self.prompts@),
            secrets: strs_view(self.secrets@),
            client_context: strs_view(self.client_context@),
        }
    }
}

/// The names of functions.
pub open spec fn fn_names(fs: Seq<FnM>) -> Seq<Seq<char>> {
    fs.map_values(|f: FnM| f.name)
}

/// The first position of `x` in `list`, or -1.
pub open spec fn index_of(list: Seq<Seq<char>>, x: Seq<char>) -> int
    decreases list.len(),
{
    if list.len() == 0 {
        -1
    } else {
        let r = index_of(list.drop_last(), x);
        if r >= 0 {
            r
        } else if list.last() == x {
            list.len() - 1
        } else {
            -1
        }
    }
}

/// `index_of` is -1 or a position holding `x`, with no `x` before it.
pub proof fn lemma_index_of(list: Seq<Seq<char>>, x: Seq<char>)
    ensures
        -1 <= index_of(list, x) < list.len(),
        index_of(list, x) >= 0 ==> list[index_of(list, x)] == x,
        forall|j: int| 0 <= j < list.len() && (index_of(list, x) < 0 || j < index_of(list, x)) ==> list[j] != x,
    decreases list.len(),
{
    if list.len() > 0 {
        let p = list.drop_last();
        lemma_index_of(p, x);
        assert forall|j: int| 0 <= j < list.len() && (index_of(list, x) < 0 || j < index_of(list, x)) implies list[j] != x by {
            if j < list.len() - 1 {
                assert(p[j] == list[j]);
            }
        }
    }
}

/// `index_of` is the first match.
pub proof fn lemma_index_of_first(list: Seq<Seq<char>>, x: Seq<char>, i: int)
    requires
        0 <= i < list.len(),
        list[i] == x,
        forall|j: int| 0 <= j < i ==> list[j] != x,
    ensures
        index_of(list, x) == i,
{
    lemma_index_of(list, x);
}

/// The first position of the string constant `s` in `consts`, or -1.
pub open spec fn const_index(consts: Seq<ValueM>, s: Seq<char>) -> int
    decreases consts.len(),
{
    if consts.len() == 0 {
        -1
    } else {
        let r = const_index(consts.drop_last(), s);
        if r >= 0 {
            r
        } else if consts.last() == ValueM::Str(s) {
            consts.len() - 1
        } else {
            -1
        }
    }
}

/// `const_index` is -1 or a position holding the string, with none before it.
pub proof fn lemma_const_index(consts: Seq<ValueM>, s: Seq<char>)
    ensures
        -1 <= const_index(consts, s) < consts.len(),
        const_index(consts, s) >= 0 ==> consts[const_index(consts, s)] == ValueM::Str(s),
        forall|j: int| 0 <= j < consts.len() && (const_index(consts, s) < 0 || j < const_index(consts, s)) ==> consts[j] != ValueM::Str(s),
    decreases consts.len(),
{
    if consts.len() > 0 {
        let p = consts.drop_last();
        lemma_const_index(p, s);
        assert forall|j: int| 0 <= j < consts.len() && (const_index(consts, s) < 0 || j < const_index(consts, s)) implies consts[j] != ValueM::Str(s) by {
            if j < consts.len() - 1 {
                assert(p[j] == consts[j]);
            }
        }
    }
}

/// The `GET` instruction for a lookup and a position.
pub open spec fn get_code(lookup: u8, idx: int) -> Seq<u8> {
    seq![opcode::GET, lookup, (idx % 256) as u8]
}

/// The outcome of compiling an expression.
pub enum CompM {
    Codes(Seq<u8>),
    Errors(Seq<ErrorSM>),
    /// Compilation cannot proceed on this input.
    Panic,
}

/// Compiling an identifier.
pub open spec fn compile_ident_spec(
    name: Seq<char>,
    kind: IdentifierKind,
    s: usize,
    t: usize,
    env: EnvM,
) -> CompM {
    if !lookup_name_ok(name, kind) {
        CompM::Panic
    } else {
        let ln = lookup_name_of(name, kind);
        let undefined = CompM::Errors(seq![(ErrorM::Undefined(name), s, t)]);
        let found = |list: Seq<Seq<char>>, lk: u8|
            if index_of(list, ln) >= 0 {
                CompM::Codes(get_code(lk, index_of(list, ln)))
            } else {
                undefined
            };
        match kind {
            IdentifierKind::Var => found(env.vars, lookup::VAR),
            IdentifierKind::Prompt => found(env.prompts, lookup::PROMPT),
            IdentifierKind::Secret => found(env.secrets, lookup::SECRET),
            IdentifierKind::Client => found(env.client_context, lookup::CLIENT_CTX),
            IdentifierKind::Builtin => if index_of(fn_names(env.builtins), ln) >= 0 {
                CompM::Codes(get_code(lookup::BUILTIN, index_of(fn_names(env.builtins), ln)))
            } else {
                found(fn_names(env.user_builtins), lookup::USER_BUILTIN)
            },
        }
    }
}

/// Whether an argument of static type `actual` may be passed where `expected` is declared.
pub open spec fn arg_type_fits(expected: TypeM, actual: TypeM) -> bool {
    expected == actual || expected == TypeM::Value || actual == TypeM::Unknown
}

/// Type errors of the arguments a call passes to the declared arguments `fargs`.
pub open spec fn type_errors(fargs: Seq<ArgM>, args: Seq<ExprSM>) -> Seq<ErrorSM>
    decreases fargs.len(),
{
    if fargs.len() == 0 {
        Seq::empty()
    } else {
        let i = fargs.len() - 1;
        let more = if i < args.len() && !arg_type_fits(fargs[i].ty, expr_type(args[i].0)) {
            seq![(ErrorM::CompileTypeMismatch(fargs[i].ty, expr_type(args[i].0)), args[i].1, args[i].2)]
        } else {
            Seq::empty()
        };
        type_errors(fargs.drop_last(), args) + more
    }
}

/// A call's value, like an identifier's, is known only when it runs: its
/// static type is `Unknown`, which fits any declared argument type. So the
/// type check of a call reports no mismatch for arguments that are calls or
/// identifiers, whatever types the callee declares.
pub proof fn call_and_identifier_arguments_pass_type_check(fargs: Seq<ArgM>, args: Seq<ExprSM>)
    requires
        forall|i: int| 0 <= i < args.len() ==> (#[trigger] args[i]).0 is Call || args[i].0 is Ident,
    ensures
        type_errors(fargs, args).len() == 0,
        forall|i: int, ty: TypeM| 0 <= i < args.len() ==> #[trigger] arg_type_fits(ty, expr_type(#[trigger] args[i].0)),
    decreases fargs.len(),
{
    if fargs.len() > 0 {
        call_and_identifier_arguments_pass_type_check(fargs.drop_last(), args);
        let i = fargs.len() - 1;
        if i < args.len() {
            assert(args[i].0 is Call || args[i].0 is Ident);
        }
        assert(type_errors(fargs, args) =~= type_errors(fargs.drop_last(), args));
    }
    assert forall|i: int, ty: TypeM| 0 <= i < args.len() implies #[trigger] arg_type_fits(ty, expr_type(#[trigger] args[i].0)) by {
        assert(args[i].0 is Call || args[i].0 is Ident);
    }
}

/// The arity error of calling `f` with `n` arguments at `s..t`, if any.
pub open spec fn arity_errors(f: FnM, n: int, s: usize, t: usize) -> Seq<ErrorSM> {
    if fn_arity_matches(f, n) {
        Seq::empty()
    } else {
        seq![(ErrorM::WrongNumberOfArgs(fn_arity(f) as usize, n as usize), s, t)]
    }
}

/// The checks of a call whose callee compiled to `cb`: the errors found, or
/// `None` where the check cannot proceed.
pub open spec fn call_check(cb: Seq<u8>, args: Seq<ExprSM>, env: EnvM, s: usize, t: usize) -> Option<Seq<ErrorSM>> {
    if cb.len() < 3 {
        Some(Seq::empty())
    } else {
        let lk = cb[1];
        let index = cb[2] as int;
        if lk == lookup::BUILTIN {
            if index >= env.builtins.len() || args.len() > 255 || !fn_arity_ok(env.builtins[index]) {
                None
            } else {
                let f = env.builtins[index];
                Some(arity_errors(f, args.len() as int, s, t) + type_errors(f.args, args))
            }
        } else if lk == lookup::USER_BUILTIN {
            if index >= env.user_builtins.len() || args.len() > 255 || !fn_arity_ok(env.user_builtins[index]) {
                None
            } else {
                Some(arity_errors(env.user_builtins[index], args.len() as int, s, t))
            }
        } else if lk == lookup::CLIENT_CTX {
            Some(Seq::empty())
        } else {
            Some(seq![(ErrorM::InvalidLookupType(lk), s, t)])
        }
    }
}

/// The state after compiling some arguments of a call.
pub struct ArgsM {
    pub panic: bool,
    pub codes: Seq<u8>,
    pub errs: Seq<ErrorSM>,
}

/// Compiling an expression, given the constants so far: the outcome and the constants after.
pub open spec fn compile_spec(e: ExprSM, env: EnvM, consts: Seq<ValueM>) -> (CompM, Seq<ValueM>)
    decreases e,
{
    match e.0 {
        ExprM::Bool(b) => (CompM::Codes(seq![if b { opcode::TRUE } else { opcode::FALSE }]), consts),
        ExprM::Str(s) => {
            let i = const_index(consts, s);
            if i >= 0 {
                (CompM::Codes(seq![opcode::CONSTANT, (i % 256) as u8]), consts)
            } else {
                (
                    CompM::Codes(seq![opcode::CONSTANT, (consts.len() % 256) as u8]),
                    consts.push(ValueM::Str(s)),
                )
            }
        },
        ExprM::Ident(name, kind, _) => (compile_ident_spec(name, kind, e.1, e.2, env), consts),
        ExprM::Error => (CompM::Panic, consts),
        ExprM::Call(callee, args) => {
            let (cr, c1) = compile_spec(*callee, env, consts);
            match cr {
                CompM::Panic => (CompM::Panic, c1),
                CompM::Errors(es) => (CompM::Errors(es), c1),
                CompM::Codes(cb) => match call_check(cb, args, env, e.1, e.2) {
                    None => (CompM::Panic, c1),
                    Some(cerrs) => {
                        let (ar, c2) = compile_args_spec(args, env, c1);
                        if ar.panic {
                            (CompM::Panic, c2)
                        } else if cerrs.len() + ar.errs.len() > 0 {
                            (CompM::Errors(cerrs + ar.errs), c2)
                        } else {
                            (
                                CompM::Codes(cb + ar.codes + seq![opcode::CALL, (args.len() % 256) as u8]),
                                c2,
                            )
                        }
                    },
                },
            }
        },
    }
}

/// Compiling the arguments of a call, left to right.
pub open spec fn compile_args_spec(args: Seq<ExprSM>, env: EnvM, consts: Seq<ValueM>) -> (ArgsM, Seq<ValueM>)
    decreases args,
{
    if args.len() == 0 {
        (ArgsM { panic: false, codes: Seq::empty(), errs: Seq::empty() }, consts)
    } else {
        let (prev, c1) = compile_args_spec(args.drop_last(), env, consts);
        if prev.panic {
            (prev, c1)
        } else {
            let (r, c2) = compile_spec(args.last(), env, c1);
            match r {
                CompM::Panic => (ArgsM { panic: true, codes: prev.codes, errs: prev.errs }, c2),
                CompM::Codes(cs) => (ArgsM { panic: false, codes: prev.codes + cs, errs: prev.errs }, c2),
                CompM::Errors(es) => (ArgsM { panic: false, codes: prev.codes, errs: prev.errs + es }, c2),
            }
        }
    }
}

/// Once compiling a prefix of the arguments cannot proceed, neither can compiling more of them.
pub proof fn lemma_args_panic_stays(args: Seq<ExprSM>, env: EnvM, consts: Seq<ValueM>, k: int, j: int)
    requires
        0 <= k <= j <= args.len(),
        compile_args_spec(args.take(k), env, consts).0.panic,
    ensures
        compile_args_spec(args.take(j), env, consts).0.panic,
    decreases j - k,
{
    if j > k {
        lemma_args_panic_stays(args, env, consts, k, j - 1);
        assert(args.take(j).drop_last() =~= args.take(j - 1));
    }
}

/// Whether an executable compile result agrees with its model.
pub open spec fn compile_agrees(r: Option<ExprResult<Vec<u8>>>, m: CompM) -> bool {
    match m {
        CompM::Codes(cs) => r matches Some(Ok(v)) && v@ == cs,
        CompM::Errors(es) => r matches Some(Err(x)) && errors_view(x@) == es,
        CompM::Panic => r is None,
    }
}

/// The version bytes that start bytecode.
pub open spec fn version_bytes() -> Seq<u8> {
    seq![0u8, 8u8, 0u8, 0u8]
}

/// The version bytes of this compiler: major, minor, patch, 0.
pub fn get_version_bytes() -> (r: [u8; 4])
    ensures
        r@ == version_bytes(),
{
    let r = [0u8, 8u8, 0u8, 0u8];
    assert(r@ =~= version_bytes());
    r
}

/// The compiled bytecode for an expression.
#[derive(Debug, PartialEq)]
pub struct ExprByteCode {
    version: [u8; 4],
    codes: Vec<u8>,
    constants: Vec<Value>,
    types: Vec<Type>,
}

/// The model of [`ExprByteCode`].
pub struct BytecodeM {
    pub version: Seq<u8>,
    pub codes: Seq<u8>,
    pub constants: Seq<ValueM>,
    pub types: Seq<TypeM>,
}

impl View for ExprByteCode {
    type V = BytecodeM;

    closed spec fn view(&self) -> BytecodeM {
        BytecodeM {
            version: self.version@,
            codes: self.codes@,
            constants: values_view(self.constants@),
            types: types_view(self.types@),
        }
    }
}

impl ExprByteCode {
    /// Bytecode from `codes`, which start with the version bytes, and its tables.
    pub fn new(codes: Vec<u8>, constants: Vec<Value>, types: Vec<Type>) -> (r: Self)
        requires
            codes@.len() >= 4,
            codes@.take(4) == version_bytes(),
        ensures
            r@.version == version_bytes(),
            r@.codes == codes@.skip(4),
            r@.constants == values_view(constants@),
            r@.types == types_view(types@),
    {
        let version = get_version_bytes();
        let mut rest: Vec<u8> = Vec::new();
        let mut i: usize = 4;
        while i < codes.len()
            invariant
                4 <= i <= codes.len(),
                rest@ == codes@.subrange(4, i as int),
            decreases codes.len() - i,
        {
            rest.push(codes[i]);
            assert(codes@.subrange(4, i + 1) =~= codes@.subrange(4, i as int).push(codes@[i as int]));
            i = i + 1;
        }
        assert(rest@ =~= codes@.skip(4));
        ExprByteCode { version, codes: rest, constants, types }
    }

    /// The version bytes the bytecode was made with.
    pub fn version(&self) -> (r: &[u8; 4])
        ensures
            r@ == self@.version,
    {
        &self.version
    }

    /// The instructions, without the version bytes.
    pub fn codes(&self) -> (r: &[u8])
        ensures
            r@ == self@.codes,
    {
        self.codes.as_slice()
    }

    /// The constants the instructions refer to.
    pub fn constants(&self) -> (r: &[Value])
        ensures
            values_view(r@) == self@.constants,
    {
        self.constants.as_slice()
    }

    /// The types the instructions refer to.
    pub fn types(&self) -> (r: &[Type])
        ensures
            types_view(r@) == self@.types,
    {
        self.types.as_slice()
    }
}


/// The client context after adding `key`: as it was where `key` is there,
/// else with `key` at the end.
pub open spec fn client_context_with(cc: Seq<Seq<char>>, key: Seq<char>) -> Seq<Seq<char>> {
    if index_of(cc, key) >= 0 {
        cc
    } else {
        cc.push(key)
    }
}

/// Adding a client context key puts it where the addition reports, and
/// adding it again changes nothing and reports the same position.
pub proof fn client_context_add_is_idempotent(cc: Seq<Seq<char>>, key: Seq<char>)
    ensures
        index_of(client_context_with(cc, key), key) == if index_of(cc, key) >= 0 {
            index_of(cc, key)
        } else {
            cc.len() as int
        },
        client_context_with(client_context_with(cc, key), key) == client_context_with(cc, key),
{
    lemma_index_of(cc, key);
    if index_of(cc, key) < 0 {
        assert(cc.push(key).drop_last() =~= cc);
    }
}

/// The first position of `x` in `list`.
fn position_in(list: &Vec<String>, x: &str) -> (r: Option<usize>)
    ensures
        match r {
            Some(i) => i < list.len() && i as int == index_of(strs_view(list@), x@),
            None => index_of(strs_view(list@), x@) < 0,
        },
{
    let ghost l = strs_view(list@);
    let xs = owned(x);
    let mut i: usize = 0;
    proof {
        lemma_index_of(l, x@);
    }
    while i < list.len()
        invariant
            i <= list.len(),
            l == strs_view(list@),
            xs@ == x@,
            forall|j: int| 0 <= j < i ==> l[j] != x@,
        decreases list.len() - i,
    {
        if list[i].eq(&xs) {
            proof {
                lemma_index_of_first(l, x@, i as int);
            }
            return Some(i);
        }
        i = i + 1;
    }
    None
}

/// The first position of a function named `x` in `list`.
fn fn_position_in(list: &Vec<BuiltinFn>, x: &str) -> (r: Option<usize>)
    ensures
        match r {
            Some(i) => i < list.len() && i as int == index_of(fn_names(fns_view(list@)), x@),
            None => index_of(fn_names(fns_view(list@)), x@) < 0,
        },
{
    let ghost l = fn_names(fns_view(list@));
    let xs = owned(x);
    let mut i: usize = 0;
    proof {
        lemma_index_of(l, x@);
    }
    while i < list.len()
        invariant
            i <= list.len(),
            l == fn_names(fns_view(list@)),
            xs@ == x@,
            forall|j: int| 0 <= j < i ==> l[j] != x@,
        decreases list.len() - i,
    {
        if list[i].name.eq(&xs) {
            proof {
                lemma_index_of_first(l, x@, i as int);
            }
            return Some(i);
        }
        i = i + 1;
    }
    None
}

impl Default for CompileTimeEnv {
    /// The default builtins and nothing else.
    fn default() -> (r: Self)
        ensures
            r@ == (EnvM {
                builtins: default_builtins_m(),
                user_builtins: Seq::empty(),
                vars: Seq::empty(),
                prompts: Seq::empty(),
                secrets: Seq::empty(),
                client_context: Seq::empty(),
            }),
    {
        let r = Self::new(Vec::new(), Vec::new(), Vec::new(), Vec::new());
        assert(r@.vars =~= Seq::<Seq<char>>::empty());
        assert(r@.prompts =~= Seq::<Seq<char>>::empty());
        assert(r@.secrets =~= Seq::<Seq<char>>::empty());
        assert(r@.client_context =~= Seq::<Seq<char>>::empty());
        r
    }
}

impl CompileTimeEnv {
    /// An environment with the default builtins, no user builtins, and the given names.
    pub fn new(
        vars: Vec<String>,
        prompts: Vec<String>,
        secrets: Vec<String>,
        client_context: Vec<String>,
    ) -> (r: Self)
        ensures
            r@.builtins == default_builtins_m(),
            r@.user_builtins == Seq::<FnM>::empty(),
            r@.vars == strs_view(vars@),
            r@.prompts == strs_view(prompts@),
            r@.secrets == strs_view(secrets@),
            r@.client_context == strs_view(client_context@),
    {
        let builtins = BuiltinFn::default_builtins();
        assert(fns_view(builtins@) =~= default_builtins_m());
        let r = Self { builtins, user_builtins: Vec::new(), vars, prompts, secrets, client_context };
        assert(fns_view(r.user_builtins@) =~= Seq::<FnM>::empty());
        r
    }

    /// The first builtin named `name`, with its position as a byte.
    pub fn get_builtin_index(&self, name: &str) -> (r: Option<(&BuiltinFn, u8)>)
        ensures
            match r {
                Some((f, i)) => {
                    let k = index_of(fn_names(self@.builtins), name@);
                    k >= 0 && f@ == self@.builtins[k] && i == (k % 256) as u8
                },
                None => index_of(fn_names(self@.builtins), name@) < 0,
            },
    {
        match fn_position_in(&self.builtins, name) {
            Some(i) => Some((&self.builtins[i], (i % 256) as u8)),
            None => None,
        }
    }

    /// The first user builtin named `name`, with its position as a byte.
    pub fn get_user_builtin_index(&self, name: &str) -> (r: Option<(&BuiltinFn, u8)>)
        ensures
            match r {
                Some((f, i)) => {
                    let k = index_of(fn_names(self@.user_builtins), name@);
                    k >= 0 && f@ == self@.user_builtins[k] && i == (k % 256) as u8
                },
                None => index_of(fn_names(self@.user_builtins), name@) < 0,
            },
    {
        match fn_position_in(&self.user_builtins, name) {
            Some(i) => Some((&self.user_builtins[i], (i % 256) as u8)),
            None => None,
        }
    }

    /// Adds user builtins, in order.
    pub fn add_user_builtins(&mut self, builtins: Vec<BuiltinFn>)
        ensures
            final(self)@ == (EnvM { user_builtins: old(self)@.user_builtins + fns_view(builtins@), ..old(self)@ }),
    {
        let mut builtins = builtins;
        let ghost all = fns_view(builtins@);
        let ghost before = self@;
        while builtins.len() > 0
            invariant
                builtins.len() <= all.len(),
                fns_view(builtins@) == all.skip(all.len() - builtins.len()),
                self@ == (EnvM { user_builtins: before.user_builtins + all.take(all.len() - builtins.len()), ..before }),
            decreases builtins.len(),
        {
            let ghost k = all.len() - builtins.len();
            let ghost old_b = builtins@;
            let b = builtins.remove(0);
            assert(fns_view(builtins@) =~= all.skip(k + 1)) by {
                assert(builtins@ =~= old_b.remove(0));
                assert forall|j: int| 0 <= j < builtins@.len() implies fns_view(builtins@)[j] == all.skip(k + 1)[j] by {
                    assert(fns_view(old_b)[j + 1] == all.skip(k)[j + 1]);
                }
            }
            assert(b@ == all[k]) by {
                assert(fns_view(old_b)[0] == all.skip(k)[0]);
            }
            self.add_user_builtin(b);
            assert(all.take(k + 1) =~= all.take(k).push(all[k]));
            assert(before.user_builtins + all.take(k + 1) =~= (before.user_builtins + all.take(k)).push(b@));
        }
        assert(all.take(all.len() as int) =~= all);
    }

    /// Adds a user builtin at the end.
    pub fn add_user_builtin(&mut self, builtin: BuiltinFn)
        ensures
            final(self)@ == (EnvM { user_builtins: old(self)@.user_builtins.push(builtin@), ..old(self)@ }),
    {
        self.user_builtins.push(builtin);
        assert(fns_view(self.user_builtins@) =~= fns_view(old(self).user_builtins@).push(builtin@));
    }

    /// The builtin at `index`.
    pub fn get_builtin(&self, index: usize) -> (r: Option<&BuiltinFn>)
        ensures
            match r {
                Some(f) => index < self@.builtins.len() && f@ == self@.builtins[index as int],
                None => index >= self@.builtins.len(),
            },
    {
        if index < self.builtins.len() { Some(&self.builtins[index]) } else { None }
    }

    /// The user builtin at `index`.
    pub fn get_user_builtin(&self, index: usize) -> (r: Option<&BuiltinFn>)
        ensures
            match r {
                Some(f) => index < self@.user_builtins.len() && f@ == self@.user_builtins[index as int],
                None => index >= self@.user_builtins.len(),
            },
    {
        if index < self.user_builtins.len() { Some(&self.user_builtins[index]) } else { None }
    }

    /// The variable name at `index`.
    pub fn get_var(&self, index: usize) -> (r: Option<&String>)
        ensures
            match r {
                Some(s) => index < self@.vars.len() && s@ == self@.vars[index as int],
                None => index >= self@.vars.len(),
            },
    {
        if index < self.vars.len() { Some(&self.vars[index]) } else { None }
    }

    /// The first position of the variable `name`.
    pub fn get_var_index(&self, name: &str) -> (r: Option<usize>)
        ensures
            match r {
                Some(i) => i as int == index_of(self@.vars, name@),
                None => index_of(self@.vars, name@) < 0,
            },
    {
        position_in(&self.vars, name)
    }

    /// The prompt name at `index`.
    pub fn get_prompt(&self, index: usize) -> (r: Option<&String>)
        ensures
            match r {
                Some(s) => index < self@.prompts.len() && s@ == self@.prompts[index as int],
                None => index >= self@.prompts.len(),
            },
    {
        if index < self.prompts.len() { Some(&self.prompts[index]) } else { None }
    }

    /// The first position of the prompt `name`.
    pub fn get_prompt_index(&self, name: &str) -> (r: Option<usize>)
        ensures
            match r {
                Some(i) => i as int == index_of(self@.prompts, name@),
                None => index_of(self@.prompts, name@) < 0,
            },
    {
        position_in(&self.prompts, name)
    }

    /// The secret name at `index`.
    pub fn get_secret(&self, index: usize) -> (r: Option<&String>)
        ensures
            match r {
                Some(s) => index < self@.secrets.len() && s@ == self@.secrets[index as int],
                None => index >= self@.secrets.len(),
            },
    {
        if index < self.secrets.len() { Some(&self.secrets[index]) } else { None }
    }

    /// The first position of the secret `name`.
    pub fn get_secret_index(&self, name: &str) -> (r: Option<usize>)
        ensures
            match r {
                Some(i) => i as int == index_of(self@.secrets, name@),
                None => index_of(self@.secrets, name@) < 0,
            },
    {
        position_in(&self.secrets, name)
    }

    /// The client context key at `index`.
    pub fn get_client_context(&self, index: usize) -> (r: Option<&String>)
        ensures
            match r {
                Some(s) => index < self@.client_context.len() && s@ == self@.client_context[index as int],
                None => index >= self@.client_context.len(),
            },
    {
        if index < self.client_context.len() { Some(&self.client_context[index]) } else { None }
    }

    /// The position of `key` in the client context, adding it at the end when absent.
    pub fn add_to_client_context(&mut self, key: &str) -> (r: usize)
        ensures
            final(self)@ == (EnvM { client_context: client_context_with(old(self)@.client_context, key@), ..old(self)@ }),
            index_of(old(self)@.client_context, key@) >= 0 ==> {
                &&& r as int == index_of(old(self)@.client_context, key@)
                &&& final(self)@ == old(self)@
            },
            index_of(old(self)@.client_context, key@) < 0 ==> {
                &&& r as int == old(self)@.client_context.len()
                &&& final(self)@ == (EnvM { client_context: old(self)@.client_context.push(key@), ..old(self)@ })
            },
    {
        match position_in(&self.client_context, key) {
            Some(i) => i,
            None => {
                self.client_context.push(owned(key));
                assert(strs_view(self.client_context@) =~= strs_view(old(self).client_context@).push(key@));
                self.client_context.len() - 1
            },
        }
    }

    /// The first client context key equal to `name`, with its position as a byte.
    pub fn get_client_context_index(&self, name: &str) -> (r: Option<(&String, u8)>)
        ensures
            match r {
                Some((s, i)) => {
                    let k = index_of(self@.client_context, name@);
                    k >= 0 && s@ == self@.client_context[k] && i == (k % 256) as u8
                },
                None => index_of(self@.client_context, name@) < 0,
            },
    {
        match position_in(&self.client_context, name) {
            Some(i) => Some((&self.client_context[i], (i % 256) as u8)),
            None => None,
        }
    }
}


/// Whether a builtin's arity can be computed.
fn arity_computable(f: &BuiltinFn) -> (r: bool)
    ensures
        r == fn_arity_ok(f@),
{
    !(f.is_variadic() && f.args.len() % 256 == 0)
}

/// The code for an identifier.
fn compile_identifier(
    i: &crate::ast::ExprIdentifier,
    span: &core::ops::Range<usize>,
    env: &CompileTimeEnv,
) -> (r: Option<ExprResult<Vec<u8>>>)
    ensures
        compile_agrees(
            r,
            compile_ident_spec(i.0@, i.1, span.start, span.end, env@),
        ),
{
    if !(matches!(i.1, IdentifierKind::Builtin)) {
        let s = i.0.as_str();
        if s.unicode_len() == 0 {
            return None;
        }
        if (s.get_char(0) as u32) >= 128 {
            return None;
        }
    }
    let name = i.lookup_name();
    let found = match i.1 {
        IdentifierKind::Var => match position_in(&env.vars, name) {
            Some(k) => Some((lookup::VAR, k)),
            None => None,
        },
        IdentifierKind::Prompt => match position_in(&env.prompts, name) {
            Some(k) => Some((lookup::PROMPT, k)),
            None => None,
        },
        IdentifierKind::Secret => match position_in(&env.secrets, name) {
            Some(k) => Some((lookup::SECRET, k)),
            None => None,
        },
        IdentifierKind::Client => match position_in(&env.client_context, name) {
            Some(k) => Some((lookup::CLIENT_CTX, k)),
            None => None,
        },
        IdentifierKind::Builtin => match fn_position_in(&env.builtins, name) {
            Some(k) => Some((lookup::BUILTIN, k)),
            None => match fn_position_in(&env.user_builtins, name) {
                Some(k) => Some((lookup::USER_BUILTIN, k)),
                None => None,
            },
        },
    };
    match found {
        Some((lk, k)) => {
            let codes = vec![opcode::GET, lk, (k % 256) as u8];
            assert(codes@ =~= get_code(lk, k as int));
            Some(Ok(codes))
        },
        None => {
            let errs = vec![(ExprError::CompileError(CompileError::Undefined(owned(i.full_name()))), span.start..span.end)];
            assert(errors_view(errs@) =~= seq![(ErrorM::Undefined(i.0@), span.start, span.end)]);
            Some(Err(errs))
        },
    }
}

/// Appends the models of `more` to `errs`.
fn append_errors(errs: &mut Vec<ExprErrorS>, more: Vec<ExprErrorS>)
    ensures
        errors_view(final(errs)@) == errors_view(old(errs)@) + errors_view(more@),
{
    let mut more = more;
    let ghost a = old(errs)@;
    let ghost b = more@;
    errs.append(&mut more);
    assert(errors_view(errs@) =~= errors_view(a) + errors_view(b));
}

/// The checks of a call whose callee compiled to `cb`.
#[verifier::loop_isolation(false)]
fn check_call(
    cb: &Vec<u8>,
    args: &Vec<ExprS>,
    span: &core::ops::Range<usize>,
    env: &CompileTimeEnv,
) -> (r: Option<Vec<ExprErrorS>>)
    ensures
        match call_check(cb@, exprs_view(args@), env@, span.start, span.end) {
            None => r is None,
            Some(es) => r matches Some(v) && errors_view(v@) == es,
        },
{
    let ghost am = exprs_view(args@);
    proof {
        lemma_exprs_view(args@);
    }
    let mut errs: Vec<ExprErrorS> = Vec::new();
    if cb.len() < 3 {
        assert(errors_view(errs@) =~= Seq::<ErrorSM>::empty());
        return Some(errs);
    }
    let lk = cb[1];
    let index = cb[2] as usize;
    let n = args.len();
    if lk == lookup::BUILTIN || lk == lookup::USER_BUILTIN {
        let f = if lk == lookup::BUILTIN {
            if index >= env.builtins.len() {
                return None;
            }
            &env.builtins[index]
        } else {
            if index >= env.user_builtins.len() {
                return None;
            }
            &env.user_builtins[index]
        };
        if n > 255 || !arity_computable(f) {
            return None;
        }
        if !f.arity_matches(n as u8) {
            errs.push((
                ExprError::CompileError(CompileError::WrongNumberOfArgs { expected: f.arity() as usize, actual: n }),
                span.start..span.end,
            ));
        }
        assert(errors_view(errs@) =~= arity_errors(f@, n as int, span.start, span.end));
        if lk == lookup::BUILTIN {
            let ghost base = errors_view(errs@);
            let ghost fargs = f@.args;
            let mut j: usize = 0;
            while j < f.args.len()
                invariant
                    j <= f.args.len(),
                    fargs == f@.args,
                    errors_view(errs@) == base + type_errors(fargs.take(j as int), am),
                decreases f.args.len() - j,
            {
                assert(fargs.take(j + 1).drop_last() =~= fargs.take(j as int));
                assert(fargs[j as int] == f.args@[j as int]@);
                if j < n {
                    let a_type = args[j].0.get_type();
                    let fty = &f.args[j].ty;
                    let fits = fty.same_as(&a_type) || matches!(fty, Type::Value) || matches!(a_type, Type::Unknown);
                    assert(am[j as int] == expr_s_view(&args@[j as int]));
                    if !fits {
                        let ghost before = errs@;
                        errs.push((
                            ExprError::CompileError(CompileError::TypeMismatch { expected: fty.duplicate(), actual: a_type }),
                            args[j].1.start..args[j].1.end,
                        ));
                        assert(errors_view(errs@) =~= errors_view(before).push(errors_view(errs@).last()));
                    }
                }
                assert(errors_view(errs@) =~= base + type_errors(fargs.take(j + 1), am));
                j = j + 1;
            }
            assert(fargs.take(f.args.len() as int) =~= fargs);
        }
        Some(errs)
    } else if lk == lookup::CLIENT_CTX {
        assert(errors_view(errs@) =~= Seq::<ErrorSM>::empty());
        Some(errs)
    } else {
        errs.push((ExprError::CompileError(CompileError::InvalidLookupType(lk)), span.start..span.end));
        assert(errors_view(errs@) =~= seq![(ErrorM::InvalidLookupType(lk), span.start, span.end)]);
        Some(errs)
    }
}

/// Compiles an expression, adding string constants to `constants`; `None`
/// where compilation cannot proceed.
#[verifier::loop_isolation(false)]
fn compile_expr(e: &ExprS, env: &CompileTimeEnv, constants: &mut Vec<Value>) -> (r: Option<ExprResult<Vec<u8>>>)
    ensures
        compile_agrees(r, compile_spec(expr_s_view(e), env@, values_view(old(constants)@)).0),
        r is Some ==> values_view(final(constants)@) == compile_spec(expr_s_view(e), env@, values_view(old(constants)@)).1,
    decreases e,
{
    let ghost c0 = values_view(constants@);
    match &e.0 {
        Expr::Bool(b) => {
            let codes = if b.0 { vec![opcode::TRUE] } else { vec![opcode::FALSE] };
            assert(codes@ =~= seq![if b.0 { opcode::TRUE } else { opcode::FALSE }]);
            Some(Ok(codes))
        },
        Expr::String(st) => {
            let mut i: usize = 0;
            proof {
                crate::compiler::lemma_const_index(c0, st.0@);
            }
            while i < constants.len()
                invariant
                    i <= constants.len(),
                    c0 == values_view(constants@),
                    forall|j: int| 0 <= j < i ==> c0[j] != ValueM::Str(st.0@),
                decreases constants.len() - i,
            {
                let same = match &constants[i] {
                    Value::String(x) => x.eq(&st.0),
                    _ => false,
                };
                assert(c0[i as int] == constants@[i as int]@);
                if same {
                    assert(const_index(c0, st.0@) == i as int);
                    let codes = vec![opcode::CONSTANT, (i % 256) as u8];
                    assert(codes@ =~= seq![opcode::CONSTANT, (i as int % 256) as u8]);
                    return Some(Ok(codes));
                }
                i = i + 1;
            }
            assert(const_index(c0, st.0@) < 0);
            let k = constants.len();
            constants.push(Value::String(st.0.clone()));
            assert(values_view(constants@) =~= c0.push(ValueM::Str(st.0@)));
            let codes = vec![opcode::CONSTANT, (k % 256) as u8];
            assert(codes@ =~= seq![opcode::CONSTANT, (c0.len() % 256) as u8]);
            Some(Ok(codes))
        },
        Expr::Identifier(i) => compile_identifier(i, &e.1, env),
        Expr::Error => None,
        Expr::Call(c) => {
            let ghost am = exprs_view(c.args@);
            proof {
                lemma_exprs_view(c.args@);
            }
            let cb = match compile_expr(&c.callee, env, constants) {
                None => return None,
                Some(Err(es)) => return Some(Err(es)),
                Some(Ok(cb)) => cb,
            };
            let ghost c1 = values_view(constants@);
            let mut errs = match check_call(&cb, &c.args, &e.1, env) {
                None => return None,
                Some(errs) => errs,
            };
            let ghost cerrs = errors_view(errs@);
            let mut codes = cb;
            let ghost cbm = codes@;
            let mut k: usize = 0;
            while k < c.args.len()
                invariant
                    k <= c.args.len(),
                    am == exprs_view(c.args@),
                    am.len() == c.args.len(),
                    forall|j: int| 0 <= j < c.args.len() ==> #[trigger] am[j] == expr_s_view(&c.args@[j]),
                    ({
                        let (ar, cc) = compile_args_spec(am.take(k as int), env@, c1);
                        &&& !ar.panic
                        &&& codes@ == cbm + ar.codes
                        &&& errors_view(errs@) == cerrs + ar.errs
                        &&& values_view(constants@) == cc
                    }),
                decreases c.args.len() - k,
            {
                assert(am.take(k + 1).drop_last() =~= am.take(k as int));
                assert(am.take(k + 1).last() == expr_s_view(&c.args@[k as int]));
                match compile_expr(&c.args[k], env, constants) {
                    None => {
                        proof {
                            lemma_args_panic_stays(am, env@, c1, k + 1, am.len() as int);
                            assert(am.take(am.len() as int) =~= am);
                        }
                        return None;
                    },
                    Some(Ok(ac)) => {
                        let mut ac = ac;
                        codes.append(&mut ac);
                        assert(codes@ =~= cbm + compile_args_spec(am.take(k + 1), env@, c1).0.codes);
                    },
                    Some(Err(es)) => {
                        append_errors(&mut errs, es);
                        assert(errors_view(errs@) =~= cerrs + compile_args_spec(am.take(k + 1), env@, c1).0.errs);
                    },
                }
                k = k + 1;
            }
            assert(am.take(c.args.len() as int) =~= am);
            codes.push(opcode::CALL);
            codes.push((c.args.len() % 256) as u8);
            if errs.len() > 0 {
                Some(Err(errs))
            } else {
                assert(codes@ =~= cbm + compile_args_spec(am, env@, c1).0.codes + seq![opcode::CALL, (am.len() % 256) as u8]);
                Some(Ok(codes))
            }
        },
    }
}

/// Whether compiling `expr` under `env` can proceed: every identifier's look
/// up name can be taken, no error node is reached, and every checked call
/// refers to an existing builtin with at most 255 arguments.
pub open spec fn compiles(expr: ExprSM, env: EnvM) -> bool {
    !(compile_spec(expr, env, Seq::empty()).0 is Panic)
}

/// Compile an expression into bytecode.
pub fn compile(expr: &ExprS, env: &CompileTimeEnv) -> (r: ExprResult<ExprByteCode>)
    requires
        compiles(expr_s_view(expr), env@),
    ensures
        match compile_spec(expr_s_view(expr), env@, Seq::empty()) {
            (CompM::Codes(cs), consts) => r matches Ok(b) && b@ == (BytecodeM {
                version: version_bytes(),
                codes: cs,
                constants: consts,
                types: Seq::empty(),
            }),
            (CompM::Errors(es), _) => r matches Err(x) && errors_view(x@) == es,
            (CompM::Panic, _) => false,
        },
{
    match try_compile(expr, env) {
        Some(r) => r,
        None => {
            assert(false);
            Err(Vec::new())
        },
    }
}

/// Compile an expression into bytecode; `None` where compilation cannot proceed.
pub fn try_compile(expr: &ExprS, env: &CompileTimeEnv) -> (r: Option<ExprResult<ExprByteCode>>)
    ensures
        match compile_spec(expr_s_view(expr), env@, Seq::empty()) {
            (CompM::Codes(cs), consts) => r matches Some(Ok(b)) && b@ == (BytecodeM {
                version: version_bytes(),
                codes: cs,
                constants: consts,
                types: Seq::empty(),
            }),
            (CompM::Errors(es), _) => r matches Some(Err(x)) && errors_view(x@) == es,
            (CompM::Panic, _) => r is None,
        },
{
    let mut constants: Vec<Value> = Vec::new();
    assert(values_view(constants@) =~= Seq::<ValueM>::empty());
    let body = match compile_expr(expr, env, &mut constants) {
        None => return None,
        Some(Err(es)) => return Some(Err(es)),
        Some(Ok(body)) => body,
    };
    let mut codes: Vec<u8> = Vec::new();
    let v = get_version_bytes();
    codes.push(v[0]);
    codes.push(v[1]);
    codes.push(v[2]);
    codes.push(v[3]);
    let ghost bm = body@;
    let mut body = body;
    codes.append(&mut body);
    assert(codes@.take(4) =~= version_bytes());
    assert(codes@.skip(4) =~= bm);
    let types: Vec<Type> = Vec::new();
    assert(types_view(types@) =~= Seq::<TypeM>::empty());
    Some(Ok(ExprByteCode::new(codes, constants, types)))
}

} // verus!
