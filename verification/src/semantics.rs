//! What an expression means, and the proof that compiled bytecode computes it.
use vstd::prelude::*;
use crate::ast::{ExprM, ExprSM, IdentifierKind, lookup_name_ok, lookup_name_of};
use crate::builtins::{ApplyM, apply_spec};
use crate::compiler::{
    ArgsM, BytecodeM, CompM, EnvM, client_context_add_is_idempotent, client_context_with, compile_args_spec, compile_ident_spec, compile_spec, call_check,
    fn_names, get_code, index_of, lemma_index_of, const_index, lemma_const_index, version_bytes,
};
use crate::errors::{ErrorM, ErrorSM};
use crate::lookup;
use crate::opcode;
use crate::types::TypeM;
use crate::value::{ValueM, any_fn_type, value_type};
use crate::vm::{
    Instr, RuntimeEnvM, VmOut, VmS, call_step, client_values_with, fetch, final_state, get_value, instr_size, operand,
    run_from, stack_after, step, vm_outcome,
};

verus! {

/// The value of an expression, an error, or stuck where evaluation cannot proceed.
pub enum EvalM {
    Val(ValueM),
    Error(ErrorSM),
    Stuck,
}

/// The values of a sequence of expressions, the first error, or stuck.
pub enum ArgsEvalM {
    Vals(Seq<ValueM>),
    Error(ErrorSM),
    Stuck,
}

/// The value an identifier refers to.
pub open spec fn eval_ident(name: Seq<char>, kind: IdentifierKind, env: EnvM, renv: RuntimeEnvM) -> EvalM {
    let ln = lookup_name_of(name, kind);
    match kind {
        IdentifierKind::Var => {
            let i = index_of(env.vars, ln);
            if 0 <= i < renv.vars.len() { EvalM::Val(ValueM::Str(renv.vars[i])) } else { EvalM::Stuck }
        },
        IdentifierKind::Prompt => {
            let i = index_of(env.prompts, ln);
            if 0 <= i < renv.prompts.len() { EvalM::Val(ValueM::Str(renv.prompts[i])) } else { EvalM::Stuck }
        },
        IdentifierKind::Secret => {
            let i = index_of(env.secrets, ln);
            if 0 <= i < renv.secrets.len() { EvalM::Val(ValueM::Str(renv.secrets[i])) } else { EvalM::Stuck }
        },
        IdentifierKind::Client => {
            let i = index_of(env.client_context, ln);
            if 0 <= i < renv.client_context.len() { EvalM::Val(renv.client_context[i]) } else { EvalM::Stuck }
        },
        IdentifierKind::Builtin => {
            let i = index_of(fn_names(env.builtins), ln);
            let j = index_of(fn_names(env.user_builtins), ln);
            if i >= 0 {
                EvalM::Val(ValueM::Fn(env.builtins[i]))
            } else if j >= 0 {
                EvalM::Val(ValueM::Fn(env.user_builtins[j]))
            } else {
                EvalM::Stuck
            }
        },
    }
}

/// Calling the value `f` with the values `args`.
pub open spec fn eval_apply(f: ValueM, args: Seq<ValueM>) -> EvalM {
    match f {
        ValueM::Fn(fm) => match apply_spec(fm.func, args) {
            ApplyM::Done(v) => EvalM::Val(v),
            ApplyM::Fail(e) => EvalM::Error((e, 0usize, 0usize)),
            ApplyM::Stuck => EvalM::Stuck,
        },
        other => EvalM::Error((ErrorM::RuntimeTypeMismatch(any_fn_type(), value_type(other)), 0usize, 0usize)),
    }
}

/// The meaning of an expression: literals are themselves, identifiers what
/// the environments give them, and a call evaluates its callee, then its
/// arguments from left to right, then applies the callee.
pub open spec fn eval(e: ExprSM, env: EnvM, renv: RuntimeEnvM) -> EvalM
    decreases e,
{
    match e.0 {
        ExprM::Bool(b) => EvalM::Val(ValueM::Bool(b)),
        ExprM::Str(s) => EvalM::Val(ValueM::Str(s)),
        ExprM::Ident(name, kind, _) => eval_ident(name, kind, env, renv),
        ExprM::Error => EvalM::Stuck,
        ExprM::Call(callee, args) => match eval(*callee, env, renv) {
            EvalM::Val(f) => match eval_args(args, env, renv) {
                ArgsEvalM::Vals(vs) => eval_apply(f, vs),
                ArgsEvalM::Error(x) => EvalM::Error(x),
                ArgsEvalM::Stuck => EvalM::Stuck,
            },
            other => other,
        },
    }
}

/// The meaning of a sequence of expressions, from left to right.
pub open spec fn eval_args(args: Seq<ExprSM>, env: EnvM, renv: RuntimeEnvM) -> ArgsEvalM
    decreases args,
{
    if args.len() == 0 {
        ArgsEvalM::Vals(Seq::empty())
    } else {
        match eval_args(args.drop_last(), env, renv) {
            ArgsEvalM::Vals(vs) => match eval(args.last(), env, renv) {
                EvalM::Val(v) => ArgsEvalM::Vals(vs.push(v)),
                EvalM::Error(x) => ArgsEvalM::Error(x),
                EvalM::Stuck => ArgsEvalM::Stuck,
            },
            other => other,
        }
    }
}

/// The instruction at the start of `cs`, reading operands without wrapping.
pub open spec fn fetch_rel(cs: Seq<u8>) -> Option<Instr> {
    let op = cs[0];
    if op == opcode::CALL {
        if cs.len() >= 2 { Some(Instr::Call(cs[1])) } else { None }
    } else if op == opcode::GET {
        if cs.len() >= 3 { Some(Instr::Get(cs[1], cs[2])) } else { None }
    } else if op == opcode::CONSTANT {
        if cs.len() >= 2 { Some(Instr::Constant(cs[1])) } else { None }
    } else if op == opcode::TRUE {
        Some(Instr::True)
    } else if op == opcode::FALSE {
        Some(Instr::False)
    } else {
        None
    }
}

/// The instructions `cs` consists of, if it splits into whole instructions.
pub open spec fn decode(cs: Seq<u8>) -> Option<Seq<Instr>>
    decreases cs.len(),
{
    if cs.len() == 0 {
        Some(Seq::empty())
    } else {
        match fetch_rel(cs) {
            None => None,
            Some(ins) => match decode(cs.skip(instr_size(ins))) {
                Some(rest) => Some(seq![ins] + rest),
                None => None,
            },
        }
    }
}

/// Running instructions in order.
pub open spec fn run_instrs(is: Seq<Instr>, s: VmS, env: EnvM, renv: RuntimeEnvM, bc: BytecodeM) -> VmS
    decreases is.len(),
{
    if s.panic || is.len() == 0 {
        s
    } else {
        run_instrs(is.drop_first(), step(is[0], s, env, renv, bc), env, renv, bc)
    }
}


/// `a` is a prefix of `b`.
pub open spec fn is_prefix<T>(a: Seq<T>, b: Seq<T>) -> bool {
    a.len() <= b.len() && forall|i: int| 0 <= i < a.len() ==> #[trigger] b[i] == a[i]
}

/// Compiling only ever adds constants at the end.
pub proof fn lemma_constants_grow(e: ExprSM, env: EnvM, c: Seq<ValueM>)
    ensures
        is_prefix(c, compile_spec(e, env, c).1),
    decreases e,
{
    match e.0 {
        ExprM::Call(callee, args) => {
            lemma_constants_grow(*callee, env, c);
            let (cr, c1) = compile_spec(*callee, env, c);
            if cr is Codes {
                if call_check(cr->Codes_0, args, env, e.1, e.2) is Some {
                    lemma_args_constants_grow(args, env, c1);
                }
            }
        },
        _ => {},
    }
}

/// Compiling arguments only ever adds constants at the end.
pub proof fn lemma_args_constants_grow(args: Seq<ExprSM>, env: EnvM, c: Seq<ValueM>)
    ensures
        is_prefix(c, compile_args_spec(args, env, c).1),
    decreases args,
{
    if args.len() > 0 {
        lemma_args_constants_grow(args.drop_last(), env, c);
        let (prev, c1) = compile_args_spec(args.drop_last(), env, c);
        if !prev.panic {
            lemma_constants_grow(args.last(), env, c1);
        }
    }
}

/// Compiled code is never empty.
pub proof fn lemma_codes_nonempty(e: ExprSM, env: EnvM, c: Seq<ValueM>)
    requires
        compile_spec(e, env, c).0 is Codes,
    ensures
        compile_spec(e, env, c).0->Codes_0.len() >= 1,
{
}

/// Compiling reports errors only as a non-empty list.
pub proof fn lemma_errors_nonempty(e: ExprSM, env: EnvM, c: Seq<ValueM>)
    requires
        compile_spec(e, env, c).0 is Errors,
    ensures
        compile_spec(e, env, c).0->Errors_0.len() > 0,
    decreases e,
{
    match e.0 {
        ExprM::Call(callee, args) => {
            if compile_spec(*callee, env, c).0 is Errors {
                lemma_errors_nonempty(*callee, env, c);
            }
        },
        _ => {},
    }
}

/// The arguments of a call that compiled take at least one byte each.
pub proof fn lemma_args_codes_len(args: Seq<ExprSM>, env: EnvM, c: Seq<ValueM>)
    requires
        !compile_args_spec(args, env, c).0.panic,
        compile_args_spec(args, env, c).0.errs.len() == 0,
    ensures
        compile_args_spec(args, env, c).0.codes.len() >= args.len(),
    decreases args.len(),
{
    if args.len() > 0 {
        let (prev, c1) = compile_args_spec(args.drop_last(), env, c);
        assert(!prev.panic);
        assert(prev.errs.len() == 0);
        lemma_args_codes_len(args.drop_last(), env, c);
        let (r, c2) = compile_spec(args.last(), env, c1);
        match r {
            CompM::Codes(cs) => {
                lemma_codes_nonempty(args.last(), env, c1);
                assert(compile_args_spec(args, env, c).0.codes == prev.codes + cs);
            },
            CompM::Errors(es) => {
                lemma_errors_nonempty(args.last(), env, c1);
                assert(compile_args_spec(args, env, c).0.errs == prev.errs + es);
            },
            CompM::Panic => {},
        }
    }
}

/// Decoding a concatenation decodes each part.
pub proof fn lemma_decode_concat(a: Seq<u8>, b: Seq<u8>)
    requires
        decode(a) is Some,
        decode(b) is Some,
    ensures
        decode(a + b) == Some(decode(a)->0 + decode(b)->0),
    decreases a.len(),
{
    if a.len() == 0 {
        assert(a + b =~= b);
        assert(decode(a)->0 + decode(b)->0 =~= decode(b)->0);
    } else {
        let ins = fetch_rel(a)->0;
        assert(fetch_rel(a + b) == fetch_rel(a));
        let k = instr_size(ins);
        lemma_decode_concat(a.skip(k), b);
        assert((a + b).skip(k) =~= a.skip(k) + b);
        assert(seq![ins] + (decode(a.skip(k))->0 + decode(b)->0) =~= (seq![ins] + decode(a.skip(k))->0) + decode(b)->0);
    }
}

/// Running a concatenation runs each part in turn.
pub proof fn lemma_run_concat(x: Seq<Instr>, y: Seq<Instr>, s: VmS, env: EnvM, renv: RuntimeEnvM, bc: BytecodeM)
    ensures
        run_instrs(x + y, s, env, renv, bc) == run_instrs(y, run_instrs(x, s, env, renv, bc), env, renv, bc),
    decreases x.len(),
{
    if s.panic {
        lemma_run_panic(y, s, env, renv, bc);
        lemma_run_panic(x + y, s, env, renv, bc);
        lemma_run_panic(x, s, env, renv, bc);
    } else if x.len() == 0 {
        assert(x + y =~= y);
    } else {
        assert((x + y).drop_first() =~= x.drop_first() + y);
        assert((x + y)[0] == x[0]);
        lemma_run_concat(x.drop_first(), y, step(x[0], s, env, renv, bc), env, renv, bc);
    }
}

/// A stuck run stays as it is.
pub proof fn lemma_run_panic(is: Seq<Instr>, s: VmS, env: EnvM, renv: RuntimeEnvM, bc: BytecodeM)
    requires
        s.panic,
    ensures
        run_instrs(is, s, env, renv, bc) == s,
{
}

/// Running keeps the errors found so far, and adds errors only at the end.
pub proof fn lemma_run_errors_grow(is: Seq<Instr>, s: VmS, env: EnvM, renv: RuntimeEnvM, bc: BytecodeM)
    ensures
        is_prefix(s.errs, run_instrs(is, s, env, renv, bc).errs),
        s.panic ==> run_instrs(is, s, env, renv, bc).panic,
    decreases is.len(),
{
    if !s.panic && is.len() > 0 {
        let t = step(is[0], s, env, renv, bc);
        assert(is_prefix(s.errs, t.errs));
        lemma_run_errors_grow(is.drop_first(), t, env, renv, bc);
    }
}

/// Running whole instructions from `ip` is running the bytecode from `ip`,
/// as long as the bytecode is at most 256 bytes long.
pub proof fn lemma_run_from_decoded(bc: BytecodeM, env: EnvM, renv: RuntimeEnvM, ip: int, s: VmS)
    requires
        bc.codes.len() <= 256,
        0 <= ip <= bc.codes.len(),
        decode(bc.codes.skip(ip)) is Some,
    ensures
        run_from(bc, env, renv, ip, s) == run_instrs(decode(bc.codes.skip(ip))->0, s, env, renv, bc),
    decreases bc.codes.len() - ip,
{
    let cs = bc.codes.skip(ip);
    if s.panic {
    } else if ip == bc.codes.len() {
        assert(cs.len() == 0);
    } else {
        let ins = fetch_rel(cs)->0;
        let k = instr_size(ins);
        assert(cs.len() >= k);
        if k >= 2 {
            assert((ip + 1) % 256 == ip + 1);
            assert(operand(bc.codes, ip + 1) == Some(bc.codes[ip + 1]));
            assert(cs[1] == bc.codes[ip + 1]);
        }
        if k >= 3 {
            assert((ip + 2) % 256 == ip + 2);
            assert(operand(bc.codes, ip + 2) == Some(bc.codes[ip + 2]));
            assert(cs[2] == bc.codes[ip + 2]);
        }
        assert(cs[0] == bc.codes[ip]);
        assert(fetch(bc.codes, ip) == Some(ins));
        assert(cs.skip(k) =~= bc.codes.skip(ip + k));
        let rest = decode(cs.skip(k))->0;
        assert(decode(cs) == Some(seq![ins] + rest));
        assert((seq![ins] + rest).drop_first() =~= rest);
        assert((seq![ins] + rest)[0] == ins);
        lemma_run_from_decoded(bc, env, renv, ip + k, step(ins, s, env, renv, bc));
        assert(run_from(bc, env, renv, ip, s) == run_from(bc, env, renv, ip + k, step(ins, s, env, renv, bc)));
    }
}


/// Every list of the environment has at most 256 entries, so that a position
/// in it fits the byte an instruction holds it in.
pub open spec fn env_fits(env: EnvM) -> bool {
    &&& env.builtins.len() <= 256
    &&& env.user_builtins.len() <= 256
    &&& env.vars.len() <= 256
    &&& env.prompts.len() <= 256
    &&& env.secrets.len() <= 256
    &&& env.client_context.len() <= 256
}

/// A run from `s` to `t` failed with `x`: it stopped, or `x` is the first
/// error it added.
pub open spec fn failed_with(x: ErrorSM, s: VmS, t: VmS) -> bool {
    t.panic || (is_prefix(s.errs, t.errs) && t.errs.len() > s.errs.len() && t.errs[s.errs.len() as int] == x)
}

/// A run from `s` to `t` did what the evaluation `r` says: pushed its value,
/// failed with its error, or stopped.
pub open spec fn runs_as(r: EvalM, s: VmS, t: VmS) -> bool {
    match r {
        EvalM::Val(v) => t == (VmS { stack: s.stack.push(v), errs: s.errs, panic: false }),
        EvalM::Error(x) => failed_with(x, s, t),
        EvalM::Stuck => t.panic,
    }
}

/// A run from `s` to `t` did what the evaluation of arguments `r` says.
pub open spec fn args_run_as(r: ArgsEvalM, s: VmS, t: VmS) -> bool {
    match r {
        ArgsEvalM::Vals(vs) => t == (VmS { stack: s.stack + vs, errs: s.errs, panic: false }),
        ArgsEvalM::Error(x) => failed_with(x, s, t),
        ArgsEvalM::Stuck => t.panic,
    }
}

/// Running more instructions after a failure keeps it.
pub proof fn lemma_failed_stays(x: ErrorSM, s: VmS, t: VmS, is: Seq<Instr>, env: EnvM, renv: RuntimeEnvM, bc: BytecodeM)
    requires
        failed_with(x, s, t),
    ensures
        failed_with(x, s, run_instrs(is, t, env, renv, bc)),
{
    lemma_run_errors_grow(is, t, env, renv, bc);
    let u = run_instrs(is, t, env, renv, bc);
    if !t.panic {
        assert(u.errs[s.errs.len() as int] == t.errs[s.errs.len() as int]);
        assert(is_prefix(s.errs, u.errs)) by {
            assert forall|i: int| 0 <= i < s.errs.len() implies #[trigger] u.errs[i] == s.errs[i] by {
                assert(t.errs[i] == s.errs[i]);
            }
        }
    }
}

/// Evaluated arguments are as many as the arguments.
pub proof fn lemma_eval_args_len(args: Seq<ExprSM>, env: EnvM, renv: RuntimeEnvM)
    ensures
        eval_args(args, env, renv) is Vals ==> eval_args(args, env, renv)->Vals_0.len() == args.len(),
    decreases args.len(),
{
    if args.len() > 0 {
        lemma_eval_args_len(args.drop_last(), env, renv);
    }
}

/// Decoding one instruction of `n` bytes.
proof fn lemma_decode_one(cs: Seq<u8>, ins: Instr)
    requires
        cs.len() >= 1,
        fetch_rel(cs) == Some(ins),
        instr_size(ins) == cs.len(),
    ensures
        decode(cs) == Some(seq![ins]),
{
    assert(cs.skip(instr_size(ins)) =~= Seq::<u8>::empty());
    assert(decode(Seq::<u8>::empty()) == Some(Seq::<Instr>::empty()));
    assert(decode(cs.skip(instr_size(ins))) == Some(Seq::<Instr>::empty()));
    assert(seq![ins] + Seq::<Instr>::empty() =~= seq![ins]);
}

/// Running one instruction.
proof fn lemma_run_one(ins: Instr, s: VmS, env: EnvM, renv: RuntimeEnvM, bc: BytecodeM)
    requires
        !s.panic,
    ensures
        run_instrs(seq![ins], s, env, renv, bc) == step(ins, s, env, renv, bc),
{
    assert(seq![ins].drop_first() =~= Seq::<Instr>::empty());
    let t = step(ins, s, env, renv, bc);
    assert(run_instrs(Seq::<Instr>::empty(), t, env, renv, bc) == t);
}

/// A compiled identifier looks up what the identifier refers to.
proof fn lemma_compiled_ident(name: Seq<char>, kind: IdentifierKind, a: usize, b: usize, env: EnvM, renv: RuntimeEnvM, bc: BytecodeM, s: VmS)
    requires
        env_fits(env),
        compile_ident_spec(name, kind, a, b, env) is Codes,
        !s.panic,
    ensures
        decode(compile_ident_spec(name, kind, a, b, env)->Codes_0) is Some,
        runs_as(
            eval_ident(name, kind, env, renv),
            s,
            run_instrs(decode(compile_ident_spec(name, kind, a, b, env)->Codes_0)->0, s, env, renv, bc),
        ),
{
    let ln = lookup_name_of(name, kind);
    let cs = compile_ident_spec(name, kind, a, b, env)->Codes_0;
    lemma_index_of(env.vars, ln);
    lemma_index_of(env.prompts, ln);
    lemma_index_of(env.secrets, ln);
    lemma_index_of(env.client_context, ln);
    lemma_index_of(fn_names(env.builtins), ln);
    lemma_index_of(fn_names(env.user_builtins), ln);
    assert(cs.len() == 3);
    assert(cs[0] == opcode::GET);
    let ins = Instr::Get(cs[1], cs[2]);
    lemma_decode_one(cs, ins);
    lemma_run_one(ins, s, env, renv, bc);
    let i: int = match kind {
        IdentifierKind::Var => index_of(env.vars, ln),
        IdentifierKind::Prompt => index_of(env.prompts, ln),
        IdentifierKind::Secret => index_of(env.secrets, ln),
        IdentifierKind::Client => index_of(env.client_context, ln),
        IdentifierKind::Builtin => if index_of(fn_names(env.builtins), ln) >= 0 {
            index_of(fn_names(env.builtins), ln)
        } else {
            index_of(fn_names(env.user_builtins), ln)
        },
    };
    assert(0 <= i < 256);
    assert((i % 256) as u8 == i);
    assert(cs[2] == i);
}

/// Compiled code runs as the expression evaluates, as long as the code and
/// the constants fit their byte positions.
pub proof fn lemma_compiled_expr(e: ExprSM, env: EnvM, renv: RuntimeEnvM, c0: Seq<ValueM>, bc: BytecodeM, s: VmS)
    requires
        env_fits(env),
        compile_spec(e, env, c0).0 is Codes,
        compile_spec(e, env, c0).0->Codes_0.len() <= 256,
        compile_spec(e, env, c0).1.len() <= 256,
        is_prefix(compile_spec(e, env, c0).1, bc.constants),
        !s.panic,
    ensures
        decode(compile_spec(e, env, c0).0->Codes_0) is Some,
        runs_as(
            eval(e, env, renv),
            s,
            run_instrs(decode(compile_spec(e, env, c0).0->Codes_0)->0, s, env, renv, bc),
        ),
    decreases e,
{
    let cs = compile_spec(e, env, c0).0->Codes_0;
    match e.0 {
        ExprM::Bool(b) => {
            let ins = if b { Instr::True } else { Instr::False };
            lemma_decode_one(cs, ins);
            lemma_run_one(ins, s, env, renv, bc);
        },
        ExprM::Str(st) => {
            lemma_const_index(c0, st);
            let i = const_index(c0, st);
            let j = if i >= 0 { i } else { c0.len() as int };
            assert(0 <= j < 256);
            assert((j % 256) as u8 == j);
            let ins = Instr::Constant(j as u8);
            lemma_decode_one(cs, ins);
            lemma_run_one(ins, s, env, renv, bc);
            let c1 = compile_spec(e, env, c0).1;
            assert(c1[j] == ValueM::Str(st));
            assert(bc.constants[j] == c1[j]);
        },
        ExprM::Ident(name, kind, _) => {
            lemma_compiled_ident(name, kind, e.1, e.2, env, renv, bc, s);
        },
        ExprM::Error => {},
        ExprM::Call(callee, args) => {
            lemma_compiled_call(e, *callee, args, env, renv, c0, bc, s);
        },
    }
}

/// A compiled call runs as the call evaluates.
proof fn lemma_compiled_call(
    e: ExprSM,
    callee: ExprSM,
    args: Seq<ExprSM>,
    env: EnvM,
    renv: RuntimeEnvM,
    c0: Seq<ValueM>,
    bc: BytecodeM,
    s: VmS,
)
    requires
        e.0 == ExprM::Call(Box::new(callee), args),
        env_fits(env),
        compile_spec(e, env, c0).0 is Codes,
        compile_spec(e, env, c0).0->Codes_0.len() <= 256,
        compile_spec(e, env, c0).1.len() <= 256,
        is_prefix(compile_spec(e, env, c0).1, bc.constants),
        !s.panic,
    ensures
        decode(compile_spec(e, env, c0).0->Codes_0) is Some,
        runs_as(
            eval(e, env, renv),
            s,
            run_instrs(decode(compile_spec(e, env, c0).0->Codes_0)->0, s, env, renv, bc),
        ),
    decreases e, 0int,
{
    let cs = compile_spec(e, env, c0).0->Codes_0;
    let (cr, c1) = compile_spec(callee, env, c0);
    let cb = cr->Codes_0;
    let (ar, c2) = compile_args_spec(args, env, c1);
    let n = args.len();
    let tail = seq![opcode::CALL, (n % 256) as u8];
    assert(cs == cb + ar.codes + tail);
    assert(c2 == compile_spec(e, env, c0).1);
    lemma_codes_nonempty(callee, env, c0);
    lemma_args_codes_len(args, env, c1);
    assert(n < 256);
    assert((n % 256) as u8 == n);
    lemma_args_constants_grow(args, env, c1);
    assert(is_prefix(c1, bc.constants));
    lemma_compiled_expr(callee, env, renv, c0, bc, s);
    let dcb = decode(cb)->0;
    let t1 = run_instrs(dcb, s, env, renv, bc);
    let call = Instr::Call(n as u8);
    lemma_decode_one(tail, call);
    let dcall = seq![call];
    if t1.panic {
        lemma_args_decode(args, env, c1);
    } else {
        lemma_compiled_args(args, env, renv, c1, bc, t1);
    }
    let dargs = decode(ar.codes)->0;
    lemma_decode_concat(cb, ar.codes);
    lemma_decode_concat(cb + ar.codes, tail);
    assert(decode(cs)->0 == (dcb + dargs) + dcall);
    lemma_run_concat(dcb + dargs, dcall, s, env, renv, bc);
    lemma_run_concat(dcb, dargs, s, env, renv, bc);
    let t2 = run_instrs(dargs, t1, env, renv, bc);
    let t3 = run_instrs(dcall, t2, env, renv, bc);
    match eval(callee, env, renv) {
        EvalM::Val(f) => {
            lemma_eval_args_len(args, env, renv);
            match eval_args(args, env, renv) {
                ArgsEvalM::Vals(vs) => {
                    lemma_run_one(call, t2, env, renv, bc);
                    let st = t2.stack;
                    assert(st == s.stack.push(f) + vs);
                    assert(st.subrange(st.len() - n, st.len() as int) =~= vs);
                    assert(st.subrange(0, st.len() - n) =~= s.stack.push(f));
                    assert(s.stack.push(f).drop_last() =~= s.stack);
                },
                ArgsEvalM::Error(x) => {
                    lemma_failed_stays(x, t1, t2, dcall, env, renv, bc);
                },
                ArgsEvalM::Stuck => {
                    lemma_run_panic(dcall, t2, env, renv, bc);
                },
            }
        },
        EvalM::Error(x) => {
            lemma_failed_stays(x, s, t1, dargs + dcall, env, renv, bc);
            lemma_run_concat(dargs, dcall, t1, env, renv, bc);
        },
        EvalM::Stuck => {
            lemma_run_panic(dargs + dcall, t1, env, renv, bc);
            lemma_run_concat(dargs, dcall, t1, env, renv, bc);
        },
    }
}

/// Compiled arguments decode into whole instructions.
proof fn lemma_args_decode(args: Seq<ExprSM>, env: EnvM, c0: Seq<ValueM>)
    requires
        !compile_args_spec(args, env, c0).0.panic,
        compile_args_spec(args, env, c0).0.errs.len() == 0,
    ensures
        decode(compile_args_spec(args, env, c0).0.codes) is Some,
    decreases args, 1int,
{
    if args.len() == 0 {
    } else {
        let (prev, c1) = compile_args_spec(args.drop_last(), env, c0);
        let (r, c2) = compile_spec(args.last(), env, c1);
        if r is Errors {
            lemma_errors_nonempty(args.last(), env, c1);
        }
        lemma_args_decode(args.drop_last(), env, c0);
        lemma_expr_decode(args.last(), env, c1);
        lemma_decode_concat(prev.codes, r->Codes_0);
    }
}

/// Compiled code decodes into whole instructions.
proof fn lemma_expr_decode(e: ExprSM, env: EnvM, c0: Seq<ValueM>)
    requires
        compile_spec(e, env, c0).0 is Codes,
    ensures
        decode(compile_spec(e, env, c0).0->Codes_0) is Some,
    decreases e, 2int,
{
    let cs = compile_spec(e, env, c0).0->Codes_0;
    match e.0 {
        ExprM::Bool(b) => {
            lemma_decode_one(cs, if b { Instr::True } else { Instr::False });
        },
        ExprM::Str(st) => {
            lemma_decode_one(cs, Instr::Constant(cs[1]));
        },
        ExprM::Ident(name, kind, _) => {
            lemma_decode_one(cs, Instr::Get(cs[1], cs[2]));
        },
        ExprM::Error => {},
        ExprM::Call(callee, args) => {
            let (cr, c1) = compile_spec(*callee, env, c0);
            let cb = cr->Codes_0;
            let (ar, c2) = compile_args_spec(args, env, c1);
            let tail = seq![opcode::CALL, (args.len() % 256) as u8];
            lemma_expr_decode(*callee, env, c0);
            lemma_args_decode(args, env, c1);
            lemma_decode_one(tail, Instr::Call(tail[1]));
            lemma_decode_concat(cb, ar.codes);
            lemma_decode_concat(cb + ar.codes, tail);
        },
    }
}

/// Compiled arguments run as they evaluate, left to right.
pub proof fn lemma_compiled_args(args: Seq<ExprSM>, env: EnvM, renv: RuntimeEnvM, c0: Seq<ValueM>, bc: BytecodeM, s: VmS)
    requires
        env_fits(env),
        !compile_args_spec(args, env, c0).0.panic,
        compile_args_spec(args, env, c0).0.errs.len() == 0,
        compile_args_spec(args, env, c0).0.codes.len() <= 256,
        compile_args_spec(args, env, c0).1.len() <= 256,
        is_prefix(compile_args_spec(args, env, c0).1, bc.constants),
        !s.panic,
    ensures
        decode(compile_args_spec(args, env, c0).0.codes) is Some,
        args_run_as(
            eval_args(args, env, renv),
            s,
            run_instrs(decode(compile_args_spec(args, env, c0).0.codes)->0, s, env, renv, bc),
        ),
    decreases args, 3int,
{
    if args.len() == 0 {
        assert(s.stack + Seq::<ValueM>::empty() =~= s.stack);
    } else {
        let (ar, cf) = compile_args_spec(args, env, c0);
        let (prev, c1) = compile_args_spec(args.drop_last(), env, c0);
        let (r, c2) = compile_spec(args.last(), env, c1);
        if r is Errors {
            lemma_errors_nonempty(args.last(), env, c1);
        }
        let cs = r->Codes_0;
        assert(ar.codes == prev.codes + cs);
        assert(c2 == cf);
        lemma_constants_grow(args.last(), env, c1);
        assert(is_prefix(c1, bc.constants));
        lemma_compiled_args(args.drop_last(), env, renv, c0, bc, s);
        let dprev = decode(prev.codes)->0;
        let t1 = run_instrs(dprev, s, env, renv, bc);
        if t1.panic {
            lemma_expr_decode(args.last(), env, c1);
        } else {
            lemma_compiled_expr(args.last(), env, renv, c1, bc, t1);
        }
        let dcs = decode(cs)->0;
        lemma_decode_concat(prev.codes, cs);
        lemma_run_concat(dprev, dcs, s, env, renv, bc);
        let t2 = run_instrs(dcs, t1, env, renv, bc);
        match eval_args(args.drop_last(), env, renv) {
            ArgsEvalM::Vals(vs) => {
                match eval(args.last(), env, renv) {
                    EvalM::Val(v) => {
                        assert((s.stack + vs).push(v) =~= s.stack + vs.push(v));
                    },
                    _ => {},
                }
            },
            ArgsEvalM::Error(x) => {
                lemma_failed_stays(x, s, t1, dcs, env, renv, bc);
            },
            ArgsEvalM::Stuck => {
                lemma_run_panic(dcs, t1, env, renv, bc);
            },
        }
    }
}

/// Each constant compiling adds comes with a `CONSTANT` instruction of two
/// bytes, so the constants grow by at most half the code.
pub proof fn lemma_constants_bounded(e: ExprSM, env: EnvM, c0: Seq<ValueM>)
    requires
        compile_spec(e, env, c0).0 is Codes,
    ensures
        c0.len() <= compile_spec(e, env, c0).1.len(),
        2 * (compile_spec(e, env, c0).1.len() - c0.len()) <= compile_spec(e, env, c0).0->Codes_0.len(),
    decreases e,
{
    match e.0 {
        ExprM::Call(callee, args) => {
            let (cr, c1) = compile_spec(*callee, env, c0);
            let (ar, c2) = compile_args_spec(args, env, c1);
            lemma_constants_bounded(*callee, env, c0);
            lemma_args_constants_bounded(args, env, c1);
        },
        _ => {},
    }
}

/// The constants compiling arguments adds are at most half their code.
pub proof fn lemma_args_constants_bounded(args: Seq<ExprSM>, env: EnvM, c0: Seq<ValueM>)
    requires
        !compile_args_spec(args, env, c0).0.panic,
        compile_args_spec(args, env, c0).0.errs.len() == 0,
    ensures
        c0.len() <= compile_args_spec(args, env, c0).1.len(),
        2 * (compile_args_spec(args, env, c0).1.len() - c0.len()) <= compile_args_spec(args, env, c0).0.codes.len(),
    decreases args,
{
    if args.len() > 0 {
        let (prev, c1) = compile_args_spec(args.drop_last(), env, c0);
        let (r, c2) = compile_spec(args.last(), env, c1);
        if r is Errors {
            lemma_errors_nonempty(args.last(), env, c1);
        }
        lemma_args_constants_bounded(args.drop_last(), env, c0);
        lemma_constants_bounded(args.last(), env, c1);
    }
}

/// Compiling an expression and interpreting the bytecode gives what the
/// expression means: its value, with the stack below left as it was; or,
/// where evaluation fails, either that error first or a stop of the machine;
/// or a stop where evaluation cannot proceed. This holds as long as every
/// position the bytecode holds fits its byte: the code is at most 256 bytes,
/// and the environment's lists have at most 256 entries.
pub proof fn compiled_code_runs_as_evaluated(e: ExprSM, env: EnvM, renv: RuntimeEnvM, stack: Seq<ValueM>)
    requires
        env_fits(env),
        compile_spec(e, env, Seq::empty()).0 is Codes,
        compile_spec(e, env, Seq::empty()).0->Codes_0.len() <= 256,
    ensures
        ({
            let bc = BytecodeM {
                version: version_bytes(),
                codes: compile_spec(e, env, Seq::empty()).0->Codes_0,
                constants: compile_spec(e, env, Seq::empty()).1,
                types: Seq::empty(),
            };
            match eval(e, env, renv) {
                EvalM::Val(v) => vm_outcome(bc, env, renv, stack) == VmOut::Value(v)
                    && stack_after(bc, env, renv, stack) == stack,
                EvalM::Error(x) => vm_outcome(bc, env, renv, stack) is Panic
                    || (vm_outcome(bc, env, renv, stack) matches VmOut::Errors(es) && es.len() > 0 && es[0] == x),
                EvalM::Stuck => vm_outcome(bc, env, renv, stack) is Panic,
            }
        }),
{
    let bc = BytecodeM {
        version: version_bytes(),
        codes: compile_spec(e, env, Seq::empty()).0->Codes_0,
        constants: compile_spec(e, env, Seq::empty()).1,
        types: Seq::empty(),
    };
    let s0 = VmS { stack, errs: Seq::empty(), panic: false };
    lemma_constants_bounded(e, env, Seq::empty());
    lemma_compiled_expr(e, env, renv, Seq::empty(), bc, s0);
    assert(bc.codes.skip(0) =~= bc.codes);
    lemma_run_from_decoded(bc, env, renv, 0, s0);
    match eval(e, env, renv) {
        EvalM::Val(v) => {
            assert(stack.push(v).drop_last() =~= stack);
        },
        _ => {},
    }
}


/// A client context value set at the position that adding its key to the
/// compile time environment reports is what the client identifier of that
/// key evaluates to, as long as that position is at most one past the values
/// already set.
pub proof fn client_value_reaches_its_key(env: EnvM, renv: RuntimeEnvM, key: Seq<char>, value: ValueM)
    requires
        index_of(client_context_with(env.client_context, key), key) <= renv.client_context.len(),
    ensures
        ({
            let cc = client_context_with(env.client_context, key);
            let i = index_of(cc, key);
            eval_ident(
                seq!['@'] + key,
                IdentifierKind::Client,
                EnvM { client_context: cc, ..env },
                RuntimeEnvM { client_context: client_values_with(renv.client_context, i, value), ..renv },
            ) == EvalM::Val(value)
        }),
{
    client_context_add_is_idempotent(env.client_context, key);
    let cc = client_context_with(env.client_context, key);
    assert((seq!['@'] + key).drop_first() =~= key);
    lemma_index_of(cc, key);
}


/// The length of the environment list that the lookup `lk` reads, or 0 for a
/// byte that names no lookup of the environment.
pub open spec fn lookup_len(env: EnvM, lk: u8) -> int {
    if lk == lookup::BUILTIN {
        env.builtins.len() as int
    } else if lk == lookup::VAR {
        env.vars.len() as int
    } else if lk == lookup::PROMPT {
        env.prompts.len() as int
    } else if lk == lookup::SECRET {
        env.secrets.len() as int
    } else if lk == lookup::USER_BUILTIN {
        env.user_builtins.len() as int
    } else if lk == lookup::CLIENT_CTX {
        env.client_context.len() as int
    } else {
        0
    }
}

/// An instruction refers only to what exists: a `CONSTANT` to one of
/// `consts`, a `GET` to a position inside the list its lookup names.
pub open spec fn instr_fits(ins: Instr, env: EnvM, consts: Seq<ValueM>) -> bool {
    match ins {
        Instr::Constant(k) => k < consts.len(),
        Instr::Get(lk, i) => i < lookup_len(env, lk),
        _ => true,
    }
}

/// Every instruction of `is` refers only to what exists.
pub open spec fn all_fit(is: Seq<Instr>, env: EnvM, consts: Seq<ValueM>) -> bool {
    forall|k: int| 0 <= k < is.len() ==> instr_fits(#[trigger] is[k], env, consts)
}

proof fn lemma_all_fit_grow(is: Seq<Instr>, env: EnvM, c: Seq<ValueM>, d: Seq<ValueM>)
    requires
        all_fit(is, env, c),
        c.len() <= d.len(),
    ensures
        all_fit(is, env, d),
{
    assert forall|k: int| 0 <= k < is.len() implies instr_fits(#[trigger] is[k], env, d) by {
        assert(instr_fits(is[k], env, c));
    }
}

proof fn lemma_all_fit_concat(a: Seq<Instr>, b: Seq<Instr>, env: EnvM, c: Seq<ValueM>)
    requires
        all_fit(a, env, c),
        all_fit(b, env, c),
    ensures
        all_fit(a + b, env, c),
{
    assert forall|k: int| 0 <= k < (a + b).len() implies instr_fits(#[trigger] (a + b)[k], env, c) by {
        if k < a.len() {
            assert((a + b)[k] == a[k]);
        } else {
            assert((a + b)[k] == b[k - a.len()]);
        }
    }
}

proof fn lemma_expr_fits(e: ExprSM, env: EnvM, c0: Seq<ValueM>)
    requires
        compile_spec(e, env, c0).0 is Codes,
    ensures
        decode(compile_spec(e, env, c0).0->Codes_0) is Some,
        all_fit(decode(compile_spec(e, env, c0).0->Codes_0)->0, env, compile_spec(e, env, c0).1),
    decreases e, 2int,
{
    lemma_expr_decode(e, env, c0);
    let cs = compile_spec(e, env, c0).0->Codes_0;
    let cf = compile_spec(e, env, c0).1;
    match e.0 {
        ExprM::Bool(b) => {
            lemma_decode_one(cs, if b { Instr::True } else { Instr::False });
        },
        ExprM::Str(st) => {
            lemma_const_index(c0, st);
            lemma_decode_one(cs, Instr::Constant(cs[1]));
            let i = const_index(c0, st);
            if i >= 0 {
                assert(i % 256 <= i);
            } else {
                assert(c0.len() % 256 <= c0.len());
            }
        },
        ExprM::Ident(name, kind, _) => {
            lemma_decode_one(cs, Instr::Get(cs[1], cs[2]));
            let ln = lookup_name_of(name, kind);
            lemma_index_of(env.vars, ln);
            lemma_index_of(env.prompts, ln);
            lemma_index_of(env.secrets, ln);
            lemma_index_of(env.client_context, ln);
            lemma_index_of(fn_names(env.builtins), ln);
            lemma_index_of(fn_names(env.user_builtins), ln);
            assert forall|x: int| x >= 0 implies #[trigger] (x % 256) <= x by {}
        },
        ExprM::Error => {},
        ExprM::Call(callee, args) => {
            let (cr, c1) = compile_spec(*callee, env, c0);
            let cb = cr->Codes_0;
            let (ar, c2) = compile_args_spec(args, env, c1);
            if ar.errs.len() > 0 {
                assert(false);
            }
            let tail = seq![opcode::CALL, (args.len() % 256) as u8];
            lemma_expr_fits(*callee, env, c0);
            lemma_args_fits(args, env, c1);
            lemma_args_constants_grow(args, env, c1);
            lemma_all_fit_grow(decode(cb)->0, env, c1, c2);
            lemma_decode_one(tail, Instr::Call(tail[1]));
            lemma_decode_concat(cb, ar.codes);
            lemma_decode_concat(cb + ar.codes, tail);
            lemma_all_fit_concat(decode(cb)->0, decode(ar.codes)->0, env, c2);
            lemma_all_fit_concat(decode(cb)->0 + decode(ar.codes)->0, seq![Instr::Call(tail[1])], env, c2);
        },
    }
}

proof fn lemma_args_fits(args: Seq<ExprSM>, env: EnvM, c0: Seq<ValueM>)
    requires
        !compile_args_spec(args, env, c0).0.panic,
        compile_args_spec(args, env, c0).0.errs.len() == 0,
    ensures
        decode(compile_args_spec(args, env, c0).0.codes) is Some,
        all_fit(decode(compile_args_spec(args, env, c0).0.codes)->0, env, compile_args_spec(args, env, c0).1),
    decreases args, 1int,
{
    lemma_args_decode(args, env, c0);
    if args.len() == 0 {
    } else {
        let (prev, c1) = compile_args_spec(args.drop_last(), env, c0);
        let (r, c2) = compile_spec(args.last(), env, c1);
        if r is Errors {
            lemma_errors_nonempty(args.last(), env, c1);
        }
        lemma_args_fits(args.drop_last(), env, c0);
        lemma_expr_fits(args.last(), env, c1);
        lemma_constants_grow(args.last(), env, c1);
        lemma_all_fit_grow(decode(prev.codes)->0, env, c1, c2);
        lemma_decode_concat(prev.codes, r->Codes_0);
        lemma_all_fit_concat(decode(prev.codes)->0, decode(r->Codes_0)->0, env, c2);
    }
}

/// Compiled code is well formed: it splits into whole instructions (`GET` of
/// three bytes, `CONSTANT` and `CALL` of two, `TRUE` and `FALSE` of one), each
/// `CONSTANT` names one of the constants compiling collected, and each `GET`
/// names a lookup of the environment and a position inside its list.
pub proof fn compiled_code_is_well_formed(e: ExprSM, env: EnvM)
    requires
        compile_spec(e, env, Seq::empty()).0 is Codes,
    ensures
        decode(compile_spec(e, env, Seq::empty()).0->Codes_0) is Some,
        all_fit(
            decode(compile_spec(e, env, Seq::empty()).0->Codes_0)->0,
            env,
            compile_spec(e, env, Seq::empty()).1,
        ),
{
    lemma_expr_fits(e, env, Seq::empty());
}

/// Code of a call: the callee's code first, then the code of each argument
/// in source order, the constants threaded from left to right, then `CALL`
/// with the number of arguments.
pub proof fn call_code_layout(
    callee: ExprSM,
    args: Seq<ExprSM>,
    s: usize,
    t: usize,
    env: EnvM,
    consts: Seq<ValueM>,
    arg_codes: Seq<Seq<u8>>,
    arg_consts: Seq<Seq<ValueM>>,
)
    requires
        args.len() < 256,
        compile_spec(callee, env, consts).0 is Codes,
        call_check(compile_spec(callee, env, consts).0->Codes_0, args, env, s, t) == Some(Seq::<ErrorSM>::empty()),
        arg_codes.len() == args.len(),
        arg_consts.len() == args.len() + 1,
        arg_consts[0] == compile_spec(callee, env, consts).1,
        forall|k: int| 0 <= k < args.len() ==> compile_spec(#[trigger] args[k], env, arg_consts[k]) == (
            CompM::Codes(arg_codes[k]),
            arg_consts[k + 1],
        ),
    ensures
        compile_spec((ExprM::Call(Box::new(callee), args), s, t), env, consts) == (
            CompM::Codes(
                compile_spec(callee, env, consts).0->Codes_0 + arg_codes.flatten() + seq![opcode::CALL, args.len() as u8],
            ),
            arg_consts[args.len() as int],
        ),
{
    let c1 = compile_spec(callee, env, consts).1;
    lemma_args_layout(args, env, c1, arg_codes, arg_consts, args.len() as int);
    assert(args.take(args.len() as int) =~= args);
    assert(arg_codes.take(args.len() as int) =~= arg_codes);
    assert((args.len() % 256) as u8 == args.len() as u8);
    arg_codes.lemma_flatten_and_flatten_alt_are_equivalent();
}

proof fn lemma_args_layout(
    args: Seq<ExprSM>,
    env: EnvM,
    c1: Seq<ValueM>,
    arg_codes: Seq<Seq<u8>>,
    arg_consts: Seq<Seq<ValueM>>,
    j: int,
)
    requires
        0 <= j <= args.len(),
        arg_codes.len() == args.len(),
        arg_consts.len() == args.len() + 1,
        arg_consts[0] == c1,
        forall|k: int| 0 <= k < args.len() ==> compile_spec(#[trigger] args[k], env, arg_consts[k]) == (
            CompM::Codes(arg_codes[k]),
            arg_consts[k + 1],
        ),
    ensures
        compile_args_spec(args.take(j), env, c1) == (
            ArgsM { panic: false, codes: arg_codes.take(j).flatten_alt(), errs: Seq::<ErrorSM>::empty() },
            arg_consts[j],
        ),
    decreases j,
{
    if j > 0 {
        lemma_args_layout(args, env, c1, arg_codes, arg_consts, j - 1);
        assert(args.take(j).drop_last() =~= args.take(j - 1));
        assert(args.take(j).last() == args[j - 1]);
        assert(arg_codes.take(j).drop_last() =~= arg_codes.take(j - 1));
        assert(arg_codes.take(j).last() == arg_codes[j - 1]);
        assert(compile_spec(args[j - 1], env, arg_consts[j - 1]) == (CompM::Codes(arg_codes[j - 1]), arg_consts[j]));
    } else {
        assert(arg_codes.take(0) =~= Seq::<Seq<u8>>::empty());
    }
}

} // verus!
