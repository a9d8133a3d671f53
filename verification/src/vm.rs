//! The virtual machine and associated types
use vstd::prelude::*;
use crate::builtins::{ApplyM, apply_builtin, apply_spec, values_view};
use crate::compiler::{BytecodeM, CompileTimeEnv, EnvM, ExprByteCode};
use crate::errors::{ErrorM, ErrorSM, ExprError, ExprErrorS, ExprResult, RuntimeError, errors_view};
use crate::lookup;
use crate::opcode;
use crate::types::{Type, TypeM};
use crate::value::{Value, ValueM, any_fn_type, value_type};

verus! {

broadcast use vstd::std_specs::vec::group_vec_axioms;

/// The values an expression's names take when it runs.
#[derive(Debug, Default)]
pub struct RuntimeEnv {
    pub vars: Vec<String>,
    pub prompts: Vec<String>,
    pub secrets: Vec<String>,
    pub client_context: Vec<Value>,
}

/// The model of a [`RuntimeEnv`].
pub struct RuntimeEnvM {
    pub vars: Seq<Seq<char>>,
    pub prompts: Seq<Seq<char>>,
    pub secrets: Seq<Seq<char>>,
    pub client_context: Seq<ValueM>,
}

impl View for RuntimeEnv {
    type V = RuntimeEnvM;

    open spec fn view(&self) -> RuntimeEnvM {
        RuntimeEnvM {
            vars: self.vars@.map_values(|s: String| s@),
            prompts: self.prompts@.map_values(|s: String| s@),
            secrets: self.secrets@.map_values(|s: String| s@),
            client_context: values_view(self.client_context@),
        }
    }
}

/// The client context values after setting `value` at `index`: replacing the
/// value there, or appending it where `index` is past the end.
pub open spec fn client_values_with(vals: Seq<ValueM>, index: int, value: ValueM) -> Seq<ValueM> {
    if index < vals.len() {
        vals.update(index, value)
    } else {
        vals.push(value)
    }
}

impl RuntimeEnv {
    /// Sets the client context value at `index`, or appends it when `index`
    /// is past the end.
    pub fn add_to_client_context(&mut self, index: usize, value: Value)
        ensures
            final(self)@ == (RuntimeEnvM {
                client_context: client_values_with(old(self)@.client_context, index as int, value@),
                ..old(self)@
            }),
    {
        let ghost v = value@;
        if index < self.client_context.len() {
            self.client_context.set(index, value);
            assert(values_view(self.client_context@) =~= values_view(old(self).client_context@).update(index as int, v));
        } else {
            self.client_context.push(value);
            assert(values_view(self.client_context@) =~= values_view(old(self).client_context@).push(v));
        }
    }
}

/// A decoded instruction.
pub enum Instr {
    Call(u8),
    Get(u8, u8),
    Constant(u8),
    True,
    False,
}

/// The state of a run: the stack, the errors so far, and whether the run is stuck.
pub struct VmS {
    pub stack: Seq<ValueM>,
    pub errs: Seq<ErrorSM>,
    pub panic: bool,
}

/// The byte an operand at position `p` is read from: positions are counted in 8 bits.
pub open spec fn operand(codes: Seq<u8>, p: int) -> Option<u8> {
    let q = p % 256;
    if q < codes.len() {
        Some(codes[q])
    } else {
        None
    }
}

/// The size in bytes of an instruction.
pub open spec fn instr_size(ins: Instr) -> int {
    match ins {
        Instr::Call(_) => 2,
        Instr::Get(_, _) => 3,
        Instr::Constant(_) => 2,
        Instr::True => 1,
        Instr::False => 1,
    }
}

/// The instruction at `ip`, if it decodes.
pub open spec fn fetch(codes: Seq<u8>, ip: int) -> Option<Instr> {
    let op = codes[ip];
    if op == opcode::CALL {
        match operand(codes, ip + 1) {
            Some(a) => Some(Instr::Call(a)),
            None => None,
        }
    } else if op == opcode::GET {
        match (operand(codes, ip + 1), operand(codes, ip + 2)) {
            (Some(a), Some(b)) => Some(Instr::Get(a, b)),
            _ => None,
        }
    } else if op == opcode::CONSTANT {
        match operand(codes, ip + 1) {
            Some(a) => Some(Instr::Constant(a)),
            None => None,
        }
    } else if op == opcode::TRUE {
        Some(Instr::True)
    } else if op == opcode::FALSE {
        Some(Instr::False)
    } else {
        None
    }
}

/// The value a `GET` instruction pushes, if its lookup and index are defined.
pub open spec fn get_value(lk: u8, i: u8, env: EnvM, renv: RuntimeEnvM, types: Seq<TypeM>) -> Option<ValueM> {
    let i = i as int;
    if lk == lookup::BUILTIN {
        if i < env.builtins.len() { Some(ValueM::Fn(env.builtins[i])) } else { None }
    } else if lk == lookup::USER_BUILTIN {
        if i < env.user_builtins.len() { Some(ValueM::Fn(env.user_builtins[i])) } else { None }
    } else if lk == lookup::VAR {
        if i < env.vars.len() && i < renv.vars.len() { Some(ValueM::Str(renv.vars[i])) } else { None }
    } else if lk == lookup::PROMPT {
        if i < env.prompts.len() && i < renv.prompts.len() { Some(ValueM::Str(renv.prompts[i])) } else { None }
    } else if lk == lookup::SECRET {
        if i < env.secrets.len() && i < renv.secrets.len() { Some(ValueM::Str(renv.secrets[i])) } else { None }
    } else if lk == lookup::CLIENT_CTX {
        if i < env.client_context.len() && i < renv.client_context.len() {
            Some(renv.client_context[i])
        } else {
            None
        }
    } else if lk == lookup::TYPE {
        if i < types.len() {
            Some(ValueM::Ty(if types[i] is Type { types[i] } else { TypeM::Type(Box::new(types[i])) }))
        } else {
            None
        }
    } else {
        None
    }
}

/// The error of popping from an empty stack, at the empty span.
pub open spec fn empty_stack_error() -> ErrorSM {
    (ErrorM::EmptyStack, 0usize, 0usize)
}

/// A `CALL` of `n` arguments: pop the arguments and the callee, then apply it.
pub open spec fn call_step(n: u8, s: VmS) -> VmS {
    let st = s.stack;
    let n = n as int;
    if st.len() < n {
        VmS { stack: Seq::empty(), errs: s.errs.push(empty_stack_error()), panic: false }
    } else {
        let args = st.subrange(st.len() - n, st.len() as int);
        let rest = st.subrange(0, st.len() - n);
        if rest.len() == 0 {
            VmS { stack: rest, errs: s.errs.push(empty_stack_error()), panic: false }
        } else {
            let rest2 = rest.drop_last();
            match rest.last() {
                ValueM::Fn(f) => match apply_spec(f.func, args) {
                    ApplyM::Done(v) => VmS { stack: rest2.push(v), errs: s.errs, panic: false },
                    ApplyM::Fail(e) => VmS { stack: rest2, errs: s.errs.push((e, 0usize, 0usize)), panic: false },
                    ApplyM::Stuck => VmS { stack: rest2, errs: s.errs, panic: true },
                },
                other => VmS {
                    stack: rest2,
                    errs: s.errs.push((ErrorM::RuntimeTypeMismatch(any_fn_type(), value_type(other)), 0usize, 0usize)),
                    panic: false,
                },
            }
        }
    }
}

/// One instruction.
pub open spec fn step(ins: Instr, s: VmS, env: EnvM, renv: RuntimeEnvM, bc: BytecodeM) -> VmS {
    match ins {
        Instr::True => VmS { stack: s.stack.push(ValueM::Bool(true)), ..s },
        Instr::False => VmS { stack: s.stack.push(ValueM::Bool(false)), ..s },
        Instr::Constant(i) => if (i as int) < bc.constants.len() {
            VmS { stack: s.stack.push(bc.constants[i as int]), ..s }
        } else {
            VmS { panic: true, ..s }
        },
        Instr::Get(lk, i) => match get_value(lk, i, env, renv, bc.types) {
            Some(v) => VmS { stack: s.stack.push(v), ..s },
            None => VmS { panic: true, ..s },
        },
        Instr::Call(n) => call_step(n, s),
    }
}

/// Running the bytecode from position `ip`.
pub open spec fn run_from(bc: BytecodeM, env: EnvM, renv: RuntimeEnvM, ip: int, s: VmS) -> VmS
    decreases bc.codes.len() + 3 - ip,
{
    if s.panic || ip < 0 || ip >= bc.codes.len() {
        s
    } else {
        match fetch(bc.codes, ip) {
            None => VmS { panic: true, ..s },
            Some(ins) => if ip + instr_size(ins) > usize::MAX {
                VmS { panic: true, ..s }
            } else {
                run_from(bc, env, renv, ip + instr_size(ins), step(ins, s, env, renv, bc))
            },
        }
    }
}

/// The state at the end of running `bc` on `stack`.
pub open spec fn final_state(bc: BytecodeM, env: EnvM, renv: RuntimeEnvM, stack: Seq<ValueM>) -> VmS {
    run_from(bc, env, renv, 0, VmS { stack, errs: Seq::empty(), panic: false })
}

/// The outcome of interpreting bytecode.
pub enum VmOut {
    Value(ValueM),
    Errors(Seq<ErrorSM>),
    Panic,
}

/// The outcome of interpreting `bc` on a machine whose stack holds `stack`.
pub open spec fn vm_outcome(bc: BytecodeM, env: EnvM, renv: RuntimeEnvM, stack: Seq<ValueM>) -> VmOut {
    let f = final_state(bc, env, renv, stack);
    if f.panic {
        VmOut::Panic
    } else if f.errs.len() > 0 {
        VmOut::Errors(f.errs)
    } else if f.stack.len() == 0 {
        VmOut::Errors(seq![empty_stack_error()])
    } else {
        VmOut::Value(f.stack.last())
    }
}

/// The stack left behind after interpreting `bc` on `stack`.
pub open spec fn stack_after(bc: BytecodeM, env: EnvM, renv: RuntimeEnvM, stack: Seq<ValueM>) -> Seq<ValueM> {
    let f = final_state(bc, env, renv, stack);
    if f.errs.len() == 0 && f.stack.len() > 0 {
        f.stack.drop_last()
    } else {
        f.stack
    }
}

/// The stack based virtual machine.
#[derive(Debug)]
pub struct Vm {
    bytecode: Option<Box<ExprByteCode>>,
    ip: usize,
    stack: Vec<Value>,
}

impl Default for Vm {
    fn default() -> (r: Self)
        ensures
            r.stack_view() == Seq::<ValueM>::empty(),
            r.position() == 0,
            !r.has_bytecode(),
    {
        Self::new()
    }
}

impl Vm {
    /// The values on the machine's stack.
    pub closed spec fn stack_view(&self) -> Seq<ValueM> {
        values_view(self.stack@)
    }

    /// The position of the next instruction to run.
    pub closed spec fn position(&self) -> usize {
        self.ip
    }

    /// Whether the machine holds the bytecode it last interpreted.
    pub closed spec fn has_bytecode(&self) -> bool {
        self.bytecode is Some
    }

    /// A machine with an empty stack and no bytecode, positioned at the
    /// start.
    pub fn new() -> (r: Self)
        ensures
            r.stack_view() == Seq::<ValueM>::empty(),
            r.position() == 0,
            !r.has_bytecode(),
    {
        let r = Self { bytecode: None, ip: 0, stack: Vec::new() };
        assert(values_view(r.stack@) =~= Seq::<ValueM>::empty());
        r
    }

    fn stack_push(&mut self, value: Value)
        ensures
            final(self).stack_view() == old(self).stack_view().push(value@),
            final(self).bytecode == old(self).bytecode,
            final(self).ip == old(self).ip,
    {
        self.stack.push(value);
        assert(values_view(self.stack@) =~= values_view(old(self).stack@).push(value@));
    }

    fn stack_pop(&mut self) -> (r: ExprResult<Value>)
        ensures
            old(self).stack_view().len() == 0 ==> {
                &&& r matches Err(e) && errors_view(e@) == seq![empty_stack_error()]
                &&& final(self).stack_view() == old(self).stack_view()
            },
            old(self).stack_view().len() > 0 ==> {
                &&& r matches Ok(v) && v@ == old(self).stack_view().last()
                &&& final(self).stack_view() == old(self).stack_view().drop_last()
            },
            final(self).bytecode == old(self).bytecode,
            final(self).ip == old(self).ip,
    {
        match self.stack.pop() {
            Some(v) => {
                assert(values_view(self.stack@) =~= values_view(old(self).stack@).drop_last());
                Ok(v)
            },
            None => {
                let e = vec![(ExprError::RuntimeError(RuntimeError::EmptyStack), 0..0)];
                assert(errors_view(e@) =~= seq![empty_stack_error()]);
                Err(e)
            },
        }
    }
}


/// The operand `d` bytes after `ip`, if it can be read.
fn read_operand(codes: &[u8], ip: usize, d: usize) -> (r: Option<u8>)
    requires
        d <= 2,
    ensures
        r == operand(codes@, ip + d),
{
    let m = ip % 256;
    let q = if m + d >= 256 { m + d - 256 } else { m + d };
    assert(q as int == (ip as int + d as int) % 256);
    if q < codes.len() {
        Some(codes[q])
    } else {
        None
    }
}

impl Vm {
    /// Runs one `CALL` of `n` arguments.
    fn op_call(&mut self, n: u8, errs: &mut Vec<ExprErrorS>) -> (ok: bool)
        ensures
            ({
                let s = VmS { stack: old(self).stack_view(), errs: errors_view(old(errs)@), panic: false };
                let t = call_step(n, s);
                &&& ok == !t.panic
                &&& ok ==> final(self).stack_view() == t.stack && errors_view(final(errs)@) == t.errs
            }),
            final(self).bytecode == old(self).bytecode,
            final(self).ip == old(self).ip,
    {
        let ghost st = old(self).stack_view();
        let n = n as usize;
        if self.stack.len() < n {
            self.stack.clear();
            assert(values_view(self.stack@) =~= Seq::<ValueM>::empty());
            let e = vec![(ExprError::RuntimeError(RuntimeError::EmptyStack), 0..0)];
            let ghost before = errs@;
            let ghost ev = errors_view(e@);
            let mut e = e;
            errs.append(&mut e);
            assert(errors_view(errs@) =~= errors_view(before) + ev);
            return true;
        }
        let at = self.stack.len() - n;
        let args = self.stack.split_off(at);
        assert(values_view(args@) =~= st.subrange(st.len() - n, st.len() as int));
        assert(values_view(self.stack@) =~= st.subrange(0, st.len() - n));
        match self.stack_pop() {
            Err(e) => {
                let ghost before = errs@;
                let ghost ev = errors_view(e@);
                let mut e = e;
                errs.append(&mut e);
                assert(errors_view(errs@) =~= errors_view(before) + ev);
                true
            },
            Ok(callee) => {
                match callee.get_func() {
                    Err(e) => {
                        let ghost before = errs@;
                        let ghost ev = errors_view(e@);
                        let mut e = e;
                        errs.append(&mut e);
                        assert(errors_view(errs@) =~= errors_view(before) + ev);
                        true
                    },
                    Ok(f) => {
                        match apply_builtin(&f.func, args) {
                            None => false,
                            Some(Ok(v)) => {
                                self.stack_push(v);
                                true
                            },
                            Some(Err(e)) => {
                                let ghost before = errs@;
                                let ghost ev = errors_view(e@);
                                let mut e = e;
                                errs.append(&mut e);
                                assert(errors_view(errs@) =~= errors_view(before) + ev);
                                true
                            },
                        }
                    },
                }
            },
        }
    }

    /// Runs one `GET` of `lk`, `i`.
    fn op_get(
        &mut self,
        lk: u8,
        i: u8,
        bc: &ExprByteCode,
        env: &CompileTimeEnv,
        runtime_env: &RuntimeEnv,
    ) -> (ok: bool)
        ensures
            match get_value(lk, i, env@, runtime_env@, bc@.types) {
                Some(v) => ok && final(self).stack_view() == old(self).stack_view().push(v),
                None => !ok,
            },
            final(self).bytecode == old(self).bytecode,
            final(self).ip == old(self).ip,
    {
        let idx = i as usize;
        let v = if lk == lookup::BUILTIN {
            match env.get_builtin(idx) {
                Some(f) => Value::Fn(Box::new(f.duplicate())),
                None => return false,
            }
        } else if lk == lookup::USER_BUILTIN {
            match env.get_user_builtin(idx) {
                Some(f) => Value::Fn(Box::new(f.duplicate())),
                None => return false,
            }
        } else if lk == lookup::VAR {
            if env.get_var(idx).is_none() || idx >= runtime_env.vars.len() {
                return false;
            }
            Value::String(runtime_env.vars[idx].clone())
        } else if lk == lookup::PROMPT {
            if env.get_prompt(idx).is_none() || idx >= runtime_env.prompts.len() {
                return false;
            }
            Value::String(runtime_env.prompts[idx].clone())
        } else if lk == lookup::SECRET {
            if env.get_secret(idx).is_none() || idx >= runtime_env.secrets.len() {
                return false;
            }
            Value::String(runtime_env.secrets[idx].clone())
        } else if lk == lookup::CLIENT_CTX {
            if env.get_client_context(idx).is_none() || idx >= runtime_env.client_context.len() {
                return false;
            }
            runtime_env.client_context[idx].duplicate()
        } else if lk == lookup::TYPE {
            let types = bc.types();
            proof {
                crate::types::lemma_types_view(types@);
            }
            if idx >= types.len() {
                return false;
            }
            proof {
                crate::types::lemma_types_view(types@);
            }
            let t = &types[idx];
            if t.is_type() {
                Value::Type(Box::new(t.duplicate()))
            } else {
                Value::Type(Box::new(Type::Type(Box::new(t.duplicate()))))
            }
        } else {
            return false;
        };
        self.stack_push(v);
        true
    }

    /// Runs the instruction at the current position.
    fn exec_one(
        &mut self,
        bc: &ExprByteCode,
        env: &CompileTimeEnv,
        runtime_env: &RuntimeEnv,
        errs: &mut Vec<ExprErrorS>,
    ) -> (ok: bool)
        requires
            old(self).ip < bc@.codes.len(),
        ensures
            ({
                let s = VmS { stack: old(self).stack_view(), errs: errors_view(old(errs)@), panic: false };
                let t = VmS { stack: final(self).stack_view(), errs: errors_view(final(errs)@), panic: false };
                &&& ok ==> final(self).ip > old(self).ip
                &&& ok ==> final(self).ip <= old(self).ip + 3
                &&& ok ==> run_from(bc@, env@, runtime_env@, old(self).ip as int, s)
                    == run_from(bc@, env@, runtime_env@, final(self).ip as int, t)
                &&& !ok ==> run_from(bc@, env@, runtime_env@, old(self).ip as int, s).panic
            }),
    {
        let ghost bm = bc@;
        let ghost s = VmS { stack: self.stack_view(), errs: errors_view(errs@), panic: false };
        let codes = bc.codes();
        let ip = self.ip;
        let op = codes[ip];
        if op == opcode::CALL {
            let a = match read_operand(codes, ip, 1) {
                Some(a) => a,
                None => return false,
            };
            if ip > usize::MAX - 2 {
                return false;
            }
            self.ip = ip + 2;
            let ok = self.op_call(a, errs);
            proof {
                let t = step(Instr::Call(a), s, env@, runtime_env@, bm);
                if t.panic {
                    assert(run_from(bm, env@, runtime_env@, ip + 2, t) == t);
                }
            }
            ok
        } else if op == opcode::GET {
            let a = match read_operand(codes, ip, 1) {
                Some(a) => a,
                None => return false,
            };
            let b = match read_operand(codes, ip, 2) {
                Some(b) => b,
                None => return false,
            };
            if ip > usize::MAX - 3 {
                return false;
            }
            self.ip = ip + 3;
            let ok = self.op_get(a, b, bc, env, runtime_env);
            proof {
                let t = step(Instr::Get(a, b), s, env@, runtime_env@, bm);
                if t.panic {
                    assert(run_from(bm, env@, runtime_env@, ip + 3, t) == t);
                }
            }
            ok
        } else if op == opcode::CONSTANT {
            let a = match read_operand(codes, ip, 1) {
                Some(a) => a,
                None => return false,
            };
            if ip > usize::MAX - 2 {
                return false;
            }
            self.ip = ip + 2;
            let constants = bc.constants();
            if (a as usize) >= constants.len() {
                proof {
                    let t = step(Instr::Constant(a), s, env@, runtime_env@, bm);
                    assert(run_from(bm, env@, runtime_env@, ip + 2, t) == t);
                }
                return false;
            }
            let v = constants[a as usize].duplicate();
            self.stack_push(v);
            true
        } else if op == opcode::TRUE {
            self.ip = ip + 1;
            self.stack_push(Value::Bool(true));
            true
        } else if op == opcode::FALSE {
            self.ip = ip + 1;
            self.stack_push(Value::Bool(false));
            true
        } else {
            false
        }
    }

    /// Interprets bytecode; `None` where the machine cannot proceed: an
    /// unknown op code or lookup, a read past the end of the bytecode, an
    /// undefined index, or a builtin called with too few arguments.
    pub fn try_interpret(
        &mut self,
        bytecode: Box<ExprByteCode>,
        env: &CompileTimeEnv,
        runtime_env: &RuntimeEnv,
    ) -> (r: Option<ExprResult<Value>>)
        ensures
            match vm_outcome((*bytecode)@, env@, runtime_env@, old(self).stack_view()) {
                VmOut::Panic => r is None,
                VmOut::Value(v) => r matches Some(Ok(x)) && x@ == v,
                VmOut::Errors(es) => r matches Some(Err(x)) && errors_view(x@) == es,
            },
            r is Some ==> final(self).stack_view() == stack_after((*bytecode)@, env@, runtime_env@, old(self).stack_view()),
    {
        let ghost bm = (*bytecode)@;
        let ghost s0 = VmS { stack: old(self).stack_view(), errs: Seq::empty(), panic: false };
        self.ip = 0;
        let mut errs: Vec<ExprErrorS> = Vec::new();
        assert(errors_view(errs@) =~= Seq::<ErrorSM>::empty());
        let n = bytecode.codes().len();
        while self.ip < n
            invariant
                n == bm.codes.len(),
                self.ip <= n + 3,
                s0 == (VmS { stack: old(self).stack_view(), errs: Seq::<ErrorSM>::empty(), panic: false }),
                bm == (*bytecode)@,
                run_from(bm, env@, runtime_env@, 0, s0) == run_from(
                    bm,
                    env@,
                    runtime_env@,
                    self.ip as int,
                    VmS { stack: self.stack_view(), errs: errors_view(errs@), panic: false },
                ),
            decreases n + 3 - self.ip,
        {
            let ghost ip0 = self.ip;
            let ghost st0 = VmS { stack: self.stack_view(), errs: errors_view(errs@), panic: false };
            let ok = self.exec_one(&*bytecode, env, runtime_env, &mut errs);
            if !ok {
                assert(run_from(bm, env@, runtime_env@, ip0 as int, st0).panic);
                return None;
            }
            assert(self.ip > ip0);
        }
        self.bytecode = Some(bytecode);
        if errs.len() > 0 {
            return Some(Err(errs));
        }
        Some(self.stack_pop())
    }

    /// Interprets bytecode and returns the value it computes, or the errors
    /// found while running it.
    pub fn interpret(
        &mut self,
        bytecode: Box<ExprByteCode>,
        env: &CompileTimeEnv,
        runtime_env: &RuntimeEnv,
    ) -> (r: ExprResult<Value>)
        requires
            !(vm_outcome((*bytecode)@, env@, runtime_env@, old(self).stack_view()) is Panic),
        ensures
            match vm_outcome((*bytecode)@, env@, runtime_env@, old(self).stack_view()) {
                VmOut::Value(v) => r matches Ok(x) && x@ == v,
                VmOut::Errors(es) => r matches Err(x) && errors_view(x@) == es,
                VmOut::Panic => false,
            },
            final(self).stack_view() == stack_after((*bytecode)@, env@, runtime_env@, old(self).stack_view()),
    {
        match self.try_interpret(bytecode, env, runtime_env) {
            Some(r) => r,
            None => {
                assert(false);
                Err(Vec::new())
            },
        }
    }
}

} // verus!
