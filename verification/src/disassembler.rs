//! The disassembler: bytecode shown as text, one instruction per line.
use vstd::prelude::*;
use crate::ast::{ExprM, ExprSM, IdentifierKind, lookup_name_of};
use crate::compiler::{
    BytecodeM, CompileTimeEnv, EnvM, ExprByteCode, compile_args_spec, compile_ident_spec, compile_spec, fn_names,
    lemma_const_index,
    lemma_index_of, version_bytes,
};
use crate::semantics::{lemma_args_constants_grow, lemma_constants_grow, lemma_errors_nonempty};
use crate::lookup;
use crate::opcode;
use crate::text::{decimal, decimal_string, lemma_repeat_len, owned, pad_left, pad_right, padded_left, padded_right, push_str, repeat_char};
use crate::value::{Value, ValueM, display_of};

verus! {

/// Shows bytecode as text, naming what its lookups refer to in `env`.
pub struct Disassembler<'bytecode, 'env> {
    bytecode: &'bytecode ExprByteCode,
    env: &'env CompileTimeEnv,
}

/// The name a lookup type is shown with.
pub open spec fn lookup_type_name(lk: u8) -> Seq<char> {
    if lk == lookup::BUILTIN {
        "BUILTIN"@
    } else if lk == lookup::USER_BUILTIN {
        "USER_BUILTIN"@
    } else if lk == lookup::VAR {
        "VAR"@
    } else if lk == lookup::PROMPT {
        "PROMPT"@
    } else if lk == lookup::SECRET {
        "SECRET"@
    } else if lk == lookup::CLIENT_CTX {
        "CLIENT_CTX"@
    } else {
        Seq::empty()
    }
}

/// The name a lookup refers to in `env`, if it refers to anything.
pub open spec fn lookup_target(env: EnvM, lk: u8, i: int) -> Option<Seq<char>> {
    if lk == lookup::BUILTIN {
        if 0 <= i < env.builtins.len() { Some(env.builtins[i].name) } else { None }
    } else if lk == lookup::USER_BUILTIN {
        if 0 <= i < env.user_builtins.len() { Some(env.user_builtins[i].name) } else { None }
    } else if lk == lookup::VAR {
        if 0 <= i < env.vars.len() { Some(env.vars[i]) } else { None }
    } else if lk == lookup::PROMPT {
        if 0 <= i < env.prompts.len() { Some(env.prompts[i]) } else { None }
    } else if lk == lookup::SECRET {
        if 0 <= i < env.secrets.len() { Some(env.secrets[i]) } else { None }
    } else if lk == lookup::CLIENT_CTX {
        if 0 <= i < env.client_context.len() { Some(env.client_context[i]) } else { None }
    } else {
        None
    }
}

/// The text a constant is shown with: a string as it is, another value as it displays.
pub open spec fn constant_text(v: ValueM) -> Seq<char> {
    match v {
        ValueM::Str(s) => s,
        other => display_of(other),
    }
}

/// The number of bytes the instruction at `i` takes; an unknown op code takes one.
pub open spec fn op_size(codes: Seq<u8>, i: int) -> int {
    let op = codes[i];
    if op == opcode::GET {
        3
    } else if op == opcode::CALL || op == opcode::CONSTANT {
        2
    } else {
        1
    }
}

/// Whether the instruction at `i` can be shown: its operands are there and
/// what it refers to exists.
pub open spec fn op_shown(bc: BytecodeM, env: EnvM, i: int) -> bool {
    let op = bc.codes[i];
    if op == opcode::GET {
        i + 2 < bc.codes.len() && lookup_target(env, bc.codes[i + 1], bc.codes[i + 2] as int) is Some
    } else if op == opcode::CALL {
        i + 1 < bc.codes.len()
    } else if op == opcode::CONSTANT {
        i + 1 < bc.codes.len() && (bc.codes[i + 1] as int) < bc.constants.len()
    } else {
        true
    }
}

/// The text of the instruction at `i`; an unknown op code shows as nothing.
pub open spec fn op_text(bc: BytecodeM, env: EnvM, i: int) -> Seq<char> {
    let op = bc.codes[i];
    if op == opcode::GET {
        let lk = bc.codes[i + 1];
        let idx = bc.codes[i + 2];
        "GET "@ + pad_right(lookup_type_name(lk), 12) + " "@ + pad_left(decimal(idx as nat), ' ', 4) + " == '"@
            + lookup_target(env, lk, idx as int)->0 + "'\n"@
    } else if op == opcode::CALL {
        pad_right("CALL"@, 16) + " ("@ + decimal(bc.codes[i + 1] as nat) + " args)\n"@
    } else if op == opcode::CONSTANT {
        let idx = bc.codes[i + 1];
        pad_right("CONSTANT"@, 16) + " "@ + pad_left(decimal(idx as nat), ' ', 4) + " == '"@
            + constant_text(bc.constants[idx as int]) + "'\n"@
    } else if op == opcode::TRUE {
        "TRUE"@ + "\n"@
    } else if op == opcode::FALSE {
        "FALSE"@ + "\n"@
    } else {
        Seq::empty()
    }
}

/// Whether every instruction from `i` on can be shown.
pub open spec fn ops_shown(bc: BytecodeM, env: EnvM, i: int) -> bool
    decreases bc.codes.len() - i,
{
    if i < 0 || i >= bc.codes.len() {
        true
    } else {
        op_shown(bc, env, i) && ops_shown(bc, env, i + op_size(bc.codes, i))
    }
}

/// The lines of the instructions from `i` on, each its position in four
/// digits, a space, and its text.
pub open spec fn ops_text(bc: BytecodeM, env: EnvM, i: int) -> Seq<char>
    decreases bc.codes.len() + 3 - i,
{
    if i < 0 || i >= bc.codes.len() {
        Seq::empty()
    } else {
        pad_left(decimal(i as nat), '0', 4) + " "@ + op_text(bc, env, i) + ops_text(bc, env, i + op_size(bc.codes, i))
    }
}

/// The version bytes, each in decimal, run together.
pub open spec fn version_text(v: Seq<u8>) -> Seq<char>
    decreases v.len(),
{
    if v.len() == 0 {
        Seq::empty()
    } else {
        version_text(v.drop_last()) + decimal(v.last() as nat)
    }
}

/// The disassembly of bytecode: a header with the version, then the instructions.
pub open spec fn disassembly(bc: BytecodeM, env: EnvM) -> Seq<char> {
    "VERSION "@ + version_text(bc.version) + "\n----\n"@ + ops_text(bc, env, 0)
}

/// The name a lookup type is shown with.
fn lookup_type_string(lk: u8) -> (r: &'static str)
    ensures
        r@ == lookup_type_name(lk),
{
    if lk == lookup::BUILTIN {
        "BUILTIN"
    } else if lk == lookup::USER_BUILTIN {
        "USER_BUILTIN"
    } else if lk == lookup::VAR {
        "VAR"
    } else if lk == lookup::PROMPT {
        "PROMPT"
    } else if lk == lookup::SECRET {
        "SECRET"
    } else if lk == lookup::CLIENT_CTX {
        "CLIENT_CTX"
    } else {
        proof {
            reveal_strlit("");
        }
        ""
    }
}

/// `" == '"`, then `value`, then `"'\n"`.
fn quoted_line(value: &str) -> (r: String)
    ensures
        r@ == " == '"@ + value@ + "'\n"@,
{
    let mut r = owned(" == '");
    push_str(&mut r, value);
    push_str(&mut r, "'\n");
    r
}

impl<'bytecode, 'env> Disassembler<'bytecode, 'env> {
    /// The bytecode shown.
    pub closed spec fn bytecode_view(&self) -> BytecodeM {
        self.bytecode@
    }

    /// The environment lookups are named from.
    pub closed spec fn env_view(&self) -> EnvM {
        self.env@
    }

    /// A disassembler for `bytecode`, naming lookups from `env`.
    pub fn new(bytecode: &'bytecode ExprByteCode, env: &'env CompileTimeEnv) -> (r: Self)
        ensures
            r.bytecode_view() == bytecode@,
            r.env_view() == env@,
    {
        Self { bytecode, env }
    }

    /// The bytecode as text: `VERSION`, the version bytes in decimal, a rule,
    /// then one line per instruction.
    pub fn disassemble(&self) -> (r: String)
        requires
            ops_shown(self.bytecode_view(), self.env_view(), 0),
        ensures
            r@ == disassembly(self.bytecode_view(), self.env_view()),
    {
        let ghost bc = self.bytecode@;
        let ghost env = self.env@;
        let mut out = owned("VERSION ");
        let version = self.bytecode.version();
        let mut k: usize = 0;
        while k < 4
            invariant
                0 <= k <= 4,
                version@ == bc.version,
                bc.version.len() == 4,
                out@ == "VERSION "@ + version_text(bc.version.take(k as int)),
            decreases 4 - k,
        {
            let d = decimal_string(version[k] as usize);
            push_str(&mut out, d.as_str());
            assert(bc.version.take(k + 1).drop_last() =~= bc.version.take(k as int));
            k = k + 1;
        }
        assert(bc.version.take(4) =~= bc.version);
        push_str(&mut out, "\n----\n");
        let codes = self.bytecode.codes();
        let mut op_idx: usize = 0;
        while op_idx < codes.len()
            invariant
                codes@ == bc.codes,
                bc == self.bytecode@,
                env == self.env@,
                ops_shown(bc, env, op_idx as int),
                out@ + ops_text(bc, env, op_idx as int) == disassembly(bc, env),
            decreases codes.len() - op_idx,
        {
            let (size, idx_str, op_str) = self.disassemble_op(op_idx);
            let ghost before = out@;
            push_str(&mut out, idx_str.as_str());
            push_str(&mut out, " ");
            push_str(&mut out, op_str.as_str());
            assert(before + ops_text(bc, env, op_idx as int) =~= out@ + ops_text(bc, env, op_idx + size));
            op_idx = op_idx + size;
        }
        assert(out@ + Seq::<char>::empty() =~= out@);
        out
    }

    /// The instruction at `op_idx`: its size, its position in four digits, and its text.
    pub fn disassemble_op(&self, op_idx: usize) -> (r: (usize, String, String))
        requires
            op_idx < self.bytecode_view().codes.len(),
            op_shown(self.bytecode_view(), self.env_view(), op_idx as int),
        ensures
            r.0 == op_size(self.bytecode_view().codes, op_idx as int),
            op_idx + r.0 <= self.bytecode_view().codes.len(),
            r.1@ == pad_left(decimal(op_idx as nat), '0', 4),
            r.2@ == op_text(self.bytecode_view(), self.env_view(), op_idx as int),
    {
        let op_idx_str = padded_left(decimal_string(op_idx), '0', 4);
        let op = self.bytecode.codes()[op_idx];
        let (op_idx_inc, op_str): (usize, String) = if op == opcode::GET {
            self.disassemble_op_get(op_idx)
        } else if op == opcode::CALL {
            self.disassemble_op_call("CALL", op_idx)
        } else if op == opcode::CONSTANT {
            self.disassemble_op_constant("CONSTANT", op_idx)
        } else if op == opcode::TRUE {
            self.disassemble_op_true("TRUE", op_idx)
        } else if op == opcode::FALSE {
            self.disassemble_op_false("FALSE", op_idx)
        } else {
            (1, String::new())
        };
        (op_idx_inc, op_idx_str, op_str)
    }

    fn disassemble_op_true(&self, name: &str, op_idx: usize) -> (r: (usize, String))
        requires
            op_idx < self.bytecode_view().codes.len(),
            self.bytecode_view().codes[op_idx as int] == opcode::TRUE,
        ensures
            r.0 == 1,
            r.1@ == name@ + "\n"@,
    {
        let mut s = owned(name);
        push_str(&mut s, "\n");
        (1, s)
    }

    fn disassemble_op_false(&self, name: &str, op_idx: usize) -> (r: (usize, String))
        requires
            op_idx < self.bytecode_view().codes.len(),
            self.bytecode_view().codes[op_idx as int] == opcode::FALSE,
        ensures
            r.0 == 1,
            r.1@ == name@ + "\n"@,
    {
        let mut s = owned(name);
        push_str(&mut s, "\n");
        (1, s)
    }

    fn disassemble_op_constant(&self, name: &str, op_idx: usize) -> (r: (usize, String))
        requires
            op_idx + 1 < self.bytecode_view().codes.len(),
            self.bytecode_view().codes[op_idx as int] == opcode::CONSTANT,
            (self.bytecode_view().codes[op_idx + 1] as int) < self.bytecode_view().constants.len(),
        ensures
            r.0 == 2,
            r.1@ == pad_right(name@, 16) + " "@ + pad_left(decimal(self.bytecode_view().codes[op_idx + 1] as nat), ' ', 4)
                + " == '"@ + constant_text(self.bytecode_view().constants[self.bytecode_view().codes[op_idx + 1] as int])
                + "'\n"@,
    {
        let codes = self.bytecode.codes();
        let _n = codes.len();
        let constant_idx = codes[op_idx + 1] as usize;
        let constants = self.bytecode.constants();
        let value: String = match &constants[constant_idx] {
            Value::String(s) => s.clone(),
            other => other.to_display_string(),
        };
        let mut s = padded_right(owned(name), 16);
        push_str(&mut s, " ");
        let idx = padded_left(decimal_string(constant_idx), ' ', 4);
        push_str(&mut s, idx.as_str());
        let q = quoted_line(value.as_str());
        push_str(&mut s, q.as_str());
        (2, s)
    }

    fn disassemble_op_get(&self, op_idx: usize) -> (r: (usize, String))
        requires
            op_idx + 2 < self.bytecode_view().codes.len(),
            self.bytecode_view().codes[op_idx as int] == opcode::GET,
            lookup_target(
                self.env_view(),
                self.bytecode_view().codes[op_idx + 1],
                self.bytecode_view().codes[op_idx + 2] as int,
            ) is Some,
        ensures
            r.0 == 3,
            r.1@ == op_text(self.bytecode_view(), self.env_view(), op_idx as int),
    {
        let codes = self.bytecode.codes();
        let _n = codes.len();
        let lookup_type = codes[op_idx + 1];
        let constant_idx = codes[op_idx + 2] as usize;
        let value: String = if lookup_type == lookup::BUILTIN {
            match self.env.get_builtin(constant_idx) {
                Some(f) => f.name.clone(),
                None => String::new(),
            }
        } else if lookup_type == lookup::USER_BUILTIN {
            match self.env.get_user_builtin(constant_idx) {
                Some(f) => f.name.clone(),
                None => String::new(),
            }
        } else if lookup_type == lookup::VAR {
            match self.env.get_var(constant_idx) {
                Some(v) => v.clone(),
                None => String::new(),
            }
        } else if lookup_type == lookup::PROMPT {
            match self.env.get_prompt(constant_idx) {
                Some(v) => v.clone(),
                None => String::new(),
            }
        } else if lookup_type == lookup::SECRET {
            match self.env.get_secret(constant_idx) {
                Some(v) => v.clone(),
                None => String::new(),
            }
        } else {
            match self.env.get_client_context(constant_idx) {
                Some(v) => v.clone(),
                None => String::new(),
            }
        };
        let mut s = owned("GET ");
        let kind = padded_right(owned(lookup_type_string(lookup_type)), 12);
        push_str(&mut s, kind.as_str());
        push_str(&mut s, " ");
        let idx = padded_left(decimal_string(constant_idx), ' ', 4);
        push_str(&mut s, idx.as_str());
        let q = quoted_line(value.as_str());
        push_str(&mut s, q.as_str());
        (3, s)
    }

    fn disassemble_op_call(&self, name: &str, op_idx: usize) -> (r: (usize, String))
        requires
            op_idx + 1 < self.bytecode_view().codes.len(),
            self.bytecode_view().codes[op_idx as int] == opcode::CALL,
        ensures
            r.0 == 2,
            r.1@ == pad_right(name@, 16) + " ("@ + decimal(self.bytecode_view().codes[op_idx + 1] as nat) + " args)\n"@,
    {
        let codes = self.bytecode.codes();
        let _n = codes.len();
        let arg_count = codes[op_idx + 1];
        let mut s = padded_right(owned(name), 16);
        push_str(&mut s, " (");
        let n = decimal_string(arg_count as usize);
        push_str(&mut s, n.as_str());
        push_str(&mut s, " args)\n");
        (2, s)
    }
}


/// Walking the instructions from `i` reaches `j` exactly, and every
/// instruction on the way can be shown.
pub open spec fn walk_shown(bc: BytecodeM, env: EnvM, i: int, j: int) -> bool
    decreases j + 3 - i,
{
    if i >= j {
        i == j
    } else {
        op_shown(bc, env, i) && walk_shown(bc, env, i + op_size(bc.codes, i), j)
    }
}

proof fn lemma_walk_concat(bc: BytecodeM, env: EnvM, i: int, j: int, k: int)
    requires
        walk_shown(bc, env, i, j),
        walk_shown(bc, env, j, k),
    ensures
        walk_shown(bc, env, i, k),
    decreases j + 3 - i,
{
    if i < j {
        lemma_walk_concat(bc, env, i + op_size(bc.codes, i), j, k);
    }
}

proof fn lemma_walk_to_end(bc: BytecodeM, env: EnvM, i: int)
    requires
        0 <= i,
        walk_shown(bc, env, i, bc.codes.len() as int),
    ensures
        ops_shown(bc, env, i),
    decreases bc.codes.len() - i,
{
    if i < bc.codes.len() {
        lemma_walk_to_end(bc, env, i + op_size(bc.codes, i));
    }
}

/// `cs` stands in the bytecode from position `off` on.
pub open spec fn placed(bc: BytecodeM, off: int, cs: Seq<u8>) -> bool {
    0 <= off && off + cs.len() <= bc.codes.len() && bc.codes.subrange(off, off + cs.len()) == cs
}

proof fn lemma_placed_split(bc: BytecodeM, off: int, a: Seq<u8>, b: Seq<u8>)
    requires
        placed(bc, off, a + b),
    ensures
        placed(bc, off, a),
        placed(bc, off + a.len(), b),
{
    assert(bc.codes.subrange(off, off + a.len()) =~= (a + b).subrange(0, a.len() as int));
    assert((a + b).subrange(0, a.len() as int) =~= a);
    assert(bc.codes.subrange(off + a.len(), off + a.len() + b.len()) =~= (a + b).subrange(a.len() as int, (a + b).len() as int));
    assert((a + b).subrange(a.len() as int, (a + b).len() as int) =~= b);
}

/// One instruction placed at `off` that can be shown is a walk over it.
proof fn lemma_walk_one(bc: BytecodeM, env: EnvM, off: int, cs: Seq<u8>)
    requires
        placed(bc, off, cs),
        cs.len() >= 1,
        op_size(bc.codes, off) == cs.len(),
        op_shown(bc, env, off),
    ensures
        walk_shown(bc, env, off, off + cs.len()),
{
    assert(walk_shown(bc, env, off + cs.len(), off + cs.len()));
}

proof fn lemma_placed_at(bc: BytecodeM, off: int, cs: Seq<u8>, k: int)
    requires
        placed(bc, off, cs),
        0 <= k < cs.len(),
    ensures
        bc.codes[off + k] == cs[k],
{
    assert(bc.codes.subrange(off, off + cs.len())[k] == bc.codes[off + k]);
}

/// A compiled identifier placed in bytecode can be walked and shown.
proof fn lemma_ident_walk(name: Seq<char>, kind: IdentifierKind, a: usize, b: usize, env: EnvM, bc: BytecodeM, off: int)
    requires
        compile_ident_spec(name, kind, a, b, env) is Codes,
        placed(bc, off, compile_ident_spec(name, kind, a, b, env)->Codes_0),
    ensures
        walk_shown(bc, env, off, off + compile_ident_spec(name, kind, a, b, env)->Codes_0.len()),
{
    let cs = compile_ident_spec(name, kind, a, b, env)->Codes_0;
    let ln = lookup_name_of(name, kind);
    lemma_index_of(env.vars, ln);
    lemma_index_of(env.prompts, ln);
    lemma_index_of(env.secrets, ln);
    lemma_index_of(env.client_context, ln);
    lemma_index_of(fn_names(env.builtins), ln);
    lemma_index_of(fn_names(env.user_builtins), ln);
    lemma_placed_at(bc, off, cs, 0);
    lemma_placed_at(bc, off, cs, 1);
    lemma_placed_at(bc, off, cs, 2);
    lemma_walk_one(bc, env, off, cs);
}

/// Compiled code placed in bytecode whose constants include the ones
/// compiling made can be walked and shown.
proof fn lemma_expr_walk(e: ExprSM, env: EnvM, c0: Seq<ValueM>, bc: BytecodeM, off: int)
    requires
        compile_spec(e, env, c0).0 is Codes,
        placed(bc, off, compile_spec(e, env, c0).0->Codes_0),
        compile_spec(e, env, c0).1.len() <= bc.constants.len(),
    ensures
        walk_shown(bc, env, off, off + compile_spec(e, env, c0).0->Codes_0.len()),
    decreases e, 1int,
{
    let cs = compile_spec(e, env, c0).0->Codes_0;
    match e.0 {
        ExprM::Bool(b) => {
            lemma_placed_at(bc, off, cs, 0);
            lemma_walk_one(bc, env, off, cs);
        },
        ExprM::Str(st) => {
            lemma_const_index(c0, st);
            lemma_placed_at(bc, off, cs, 0);
            lemma_placed_at(bc, off, cs, 1);
            lemma_walk_one(bc, env, off, cs);
        },
        ExprM::Ident(name, kind, _) => {
            lemma_ident_walk(name, kind, e.1, e.2, env, bc, off);
        },
        ExprM::Error => {},
        ExprM::Call(callee, args) => {
            lemma_call_walk(e, *callee, args, env, c0, bc, off);
        },
    }
}

/// A compiled call placed in bytecode can be walked and shown.
proof fn lemma_call_walk(e: ExprSM, callee: ExprSM, args: Seq<ExprSM>, env: EnvM, c0: Seq<ValueM>, bc: BytecodeM, off: int)
    requires
        e.0 == ExprM::Call(Box::new(callee), args),
        compile_spec(e, env, c0).0 is Codes,
        placed(bc, off, compile_spec(e, env, c0).0->Codes_0),
        compile_spec(e, env, c0).1.len() <= bc.constants.len(),
    ensures
        walk_shown(bc, env, off, off + compile_spec(e, env, c0).0->Codes_0.len()),
    decreases e, 0int,
{
    let cs = compile_spec(e, env, c0).0->Codes_0;
    let (cr, c1) = compile_spec(callee, env, c0);
    let cb = cr->Codes_0;
    let (ar, c2) = compile_args_spec(args, env, c1);
    let tail = seq![opcode::CALL, (args.len() % 256) as u8];
    assert(cs == (cb + ar.codes) + tail);
    lemma_args_constants_grow(args, env, c1);
    lemma_placed_split(bc, off, cb + ar.codes, tail);
    lemma_placed_split(bc, off, cb, ar.codes);
    lemma_expr_walk(callee, env, c0, bc, off);
    lemma_args_walk(args, env, c1, bc, off + cb.len());
    let p = off + cb.len() + ar.codes.len();
    lemma_placed_at(bc, p, tail, 0);
    lemma_walk_one(bc, env, p, tail);
    lemma_walk_concat(bc, env, off, off + cb.len(), p);
    lemma_walk_concat(bc, env, off, p, p + 2);
}

proof fn lemma_args_walk(args: Seq<ExprSM>, env: EnvM, c0: Seq<ValueM>, bc: BytecodeM, off: int)
    requires
        !compile_args_spec(args, env, c0).0.panic,
        compile_args_spec(args, env, c0).0.errs.len() == 0,
        placed(bc, off, compile_args_spec(args, env, c0).0.codes),
        compile_args_spec(args, env, c0).1.len() <= bc.constants.len(),
    ensures
        walk_shown(bc, env, off, off + compile_args_spec(args, env, c0).0.codes.len()),
    decreases args, 2int,
{
    if args.len() > 0 {
        let (prev, c1) = compile_args_spec(args.drop_last(), env, c0);
        let (r, c2) = compile_spec(args.last(), env, c1);
        if r is Errors {
            lemma_errors_nonempty(args.last(), env, c1);
        }
        let cs = r->Codes_0;
        assert(compile_args_spec(args, env, c0).0.codes == prev.codes + cs);
        lemma_constants_grow(args.last(), env, c1);
        lemma_placed_split(bc, off, prev.codes, cs);
        lemma_args_walk(args.drop_last(), env, c0, bc, off);
        lemma_expr_walk(args.last(), env, c1, bc, off + prev.codes.len());
        lemma_walk_concat(bc, env, off, off + prev.codes.len(), off + prev.codes.len() + cs.len());
    }
}

/// Every bytecode the compiler produces can be disassembled: each of its
/// instructions has its operands, and each lookup and constant it refers to
/// exists in the environment it was compiled under.
pub proof fn compiled_code_disassembles(e: ExprSM, env: EnvM)
    requires
        compile_spec(e, env, Seq::empty()).0 is Codes,
    ensures
        ops_shown(
            BytecodeM {
                version: version_bytes(),
                codes: compile_spec(e, env, Seq::empty()).0->Codes_0,
                constants: compile_spec(e, env, Seq::empty()).1,
                types: Seq::empty(),
            },
            env,
            0,
        ),
{
    let bc = BytecodeM {
        version: version_bytes(),
        codes: compile_spec(e, env, Seq::empty()).0->Codes_0,
        constants: compile_spec(e, env, Seq::empty()).1,
        types: Seq::empty(),
    };
    assert(bc.codes.subrange(0, bc.codes.len() as int) =~= bc.codes);
    lemma_expr_walk(e, env, Seq::empty(), bc, 0);
    lemma_walk_to_end(bc, env, 0);
}


/// The name each op code is written with in a disassembly.
pub open spec fn opcode_name(op: u8) -> Seq<char> {
    if op == opcode::CALL {
        seq!['C', 'A', 'L', 'L']
    } else if op == opcode::GET {
        seq!['G', 'E', 'T']
    } else if op == opcode::CONSTANT {
        seq!['C', 'O', 'N', 'S', 'T', 'A', 'N', 'T']
    } else if op == opcode::TRUE {
        seq!['T', 'R', 'U', 'E']
    } else if op == opcode::FALSE {
        seq!['F', 'A', 'L', 'S', 'E']
    } else {
        Seq::empty()
    }
}

proof fn lemma_repeat_char_at(c: char, n: nat, k: int)
    requires
        0 <= k < n,
    ensures
        repeat_char(c, n).len() == n,
        repeat_char(c, n)[k] == c,
    decreases n,
{
    lemma_repeat_len(c, n);
    if k < n - 1 {
        lemma_repeat_char_at(c, (n - 1) as nat, k);
    }
}

proof fn lemma_padded_name(name: Seq<char>, rest: Seq<char>)
    requires
        name.len() < 16,
    ensures
        ({
            let text = pad_right(name, 16) + rest;
            &&& text.len() > name.len()
            &&& text.take(name.len() as int) == name
            &&& text[name.len() as int] == ' '
        }),
{
    let pad = repeat_char(' ', (16 - name.len()) as nat);
    lemma_repeat_char_at(' ', (16 - name.len()) as nat, 0);
    let text = pad_right(name, 16) + rest;
    assert(pad_right(name, 16) == name + pad);
    assert(text =~= name + (pad + rest));
    assert(text.take(name.len() as int) =~= name);
    assert(text[name.len() as int] == pad[0]);
}

/// The line of each instruction opens with the name of its own op code, as
/// a word of its own: a space or the end of the line follows the name. A
/// `TRUE` line is exactly `TRUE`, and a `FALSE` line exactly `FALSE`.
pub proof fn disassembly_line_names_its_op_code(bc: BytecodeM, env: EnvM, i: int)
    requires
        0 <= i < bc.codes.len(),
        op_shown(bc, env, i),
    ensures
        ({
            let op = bc.codes[i];
            let name = opcode_name(op);
            let text = op_text(bc, env, i);
            op <= opcode::FALSE ==> {
                &&& text.len() > name.len()
                &&& text.take(name.len() as int) == name
                &&& (text[name.len() as int] == ' ' || text[name.len() as int] == '\n')
            }
        }),
        bc.codes[i] == opcode::TRUE ==> op_text(bc, env, i) == seq!['T', 'R', 'U', 'E', '\n'],
        bc.codes[i] == opcode::FALSE ==> op_text(bc, env, i) == seq!['F', 'A', 'L', 'S', 'E', '\n'],
{
    reveal_strlit("GET ");
    reveal_strlit("CALL");
    reveal_strlit("CONSTANT");
    reveal_strlit("TRUE");
    reveal_strlit("FALSE");
    reveal_strlit("\n");
    let op = bc.codes[i];
    let text = op_text(bc, env, i);
    if op == opcode::GET {
        let lk = bc.codes[i + 1];
        let idx = bc.codes[i + 2];
        let rest = pad_right(lookup_type_name(lk), 12) + " "@ + pad_left(decimal(idx as nat), ' ', 4) + " == '"@
            + lookup_target(env, lk, idx as int)->0 + "'\n"@;
        assert(text =~= "GET "@ + rest);
        assert(text.take(3) =~= opcode_name(op));
        assert(text[3] == ' ');
    } else if op == opcode::CALL {
        lemma_padded_name("CALL"@, " ("@ + decimal(bc.codes[i + 1] as nat) + " args)\n"@);
        assert(text =~= pad_right("CALL"@, 16) + (" ("@ + decimal(bc.codes[i + 1] as nat) + " args)\n"@));
        assert("CALL"@ =~= opcode_name(op));
    } else if op == opcode::CONSTANT {
        let idx = bc.codes[i + 1];
        let rest = " "@ + pad_left(decimal(idx as nat), ' ', 4) + " == '"@ + constant_text(bc.constants[idx as int]) + "'\n"@;
        lemma_padded_name("CONSTANT"@, rest);
        assert(text =~= pad_right("CONSTANT"@, 16) + rest);
        assert("CONSTANT"@ =~= opcode_name(op));
    } else if op == opcode::TRUE {
        assert(text =~= seq!['T', 'R', 'U', 'E', '\n']);
        assert(text.take(4) =~= opcode_name(op));
    } else if op == opcode::FALSE {
        assert(text =~= seq!['F', 'A', 'L', 'S', 'E', '\n']);
        assert(text.take(5) =~= opcode_name(op));
    }
}

} // verus!
