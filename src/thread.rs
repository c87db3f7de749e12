use vstd::prelude::*;
use vstd::wrapping::{i32_specs, i64_specs};
use crate::arith::{trunc_div, trunc_rem, wrap_i32, wrap_i64, int_div, int_rem, long_div, long_rem};
use crate::class_file::ConstantInfo;
use crate::constant_pool::{ConstantPool, loadable_of, entry, class_name_of, name_and_type_of, append_bytes};
use crate::class::last_with_key;
use crate::descriptor::{descriptor_params, parse_params};
use crate::method::{ACC_NATIVE, Method};
use crate::class::method_sizes_ok;
use crate::error::VmError;
use crate::reader::be_u16;
use crate::registry::Registry;
use crate::value::Type;

verus! {

pub const NOP: u8 = 0x00;
pub const ICONST_M1: u8 = 0x02;
pub const ICONST_5: u8 = 0x08;
pub const LCONST_0: u8 = 0x09;
pub const LCONST_1: u8 = 0x0a;
pub const FCONST_0: u8 = 0x0b;
pub const FCONST_1: u8 = 0x0c;
pub const FCONST_2: u8 = 0x0d;
pub const DCONST_0: u8 = 0x0e;
pub const DCONST_1: u8 = 0x0f;
pub const BIPUSH: u8 = 0x10;
pub const SIPUSH: u8 = 0x11;
pub const LDC: u8 = 0x12;
pub const LDC_W: u8 = 0x13;
pub const LDC2_W: u8 = 0x14;
pub const ILOAD: u8 = 0x15;
pub const DLOAD: u8 = 0x18;
pub const ILOAD_0: u8 = 0x1a;
pub const DLOAD_3: u8 = 0x29;
pub const ISTORE: u8 = 0x36;
pub const DSTORE: u8 = 0x39;
pub const ISTORE_0: u8 = 0x3b;
pub const DSTORE_3: u8 = 0x4a;
pub const IADD: u8 = 0x60;
pub const LADD: u8 = 0x61;
pub const ISUB: u8 = 0x64;
pub const LSUB: u8 = 0x65;
pub const IMUL: u8 = 0x68;
pub const LMUL: u8 = 0x69;
pub const IDIV: u8 = 0x6c;
pub const LDIV: u8 = 0x6d;
pub const IREM: u8 = 0x70;
pub const LREM: u8 = 0x71;
pub const DREM: u8 = 0x73;
pub const IAND: u8 = 0x7e;
pub const LAND: u8 = 0x7f;
pub const IOR: u8 = 0x80;
pub const LOR: u8 = 0x81;
pub const I2F: u8 = 0x86;
pub const IFEQ: u8 = 0x99;
pub const IFNE: u8 = 0x9a;
pub const IFLT: u8 = 0x9b;
pub const IFGE: u8 = 0x9c;
pub const IFGT: u8 = 0x9d;
pub const IFLE: u8 = 0x9e;
pub const IF_ICMPEQ: u8 = 0x9f;
pub const IF_ICMPNE: u8 = 0xa0;
pub const IF_ICMPLT: u8 = 0xa1;
pub const IF_ICMPGE: u8 = 0xa2;
pub const IF_ICMPGT: u8 = 0xa3;
pub const IF_ICMPLE: u8 = 0xa4;
pub const GOTO: u8 = 0xa7;
pub const IRETURN: u8 = 0xac;
pub const LRETURN: u8 = 0xad;
pub const FRETURN: u8 = 0xae;
pub const DRETURN: u8 = 0xaf;
pub const RETURN: u8 = 0xb1;
pub const INVOKESTATIC: u8 = 0xb8;

/// IEEE-754 bit patterns of the small float and double constants.
pub const FLOAT_ONE_BITS: u32 = 0x3f80_0000;
pub const FLOAT_TWO_BITS: u32 = 0x4000_0000;
pub const DOUBLE_ONE_BITS: u64 = 0x3ff0_0000_0000_0000;

/// The activation record of one invocation, as the specification sees it.
pub ghost struct FrameView {
    pub class_index: int,
    pub method_index: int,
    pub locals: Seq<Type>,
    pub stack: Seq<Type>,
    pub return_address: int,
}

/// A thread: its frames, innermost last, and the program counter of the
/// innermost frame.
pub ghost struct ThreadView {
    pub frames: Seq<FrameView>,
    pub pc: int,
}

/// What one step hands back to the host.
pub ghost enum StepView {
    Continue,
    Native(Seq<u8>, Seq<Type>),
    FloatOp(u8, Type, Type),
    IntToFloat(i32),
    Done(Type),
}

/// What a step does to the innermost frame when it neither calls nor returns:
/// the new frame, the new pc, and the outcome.
pub type LocalStep = Result<(FrameView, int, StepView), VmError>;

pub open spec fn code_of(reg: &Registry, f: FrameView) -> Seq<u8> {
    reg.classes@[f.class_index].methods@[f.method_index].code@
}

pub open spec fn pool_of(reg: &Registry, f: FrameView) -> Seq<ConstantInfo> {
    reg.classes@[f.class_index].constant_pool@
}

pub open spec fn with_stack(f: FrameView, s: Seq<Type>) -> FrameView {
    FrameView { stack: s, ..f }
}

pub open spec fn pushed(f: FrameView, v: Type, pc: int) -> LocalStep {
    Ok((with_stack(f, f.stack.push(v)), pc, StepView::Continue))
}

/// The `u1` operand at `pc`.
pub open spec fn operand_u1(code: Seq<u8>, pc: int) -> Option<u8> {
    if 0 <= pc < code.len() {
        Some(code[pc])
    } else {
        None
    }
}

/// The big-endian `u2` operand at `pc`.
pub open spec fn operand_u2(code: Seq<u8>, pc: int) -> Option<u16> {
    if 0 <= pc && pc + 1 < code.len() {
        Some(be_u16(code[pc], code[pc + 1]))
    } else {
        None
    }
}

/// The constant that `ICONST_*`, `LCONST_*`, `FCONST_*`, `DCONST_*` push.
pub open spec fn const_value(op: u8) -> Type {
    if ICONST_M1 <= op <= ICONST_5 {
        Type::Int((op as int - 3) as i32)
    } else if op == LCONST_0 {
        Type::Long(0)
    } else if op == LCONST_1 {
        Type::Long(1)
    } else if op == FCONST_0 {
        Type::Float(0)
    } else if op == FCONST_1 {
        Type::Float(FLOAT_ONE_BITS)
    } else if op == FCONST_2 {
        Type::Float(FLOAT_TWO_BITS)
    } else if op == DCONST_0 {
        Type::Double(0)
    } else {
        Type::Double(DOUBLE_ONE_BITS)
    }
}

/// The integer result of an `int` arithmetic or bitwise opcode.
pub open spec fn int_op(op: u8, a: i32, b: i32) -> Result<i32, VmError> {
    if op == IADD {
        Ok(i32_specs::wrapping_add(a, b))
    } else if op == ISUB {
        Ok(i32_specs::wrapping_sub(a, b))
    } else if op == IMUL {
        Ok(i32_specs::wrapping_mul(a, b))
    } else if op == IAND {
        Ok(a & b)
    } else if op == IOR {
        Ok(a | b)
    } else if b == 0 {
        Err(VmError::DivisionByZero)
    } else if op == IDIV {
        Ok(wrap_i32(trunc_div(a as int, b as int)))
    } else {
        Ok(trunc_rem(a as int, b as int) as i32)
    }
}

/// The integer result of a `long` arithmetic or bitwise opcode.
pub open spec fn long_op(op: u8, a: i64, b: i64) -> Result<i64, VmError> {
    if op == LADD {
        Ok(i64_specs::wrapping_add(a, b))
    } else if op == LSUB {
        Ok(i64_specs::wrapping_sub(a, b))
    } else if op == LMUL {
        Ok(i64_specs::wrapping_mul(a, b))
    } else if op == LAND {
        Ok(a & b)
    } else if op == LOR {
        Ok(a | b)
    } else if b == 0 {
        Err(VmError::DivisionByZero)
    } else if op == LDIV {
        Ok(wrap_i64(trunc_div(a as int, b as int)))
    } else {
        Ok(trunc_rem(a as int, b as int) as i64)
    }
}

pub open spec fn is_int_op(op: u8) -> bool {
    op == IADD || op == ISUB || op == IMUL || op == IDIV || op == IREM || op == IAND || op == IOR
}

pub open spec fn is_long_op(op: u8) -> bool {
    op == LADD || op == LSUB || op == LMUL || op == LDIV || op == LREM || op == LAND || op == LOR
}

/// `FADD`..`DREM` on single (`op` even) or double (`op` odd) operands.
pub open spec fn is_float_op(op: u8) -> bool {
    IADD <= op <= DREM && (op - IADD) % 4 >= 2
}

/// Whether the one-operand branch of `op` is taken for `x`.
pub open spec fn cond1(op: u8, x: i32) -> bool {
    if op == IFEQ {
        x == 0
    } else if op == IFNE {
        x != 0
    } else if op == IFLT {
        x < 0
    } else if op == IFGE {
        x >= 0
    } else if op == IFGT {
        x > 0
    } else {
        x <= 0
    }
}

/// Whether the two-operand branch of `op` is taken for `a`, `b`.
pub open spec fn cond2(op: u8, a: i32, b: i32) -> bool {
    if op == IF_ICMPEQ {
        a == b
    } else if op == IF_ICMPNE {
        a != b
    } else if op == IF_ICMPLT {
        a < b
    } else if op == IF_ICMPGE {
        a >= b
    } else if op == IF_ICMPGT {
        a > b
    } else {
        a <= b
    }
}

/// A `u16` read as a two's-complement signed number.
pub open spec fn signed16(v: u16) -> int {
    if v >= 0x8000 {
        v - 0x10000
    } else {
        v as int
    }
}

/// A `u8` read as a two's-complement signed number.
pub open spec fn signed8(v: u8) -> int {
    if v >= 0x80 {
        v - 0x100
    } else {
        v as int
    }
}

/// The pc after a branch at `pc` whose decision is `taken`: the opcode's own
/// pc plus the signed offset, or past the offset. A target outside the code
/// (its end excepted) is a fault.
pub open spec fn branch_target(code: Seq<u8>, pc: int, taken: bool) -> Result<int, VmError> {
    match operand_u2(code, pc + 1) {
        None => Err(VmError::OutOfRange),
        Some(off) => if !taken {
            Ok(pc + 3)
        } else if pc + signed16(off) < 0 || pc + signed16(off) > code.len() {
            Err(VmError::OutOfRange)
        } else {
            Ok(pc + signed16(off))
        },
    }
}

/// One step of an instruction that stays inside the innermost frame.
pub open spec fn local_step(f: FrameView, code: Seq<u8>, pool: Seq<ConstantInfo>, pc: int, op: u8) -> LocalStep {
    let s = f.stack;
    let n = s.len();
    if op == NOP {
        Ok((f, pc + 1, StepView::Continue))
    } else if ICONST_M1 <= op <= DCONST_1 {
        pushed(f, const_value(op), pc + 1)
    } else if op == BIPUSH {
        match operand_u1(code, pc + 1) {
            None => Err(VmError::OutOfRange),
            Some(b) => pushed(f, Type::Int(signed8(b) as i32), pc + 2),
        }
    } else if op == SIPUSH {
        match operand_u2(code, pc + 1) {
            None => Err(VmError::OutOfRange),
            Some(v) => pushed(f, Type::Int(signed16(v) as i32), pc + 3),
        }
    } else if op == LDC {
        match operand_u1(code, pc + 1) {
            None => Err(VmError::OutOfRange),
            Some(i) => match loadable_of(pool, i as int) {
                None => Err(VmError::WrongConstantKind),
                Some(v) => pushed(f, v, pc + 2),
            },
        }
    } else if op == LDC_W || op == LDC2_W {
        match operand_u2(code, pc + 1) {
            None => Err(VmError::OutOfRange),
            Some(i) => match loadable_of(pool, i as int) {
                None => Err(VmError::WrongConstantKind),
                Some(v) => pushed(f, v, pc + 3),
            },
        }
    } else if ILOAD <= op <= DLOAD || ILOAD_0 <= op <= DLOAD_3 {
        let (idx, next) = if op <= DLOAD {
            (operand_u1(code, pc + 1), pc + 2)
        } else {
            (Some(((op - ILOAD_0) % 4) as u8), pc + 1)
        };
        match idx {
            None => Err(VmError::OutOfRange),
            Some(i) => if i < f.locals.len() {
                pushed(f, f.locals[i as int], next)
            } else {
                Err(VmError::OutOfRange)
            },
        }
    } else if ISTORE <= op <= DSTORE || ISTORE_0 <= op <= DSTORE_3 {
        let (idx, next) = if op <= DSTORE {
            (operand_u1(code, pc + 1), pc + 2)
        } else {
            (Some(((op - ISTORE_0) % 4) as u8), pc + 1)
        };
        match idx {
            None => Err(VmError::OutOfRange),
            Some(i) => if n == 0 {
                Err(VmError::StackUnderflow)
            } else if i >= f.locals.len() {
                Err(VmError::OutOfRange)
            } else {
                Ok((
                    FrameView { locals: f.locals.update(i as int, s[n - 1]), stack: s.drop_last(), ..f },
                    next,
                    StepView::Continue,
                ))
            },
        }
    } else if is_int_op(op) || is_long_op(op) || is_float_op(op) {
        if n < 2 {
            Err(VmError::StackUnderflow)
        } else {
            let rest = s.subrange(0, n - 2);
            match (s[n - 2], s[n - 1]) {
                (Type::Int(a), Type::Int(b)) => if is_int_op(op) {
                    match int_op(op, a, b) {
                        Ok(v) => Ok((with_stack(f, rest.push(Type::Int(v))), pc + 1, StepView::Continue)),
                        Err(e) => Err(e),
                    }
                } else {
                    Err(VmError::TypeMismatch)
                },
                (Type::Long(a), Type::Long(b)) => if is_long_op(op) {
                    match long_op(op, a, b) {
                        Ok(v) => Ok((with_stack(f, rest.push(Type::Long(v))), pc + 1, StepView::Continue)),
                        Err(e) => Err(e),
                    }
                } else {
                    Err(VmError::TypeMismatch)
                },
                (Type::Float(a), Type::Float(b)) => if is_float_op(op) && op % 2 == 0 {
                    Ok((with_stack(f, rest), pc + 1, StepView::FloatOp(op, Type::Float(a), Type::Float(b))))
                } else {
                    Err(VmError::TypeMismatch)
                },
                (Type::Double(a), Type::Double(b)) => if is_float_op(op) && op % 2 == 1 {
                    Ok((with_stack(f, rest), pc + 1, StepView::FloatOp(op, Type::Double(a), Type::Double(b))))
                } else {
                    Err(VmError::TypeMismatch)
                },
                _ => Err(VmError::TypeMismatch),
            }
        }
    } else if op == I2F {
        if n == 0 {
            Err(VmError::StackUnderflow)
        } else {
            match s[n - 1] {
                Type::Int(x) => Ok((with_stack(f, s.drop_last()), pc + 1, StepView::IntToFloat(x))),
                _ => Err(VmError::TypeMismatch),
            }
        }
    } else if IFEQ <= op <= IFLE {
        if n == 0 {
            Err(VmError::StackUnderflow)
        } else {
            match s[n - 1] {
                Type::Int(x) => match branch_target(code, pc, cond1(op, x)) {
                    Ok(t) => Ok((with_stack(f, s.drop_last()), t, StepView::Continue)),
                    Err(e) => Err(e),
                },
                _ => Err(VmError::TypeMismatch),
            }
        }
    } else if IF_ICMPEQ <= op <= IF_ICMPLE {
        if n < 2 {
            Err(VmError::StackUnderflow)
        } else {
            match (s[n - 2], s[n - 1]) {
                (Type::Int(a), Type::Int(b)) => match branch_target(code, pc, cond2(op, a, b)) {
                    Ok(t) => Ok((with_stack(f, s.subrange(0, n - 2)), t, StepView::Continue)),
                    Err(e) => Err(e),
                },
                _ => Err(VmError::TypeMismatch),
            }
        }
    } else if op == GOTO {
        match branch_target(code, pc, true) {
            Ok(t) => Ok((f, t, StepView::Continue)),
            Err(e) => Err(e),
        }
    } else {
        Err(VmError::UnsupportedOpcode(op))
    }
}

/// A fault as the specification sees it: names are byte sequences.
pub ghost enum Fault {
    Plain(VmError),
    ClassNotFound(Seq<u8>),
    NativeNotFound(Seq<u8>),
}

/// The fault that an error reports.
pub open spec fn fault_of(e: VmError) -> Fault {
    match e {
        VmError::ClassNotFound(n) => Fault::ClassNotFound(n@),
        VmError::NativeNotFound(n) => Fault::NativeNotFound(n@),
        _ => Fault::Plain(e),
    }
}

/// The position of the class named `name` in the registry.
#[verifier::opaque]
pub open spec fn class_slot(reg: &Registry, name: Seq<u8>) -> Option<int> {
    if reg.has_class(name) {
        Some(choose|i: int| 0 <= i < reg.names@.len() && (#[trigger] reg.names@[i])@ == name)
    } else {
        None
    }
}

/// The key `<owner>.<name>:<descriptor>` of a native method.
pub open spec fn native_key(owner: Seq<u8>, name_and_type: Seq<u8>) -> Seq<u8> {
    owner + seq![46u8] + name_and_type
}

/// Whether a value has the type that a descriptor token names.
pub open spec fn param_accepts(p: u8, v: Type) -> bool {
    ||| p == 73u8 && v is Int
    ||| p == 74u8 && v is Long
    ||| p == 70u8 && v is Float
    ||| p == 68u8 && v is Double
}

pub open spec fn args_match(params: Seq<u8>, args: Seq<Type>) -> bool {
    params.len() == args.len() && forall|i: int| 0 <= i < params.len() ==> param_accepts(params[i], #[trigger] args[i])
}

/// Fresh locals for a callee: the arguments, then `Null` up to `max_locals`.
pub open spec fn callee_locals(args: Seq<Type>, max_locals: int) -> Seq<Type> {
    args + Seq::new((max_locals - args.len()) as nat, |i: int| Type::Null)
}

/// The method that an `INVOKESTATIC` names, resolved.
pub ghost struct Callee {
    pub owner: Seq<u8>,
    pub key: Seq<u8>,
    pub class_index: int,
    pub method_index: int,
    pub params: Seq<u8>,
}

/// The owner and `name:descriptor` key of the method reference that the
/// `u2` operand after `pc` names.
pub open spec fn method_ref_spec(code: Seq<u8>, pool: Seq<ConstantInfo>, pc: int) -> Result<(Seq<u8>, Seq<u8>), Fault> {
    match operand_u2(code, pc + 1) {
        None => Err(Fault::Plain(VmError::OutOfRange)),
        Some(idx) => match entry(pool, idx as int) {
            Some(ConstantInfo::MethodRef(mr)) => Ok((
                class_name_of(pool, mr.class_index as int),
                name_and_type_of(pool, mr.name_and_type_index as int),
            )),
            _ => Err(Fault::Plain(VmError::WrongConstantKind)),
        },
    }
}

/// The registered method `key` of the class `owner`, and its parameters.
pub open spec fn lookup_spec(reg: &Registry, owner: Seq<u8>, key: Seq<u8>) -> Result<Callee, Fault> {
    match class_slot(reg, owner) {
        None => Err(Fault::ClassNotFound(owner)),
        Some(ci) => match last_with_key(reg.classes@[ci].methods@, key) {
            None => Err(Fault::Plain(VmError::NoSuchMethod)),
            Some(mi) => match descriptor_params(reg.classes@[ci].methods@[mi].descriptor@) {
                Err(e) => Err(Fault::Plain(e)),
                Ok(params) => Ok(Callee { owner, key, class_index: ci, method_index: mi, params }),
            },
        },
    }
}

/// Resolves the method reference of `INVOKESTATIC` at the thread's pc: its
/// owner class, the method, and its parameter tokens.
pub open spec fn resolve_spec(reg: &Registry, t: ThreadView) -> Result<Callee, Fault> {
    let f = t.frames.last();
    match method_ref_spec(code_of(reg, f), pool_of(reg, f), t.pc) {
        Err(e) => Err(e),
        Ok((owner, key)) => lookup_spec(reg, owner, key),
    }
}

/// Pops the arguments of a resolved call, then hands them to the host for a
/// native method or pushes a frame for the callee.
pub open spec fn call_spec(reg: &Registry, t: ThreadView, c: Callee) -> Result<(ThreadView, StepView), Fault> {
    let f = t.frames.last();
    let m = reg.classes@[c.class_index].methods@[c.method_index];
    let s = f.stack;
    let k = c.params.len() as int;
    if s.len() < k {
        Err(Fault::Plain(VmError::StackUnderflow))
    } else if !args_match(c.params, s.subrange(s.len() - k, s.len() as int)) {
        Err(Fault::Plain(VmError::TypeMismatch))
    } else {
        let args = s.subrange(s.len() - k, s.len() as int);
        let caller = with_stack(f, s.subrange(0, s.len() - k));
        let frames = t.frames.update(t.frames.len() - 1, caller);
        if m.access_flags & ACC_NATIVE != 0 {
            let nk = native_key(c.owner, c.key);
            if !reg.has_native(nk) {
                Err(Fault::NativeNotFound(nk))
            } else {
                Ok((ThreadView { frames, pc: t.pc + 3 }, StepView::Native(nk, args)))
            }
        } else if k > m.max_locals {
            Err(Fault::Plain(VmError::OutOfRange))
        } else {
            let callee = FrameView {
                class_index: c.class_index,
                method_index: c.method_index,
                locals: callee_locals(args, m.max_locals as int),
                stack: seq![],
                return_address: t.pc + 3,
            };
            Ok((ThreadView { frames: frames.push(callee), pc: 0 }, StepView::Continue))
        }
    }
}

/// `INVOKESTATIC` at the thread's pc.
pub open spec fn invoke_spec(reg: &Registry, t: ThreadView) -> Result<(ThreadView, StepView), Fault> {
    match resolve_spec(reg, t) {
        Err(e) => Err(e),
        Ok(c) => call_spec(reg, t, c),
    }
}

pub open spec fn is_return(op: u8) -> bool {
    IRETURN <= op <= DRETURN || op == RETURN
}

/// Whether a value has the type that a typed return opcode expects.
pub open spec fn return_accepts(op: u8, v: Type) -> bool {
    if op == IRETURN {
        v is Int
    } else if op == LRETURN {
        v is Long
    } else if op == FRETURN {
        v is Float
    } else {
        v is Double
    }
}

/// A return opcode: pop the frame, then hand the value to the caller, or
/// finish when no caller is left.
pub open spec fn return_spec(t: ThreadView, op: u8) -> Result<(ThreadView, StepView), Fault> {
    let f = t.frames.last();
    let s = f.stack;
    if op != RETURN && s.len() == 0 {
        Err(Fault::Plain(VmError::StackUnderflow))
    } else if op != RETURN && !return_accepts(op, s.last()) {
        Err(Fault::Plain(VmError::TypeMismatch))
    } else {
        let v = if op == RETURN { Type::Void } else { s.last() };
        let rest = t.frames.drop_last();
        if rest.len() == 0 {
            Ok((ThreadView { frames: rest, pc: t.pc }, StepView::Done(v)))
        } else {
            let c = rest.last();
            let c2 = if op == RETURN { c } else { with_stack(c, c.stack.push(v)) };
            Ok((ThreadView { frames: rest.update(rest.len() - 1, c2), pc: f.return_address }, StepView::Continue))
        }
    }
}

/// One fetch-decode-execute step of a thread.
pub open spec fn step_spec(reg: &Registry, t: ThreadView) -> Result<(ThreadView, StepView), Fault> {
    let f = t.frames.last();
    let code = code_of(reg, f);
    if !(0 <= t.pc < code.len()) {
        Err(Fault::Plain(VmError::OutOfRange))
    } else {
        let op = code[t.pc];
        if is_return(op) {
            return_spec(t, op)
        } else if op == INVOKESTATIC {
            invoke_spec(reg, t)
        } else {
            match local_step(f, code, pool_of(reg, f), t.pc, op) {
                Ok((f2, pc2, o)) => Ok((ThreadView { frames: t.frames.update(t.frames.len() - 1, f2), pc: pc2 }, o)),
                Err(e) => Err(Fault::Plain(e)),
            }
        }
    }
}

/// The activation record of one invocation: which method runs, its locals,
/// its operand stack, and the caller's pc to resume at.
#[derive(Debug)]
pub struct Frame {
    pub class_index: usize,
    pub method_index: usize,
    pub locals: Vec<Type>,
    pub operand_stack: Vec<Type>,
    pub return_address: usize,
}

impl Frame {
    pub open spec fn view(&self) -> FrameView {
        FrameView {
            class_index: self.class_index as int,
            method_index: self.method_index as int,
            locals: self.locals@,
            stack: self.operand_stack@,
            return_address: self.return_address as int,
        }
    }

    /// A fresh frame for `method`: `max_locals` locals set to `Null`, an empty stack.
    pub fn from(class_index: usize, method_index: usize, method: &Method) -> (r: Frame)
        ensures
            r@ == (FrameView {
                class_index: class_index as int,
                method_index: method_index as int,
                locals: Seq::new(method.max_locals as nat, |i: int| Type::Null),
                stack: seq![],
                return_address: 0,
            }),
    {
        let mut locals: Vec<Type> = Vec::new();
        let mut i: usize = 0;
        while i < method.max_locals
            invariant
                i <= method.max_locals,
                locals@ == Seq::new(i as nat, |j: int| Type::Null),
            decreases method.max_locals - i,
        {
            locals.push(Type::Null);
            i = i + 1;
            assert(locals@ =~= Seq::new(i as nat, |j: int| Type::Null));
        }
        let operand_stack: Vec<Type> = Vec::with_capacity(method.max_stack);
        let r = Frame { class_index, method_index, locals, operand_stack, return_address: 0 };
        assert(r@.stack =~= seq![]);
        r
    }
}

/// What one step hands back to the host.
#[derive(Debug)]
pub enum Step {
    /// Nothing for the host to do.
    Continue,
    /// Call the native method registered under `key` with `args`, then hand
    /// its result to `Thread::push_result` unless it is `Void`.
    Native { key: Vec<u8>, args: Vec<Type> },
    /// Apply the floating-point opcode to the two operands, then hand the
    /// result to `Thread::push_result`.
    FloatOp { opcode: u8, lhs: Type, rhs: Type },
    /// Convert the integer to a single-precision float, then hand its bits to
    /// `Thread::push_result` as a `Float`.
    IntToFloat(i32),
    /// The outermost frame returned this value.
    Done(Type),
}

impl Step {
    pub open spec fn view(&self) -> StepView {
        match self {
            Step::Continue => StepView::Continue,
            Step::Native { key, args } => StepView::Native(key@, args@),
            Step::FloatOp { opcode, lhs, rhs } => StepView::FloatOp(*opcode, *lhs, *rhs),
            Step::IntToFloat(x) => StepView::IntToFloat(*x),
            Step::Done(v) => StepView::Done(*v),
        }
    }
}

/// Whether a frame names a method that exists in the registry.
pub open spec fn frame_ok(reg: &Registry, f: FrameView) -> bool {
    &&& 0 <= f.class_index < reg.classes@.len()
    &&& 0 <= f.method_index < reg.classes@[f.class_index].methods@.len()
}

/// A single logical thread: a stack of frames and the pc of the innermost.
#[derive(Debug)]
pub struct Thread {
    pub frame_stack: Vec<Frame>,
    pub pc: usize,
}

/// Reads the `u1` operand at `pc`.
fn read_u1(code: &Vec<u8>, pc: usize) -> (r: Option<u8>)
    ensures
        r == operand_u1(code@, pc as int),
{
    if pc < code.len() {
        Some(code[pc])
    } else {
        None
    }
}

/// Reads the big-endian `u2` operand at `pc`.
fn read_u2(code: &Vec<u8>, pc: usize) -> (r: Option<u16>)
    ensures
        r == operand_u2(code@, pc as int),
{
    if pc < code.len() && code.len() - pc > 1 {
        Some((code[pc] as u16) * 0x100 + code[pc + 1] as u16)
    } else {
        None
    }
}

/// The pc after a branch at `pc`.
fn branch_to(code: &Vec<u8>, pc: usize, taken: bool) -> (r: Result<usize, VmError>)
    requires
        code@.len() < 0x1_0000_0000,
        pc < code@.len(),
    ensures
        match branch_target(code@, pc as int, taken) {
            Ok(t) => r is Ok && r->Ok_0 == t,
            Err(e) => r == Err::<usize, VmError>(e),
        },
{
    match read_u2(code, pc + 1) {
        None => Err(VmError::OutOfRange),
        Some(off) => {
            if !taken {
                Ok(pc + 3)
            } else {
                let delta: i64 = if off >= 0x8000 { off as i64 - 0x10000 } else { off as i64 };
                let target: i64 = pc as i64 + delta;
                if target < 0 || target > code.len() as i64 {
                    Err(VmError::OutOfRange)
                } else {
                    Ok(target as usize)
                }
            }
        },
    }
}

/// The constant of an `xCONST_n` opcode.
fn const_of(op: u8) -> (r: Type)
    requires
        ICONST_M1 <= op <= DCONST_1,
    ensures
        r == const_value(op),
{
    if op <= ICONST_5 {
        Type::Int(op as i32 - 3)
    } else if op == LCONST_0 {
        Type::Long(0)
    } else if op == LCONST_1 {
        Type::Long(1)
    } else if op == FCONST_0 {
        Type::Float(0)
    } else if op == FCONST_1 {
        Type::Float(FLOAT_ONE_BITS)
    } else if op == FCONST_2 {
        Type::Float(FLOAT_TWO_BITS)
    } else if op == DCONST_0 {
        Type::Double(0)
    } else {
        Type::Double(DOUBLE_ONE_BITS)
    }
}

/// The result of an `int` arithmetic or bitwise opcode.
fn exec_int_op(op: u8, a: i32, b: i32) -> (r: Result<i32, VmError>)
    requires
        is_int_op(op),
    ensures
        r == int_op(op, a, b),
{
    if op == IADD {
        Ok(a.wrapping_add(b))
    } else if op == ISUB {
        Ok(a.wrapping_sub(b))
    } else if op == IMUL {
        Ok(a.wrapping_mul(b))
    } else if op == IAND {
        Ok(a & b)
    } else if op == IOR {
        Ok(a | b)
    } else if b == 0 {
        Err(VmError::DivisionByZero)
    } else if op == IDIV {
        Ok(int_div(a, b))
    } else {
        Ok(int_rem(a, b))
    }
}

/// The result of a `long` arithmetic or bitwise opcode.
fn exec_long_op(op: u8, a: i64, b: i64) -> (r: Result<i64, VmError>)
    requires
        is_long_op(op),
    ensures
        r == long_op(op, a, b),
{
    if op == LADD {
        Ok(a.wrapping_add(b))
    } else if op == LSUB {
        Ok(a.wrapping_sub(b))
    } else if op == LMUL {
        Ok(a.wrapping_mul(b))
    } else if op == LAND {
        Ok(a & b)
    } else if op == LOR {
        Ok(a | b)
    } else if b == 0 {
        Err(VmError::DivisionByZero)
    } else if op == LDIV {
        Ok(long_div(a, b))
    } else {
        Ok(long_rem(a, b))
    }
}

/// `r` and the frame after it are what `expected` says.
pub open spec fn local_matches(r: Result<(usize, Step), VmError>, f: FrameView, expected: LocalStep) -> bool {
    match expected {
        Ok((f2, pc2, o)) => r is Ok && f == f2 && r->Ok_0.0 == pc2 && r->Ok_0.1@ == o,
        Err(e) => r == Err::<(usize, Step), VmError>(e),
    }
}

/// `NOP`, the constant pushes, `LDC*` and the loads.
fn exec_push(f: &mut Frame, code: &Vec<u8>, pool: &ConstantPool, pc: usize, op: u8)
    -> (r: Result<(usize, Step), VmError>)
    requires
        code@.len() < 0x1_0000_0000,
        pc < code@.len(),
        op <= DLOAD_3,
    ensures
        local_matches(r, final(f)@, local_step(old(f)@, code@, pool@, pc as int, op)),
{
    if op == NOP {
        return Ok((pc + 1, Step::Continue));
    }
    let (v, next) = if ICONST_M1 <= op && op <= DCONST_1 {
        (const_of(op), pc + 1)
    } else if op == BIPUSH {
        match read_u1(code, pc + 1) {
            None => return Err(VmError::OutOfRange),
            Some(b) => {
                let x: i32 = if b >= 0x80 { b as i32 - 0x100 } else { b as i32 };
                (Type::Int(x), pc + 2)
            },
        }
    } else if op == SIPUSH {
        match read_u2(code, pc + 1) {
            None => return Err(VmError::OutOfRange),
            Some(u) => {
                let x: i32 = if u >= 0x8000 { u as i32 - 0x10000 } else { u as i32 };
                (Type::Int(x), pc + 3)
            },
        }
    } else if op == LDC {
        match read_u1(code, pc + 1) {
            None => return Err(VmError::OutOfRange),
            Some(i) => (pool.get(i as usize)?, pc + 2),
        }
    } else if op == LDC_W || op == LDC2_W {
        match read_u2(code, pc + 1) {
            None => return Err(VmError::OutOfRange),
            Some(i) => (pool.get(i as usize)?, pc + 3),
        }
    } else if ILOAD <= op && op <= DLOAD || ILOAD_0 <= op && op <= DLOAD_3 {
        let (idx, next) = if op <= DLOAD {
            match read_u1(code, pc + 1) {
                None => return Err(VmError::OutOfRange),
                Some(i) => (i, pc + 2),
            }
        } else {
            ((op - ILOAD_0) % 4, pc + 1)
        };
        if (idx as usize) < f.locals.len() {
            (f.locals[idx as usize], next)
        } else {
            return Err(VmError::OutOfRange);
        }
    } else {
        return Err(VmError::UnsupportedOpcode(op));
    };
    f.operand_stack.push(v);
    Ok((next, Step::Continue))
}

/// The stores.
fn exec_store(f: &mut Frame, code: &Vec<u8>, pc: usize, op: u8, pool: Ghost<Seq<ConstantInfo>>)
    -> (r: Result<(usize, Step), VmError>)
    requires
        code@.len() < 0x1_0000_0000,
        pc < code@.len(),
        ISTORE <= op <= DSTORE || ISTORE_0 <= op <= DSTORE_3,
    ensures
        local_matches(r, final(f)@, local_step(old(f)@, code@, pool@, pc as int, op)),
{
    let (idx, next) = if op <= DSTORE {
        match read_u1(code, pc + 1) {
            None => return Err(VmError::OutOfRange),
            Some(i) => (i, pc + 2),
        }
    } else {
        ((op - ISTORE_0) % 4, pc + 1)
    };
    if f.operand_stack.len() == 0 {
        return Err(VmError::StackUnderflow);
    }
    if idx as usize >= f.locals.len() {
        return Err(VmError::OutOfRange);
    }
    let v = f.operand_stack.pop().unwrap();
    f.locals.set(idx as usize, v);
    Ok((next, Step::Continue))
}

/// The arithmetic, bitwise and conversion opcodes.
fn exec_arith(f: &mut Frame, pc: usize, op: u8, code: Ghost<Seq<u8>>, pool: Ghost<Seq<ConstantInfo>>)
    -> (r: Result<(usize, Step), VmError>)
    requires
        pc < code@.len(),
        pc + 1 <= usize::MAX,
        is_int_op(op) || is_long_op(op) || is_float_op(op) || op == I2F,
    ensures
        local_matches(r, final(f)@, local_step(old(f)@, code@, pool@, pc as int, op)),
{
    if op == I2F {
        if f.operand_stack.len() == 0 {
            return Err(VmError::StackUnderflow);
        }
        let n = f.operand_stack.len();
        return match f.operand_stack[n - 1] {
            Type::Int(x) => {
                f.operand_stack.pop();
                Ok((pc + 1, Step::IntToFloat(x)))
            },
            _ => Err(VmError::TypeMismatch),
        };
    }
    let n = f.operand_stack.len();
    if n < 2 {
        return Err(VmError::StackUnderflow);
    }
    let a = f.operand_stack[n - 2];
    let b = f.operand_stack[n - 1];
    let ghost s = f.operand_stack@;
    let v = match (a, b) {
        (Type::Int(x), Type::Int(y)) => {
            if !(op == IADD || op == ISUB || op == IMUL || op == IDIV || op == IREM || op == IAND || op == IOR) {
                return Err(VmError::TypeMismatch);
            }
            Type::Int(exec_int_op(op, x, y)?)
        },
        (Type::Long(x), Type::Long(y)) => {
            if !(op == LADD || op == LSUB || op == LMUL || op == LDIV || op == LREM || op == LAND || op == LOR) {
                return Err(VmError::TypeMismatch);
            }
            Type::Long(exec_long_op(op, x, y)?)
        },
        (Type::Float(_), Type::Float(_)) => {
            if !(IADD <= op && op <= DREM && (op - IADD) % 4 >= 2 && op % 2 == 0) {
                return Err(VmError::TypeMismatch);
            }
            f.operand_stack.pop();
            f.operand_stack.pop();
            assert(f.operand_stack@ =~= s.subrange(0, n - 2));
            return Ok((pc + 1, Step::FloatOp { opcode: op, lhs: a, rhs: b }));
        },
        (Type::Double(_), Type::Double(_)) => {
            if !(IADD <= op && op <= DREM && (op - IADD) % 4 >= 2 && op % 2 == 1) {
                return Err(VmError::TypeMismatch);
            }
            f.operand_stack.pop();
            f.operand_stack.pop();
            assert(f.operand_stack@ =~= s.subrange(0, n - 2));
            return Ok((pc + 1, Step::FloatOp { opcode: op, lhs: a, rhs: b }));
        },
        _ => return Err(VmError::TypeMismatch),
    };
    f.operand_stack.pop();
    f.operand_stack.pop();
    assert(f.operand_stack@ =~= s.subrange(0, n - 2));
    f.operand_stack.push(v);
    Ok((pc + 1, Step::Continue))
}

/// The conditional branches and `GOTO`.
fn exec_branch(f: &mut Frame, code: &Vec<u8>, pc: usize, op: u8, pool: Ghost<Seq<ConstantInfo>>)
    -> (r: Result<(usize, Step), VmError>)
    requires
        code@.len() < 0x1_0000_0000,
        pc < code@.len(),
        IFEQ <= op <= IF_ICMPLE || op == GOTO,
    ensures
        local_matches(r, final(f)@, local_step(old(f)@, code@, pool@, pc as int, op)),
{
    if op == GOTO {
        let t = branch_to(code, pc, true)?;
        return Ok((t, Step::Continue));
    }
    let n = f.operand_stack.len();
    let ghost s = f.operand_stack@;
    if op <= IFLE {
        if n == 0 {
            return Err(VmError::StackUnderflow);
        }
        let x = match f.operand_stack[n - 1] {
            Type::Int(x) => x,
            _ => return Err(VmError::TypeMismatch),
        };
        let taken = if op == IFEQ {
            x == 0
        } else if op == IFNE {
            x != 0
        } else if op == IFLT {
            x < 0
        } else if op == IFGE {
            x >= 0
        } else if op == IFGT {
            x > 0
        } else {
            x <= 0
        };
        let t = branch_to(code, pc, taken)?;
        f.operand_stack.pop();
        Ok((t, Step::Continue))
    } else {
        if n < 2 {
            return Err(VmError::StackUnderflow);
        }
        let (a, b) = match (f.operand_stack[n - 2], f.operand_stack[n - 1]) {
            (Type::Int(a), Type::Int(b)) => (a, b),
            _ => return Err(VmError::TypeMismatch),
        };
        let taken = if op == IF_ICMPEQ {
            a == b
        } else if op == IF_ICMPNE {
            a != b
        } else if op == IF_ICMPLT {
            a < b
        } else if op == IF_ICMPGE {
            a >= b
        } else if op == IF_ICMPGT {
            a > b
        } else {
            a <= b
        };
        let t = branch_to(code, pc, taken)?;
        f.operand_stack.pop();
        f.operand_stack.pop();
        assert(f.operand_stack@ =~= s.subrange(0, n - 2));
        Ok((t, Step::Continue))
    }
}

/// One step of an instruction that stays inside the innermost frame.
fn exec_local(f: &mut Frame, code: &Vec<u8>, pool: &ConstantPool, pc: usize, op: u8)
    -> (r: Result<(usize, Step), VmError>)
    requires
        code@.len() < 0x1_0000_0000,
        pc < code@.len(),
    ensures
        local_matches(r, final(f)@, local_step(old(f)@, code@, pool@, pc as int, op)),
{
    if op <= DLOAD_3 {
        exec_push(f, code, pool, pc, op)
    } else if ISTORE <= op && op <= DSTORE || ISTORE_0 <= op && op <= DSTORE_3 {
        exec_store(f, code, pc, op, Ghost(pool@))
    } else if IADD <= op && op <= DREM || op == IAND || op == LAND || op == IOR || op == LOR || op == I2F {
        exec_arith(f, pc, op, Ghost(code@), Ghost(pool@))
    } else if IFEQ <= op && op <= IF_ICMPLE || op == GOTO {
        exec_branch(f, code, pc, op, Ghost(pool@))
    } else {
        Err(VmError::UnsupportedOpcode(op))
    }
}

/// The class slot of a registered name is its position.
proof fn lemma_class_slot(reg: &Registry, name: Seq<u8>, i: int)
    requires
        reg.wf(),
        0 <= i < reg.names@.len(),
        reg.names@[i]@ == name,
    ensures
        class_slot(reg, name) == Some(i),
{
    reveal(class_slot);
    assert(reg.has_class(name));
    let c = choose|c: int| 0 <= c < reg.names@.len() && (#[trigger] reg.names@[c])@ == name;
    if c < i {
        assert(reg.names@[c]@ != reg.names@[i]@);
    } else if c > i {
        assert(reg.names@[i]@ != reg.names@[c]@);
    }
}

/// The last method with a key is the one that no later method shares it with.
proof fn lemma_last_with_key(ms: Seq<Method>, key: Seq<u8>, i: int)
    requires
        0 <= i < ms.len(),
        ms[i].key() == key,
        forall|j: int| i < j < ms.len() ==> (#[trigger] ms[j]).key() != key,
    ensures
        last_with_key(ms, key) == Some(i),
{
    reveal(last_with_key);
    assert(exists|k: int| 0 <= k < ms.len() && (#[trigger] ms[k]).key() == key);
    let c = choose|c: int| 0 <= c < ms.len() && (#[trigger] ms[c]).key() == key
        && forall|j: int| c < j < ms.len() ==> (#[trigger] ms[j]).key() != key;
    assert(0 <= c < ms.len() && ms[c].key() == key);
    if c < i {
        assert(ms[i].key() != key);
    } else if c > i {
        assert(ms[c].key() != key);
    }
}

/// Pops the arguments that `params` describe: the topmost value is the last
/// argument, so the arguments come out in descriptor order.
pub fn pop_args(f: &mut Frame, params: &Vec<u8>) -> (r: Result<Vec<Type>, VmError>)
    ensures
        old(f)@.stack.len() < params@.len() ==> r == Err::<Vec<Type>, VmError>(VmError::StackUnderflow),
        old(f)@.stack.len() >= params@.len() ==> {
            let s = old(f)@.stack;
            let k = params@.len() as int;
            let args = s.subrange(s.len() - k, s.len() as int);
            &&& !args_match(params@, args) ==> r == Err::<Vec<Type>, VmError>(VmError::TypeMismatch)
            &&& args_match(params@, args) ==> r is Ok && r->Ok_0@ == args
                && final(f)@ == with_stack(old(f)@, s.subrange(0, s.len() - k))
        },
{
    let n = f.operand_stack.len();
    let k = params.len();
    if n < k {
        return Err(VmError::StackUnderflow);
    }
    let ghost s = f.operand_stack@;
    let mut args: Vec<Type> = Vec::new();
    let mut i: usize = 0;
    while i < k
        invariant
            n == f.operand_stack@.len(),
            f.operand_stack@ == s,
            k == params@.len(),
            k <= n,
            i <= k,
            args@ == s.subrange(n - k, n - k + i),
            forall|j: int| 0 <= j < i ==> param_accepts(params@[j], #[trigger] s[n - k + j]),
        decreases k - i,
    {
        let v = f.operand_stack[n - k + i];
        let p = params[i];
        let ok = match v {
            Type::Int(_) => p == 73u8,
            Type::Long(_) => p == 74u8,
            Type::Float(_) => p == 70u8,
            Type::Double(_) => p == 68u8,
            _ => false,
        };
        if !ok {
            proof {
                assert(!param_accepts(params@[i as int], s.subrange(n - k, n as int)[i as int]));
            }
            return Err(VmError::TypeMismatch);
        }
        args.push(v);
        i = i + 1;
        assert(args@ =~= s.subrange(n - k, n - k + i));
    }
    assert(args_match(params@, s.subrange(n - k, n as int))) by {
        assert forall|j: int| 0 <= j < params@.len()
            implies param_accepts(params@[j], #[trigger] s.subrange(n - k, n as int)[j]) by {
            assert(s.subrange(n - k, n as int)[j] == s[n - k + j]);
        }
    }
    assert(args@ =~= s.subrange(n - k, n as int));
    f.operand_stack.truncate(n - k);
    assert(f.operand_stack@ =~= s.subrange(0, n - k));
    Ok(args)
}

impl Thread {
    pub open spec fn view(&self) -> ThreadView {
        ThreadView { frames: self.frame_stack@.map_values(|f: Frame| f@), pc: self.pc as int }
    }

    /// The registry is consistent, the thread is running, and every frame
    /// names a method of the registry.
    pub open spec fn wf(&self, reg: &Registry) -> bool {
        &&& reg.wf()
        &&& self.frame_stack@.len() > 0
        &&& forall|i: int| 0 <= i < self.frame_stack@.len() ==> frame_ok(reg, (#[trigger] self.frame_stack@[i])@)
    }

    /// A thread about to run the method `name_and_type` of the class
    /// `class_name`, with fresh locals and no arguments.
    pub fn new(class_name: &[u8], name_and_type: &[u8], registry: &Registry) -> (r: Result<Thread, VmError>)
        requires
            registry.wf(),
        ensures
            !registry.has_class(class_name@) ==> r is Err && r->Err_0 is ClassNotFound
                && r->Err_0->ClassNotFound_0@ == class_name@,
            registry.has_class(class_name@) ==> {
                let ci = class_slot(registry, class_name@)->0;
                let ms = registry.classes@[ci].methods@;
                match last_with_key(ms, name_and_type@) {
                    None => r == Err::<Thread, VmError>(VmError::NoSuchMethod),
                    Some(mi) => r is Ok && r->Ok_0.wf(registry) && r->Ok_0@ == (ThreadView {
                        frames: seq![FrameView {
                            class_index: ci,
                            method_index: mi,
                            locals: Seq::new(ms[mi].max_locals as nat, |i: int| Type::Null),
                            stack: seq![],
                            return_address: 0,
                        }],
                        pc: 0,
                    }),
                }
            },
    {
        let ci = find_class(registry, &crate::constant_pool::copy_bytes(class_name))?;
        let class = &registry.classes[ci];
        let mi = find_method(registry, ci, &crate::constant_pool::copy_bytes(name_and_type))?;
        let frame = Frame::from(ci, mi, &class.methods[mi]);
        let mut frame_stack: Vec<Frame> = Vec::new();
        frame_stack.push(frame);
        let t = Thread { frame_stack, pc: 0 };
        assert(t@.frames =~= seq![frame@]);
        Ok(t)
    }

    /// `r` and the thread after it are what `step_spec` says.
    pub open spec fn step_matches(&self, r: Result<Step, VmError>, expected: Result<(ThreadView, StepView), Fault>) -> bool {
        match expected {
            Ok((t2, o)) => r is Ok && self@ == t2 && r->Ok_0@ == o,
            Err(e) => r is Err && fault_of(r->Err_0) == e,
        }
    }

    /// Runs one instruction of the innermost frame.
    pub fn step(&mut self, reg: &Registry) -> (r: Result<Step, VmError>)
        requires
            old(self).wf(reg),
        ensures
            final(self).step_matches(r, step_spec(reg, old(self)@)),
            r is Ok && !(r->Ok_0 is Done) ==> final(self).wf(reg),
    {
        let last = self.frame_stack.len() - 1;
        let ci = self.frame_stack[last].class_index;
        let mi = self.frame_stack[last].method_index;
        assert(frame_ok(reg, self.frame_stack@[last as int]@));
        let class = &reg.classes[ci];
        assert(class.wf());
        let code = &class.methods[mi].code;
        assert(method_sizes_ok(class.methods@[mi as int]));
        let pc = self.pc;
        if pc >= code.len() {
            return Err(VmError::OutOfRange);
        }
        let op = code[pc];
        if IRETURN <= op && op <= DRETURN || op == RETURN {
            self.exec_return(op, Ghost(reg))
        } else if op == INVOKESTATIC {
            assert(code@ == code_of(reg, self@.frames.last()));
            self.exec_invoke(reg)
        } else {
            let ghost old_frames = self.frame_stack@;
            let mut f = self.frame_stack.pop().unwrap();
            let res = exec_local(&mut f, code, &class.constant_pool, pc, op);
            let ghost f_view = f@;
            self.frame_stack.push(f);
            proof {
                assert(self.frame_stack@ == old_frames.update(last as int, f));
                assert(self@.frames =~= old(self)@.frames.update(last as int, f_view));
            }
            match res {
                Ok((next, o)) => {
                    self.pc = next;
                    Ok(o)
                },
                Err(e) => Err(e),
            }
        }
    }

    /// A return opcode.
    fn exec_return(&mut self, op: u8, reg: Ghost<&Registry>) -> (r: Result<Step, VmError>)
        requires
            old(self).wf(reg@),
            is_return(op),
        ensures
            final(self).step_matches(r, return_spec(old(self)@, op)),
            r is Ok && !(r->Ok_0 is Done) ==> final(self).wf(reg@),
    {
        let ghost t = self@;
        let f = self.frame_stack.pop().unwrap();
        assert(f@ == t.frames.last());
        let n = f.operand_stack.len();
        let v = if op == RETURN {
            Type::Void
        } else {
            if n == 0 {
                return Err(VmError::StackUnderflow);
            }
            let v = f.operand_stack[n - 1];
            let ok = match v {
                Type::Int(_) => op == IRETURN,
                Type::Long(_) => op == LRETURN,
                Type::Float(_) => op == FRETURN,
                Type::Double(_) => op == DRETURN,
                _ => false,
            };
            if !ok {
                return Err(VmError::TypeMismatch);
            }
            v
        };
        assert(self@.frames =~= t.frames.drop_last());
        if self.frame_stack.len() == 0 {
            return Ok(Step::Done(v));
        }
        let ghost rest = self.frame_stack@;
        let mut c = self.frame_stack.pop().unwrap();
        if op != RETURN {
            c.operand_stack.push(v);
        }
        let ghost c_view = c@;
        self.frame_stack.push(c);
        self.pc = f.return_address;
        proof {
            assert(self.frame_stack@ == rest.update(rest.len() - 1, c));
            assert(self@.frames =~= t.frames.drop_last().update(rest.len() - 1, c_view));
            assert forall|i: int| 0 <= i < self.frame_stack@.len()
                implies frame_ok(reg@, (#[trigger] self.frame_stack@[i])@) by {
                assert(frame_ok(reg@, old(self).frame_stack@[i]@));
            }
        }
        Ok(Step::Continue)
    }

    /// Resolves the method that `INVOKESTATIC` at the pc names.
    fn resolve(&self, reg: &Registry) -> (r: Result<(Vec<u8>, Vec<u8>, usize, usize, Vec<u8>), VmError>)
        requires
            self.wf(reg),
            0 <= self@.pc < code_of(reg, self@.frames.last()).len(),
        ensures
            match resolve_spec(reg, self@) {
                Ok(c) => r is Ok && r->Ok_0.0@ == c.owner && r->Ok_0.1@ == c.key
                    && r->Ok_0.2 == c.class_index && r->Ok_0.3 == c.method_index
                    && r->Ok_0.4@ == c.params,
                Err(e) => r is Err && fault_of(r->Err_0) == e,
            },
            r is Ok ==> r->Ok_0.2 < reg.classes@.len()
                && r->Ok_0.3 < reg.classes@[r->Ok_0.2 as int].methods@.len(),
    {
        let last = self.frame_stack.len() - 1;
        let ci = self.frame_stack[last].class_index;
        let mi = self.frame_stack[last].method_index;
        assert(frame_ok(reg, self.frame_stack@[last as int]@));
        assert(self@.frames.last() == self.frame_stack@[last as int]@);
        let class = &reg.classes[ci];
        assert(class.wf());
        let code = &class.methods[mi].code;
        assert(method_sizes_ok(class.methods@[mi as int]));
        let (owner, key) = method_ref_at(code, &class.constant_pool, self.pc)?;
        let (ti, tm, params) = lookup(reg, &owner, &key)?;
        Ok((owner, key, ti, tm, params))
    }

    /// `INVOKESTATIC`.
    fn exec_invoke(&mut self, reg: &Registry) -> (r: Result<Step, VmError>)
        requires
            old(self).wf(reg),
            0 <= old(self)@.pc < code_of(reg, old(self)@.frames.last()).len(),
            code_of(reg, old(self)@.frames.last()).len() < 0x1_0000_0000,
        ensures
            final(self).step_matches(r, invoke_spec(reg, old(self)@)),
            r is Ok ==> final(self).wf(reg),
    {
        let (owner, key, ti, tm, params) = self.resolve(reg)?;
        let ghost c = resolve_spec(reg, self@)->Ok_0;
        self.exec_call(reg, owner, key, ti, tm, params, Ghost(c))
    }

    /// The call part of `INVOKESTATIC`, once the callee is resolved.
    fn exec_call(
        &mut self,
        reg: &Registry,
        owner: Vec<u8>,
        key: Vec<u8>,
        ti: usize,
        tm: usize,
        params: Vec<u8>,
        c: Ghost<Callee>,
    ) -> (r: Result<Step, VmError>)
        requires
            old(self).wf(reg),
            0 <= old(self)@.pc,
            old(self)@.pc + 3 < 0x1_0000_0000,
            owner@ == c@.owner,
            key@ == c@.key,
            ti == c@.class_index,
            tm == c@.method_index,
            params@ == c@.params,
            0 <= ti < reg.classes@.len(),
            0 <= tm < reg.classes@[ti as int].methods@.len(),
        ensures
            final(self).step_matches(r, call_spec(reg, old(self)@, c@)),
            r is Ok ==> final(self).wf(reg),
    {
        let ghost t = self@;
        let last = self.frame_stack.len() - 1;
        let pc = self.pc;
        let m = &reg.classes[ti].methods[tm];
        let ghost old_frames = self.frame_stack@;
        let mut f = self.frame_stack.pop().unwrap();
        assert(f@ == t.frames.last());
        let args = pop_args(&mut f, &params)?;
        let ghost f_view = f@;
        if m.is_native() {
            let mut nk: Vec<u8> = Vec::new();
            append_bytes(&mut nk, owner.as_slice());
            nk.push(46u8);
            append_bytes(&mut nk, key.as_slice());
            assert(nk@ =~= native_key(owner@, key@));
            if !reg.native_method(nk.as_slice()) {
                return Err(VmError::NativeNotFound(nk));
            }
            self.frame_stack.push(f);
            self.pc = pc + 3;
            proof {
                assert(self.frame_stack@ == old_frames.update(last as int, f));
                assert(self@.frames =~= t.frames.update(last as int, f_view));
                assert forall|i: int| 0 <= i < self.frame_stack@.len()
                    implies frame_ok(reg, (#[trigger] self.frame_stack@[i])@) by {
                    assert(frame_ok(reg, old(self).frame_stack@[i]@));
                }
            }
            Ok(Step::Native { key: nk, args })
        } else {
            let k = args.len();
            if k > m.max_locals {
                return Err(VmError::OutOfRange);
            }
            let mut callee = Frame::from(ti, tm, m);
            let mut i: usize = 0;
            while i < k
                invariant
                    k == args@.len(),
                    k <= m.max_locals,
                    i <= k,
                    callee.class_index == ti,
                    callee.method_index == tm,
                    callee.return_address == 0,
                    callee.operand_stack@ == Seq::<Type>::empty(),
                    callee.locals@ == args@.subrange(0, i as int)
                        + Seq::new((m.max_locals - i) as nat, |j: int| Type::Null),
                decreases k - i,
            {
                callee.locals.set(i, args[i]);
                i = i + 1;
                assert(callee.locals@ =~= args@.subrange(0, i as int)
                    + Seq::new((m.max_locals - i) as nat, |j: int| Type::Null));
            }
            callee.return_address = pc + 3;
            let ghost callee_view = callee@;
            assert(args@.subrange(0, k as int) =~= args@);
            assert(callee_view.locals =~= callee_locals(args@, m.max_locals as int));
            self.frame_stack.push(f);
            self.frame_stack.push(callee);
            self.pc = 0;
            proof {
                assert(self@.frames =~= t.frames.update(last as int, f_view).push(callee_view));
                assert forall|i: int| 0 <= i < self.frame_stack@.len()
                    implies frame_ok(reg, (#[trigger] self.frame_stack@[i])@) by {
                    if i < last {
                        assert(frame_ok(reg, old(self).frame_stack@[i]@));
                    }
                }
            }
            Ok(Step::Continue)
        }
    }

    /// Hands the host's result of a `Native`, `FloatOp` or `IntToFloat` step
    /// to the innermost frame; `Void` pushes nothing.
    pub fn push_result(&mut self, v: Type)
        requires
            old(self).frame_stack@.len() > 0,
        ensures
            final(self).pc == old(self).pc,
            final(self)@.frames == old(self)@.frames.update(
                old(self)@.frames.len() - 1,
                if v is Void {
                    old(self)@.frames.last()
                } else {
                    with_stack(old(self)@.frames.last(), old(self)@.frames.last().stack.push(v))
                },
            ),
            forall|i: int| 0 <= i < final(self).frame_stack@.len() ==> {
                &&& #[trigger] final(self).frame_stack@[i].class_index == old(self).frame_stack@[i].class_index
                &&& final(self).frame_stack@[i].method_index == old(self).frame_stack@[i].method_index
            },
            final(self).frame_stack@.len() == old(self).frame_stack@.len(),
    {
        let ghost t = self@;
        let ghost old_frames = self.frame_stack@;
        let last = self.frame_stack.len() - 1;
        let mut f = self.frame_stack.pop().unwrap();
        if !matches!(v, Type::Void) {
            f.operand_stack.push(v);
        }
        let ghost f_view = f@;
        self.frame_stack.push(f);
        proof {
            assert(self.frame_stack@ == old_frames.update(last as int, f));
            assert(self@.frames =~= t.frames.update(last as int, f_view));
        }
    }
}

/// The owner and key of the method reference after `pc`.
fn method_ref_at(code: &Vec<u8>, pool: &ConstantPool, pc: usize) -> (r: Result<(Vec<u8>, Vec<u8>), VmError>)
    requires
        pool.wf(),
        pc < code@.len(),
        code@.len() < 0x1_0000_0000,
    ensures
        match method_ref_spec(code@, pool@, pc as int) {
            Ok((o, k)) => r is Ok && r->Ok_0.0@ == o && r->Ok_0.1@ == k,
            Err(e) => r is Err && fault_of(r->Err_0) == e,
        },
{
    let idx = match read_u2(code, pc + 1) {
        Some(i) => i,
        None => return Err(VmError::OutOfRange),
    };
    pool.method_ref(idx)
}

/// The registered method `key` of the class `owner`, and its parameters.
fn lookup(reg: &Registry, owner: &Vec<u8>, key: &Vec<u8>) -> (r: Result<(usize, usize, Vec<u8>), VmError>)
    requires
        reg.wf(),
    ensures
        match lookup_spec(reg, owner@, key@) {
            Ok(c) => r is Ok && r->Ok_0.0 == c.class_index && r->Ok_0.1 == c.method_index
                && r->Ok_0.2@ == c.params && c.owner == owner@ && c.key == key@,
            Err(e) => r is Err && fault_of(r->Err_0) == e,
        },
        r is Ok ==> r->Ok_0.0 < reg.classes@.len()
            && r->Ok_0.1 < reg.classes@[r->Ok_0.0 as int].methods@.len(),
{
    let ti = match find_class(reg, owner) {
        Ok(i) => i,
        Err(e) => return Err(e),
    };
    let tm = match find_method(reg, ti, key) {
        Ok(i) => i,
        Err(e) => return Err(e),
    };
    let ghost m = reg.classes@[ti as int].methods@[tm as int];
    let params = match parse_params(reg.classes[ti].methods[tm].descriptor.as_slice()) {
        Ok(p) => p,
        Err(e) => return Err(e),
    };
    Ok((ti, tm, params))
}

/// The position of the class `owner` in the registry.
fn find_class(reg: &Registry, owner: &Vec<u8>) -> (r: Result<usize, VmError>)
    requires
        reg.wf(),
    ensures
        match class_slot(reg, owner@) {
            Some(ci) => r is Ok && r->Ok_0 == ci && 0 <= ci < reg.classes@.len(),
            None => r is Err && fault_of(r->Err_0) == Fault::ClassNotFound(owner@),
        },
        r is Ok <==> reg.has_class(owner@),
        r is Err ==> r->Err_0 is ClassNotFound && r->Err_0->ClassNotFound_0@ == owner@,
{
    match reg.index_of(owner.as_slice()) {
        Some(i) => {
            proof { lemma_class_slot(reg, owner@, i as int); }
            assert(reg.has_class(owner@));
            Ok(i)
        },
        None => {
            proof { reveal(class_slot); }
            Err(VmError::ClassNotFound(crate::constant_pool::copy_bytes(owner.as_slice())))
        },
    }
}

/// The position of the method `key` in the class at `ti`.
fn find_method(reg: &Registry, ti: usize, key: &Vec<u8>) -> (r: Result<usize, VmError>)
    requires
        ti < reg.classes@.len(),
    ensures
        match last_with_key(reg.classes@[ti as int].methods@, key@) {
            Some(mi) => r is Ok && r->Ok_0 == mi
                && 0 <= mi < reg.classes@[ti as int].methods@.len(),
            None => r == Err::<usize, VmError>(VmError::NoSuchMethod),
        },
{
    let target = &reg.classes[ti];
    match target.method_index(key.as_slice()) {
        Some(i) => {
            proof { lemma_last_with_key(target.methods@, key@, i as int); }
            Ok(i)
        },
        None => {
            proof { reveal(last_with_key); }
            Err(VmError::NoSuchMethod)
        },
    }
}

/// Up to `n` steps from `t`, stopping at the first outcome other than
/// `Continue` or the first fault; after `n` steps of `Continue` the outcome
/// is `Continue`.
pub open spec fn run_spec(reg: &Registry, t: ThreadView, n: nat) -> Result<(ThreadView, StepView), Fault>
    decreases n,
{
    if n == 0 {
        Ok((t, StepView::Continue))
    } else {
        match step_spec(reg, t) {
            Err(e) => Err(e),
            Ok((t2, StepView::Continue)) => run_spec(reg, t2, (n - 1) as nat),
            Ok((t2, o)) => Ok((t2, o)),
        }
    }
}

impl Thread {
    /// Steps until the host has work to do, the program ends, a fault
    /// occurs, or `max_steps` steps have run.
    pub fn run(&mut self, reg: &Registry, max_steps: u64) -> (r: Result<Step, VmError>)
        requires
            old(self).wf(reg),
        ensures
            final(self).step_matches(r, run_spec(reg, old(self)@, max_steps as nat)),
            r is Ok && !(r->Ok_0 is Done) ==> final(self).wf(reg),
    {
        let mut left: u64 = max_steps;
        while left > 0
            invariant
                self.wf(reg),
                run_spec(reg, old(self)@, max_steps as nat) == run_spec(reg, self@, left as nat),
            decreases left,
        {
            let o = self.step(reg)?;
            left = left - 1;
            match o {
                Step::Continue => {},
                _ => return Ok(o),
            }
        }
        Ok(Step::Continue)
    }
}

} // verus!
