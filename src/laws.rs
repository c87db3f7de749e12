//! Properties that relate several operations of the machine, proved over
//! the specification of one interpreter step.
use vstd::prelude::*;
use vstd::arithmetic::div_mod::lemma_fundamental_div_mod;
use crate::class::Class;
use crate::class_file::{is_wide, wide_ok_at};
use crate::constant_pool::{reference_ok_at, reference_ok};
use crate::descriptor::{descriptor_params, scan_params};
use crate::registry::Registry;
use crate::thread::{ThreadView, StepView, Fault, Callee, step_spec, resolve_spec, call_spec, return_spec, local_step, pool_of, is_return, code_of, with_stack, int_op, long_op, operand_u2, signed16, IADD, ISUB, IMUL, LADD, LSUB, LMUL, GOTO, RETURN, INVOKESTATIC};
use crate::value::Type;

verus! {

/// `r` is `x` reduced modulo `m`: they differ by a multiple of `m`.
pub open spec fn wraps_to(r: int, x: int, m: int) -> bool {
    exists|k: int| r == x + #[trigger] (k * m)
}

/// The exact result of an integer opcode before it wraps.
pub open spec fn exact_int_result(op: u8, a: int, b: int) -> int {
    if op == IADD || op == LADD {
        a + b
    } else if op == ISUB || op == LSUB {
        a - b
    } else {
        a * b
    }
}

/// In a linked class, every wide constant is followed by the filler slot,
/// and every index held by a reference constant names an entry of the kind
/// it expects.
pub proof fn lemma_pool_alignment(c: &Class, i: int)
    requires
        c.wf(),
        0 <= i < c.constant_pool@.len(),
    ensures
        is_wide(c.constant_pool@[i]) ==> i + 1 < c.constant_pool@.len()
            && c.constant_pool@[i + 1] is Unusable,
        reference_ok(c.constant_pool@, c.constant_pool@[i]),
{
    assert(wide_ok_at(c.constant_pool@, i));
    assert(reference_ok_at(c.constant_pool@, i));
}

/// The state of `t` with the innermost frame's stack replaced and a new pc.
pub open spec fn with_top_stack(t: ThreadView, s: Seq<Type>, pc: int) -> ThreadView {
    ThreadView { frames: t.frames.update(t.frames.len() - 1, with_stack(t.frames.last(), s)), pc }
}

/// Whether `t` is about to execute `op`.
pub open spec fn at_op(reg: &Registry, t: ThreadView, op: u8) -> bool {
    &&& t.frames.len() > 0
    &&& 0 <= t.pc < code_of(reg, t.frames.last()).len()
    &&& code_of(reg, t.frames.last())[t.pc] == op
}

proof fn lemma_wrapping_i32(op: u8, a: i32, b: i32)
    requires
        op == IADD || op == ISUB || op == IMUL,
    ensures
        int_op(op, a, b) is Ok,
        wraps_to(int_op(op, a, b)->Ok_0 as int, exact_int_result(op, a as int, b as int), 0x1_0000_0000),
{
    let x = exact_int_result(op, a as int, b as int);
    let r = int_op(op, a, b)->Ok_0 as int;
    let m: int = 0x1_0000_0000;
    if op == IMUL {
        lemma_fundamental_div_mod(x, m);
        if x % m > i32::MAX {
            assert(r == x + (-(x / m) - 1) * m) by (nonlinear_arith)
                requires r == x % m - m, x == m * (x / m) + x % m;
        } else {
            assert(r == x + (-(x / m)) * m) by (nonlinear_arith)
                requires r == x % m, x == m * (x / m) + x % m;
        }
    } else if x > i32::MAX {
        assert(r == x + (-1) * m);
    } else if x < i32::MIN {
        assert(r == x + 1 * m);
    } else {
        assert(r == x + 0 * m);
    }
}

proof fn lemma_wrapping_i64(op: u8, a: i64, b: i64)
    requires
        op == LADD || op == LSUB || op == LMUL,
    ensures
        long_op(op, a, b) is Ok,
        wraps_to(long_op(op, a, b)->Ok_0 as int, exact_int_result(op, a as int, b as int), 0x1_0000_0000_0000_0000),
{
    let x = exact_int_result(op, a as int, b as int);
    let r = long_op(op, a, b)->Ok_0 as int;
    let m: int = 0x1_0000_0000_0000_0000;
    if op == LMUL {
        lemma_fundamental_div_mod(x, m);
        if x % m > i64::MAX {
            assert(r == x + (-(x / m) - 1) * m) by (nonlinear_arith)
                requires r == x % m - m, x == m * (x / m) + x % m;
        } else {
            assert(r == x + (-(x / m)) * m) by (nonlinear_arith)
                requires r == x % m, x == m * (x / m) + x % m;
        }
    } else if x > i64::MAX {
        assert(r == x + (-1) * m);
    } else if x < i64::MIN {
        assert(r == x + 1 * m);
    } else {
        assert(r == x + 0 * m);
    }
}

/// `IADD`, `ISUB`, `IMUL` on `Int(a)`, `Int(b)` on top of the stack replace
/// them with the `Int` that is the exact result reduced modulo 2^32.
pub proof fn lemma_int_arithmetic(reg: &Registry, t: ThreadView, op: u8, a: i32, b: i32)
    requires
        op == IADD || op == ISUB || op == IMUL,
        at_op(reg, t, op),
        t.frames.last().stack.len() >= 2,
        t.frames.last().stack[t.frames.last().stack.len() - 2] == Type::Int(a),
        t.frames.last().stack.last() == Type::Int(b),
    ensures
        ({
            let s = t.frames.last().stack;
            exists|r: i32| {
                &&& step_spec(reg, t) == Ok::<(ThreadView, StepView), Fault>((
                    with_top_stack(t, s.subrange(0, s.len() - 2).push(Type::Int(r)), t.pc + 1),
                    StepView::Continue,
                ))
                &&& wraps_to(r as int, exact_int_result(op, a as int, b as int), 0x1_0000_0000)
            }
        }),
{
    lemma_wrapping_i32(op, a, b);
    let r = int_op(op, a, b)->Ok_0;
    let s = t.frames.last().stack;
    assert(step_spec(reg, t) == Ok::<(ThreadView, StepView), Fault>((
        with_top_stack(t, s.subrange(0, s.len() - 2).push(Type::Int(r)), t.pc + 1),
        StepView::Continue,
    )));
}

/// `LADD`, `LSUB`, `LMUL` on `Long(a)`, `Long(b)` on top of the stack
/// replace them with the `Long` that is the exact result reduced modulo 2^64.
pub proof fn lemma_long_arithmetic(reg: &Registry, t: ThreadView, op: u8, a: i64, b: i64)
    requires
        op == LADD || op == LSUB || op == LMUL,
        at_op(reg, t, op),
        t.frames.last().stack.len() >= 2,
        t.frames.last().stack[t.frames.last().stack.len() - 2] == Type::Long(a),
        t.frames.last().stack.last() == Type::Long(b),
    ensures
        ({
            let s = t.frames.last().stack;
            exists|r: i64| {
                &&& step_spec(reg, t) == Ok::<(ThreadView, StepView), Fault>((
                    with_top_stack(t, s.subrange(0, s.len() - 2).push(Type::Long(r)), t.pc + 1),
                    StepView::Continue,
                ))
                &&& wraps_to(r as int, exact_int_result(op, a as int, b as int), 0x1_0000_0000_0000_0000)
            }
        }),
{
    lemma_wrapping_i64(op, a, b);
    let r = long_op(op, a, b)->Ok_0;
    let s = t.frames.last().stack;
    assert(step_spec(reg, t) == Ok::<(ThreadView, StepView), Fault>((
        with_top_stack(t, s.subrange(0, s.len() - 2).push(Type::Long(r)), t.pc + 1),
        StepView::Continue,
    )));
}

/// `GOTO` sets the pc to its own pc plus the signed offset: with offset 0
/// the step leaves the whole state as it was, so the machine loops in place.
pub proof fn lemma_goto(reg: &Registry, t: ThreadView)
    requires
        at_op(reg, t, GOTO),
        operand_u2(code_of(reg, t.frames.last()), t.pc + 1) is Some,
        0 <= t.pc + signed16(operand_u2(code_of(reg, t.frames.last()), t.pc + 1)->0)
            <= code_of(reg, t.frames.last()).len(),
    ensures
        ({
            let target = t.pc + signed16(operand_u2(code_of(reg, t.frames.last()), t.pc + 1)->0);
            step_spec(reg, t) == Ok::<(ThreadView, StepView), Fault>((
                ThreadView { frames: t.frames, pc: target },
                StepView::Continue,
            ))
        }),
        operand_u2(code_of(reg, t.frames.last()), t.pc + 1) == Some(0u16)
            ==> step_spec(reg, t) == Ok::<(ThreadView, StepView), Fault>((t, StepView::Continue)),
{
    assert(t.frames.update(t.frames.len() - 1, t.frames.last()) =~= t.frames);
}

/// `n` steps lead from `t` to `u`, each with outcome `Continue`, and every
/// state on the way, both ends included, has more than `d` frames.
pub open spec fn runs_above(reg: &Registry, t: ThreadView, u: ThreadView, n: nat, d: int) -> bool
    decreases n,
{
    t.frames.len() > d && if n == 0 {
        t == u
    } else {
        match step_spec(reg, t) {
            Ok((t2, StepView::Continue)) => runs_above(reg, t2, u, (n - 1) as nat, d),
            _ => false,
        }
    }
}

/// A step changes the frame count by at most one, and leaves every frame
/// below the innermost of both states as it was.
proof fn lemma_step_frames(reg: &Registry, t: ThreadView, t2: ThreadView, o: StepView)
    requires
        t.frames.len() > 0,
        step_spec(reg, t) == Ok::<(ThreadView, StepView), Fault>((t2, o)),
    ensures
        t.frames.len() - 1 <= t2.frames.len() <= t.frames.len() + 1,
        forall|i: int| 0 <= i < t.frames.len() - 1 && i < t2.frames.len() - 1
            ==> #[trigger] t2.frames[i] == t.frames[i],
        forall|i: int| 0 <= i < t.frames.len() && i < t2.frames.len()
            ==> (#[trigger] t2.frames[i]).return_address == t.frames[i].return_address,
{
    let f = t.frames.last();
    let code = code_of(reg, f);
    let op = code[t.pc];
    if is_return(op) {
        assert(return_spec(t, op) == step_spec(reg, t));
    } else if op == INVOKESTATIC {
        let c = resolve_spec(reg, t)->Ok_0;
        assert(call_spec(reg, t, c) == step_spec(reg, t));
    } else {
        assert(local_step(f, code, pool_of(reg, f), t.pc, op) is Ok);
    }
}

/// Along a run that stays above `d` frames, frame `d - 1` does not change.
proof fn lemma_run_keeps_frame(reg: &Registry, t: ThreadView, u: ThreadView, n: nat, d: int)
    requires
        d >= 1,
        runs_above(reg, t, u, n, d),
    ensures
        u.frames[d - 1] == t.frames[d - 1],
        u.frames[d].return_address == t.frames[d].return_address,
    decreases n,
{
    if n > 0 {
        let t2 = step_spec(reg, t)->Ok_0.0;
        assert(runs_above(reg, t2, u, (n - 1) as nat, d));
        assert(t2.frames.len() > d);
        lemma_step_frames(reg, t, t2, StepView::Continue);
        assert(t2.frames[d - 1] == t.frames[d - 1]);
        assert(t2.frames[d].return_address == t.frames[d].return_address);
        lemma_run_keeps_frame(reg, t2, u, (n - 1) as nat, d);
    }
}

/// A step that adds a frame is a call: the caller loses the arguments from
/// its stack, as many as the callee's descriptor names.
proof fn lemma_call_pops_args(reg: &Registry, t: ThreadView, t1: ThreadView, o: StepView)
    requires
        t.frames.len() > 0,
        step_spec(reg, t) == Ok::<(ThreadView, StepView), Fault>((t1, o)),
        t1.frames.len() == t.frames.len() + 1,
    ensures
        resolve_spec(reg, t) is Ok,
        resolve_spec(reg, t)->Ok_0.params.len() <= t.frames.last().stack.len(),
        t1.frames[t.frames.len() - 1].stack == t.frames.last().stack.subrange(
            0,
            t.frames.last().stack.len() - resolve_spec(reg, t)->Ok_0.params.len(),
        ),
        t1.frames[t.frames.len() - 1].locals == t.frames.last().locals,
        t1.frames[t.frames.len() as int].return_address == t.pc + 3,
{
    let f = t.frames.last();
    let code = code_of(reg, f);
    let op = code[t.pc];
    if is_return(op) {
        assert(return_spec(t, op) == step_spec(reg, t));
    } else if op == INVOKESTATIC {
        let c = resolve_spec(reg, t)->Ok_0;
        assert(call_spec(reg, t, c) == step_spec(reg, t));
    } else {
        assert(local_step(f, code, pool_of(reg, f), t.pc, op) is Ok);
    }
}

/// A step that removes a frame and leaves one is a return: the caller gets
/// the returned value pushed, or nothing for `RETURN`.
proof fn lemma_return_pushes(reg: &Registry, t: ThreadView, t3: ThreadView, o: StepView)
    requires
        t.frames.len() > 1,
        step_spec(reg, t) == Ok::<(ThreadView, StepView), Fault>((t3, o)),
        t3.frames.len() + 1 == t.frames.len(),
    ensures
        is_return(code_of(reg, t.frames.last())[t.pc]),
        t3.frames[t3.frames.len() - 1].stack.len() == t.frames[t.frames.len() - 2].stack.len()
            + if code_of(reg, t.frames.last())[t.pc] == RETURN { 0int } else { 1int },
        t3.frames[t3.frames.len() - 1].stack == if code_of(reg, t.frames.last())[t.pc] == RETURN {
            t.frames[t.frames.len() - 2].stack
        } else {
            t.frames[t.frames.len() - 2].stack.push(t.frames.last().stack.last())
        },
        t3.frames[t3.frames.len() - 1].locals == t.frames[t.frames.len() - 2].locals,
        t3.pc == t.frames.last().return_address,
{
    let f = t.frames.last();
    let code = code_of(reg, f);
    let op = code[t.pc];
    if is_return(op) {
        assert(return_spec(t, op) == step_spec(reg, t));
    } else if op == INVOKESTATIC {
        let c = resolve_spec(reg, t)->Ok_0;
        assert(call_spec(reg, t, c) == step_spec(reg, t));
    } else {
        assert(local_step(f, code, pool_of(reg, f), t.pc, op) is Ok);
    }
}

/// A call that returns: the caller at `t0` calls (to `t1`), the callee runs
/// `n` steps above the caller's depth (to `t2`), then returns (to `t3`). The
/// caller's stack has lost the callee's arguments and gained one value if the
/// callee returned one.
pub proof fn lemma_frame_discipline(
    reg: &Registry,
    t0: ThreadView,
    t1: ThreadView,
    t2: ThreadView,
    t3: ThreadView,
    o3: StepView,
    n: nat,
)
    requires
        t0.frames.len() >= 1,
        step_spec(reg, t0) == Ok::<(ThreadView, StepView), Fault>((t1, StepView::Continue)),
        t1.frames.len() == t0.frames.len() + 1,
        runs_above(reg, t1, t2, n, t0.frames.len() as int),
        step_spec(reg, t2) == Ok::<(ThreadView, StepView), Fault>((t3, o3)),
        t3.frames.len() == t0.frames.len(),
    ensures
        resolve_spec(reg, t0) is Ok,
        ({
            let d = t0.frames.len() as int;
            let k = resolve_spec(reg, t0)->Ok_0.params.len() as int;
            let returned = if code_of(reg, t2.frames.last())[t2.pc] == RETURN { 0int } else { 1int };
            let s0 = t0.frames[d - 1].stack;
            &&& t3.frames[d - 1].stack.len() == s0.len() - k + returned
            &&& t3.frames[d - 1].stack.subrange(0, s0.len() - k) == s0.subrange(0, s0.len() - k)
            &&& returned == 1 ==> t3.frames[d - 1].stack.last() == t2.frames.last().stack.last()
            &&& t3.frames[d - 1].locals == t0.frames[d - 1].locals
            &&& t3.pc == t0.pc + 3
        }),
{
    let d = t0.frames.len() as int;
    lemma_call_pops_args(reg, t0, t1, StepView::Continue);
    lemma_run_keeps_frame(reg, t1, t2, n, d);
    assert(t2.frames.len() > d) by {
        if n == 0 {
        } else {
            lemma_runs_above_end(reg, t1, t2, n, d);
        }
    }
    lemma_step_frames(reg, t2, t3, o3);
    lemma_return_pushes(reg, t2, t3, o3);
    let k = resolve_spec(reg, t0)->Ok_0.params.len() as int;
    let s0 = t0.frames[d - 1].stack;
    let s2 = t2.frames[d - 1].stack;
    assert(s2 == s0.subrange(0, s0.len() - k));
    assert(t2.frames[t2.frames.len() - 2] == t2.frames[d - 1]);
    assert(t3.frames[d - 1].stack.subrange(0, s0.len() - k) =~= s0.subrange(0, s0.len() - k));
}

/// The last state of a run stays above its bound.
proof fn lemma_runs_above_end(reg: &Registry, t: ThreadView, u: ThreadView, n: nat, d: int)
    requires
        runs_above(reg, t, u, n, d),
    ensures
        u.frames.len() > d,
    decreases n,
{
    if n > 0 {
        let t2 = step_spec(reg, t)->Ok_0.0;
        lemma_runs_above_end(reg, t2, u, (n - 1) as nat, d);
    }
}

/// The descriptor `(IIJ)V` names three parameters: `I`, `I`, `J`.
pub proof fn lemma_descriptor_iij()
    ensures
        descriptor_params(seq![40u8, 73u8, 73u8, 74u8, 41u8, 86u8])
            == Ok::<Seq<u8>, crate::error::VmError>(seq![73u8, 73u8, 74u8]),
{
    let d = seq![40u8, 73u8, 73u8, 74u8, 41u8, 86u8];
    assert(scan_params(d, 4) == Ok::<Seq<u8>, crate::error::VmError>(seq![]));
    assert(scan_params(d, 3) == Ok::<Seq<u8>, crate::error::VmError>(seq![74u8]));
    assert(seq![73u8] + seq![74u8] =~= seq![73u8, 74u8]);
    assert(scan_params(d, 2) == Ok::<Seq<u8>, crate::error::VmError>(seq![73u8, 74u8]));
    assert(seq![73u8] + seq![73u8, 74u8] =~= seq![73u8, 73u8, 74u8]);
}

/// A call to a method with a body fills the callee's first locals with the
/// arguments in descriptor order: local `i` is the value that stood `k - i`
/// from the top of the caller's stack, so the topmost value becomes the last
/// argument.
pub proof fn lemma_args_in_order(reg: &Registry, t: ThreadView, c: Callee, u: ThreadView, i: int)
    requires
        t.frames.len() > 0,
        call_spec(reg, t, c) == Ok::<(ThreadView, StepView), Fault>((u, StepView::Continue)),
        u.frames.len() == t.frames.len() + 1,
        0 <= i < c.params.len(),
    ensures
        ({
            let s = t.frames.last().stack;
            let k = c.params.len() as int;
            &&& k <= s.len()
            &&& u.frames.last().locals[i] == s[s.len() - k + i]
            &&& param_accepts_at(c.params, s, i)
        }),
{
}

/// The value that fills parameter `i` has the type its token names.
pub open spec fn param_accepts_at(params: Seq<u8>, s: Seq<Type>, i: int) -> bool {
    crate::thread::param_accepts(params[i], s[s.len() - params.len() + i])
}

} // verus!
