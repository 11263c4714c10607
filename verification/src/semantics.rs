//! The meaning of execution, written as specification functions.
//!
//! `run_seq` is a fuel-indexed evaluator over instruction sequences: it
//! returns what the machine's operand stack and linear memory become, and
//! how the body finished (fell off the end, `Return`, or `Branch(n)`), or
//! the trap that stopped it. Fuel is consumed whenever execution enters a
//! nested body — a block, one loop iteration, or a call — so the
//! evaluator is total even though the language has unbounded loops;
//! running out of fuel is reported as its own failure.
//!
//! Host functions are not modelled as code. Instead the state carries an
//! oracle: the sequence of results the host calls are yet to produce,
//! consumed from the front, one entry per call. The executable
//! interpreter's contract quantifies over this oracle, which states
//! exactly what holds whatever the host decides to return.
use vstd::prelude::*;

use crate::vm::{ControlFlow, ModuleFunction, Trap};
use crate::wasm::{FuncIdx, Instruction, LabelIdx, LocalIdx};

verus! {

/// The machine state threaded through the evaluator: the operand stack,
/// the linear memory, and the host-call results still to come.
#[verifier::ext_equal]
pub struct VmState {
    pub stack: Seq<i32>,
    pub memory: Seq<i32>,
    pub oracle: Seq<Option<i32>>,
}

/// The result of evaluating a body: a final state together with how the
/// body finished, or the trap that stopped evaluation.
#[verifier::ext_equal]
pub enum Outcome {
    Done { st: VmState, ctl: Option<ControlFlow> },
    Fail { trap: Trap },
}

pub open spec fn vm_state(stack: Seq<i32>, memory: Seq<i32>, oracle: Seq<Option<i32>>) -> VmState {
    VmState { stack, memory, oracle }
}

pub open spec fn done(st: VmState, ctl: Option<ControlFlow>) -> Outcome {
    Outcome::Done { st, ctl }
}

pub open spec fn fail(trap: Trap) -> Outcome {
    Outcome::Fail { trap }
}

/// The executable interpreter returns `Result`; this maps such a result,
/// together with the machine's final state, onto an `Outcome`.
pub open spec fn outcome_of(r: Result<Option<ControlFlow>, Trap>, st: VmState) -> Outcome {
    match r {
        Ok(ctl) => done(st, ctl),
        Err(t) => fail(t),
    }
}

/// The parameter counts of a vector of extern functions; all the
/// evaluator needs to know about the host side.
pub open spec fn extern_params<F>(es: Seq<crate::vm::ExternFunction<F>>) -> Seq<usize> {
    es.map_values(|e: crate::vm::ExternFunction<F>| e.param_count)
}

/// What the operand stack becomes when a host function with `n`
/// parameters is called on it and returns `res`: the arguments leave,
/// and the result, if there is one, is pushed.
pub open spec fn host_stack(stack: Seq<i32>, n: int, res: Option<i32>) -> Seq<i32> {
    let base = stack.take(stack.len() - n);
    match res {
        Some(v) => base.push(v),
        None => base,
    }
}

/// Evaluates one instruction sequence in order. Fuel is not consumed by
/// stepping through a sequence, only by entering nested bodies, so a
/// sequence evaluates under the same fuel as each of its instructions.
pub open spec fn run_seq(
    fuel: nat,
    code: Seq<Instruction>,
    funcs: Seq<ModuleFunction>,
    eps: Seq<usize>,
    locals: Seq<i32>,
    st: VmState,
) -> Outcome
    decreases fuel, 2nat, code.len(),
{
    if code.len() == 0 {
        done(st, None)
    } else {
        match run_instr(fuel, code[0], funcs, eps, locals, st) {
            Outcome::Done { st: st1, ctl: None } => run_seq(
                fuel,
                code.drop_first(),
                funcs,
                eps,
                locals,
                st1,
            ),
            Outcome::Done { st: st1, ctl: Some(c) } => done(st1, Some(c)),
            Outcome::Fail { trap } => fail(trap),
        }
    }
}

/// Evaluates a single instruction.
pub open spec fn run_instr(
    fuel: nat,
    i: Instruction,
    funcs: Seq<ModuleFunction>,
    eps: Seq<usize>,
    locals: Seq<i32>,
    st: VmState,
) -> Outcome
    decreases fuel, 1nat, 0nat,
{
    match i {
        Instruction::I32Const(v) => done(
            vm_state(st.stack.push(v), st.memory, st.oracle),
            None,
        ),
        Instruction::I32Load(m) => {
            if m.offset < st.memory.len() {
                done(vm_state(st.stack.push(st.memory[m.offset as int]), st.memory, st.oracle), None)
            } else {
                fail(Trap::MemoryOutOfBounds)
            }
        },
        Instruction::I32Store(m) => {
            if st.stack.len() == 0 {
                fail(Trap::StackUnderflow)
            } else if m.offset >= st.memory.len() {
                fail(Trap::MemoryOutOfBounds)
            } else {
                done(
                    vm_state(
                        st.stack.drop_last(),
                        st.memory.update(m.offset as int, st.stack.last()),
                        st.oracle,
                    ),
                    None,
                )
            }
        },
        Instruction::I32Add => run_binop(
            st,
            |l: i32, r: i32| vstd::wrapping::i32_specs::wrapping_add(l, r),
        ),
        Instruction::I32Sub => run_binop(
            st,
            |l: i32, r: i32| vstd::wrapping::i32_specs::wrapping_sub(l, r),
        ),
        Instruction::I32Mul => run_binop(
            st,
            |l: i32, r: i32| vstd::wrapping::i32_specs::wrapping_mul(l, r),
        ),
        Instruction::I32Eq => run_binop(
            st,
            |l: i32, r: i32| if l == r { 1i32 } else { 0i32 },
        ),
        Instruction::LocalGet(LocalIdx(j)) => {
            if j < locals.len() {
                done(vm_state(st.stack.push(locals[j as int]), st.memory, st.oracle), None)
            } else {
                fail(Trap::LocalOutOfBounds)
            }
        },
        Instruction::Call(FuncIdx(fi)) => {
            if fi < funcs.len() {
                call_module(fuel, funcs[fi as int], funcs, eps, st)
            } else {
                let k = fi - funcs.len();
                if k >= eps.len() {
                    fail(Trap::FunctionOutOfBounds)
                } else if st.stack.len() < eps[k] {
                    fail(Trap::StackUnderflow)
                } else {
                    done(
                        vm_state(
                            host_stack(st.stack, eps[k] as int, st.oracle[0]),
                            st.memory,
                            st.oracle.drop_first(),
                        ),
                        None,
                    )
                }
            }
        },
        Instruction::Return => done(st, Some(ControlFlow::Return)),
        Instruction::Branch(LabelIdx(l)) => done(st, Some(ControlFlow::Branch(l))),
        Instruction::BranchIf(LabelIdx(l)) => {
            if st.stack.len() == 0 {
                fail(Trap::StackUnderflow)
            } else {
                let cond = st.stack.last();
                let st1 = vm_state(st.stack.drop_last(), st.memory, st.oracle);
                if cond != 0 {
                    done(st1, Some(ControlFlow::Branch(l)))
                } else {
                    done(st1, None)
                }
            }
        },
        Instruction::Block(_, body) => {
            if fuel == 0 {
                fail(Trap::OutOfFuel)
            } else {
                match run_seq((fuel - 1) as nat, body@, funcs, eps, locals, st) {
                    Outcome::Done { st: st1, ctl: None } => done(st1, None),
                    Outcome::Done { st: st1, ctl: Some(ControlFlow::Return) } => done(
                        st1,
                        Some(ControlFlow::Return),
                    ),
                    Outcome::Done { st: st1, ctl: Some(ControlFlow::Branch(l)) } => {
                        if l == 0 {
                            done(st1, None)
                        } else {
                            done(st1, Some(ControlFlow::Branch((l - 1) as usize)))
                        }
                    },
                    Outcome::Fail { trap } => fail(trap),
                }
            }
        },
        Instruction::Loop(_, body) => {
            if fuel == 0 {
                fail(Trap::OutOfFuel)
            } else {
                match run_seq((fuel - 1) as nat, body@, funcs, eps, locals, st) {
                    Outcome::Done { st: st1, ctl: None } => run_instr(
                        (fuel - 1) as nat,
                        i,
                        funcs,
                        eps,
                        locals,
                        st1,
                    ),
                    Outcome::Done { st: st1, ctl: Some(ControlFlow::Return) } => done(
                        st1,
                        Some(ControlFlow::Return),
                    ),
                    Outcome::Done { st: st1, ctl: Some(ControlFlow::Branch(l)) } => {
                        if l == 0 {
                            run_instr((fuel - 1) as nat, i, funcs, eps, locals, st1)
                        } else {
                            done(st1, Some(ControlFlow::Branch((l - 1) as usize)))
                        }
                    },
                    Outcome::Fail { trap } => fail(trap),
                }
            }
        },
        _ => fail(Trap::UnsupportedInstruction),
    }
}

/// Evaluates a call into a module-defined function: the arguments leave
/// the caller's stack and become the callee's locals frame (the value on
/// top of the stack becomes the last local), the callee's body runs
/// against the shared stack and memory, and however it finished — even
/// by `Return` or an unconsumed `Branch` — the caller continues
/// normally: a call is an execution frame that traps structured control
/// flow.
pub open spec fn call_module(
    fuel: nat,
    f: ModuleFunction,
    funcs: Seq<ModuleFunction>,
    eps: Seq<usize>,
    st: VmState,
) -> Outcome
    decreases fuel, 0nat, 0nat,
{
    if st.stack.len() < f.param_count {
        fail(Trap::StackUnderflow)
    } else if fuel == 0 {
        fail(Trap::OutOfFuel)
    } else {
        let args = st.stack.skip(st.stack.len() - f.param_count);
        let inner = vm_state(
            st.stack.take(st.stack.len() - f.param_count),
            st.memory,
            st.oracle,
        );
        match run_seq((fuel - 1) as nat, f.code@, funcs, eps, args, inner) {
            Outcome::Done { st: st1, ctl: _ } => done(st1, None),
            Outcome::Fail { trap } => fail(trap),
        }
    }
}

/// The stack effect of one binary numeric instruction: the right operand
/// is popped first, then the left, and one result is pushed.
pub open spec fn run_binop(st: VmState, op: spec_fn(i32, i32) -> i32) -> Outcome {
    if st.stack.len() < 2 {
        fail(Trap::StackUnderflow)
    } else {
        let right = st.stack.last();
        let left = st.stack.drop_last().last();
        done(
            vm_state(st.stack.drop_last().drop_last().push(op(left, right)), st.memory, st.oracle),
            None,
        )
    }
}

/// Ties one run of the executable interpreter to the evaluator: `calls`
/// is the sequence of results the host functions actually produced, and
/// for every continuation of the oracle beyond them, evaluating `code`
/// from the initial stack and memory under `fuel` reaches exactly the
/// final stack and memory, leaves the continuation untouched, and
/// finishes the way the interpreter's result `r` says.
pub open spec fn invoke_matches(
    fuel: nat,
    code: Seq<Instruction>,
    funcs: Seq<ModuleFunction>,
    eps: Seq<usize>,
    locals: Seq<i32>,
    stack0: Seq<i32>,
    mem0: Seq<i32>,
    r: Result<Option<ControlFlow>, Trap>,
    stack1: Seq<i32>,
    mem1: Seq<i32>,
    calls: Seq<Option<i32>>,
) -> bool {
    forall|rest: Seq<Option<i32>>|
        #[trigger] run_seq(fuel, code, funcs, eps, locals, vm_state(stack0, mem0, calls + rest))
            == outcome_of(r, vm_state(stack1, mem1, rest))
}

/// The same tie for one call into a module function.
pub open spec fn call_matches(
    fuel: nat,
    f: ModuleFunction,
    funcs: Seq<ModuleFunction>,
    eps: Seq<usize>,
    stack0: Seq<i32>,
    mem0: Seq<i32>,
    r: Result<(), Trap>,
    stack1: Seq<i32>,
    mem1: Seq<i32>,
    calls: Seq<Option<i32>>,
) -> bool {
    forall|rest: Seq<Option<i32>>|
        #[trigger] call_module(fuel, f, funcs, eps, vm_state(stack0, mem0, calls + rest)) == (match r {
            Ok(_) => done(vm_state(stack1, mem1, rest), None),
            Err(t) => fail(t),
        })
}

/// A partial evaluation of `code`: the first `idx` instructions ran
/// normally, consuming the host results `calls` and reaching the given
/// stack and memory.
pub open spec fn seq_progress(
    fuel: nat,
    code: Seq<Instruction>,
    idx: int,
    funcs: Seq<ModuleFunction>,
    eps: Seq<usize>,
    locals: Seq<i32>,
    stack0: Seq<i32>,
    mem0: Seq<i32>,
    calls: Seq<Option<i32>>,
    stack1: Seq<i32>,
    mem1: Seq<i32>,
) -> bool {
    forall|rest: Seq<Option<i32>>|
        #[trigger] run_seq(fuel, code, funcs, eps, locals, vm_state(stack0, mem0, calls + rest))
            == run_seq(fuel, code.skip(idx), funcs, eps, locals, vm_state(stack1, mem1, rest))
}

/// One instruction's evaluation, for every oracle continuation: from the
/// given state, `i` consumes the host results `step` and finishes with
/// `Done`, the given final state and control result.
pub open spec fn instr_does(
    fuel: nat,
    i: Instruction,
    funcs: Seq<ModuleFunction>,
    eps: Seq<usize>,
    locals: Seq<i32>,
    pre_stack: Seq<i32>,
    pre_mem: Seq<i32>,
    step: Seq<Option<i32>>,
    post_stack: Seq<i32>,
    post_mem: Seq<i32>,
    ctl: Option<ControlFlow>,
) -> bool {
    forall|rest: Seq<Option<i32>>|
        #[trigger] run_instr(fuel, i, funcs, eps, locals, vm_state(pre_stack, pre_mem, step + rest))
            == done(vm_state(post_stack, post_mem, rest), ctl)
}

/// One instruction's evaluation failing, for every oracle continuation.
pub open spec fn instr_fails(
    fuel: nat,
    i: Instruction,
    funcs: Seq<ModuleFunction>,
    eps: Seq<usize>,
    locals: Seq<i32>,
    pre_stack: Seq<i32>,
    pre_mem: Seq<i32>,
    step: Seq<Option<i32>>,
    trap: Trap,
) -> bool {
    forall|rest: Seq<Option<i32>>|
        #[trigger] run_instr(fuel, i, funcs, eps, locals, vm_state(pre_stack, pre_mem, step + rest))
            == fail(trap)
}

/// Extends a partial evaluation of `code` by one instruction that
/// evaluated to `Done`: either evaluation continues with the remaining
/// instructions (when the instruction finished normally), or the whole
/// sequence finishes with the instruction's control result.
pub proof fn lemma_step_done(
    fuel: nat,
    code: Seq<Instruction>,
    idx: int,
    funcs: Seq<ModuleFunction>,
    eps: Seq<usize>,
    locals: Seq<i32>,
    stack0: Seq<i32>,
    mem0: Seq<i32>,
    calls_acc: Seq<Option<i32>>,
    step: Seq<Option<i32>>,
    pre_stack: Seq<i32>,
    pre_mem: Seq<i32>,
    post_stack: Seq<i32>,
    post_mem: Seq<i32>,
    ctl: Option<ControlFlow>,
)
    requires
        0 <= idx < code.len(),
        seq_progress(fuel, code, idx, funcs, eps, locals, stack0, mem0, calls_acc, pre_stack, pre_mem),
        instr_does(
            fuel,
            code[idx],
            funcs,
            eps,
            locals,
            pre_stack,
            pre_mem,
            step,
            post_stack,
            post_mem,
            ctl,
        ),
    ensures
        (ctl is None) ==> seq_progress(
            fuel,
            code,
            idx + 1,
            funcs,
            eps,
            locals,
            stack0,
            mem0,
            calls_acc + step,
            post_stack,
            post_mem,
        ),
        (ctl is Some) ==> (forall|rest: Seq<Option<i32>>|
            #[trigger] run_seq(
                fuel,
                code,
                funcs,
                eps,
                locals,
                vm_state(stack0, mem0, (calls_acc + step) + rest),
            ) == done(vm_state(post_stack, post_mem, rest), ctl)),
{
    assert forall|rest: Seq<Option<i32>>|
        #[trigger] run_seq(
            fuel,
            code,
            funcs,
            eps,
            locals,
            vm_state(stack0, mem0, (calls_acc + step) + rest),
        ) == (if ctl is None {
            run_seq(fuel, code.skip(idx + 1), funcs, eps, locals, vm_state(post_stack, post_mem, rest))
        } else {
            done(vm_state(post_stack, post_mem, rest), ctl)
        }) by {
        let big = step + rest;
        assert((calls_acc + step) + rest =~= calls_acc + big);
        assert(run_seq(fuel, code, funcs, eps, locals, vm_state(stack0, mem0, calls_acc + big))
            == run_seq(fuel, code.skip(idx), funcs, eps, locals, vm_state(pre_stack, pre_mem, big)));
        assert(run_instr(fuel, code[idx], funcs, eps, locals, vm_state(pre_stack, pre_mem, step + rest))
            == done(vm_state(post_stack, post_mem, rest), ctl));
        assert(code.skip(idx)[0] == code[idx]);
        assert(code.skip(idx).drop_first() =~= code.skip(idx + 1));
    }
}

/// As `lemma_step_done`, for an instruction whose evaluation fails: the
/// whole sequence fails with the same trap.
pub proof fn lemma_step_fail(
    fuel: nat,
    code: Seq<Instruction>,
    idx: int,
    funcs: Seq<ModuleFunction>,
    eps: Seq<usize>,
    locals: Seq<i32>,
    stack0: Seq<i32>,
    mem0: Seq<i32>,
    calls_acc: Seq<Option<i32>>,
    step: Seq<Option<i32>>,
    pre_stack: Seq<i32>,
    pre_mem: Seq<i32>,
    trap: Trap,
)
    requires
        0 <= idx < code.len(),
        seq_progress(fuel, code, idx, funcs, eps, locals, stack0, mem0, calls_acc, pre_stack, pre_mem),
        instr_fails(fuel, code[idx], funcs, eps, locals, pre_stack, pre_mem, step, trap),
    ensures
        forall|rest: Seq<Option<i32>>|
            #[trigger] run_seq(
                fuel,
                code,
                funcs,
                eps,
                locals,
                vm_state(stack0, mem0, (calls_acc + step) + rest),
            ) == fail(trap),
{
    assert forall|rest: Seq<Option<i32>>|
        #[trigger] run_seq(
            fuel,
            code,
            funcs,
            eps,
            locals,
            vm_state(stack0, mem0, (calls_acc + step) + rest),
        ) == fail(trap) by {
        let big = step + rest;
        assert((calls_acc + step) + rest =~= calls_acc + big);
        assert(run_seq(fuel, code, funcs, eps, locals, vm_state(stack0, mem0, calls_acc + big))
            == run_seq(fuel, code.skip(idx), funcs, eps, locals, vm_state(pre_stack, pre_mem, big)));
        assert(run_instr(fuel, code[idx], funcs, eps, locals, vm_state(pre_stack, pre_mem, step + rest))
            == fail(trap));
        assert(code.skip(idx)[0] == code[idx]);
    }
}

/// The inner-loop invariant of the interpreter's `Loop` handling: the
/// loop instruction `i`, entered with fuel `nf` from the given state,
/// evaluates to whatever it evaluates to with fuel `lf` from the current
/// iteration's state, after the host results `lcalls` consumed so far.
pub open spec fn loop_inv(
    nf: nat,
    lf: nat,
    i: Instruction,
    funcs: Seq<ModuleFunction>,
    eps: Seq<usize>,
    locals: Seq<i32>,
    pre_stack: Seq<i32>,
    pre_mem: Seq<i32>,
    lcalls: Seq<Option<i32>>,
    it_stack: Seq<i32>,
    it_mem: Seq<i32>,
) -> bool {
    forall|rest: Seq<Option<i32>>|
        #[trigger] run_instr(nf, i, funcs, eps, locals, vm_state(pre_stack, pre_mem, lcalls + rest))
            == run_instr(lf, i, funcs, eps, locals, vm_state(it_stack, it_mem, rest))
}

/// Instructions the interpreter refuses to execute.
pub open spec fn is_unsupported(i: Instruction) -> bool {
    ||| i is Unreachable
    ||| i is If
    ||| i is LocalSet
    ||| i is GlobalGet
    ||| i is GlobalSet
    ||| i is F64Const
    ||| i is I32GtSigned
    ||| i is F64Lt
    ||| i is F64Gt
    ||| i is F64Ge
    ||| i is F64Add
    ||| i is F64Sub
    ||| i is F64Mul
    ||| i is F64Div
}

/// Before anything ran, the evaluation of `code` is exactly the
/// evaluation of `code`: the empty partial evaluation.
pub proof fn lemma_progress_zero(
    fuel: nat,
    code: Seq<Instruction>,
    funcs: Seq<ModuleFunction>,
    eps: Seq<usize>,
    locals: Seq<i32>,
    stack0: Seq<i32>,
    mem0: Seq<i32>,
)
    ensures
        seq_progress(fuel, code, 0, funcs, eps, locals, stack0, mem0, Seq::empty(), stack0, mem0),
{
    assert(code.skip(0) =~= code);
    assert forall|rest: Seq<Option<i32>>|
        #[trigger] run_seq(
            fuel,
            code,
            funcs,
            eps,
            locals,
            vm_state(stack0, mem0, Seq::<Option<i32>>::empty() + rest),
        ) == run_seq(fuel, code.skip(0), funcs, eps, locals, vm_state(stack0, mem0, rest)) by {
        assert(Seq::<Option<i32>>::empty() + rest =~= rest);
    }
}

/// A partial evaluation followed by an instruction that finished
/// normally is a longer partial evaluation.
pub proof fn lemma_continue(
    fuel: nat,
    code: Seq<Instruction>,
    idx: int,
    funcs: Seq<ModuleFunction>,
    eps: Seq<usize>,
    locals: Seq<i32>,
    stack0: Seq<i32>,
    mem0: Seq<i32>,
    calls_acc: Seq<Option<i32>>,
    step: Seq<Option<i32>>,
    pre_stack: Seq<i32>,
    pre_mem: Seq<i32>,
    post_stack: Seq<i32>,
    post_mem: Seq<i32>,
)
    requires
        0 <= idx < code.len(),
        seq_progress(fuel, code, idx, funcs, eps, locals, stack0, mem0, calls_acc, pre_stack, pre_mem),
        instr_does(
            fuel,
            code[idx],
            funcs,
            eps,
            locals,
            pre_stack,
            pre_mem,
            step,
            post_stack,
            post_mem,
            None,
        ),
    ensures
        seq_progress(
            fuel,
            code,
            idx + 1,
            funcs,
            eps,
            locals,
            stack0,
            mem0,
            calls_acc + step,
            post_stack,
            post_mem,
        ),
{
    lemma_step_done(
        fuel, code, idx, funcs, eps, locals, stack0, mem0, calls_acc, step, pre_stack, pre_mem,
        post_stack, post_mem, None,
    );
}

/// A partial evaluation followed by an instruction that finished with a
/// control result ends the whole run with that result.
pub proof fn lemma_finish_ctl(
    fuel: nat,
    code: Seq<Instruction>,
    idx: int,
    funcs: Seq<ModuleFunction>,
    eps: Seq<usize>,
    locals: Seq<i32>,
    stack0: Seq<i32>,
    mem0: Seq<i32>,
    calls_acc: Seq<Option<i32>>,
    step: Seq<Option<i32>>,
    pre_stack: Seq<i32>,
    pre_mem: Seq<i32>,
    post_stack: Seq<i32>,
    post_mem: Seq<i32>,
    ctl: Option<ControlFlow>,
)
    requires
        0 <= idx < code.len(),
        seq_progress(fuel, code, idx, funcs, eps, locals, stack0, mem0, calls_acc, pre_stack, pre_mem),
        instr_does(
            fuel,
            code[idx],
            funcs,
            eps,
            locals,
            pre_stack,
            pre_mem,
            step,
            post_stack,
            post_mem,
            ctl,
        ),
        ctl is Some,
    ensures
        invoke_matches(
            fuel,
            code,
            funcs,
            eps,
            locals,
            stack0,
            mem0,
            Ok(ctl),
            post_stack,
            post_mem,
            calls_acc + step,
        ),
{
    lemma_step_done(
        fuel, code, idx, funcs, eps, locals, stack0, mem0, calls_acc, step, pre_stack, pre_mem,
        post_stack, post_mem, ctl,
    );
    assert forall|rest: Seq<Option<i32>>|
        #[trigger] run_seq(
            fuel,
            code,
            funcs,
            eps,
            locals,
            vm_state(stack0, mem0, (calls_acc + step) + rest),
        ) == outcome_of(Ok(ctl), vm_state(post_stack, post_mem, rest)) by {}
}

/// A partial evaluation followed by an instruction that failed ends the
/// whole run with that trap. The final stack and memory may be anything:
/// a failed run promises nothing about them.
pub proof fn lemma_finish_fail(
    fuel: nat,
    code: Seq<Instruction>,
    idx: int,
    funcs: Seq<ModuleFunction>,
    eps: Seq<usize>,
    locals: Seq<i32>,
    stack0: Seq<i32>,
    mem0: Seq<i32>,
    calls_acc: Seq<Option<i32>>,
    step: Seq<Option<i32>>,
    pre_stack: Seq<i32>,
    pre_mem: Seq<i32>,
    trap: Trap,
    fin_stack: Seq<i32>,
    fin_mem: Seq<i32>,
)
    requires
        0 <= idx < code.len(),
        seq_progress(fuel, code, idx, funcs, eps, locals, stack0, mem0, calls_acc, pre_stack, pre_mem),
        instr_fails(fuel, code[idx], funcs, eps, locals, pre_stack, pre_mem, step, trap),
    ensures
        invoke_matches(
            fuel,
            code,
            funcs,
            eps,
            locals,
            stack0,
            mem0,
            Err(trap),
            fin_stack,
            fin_mem,
            calls_acc + step,
        ),
{
    lemma_step_fail(
        fuel, code, idx, funcs, eps, locals, stack0, mem0, calls_acc, step, pre_stack, pre_mem, trap,
    );
    assert forall|rest: Seq<Option<i32>>|
        #[trigger] run_seq(
            fuel,
            code,
            funcs,
            eps,
            locals,
            vm_state(stack0, mem0, (calls_acc + step) + rest),
        ) == outcome_of(Err(trap), vm_state(fin_stack, fin_mem, rest)) by {}
}

/// A partial evaluation that has consumed the whole sequence is a
/// complete run that fell off the end.
pub proof fn lemma_finish_end(
    fuel: nat,
    code: Seq<Instruction>,
    funcs: Seq<ModuleFunction>,
    eps: Seq<usize>,
    locals: Seq<i32>,
    stack0: Seq<i32>,
    mem0: Seq<i32>,
    calls_acc: Seq<Option<i32>>,
    post_stack: Seq<i32>,
    post_mem: Seq<i32>,
)
    requires
        seq_progress(
            fuel,
            code,
            code.len() as int,
            funcs,
            eps,
            locals,
            stack0,
            mem0,
            calls_acc,
            post_stack,
            post_mem,
        ),
    ensures
        invoke_matches(
            fuel,
            code,
            funcs,
            eps,
            locals,
            stack0,
            mem0,
            Ok(None),
            post_stack,
            post_mem,
            calls_acc,
        ),
{
    assert forall|rest: Seq<Option<i32>>|
        #[trigger] run_seq(fuel, code, funcs, eps, locals, vm_state(stack0, mem0, calls_acc + rest))
            == outcome_of(Ok(None), vm_state(post_stack, post_mem, rest)) by {
        assert(run_seq(fuel, code, funcs, eps, locals, vm_state(stack0, mem0, calls_acc + rest))
            == run_seq(
            fuel,
            code.skip(code.len() as int),
            funcs,
            eps,
            locals,
            vm_state(post_stack, post_mem, rest),
        ));
        assert(code.skip(code.len() as int).len() == 0);
    }
}

/// What `I32Const` does.
pub proof fn lemma_instr_const(
    fuel: nat,
    i: Instruction,
    funcs: Seq<ModuleFunction>,
    eps: Seq<usize>,
    locals: Seq<i32>,
    pre_stack: Seq<i32>,
    pre_mem: Seq<i32>,
    v: i32,
)
    requires
        i == Instruction::I32Const(v),
    ensures
        instr_does(
            fuel,
            i,
            funcs,
            eps,
            locals,
            pre_stack,
            pre_mem,
            Seq::empty(),
            pre_stack.push(v),
            pre_mem,
            None,
        ),
{
    assert forall|rest: Seq<Option<i32>>|
        #[trigger] run_instr(
            fuel,
            i,
            funcs,
            eps,
            locals,
            vm_state(pre_stack, pre_mem, Seq::<Option<i32>>::empty() + rest),
        ) == done(vm_state(pre_stack.push(v), pre_mem, rest), None) by {
        assert(Seq::<Option<i32>>::empty() + rest =~= rest);
    }
}

/// What `I32Load` does on an address inside the memory, and how it
/// fails outside it.
pub proof fn lemma_instr_load(
    fuel: nat,
    i: Instruction,
    funcs: Seq<ModuleFunction>,
    eps: Seq<usize>,
    locals: Seq<i32>,
    pre_stack: Seq<i32>,
    pre_mem: Seq<i32>,
    m: crate::wasm::MemArg,
)
    requires
        i == Instruction::I32Load(m),
    ensures
        m.offset < pre_mem.len() ==> instr_does(
            fuel,
            i,
            funcs,
            eps,
            locals,
            pre_stack,
            pre_mem,
            Seq::empty(),
            pre_stack.push(pre_mem[m.offset as int]),
            pre_mem,
            None,
        ),
        m.offset >= pre_mem.len() ==> instr_fails(
            fuel,
            i,
            funcs,
            eps,
            locals,
            pre_stack,
            pre_mem,
            Seq::empty(),
            Trap::MemoryOutOfBounds,
        ),
{
    if m.offset < pre_mem.len() {
        assert forall|rest: Seq<Option<i32>>|
            #[trigger] run_instr(
                fuel,
                i,
                funcs,
                eps,
                locals,
                vm_state(pre_stack, pre_mem, Seq::<Option<i32>>::empty() + rest),
            ) == done(vm_state(pre_stack.push(pre_mem[m.offset as int]), pre_mem, rest), None) by {
            assert(Seq::<Option<i32>>::empty() + rest =~= rest);
        }
    } else {
        assert forall|rest: Seq<Option<i32>>|
            #[trigger] run_instr(
                fuel,
                i,
                funcs,
                eps,
                locals,
                vm_state(pre_stack, pre_mem, Seq::<Option<i32>>::empty() + rest),
            ) == fail(Trap::MemoryOutOfBounds) by {
            assert(Seq::<Option<i32>>::empty() + rest =~= rest);
        }
    }
}

/// What `I32Store` does, and its two failures: an empty stack first,
/// an address outside the memory second.
pub proof fn lemma_instr_store(
    fuel: nat,
    i: Instruction,
    funcs: Seq<ModuleFunction>,
    eps: Seq<usize>,
    locals: Seq<i32>,
    pre_stack: Seq<i32>,
    pre_mem: Seq<i32>,
    m: crate::wasm::MemArg,
)
    requires
        i == Instruction::I32Store(m),
    ensures
        pre_stack.len() == 0 ==> instr_fails(
            fuel,
            i,
            funcs,
            eps,
            locals,
            pre_stack,
            pre_mem,
            Seq::empty(),
            Trap::StackUnderflow,
        ),
        pre_stack.len() > 0 && m.offset >= pre_mem.len() ==> instr_fails(
            fuel,
            i,
            funcs,
            eps,
            locals,
            pre_stack,
            pre_mem,
            Seq::empty(),
            Trap::MemoryOutOfBounds,
        ),
        pre_stack.len() > 0 && m.offset < pre_mem.len() ==> instr_does(
            fuel,
            i,
            funcs,
            eps,
            locals,
            pre_stack,
            pre_mem,
            Seq::empty(),
            pre_stack.drop_last(),
            pre_mem.update(m.offset as int, pre_stack.last()),
            None,
        ),
{
    assert forall|rest: Seq<Option<i32>>| #[trigger] (Seq::<Option<i32>>::empty() + rest) =~= rest by {}
    if pre_stack.len() == 0 {
        assert forall|rest: Seq<Option<i32>>|
            #[trigger] run_instr(
                fuel,
                i,
                funcs,
                eps,
                locals,
                vm_state(pre_stack, pre_mem, Seq::<Option<i32>>::empty() + rest),
            ) == fail(Trap::StackUnderflow) by {
            assert(Seq::<Option<i32>>::empty() + rest == rest);
        }
    } else if m.offset >= pre_mem.len() {
        assert forall|rest: Seq<Option<i32>>|
            #[trigger] run_instr(
                fuel,
                i,
                funcs,
                eps,
                locals,
                vm_state(pre_stack, pre_mem, Seq::<Option<i32>>::empty() + rest),
            ) == fail(Trap::MemoryOutOfBounds) by {
            assert(Seq::<Option<i32>>::empty() + rest == rest);
        }
    } else {
        assert forall|rest: Seq<Option<i32>>|
            #[trigger] run_instr(
                fuel,
                i,
                funcs,
                eps,
                locals,
                vm_state(pre_stack, pre_mem, Seq::<Option<i32>>::empty() + rest),
            ) == done(
            vm_state(pre_stack.drop_last(), pre_mem.update(m.offset as int, pre_stack.last()), rest),
            None,
        ) by {
            assert(Seq::<Option<i32>>::empty() + rest == rest);
        }
    }
}

/// What the four binary numeric instructions do: pop the right operand,
/// pop the left, push the result; or fail when fewer than two operands
/// are on the stack.
pub proof fn lemma_instr_binop(
    fuel: nat,
    i: Instruction,
    funcs: Seq<ModuleFunction>,
    eps: Seq<usize>,
    locals: Seq<i32>,
    pre_stack: Seq<i32>,
    pre_mem: Seq<i32>,
    result: i32,
)
    requires
        i is I32Add || i is I32Sub || i is I32Mul || i is I32Eq,
        pre_stack.len() >= 2 ==> {
            let right = pre_stack.last();
            let left = pre_stack.drop_last().last();
            &&& i is I32Add ==> result == vstd::wrapping::i32_specs::wrapping_add(left, right)
            &&& i is I32Sub ==> result == vstd::wrapping::i32_specs::wrapping_sub(left, right)
            &&& i is I32Mul ==> result == vstd::wrapping::i32_specs::wrapping_mul(left, right)
            &&& i is I32Eq ==> result == (if left == right { 1i32 } else { 0i32 })
        },
    ensures
        pre_stack.len() < 2 ==> instr_fails(
            fuel,
            i,
            funcs,
            eps,
            locals,
            pre_stack,
            pre_mem,
            Seq::empty(),
            Trap::StackUnderflow,
        ),
        pre_stack.len() >= 2 ==> instr_does(
            fuel,
            i,
            funcs,
            eps,
            locals,
            pre_stack,
            pre_mem,
            Seq::empty(),
            pre_stack.drop_last().drop_last().push(result),
            pre_mem,
            None,
        ),
{
    if pre_stack.len() < 2 {
        assert forall|rest: Seq<Option<i32>>|
            #[trigger] run_instr(
                fuel,
                i,
                funcs,
                eps,
                locals,
                vm_state(pre_stack, pre_mem, Seq::<Option<i32>>::empty() + rest),
            ) == fail(Trap::StackUnderflow) by {
            assert(Seq::<Option<i32>>::empty() + rest =~= rest);
        }
    } else {
        assert forall|rest: Seq<Option<i32>>|
            #[trigger] run_instr(
                fuel,
                i,
                funcs,
                eps,
                locals,
                vm_state(pre_stack, pre_mem, Seq::<Option<i32>>::empty() + rest),
            ) == done(vm_state(pre_stack.drop_last().drop_last().push(result), pre_mem, rest), None) by {
            assert(Seq::<Option<i32>>::empty() + rest =~= rest);
        }
    }
}

/// What `LocalGet` does on a slot inside the frame, and how it fails
/// outside it.
pub proof fn lemma_instr_local_get(
    fuel: nat,
    i: Instruction,
    funcs: Seq<ModuleFunction>,
    eps: Seq<usize>,
    locals: Seq<i32>,
    pre_stack: Seq<i32>,
    pre_mem: Seq<i32>,
    slot: usize,
)
    requires
        i == Instruction::LocalGet(LocalIdx(slot)),
    ensures
        slot < locals.len() ==> instr_does(
            fuel,
            i,
            funcs,
            eps,
            locals,
            pre_stack,
            pre_mem,
            Seq::empty(),
            pre_stack.push(locals[slot as int]),
            pre_mem,
            None,
        ),
        slot >= locals.len() ==> instr_fails(
            fuel,
            i,
            funcs,
            eps,
            locals,
            pre_stack,
            pre_mem,
            Seq::empty(),
            Trap::LocalOutOfBounds,
        ),
{
    if slot < locals.len() {
        assert forall|rest: Seq<Option<i32>>|
            #[trigger] run_instr(
                fuel,
                i,
                funcs,
                eps,
                locals,
                vm_state(pre_stack, pre_mem, Seq::<Option<i32>>::empty() + rest),
            ) == done(vm_state(pre_stack.push(locals[slot as int]), pre_mem, rest), None) by {
            assert(Seq::<Option<i32>>::empty() + rest =~= rest);
        }
    } else {
        assert forall|rest: Seq<Option<i32>>|
            #[trigger] run_instr(
                fuel,
                i,
                funcs,
                eps,
                locals,
                vm_state(pre_stack, pre_mem, Seq::<Option<i32>>::empty() + rest),
            ) == fail(Trap::LocalOutOfBounds) by {
            assert(Seq::<Option<i32>>::empty() + rest =~= rest);
        }
    }
}

/// What `Return` and `Branch` do: exit with their control result, the
/// state untouched.
pub proof fn lemma_instr_exit(
    fuel: nat,
    i: Instruction,
    funcs: Seq<ModuleFunction>,
    eps: Seq<usize>,
    locals: Seq<i32>,
    pre_stack: Seq<i32>,
    pre_mem: Seq<i32>,
)
    requires
        i is Return || i is Branch,
    ensures
        i is Return ==> instr_does(
            fuel,
            i,
            funcs,
            eps,
            locals,
            pre_stack,
            pre_mem,
            Seq::empty(),
            pre_stack,
            pre_mem,
            Some(ControlFlow::Return),
        ),
        (i matches Instruction::Branch(LabelIdx(l)) ==> instr_does(
            fuel,
            i,
            funcs,
            eps,
            locals,
            pre_stack,
            pre_mem,
            Seq::empty(),
            pre_stack,
            pre_mem,
            Some(ControlFlow::Branch(l)),
        )),
{
    let ctl = if i is Return {
        Some(ControlFlow::Return)
    } else {
        Some(ControlFlow::Branch(i->Branch_0.0))
    };
    assert forall|rest: Seq<Option<i32>>|
        #[trigger] run_instr(
            fuel,
            i,
            funcs,
            eps,
            locals,
            vm_state(pre_stack, pre_mem, Seq::<Option<i32>>::empty() + rest),
        ) == done(vm_state(pre_stack, pre_mem, rest), ctl) by {
        assert(Seq::<Option<i32>>::empty() + rest =~= rest);
    }
}

/// What `BranchIf` does: consume the condition in every case, then
/// branch exactly when it was non-zero; or fail on an empty stack.
pub proof fn lemma_instr_branch_if(
    fuel: nat,
    i: Instruction,
    funcs: Seq<ModuleFunction>,
    eps: Seq<usize>,
    locals: Seq<i32>,
    pre_stack: Seq<i32>,
    pre_mem: Seq<i32>,
    l: usize,
)
    requires
        i == Instruction::BranchIf(LabelIdx(l)),
    ensures
        pre_stack.len() == 0 ==> instr_fails(
            fuel,
            i,
            funcs,
            eps,
            locals,
            pre_stack,
            pre_mem,
            Seq::empty(),
            Trap::StackUnderflow,
        ),
        pre_stack.len() > 0 && pre_stack.last() != 0 ==> instr_does(
            fuel,
            i,
            funcs,
            eps,
            locals,
            pre_stack,
            pre_mem,
            Seq::empty(),
            pre_stack.drop_last(),
            pre_mem,
            Some(ControlFlow::Branch(l)),
        ),
        pre_stack.len() > 0 && pre_stack.last() == 0 ==> instr_does(
            fuel,
            i,
            funcs,
            eps,
            locals,
            pre_stack,
            pre_mem,
            Seq::empty(),
            pre_stack.drop_last(),
            pre_mem,
            None,
        ),
{
    if pre_stack.len() == 0 {
        assert forall|rest: Seq<Option<i32>>|
            #[trigger] run_instr(
                fuel,
                i,
                funcs,
                eps,
                locals,
                vm_state(pre_stack, pre_mem, Seq::<Option<i32>>::empty() + rest),
            ) == fail(Trap::StackUnderflow) by {
            assert(Seq::<Option<i32>>::empty() + rest =~= rest);
        }
    } else {
        let ctl = if pre_stack.last() != 0 {
            Some(ControlFlow::Branch(l))
        } else {
            None
        };
        assert forall|rest: Seq<Option<i32>>|
            #[trigger] run_instr(
                fuel,
                i,
                funcs,
                eps,
                locals,
                vm_state(pre_stack, pre_mem, Seq::<Option<i32>>::empty() + rest),
            ) == done(vm_state(pre_stack.drop_last(), pre_mem, rest), ctl) by {
            assert(Seq::<Option<i32>>::empty() + rest =~= rest);
        }
    }
}

/// An unsupported instruction fails at once.
pub proof fn lemma_instr_unsupported(
    fuel: nat,
    i: Instruction,
    funcs: Seq<ModuleFunction>,
    eps: Seq<usize>,
    locals: Seq<i32>,
    pre_stack: Seq<i32>,
    pre_mem: Seq<i32>,
)
    requires
        is_unsupported(i),
    ensures
        instr_fails(
            fuel,
            i,
            funcs,
            eps,
            locals,
            pre_stack,
            pre_mem,
            Seq::empty(),
            Trap::UnsupportedInstruction,
        ),
{
    assert forall|rest: Seq<Option<i32>>|
        #[trigger] run_instr(
            fuel,
            i,
            funcs,
            eps,
            locals,
            vm_state(pre_stack, pre_mem, Seq::<Option<i32>>::empty() + rest),
        ) == fail(Trap::UnsupportedInstruction) by {
        assert(Seq::<Option<i32>>::empty() + rest =~= rest);
    }
}

/// A `Block` or `Loop` met with no fuel left fails at once.
pub proof fn lemma_instr_no_fuel(
    fuel: nat,
    i: Instruction,
    funcs: Seq<ModuleFunction>,
    eps: Seq<usize>,
    locals: Seq<i32>,
    pre_stack: Seq<i32>,
    pre_mem: Seq<i32>,
)
    requires
        i is Block || i is Loop,
        fuel == 0,
    ensures
        instr_fails(fuel, i, funcs, eps, locals, pre_stack, pre_mem, Seq::empty(), Trap::OutOfFuel),
{
    assert forall|rest: Seq<Option<i32>>|
        #[trigger] run_instr(
            fuel,
            i,
            funcs,
            eps,
            locals,
            vm_state(pre_stack, pre_mem, Seq::<Option<i32>>::empty() + rest),
        ) == fail(Trap::OutOfFuel) by {
        assert(Seq::<Option<i32>>::empty() + rest =~= rest);
    }
}

/// What a `Block` does, given how its body ran: the body's host calls
/// are the block's; a normal finish or a `Branch(0)` completes the
/// block, `Return` passes through, a deeper branch loses one level, and
/// a failure is the block's failure.
pub proof fn lemma_instr_block(
    fuel: nat,
    i: Instruction,
    b: Vec<Instruction>,
    funcs: Seq<ModuleFunction>,
    eps: Seq<usize>,
    locals: Seq<i32>,
    pre_stack: Seq<i32>,
    pre_mem: Seq<i32>,
    sub: Result<Option<ControlFlow>, Trap>,
    post_stack: Seq<i32>,
    post_mem: Seq<i32>,
    calls_sub: Seq<Option<i32>>,
)
    requires
        i == Instruction::Block(crate::wasm::BlockType::Empty, b),
        fuel > 0,
        invoke_matches(
            (fuel - 1) as nat,
            b@,
            funcs,
            eps,
            locals,
            pre_stack,
            pre_mem,
            sub,
            post_stack,
            post_mem,
            calls_sub,
        ),
    ensures
        (sub matches Err(t) ==> instr_fails(
            fuel,
            i,
            funcs,
            eps,
            locals,
            pre_stack,
            pre_mem,
            calls_sub,
            t,
        )),
        sub == Ok::<Option<ControlFlow>, Trap>(None) ==> instr_does(
            fuel,
            i,
            funcs,
            eps,
            locals,
            pre_stack,
            pre_mem,
            calls_sub,
            post_stack,
            post_mem,
            None,
        ),
        sub == Ok::<Option<ControlFlow>, Trap>(Some(ControlFlow::Return)) ==> instr_does(
            fuel,
            i,
            funcs,
            eps,
            locals,
            pre_stack,
            pre_mem,
            calls_sub,
            post_stack,
            post_mem,
            Some(ControlFlow::Return),
        ),
        (sub matches Ok(Some(ControlFlow::Branch(l))) ==> instr_does(
            fuel,
            i,
            funcs,
            eps,
            locals,
            pre_stack,
            pre_mem,
            calls_sub,
            post_stack,
            post_mem,
            (if l == 0 {
                None
            } else {
                Some(ControlFlow::Branch((l - 1) as usize))
            }),
        )),
{
    match sub {
        Err(t) => {
            assert forall|rest: Seq<Option<i32>>|
                #[trigger] run_instr(
                    fuel,
                    i,
                    funcs,
                    eps,
                    locals,
                    vm_state(pre_stack, pre_mem, calls_sub + rest),
                ) == fail(t) by {
                assert(run_seq(
                    (fuel - 1) as nat,
                    b@,
                    funcs,
                    eps,
                    locals,
                    vm_state(pre_stack, pre_mem, calls_sub + rest),
                ) == outcome_of(sub, vm_state(post_stack, post_mem, rest)));
            }
        },
        Ok(ctl_sub) => {
            let ctl = match ctl_sub {
                None => None,
                Some(ControlFlow::Return) => Some(ControlFlow::Return),
                Some(ControlFlow::Branch(l)) => if l == 0 {
                    None
                } else {
                    Some(ControlFlow::Branch((l - 1) as usize))
                },
            };
            assert forall|rest: Seq<Option<i32>>|
                #[trigger] run_instr(
                    fuel,
                    i,
                    funcs,
                    eps,
                    locals,
                    vm_state(pre_stack, pre_mem, calls_sub + rest),
                ) == done(vm_state(post_stack, post_mem, rest), ctl) by {
                assert(run_seq(
                    (fuel - 1) as nat,
                    b@,
                    funcs,
                    eps,
                    locals,
                    vm_state(pre_stack, pre_mem, calls_sub + rest),
                ) == outcome_of(sub, vm_state(post_stack, post_mem, rest)));
            }
        },
    }
}

/// What a `Call` to a module function does, given how the call went.
pub proof fn lemma_instr_call_module(
    fuel: nat,
    i: Instruction,
    fi: usize,
    funcs: Seq<ModuleFunction>,
    eps: Seq<usize>,
    locals: Seq<i32>,
    pre_stack: Seq<i32>,
    pre_mem: Seq<i32>,
    sub: Result<(), Trap>,
    post_stack: Seq<i32>,
    post_mem: Seq<i32>,
    calls_sub: Seq<Option<i32>>,
)
    requires
        i == Instruction::Call(FuncIdx(fi)),
        fi < funcs.len(),
        call_matches(
            fuel,
            funcs[fi as int],
            funcs,
            eps,
            pre_stack,
            pre_mem,
            sub,
            post_stack,
            post_mem,
            calls_sub,
        ),
    ensures
        sub is Ok ==> instr_does(
            fuel,
            i,
            funcs,
            eps,
            locals,
            pre_stack,
            pre_mem,
            calls_sub,
            post_stack,
            post_mem,
            None,
        ),
        (sub matches Err(t) ==> instr_fails(
            fuel,
            i,
            funcs,
            eps,
            locals,
            pre_stack,
            pre_mem,
            calls_sub,
            t,
        )),
{
    match sub {
        Ok(_) => {
            assert forall|rest: Seq<Option<i32>>|
                #[trigger] run_instr(
                    fuel,
                    i,
                    funcs,
                    eps,
                    locals,
                    vm_state(pre_stack, pre_mem, calls_sub + rest),
                ) == done(vm_state(post_stack, post_mem, rest), None) by {
                assert(call_module(
                    fuel,
                    funcs[fi as int],
                    funcs,
                    eps,
                    vm_state(pre_stack, pre_mem, calls_sub + rest),
                ) == done(vm_state(post_stack, post_mem, rest), None));
            }
        },
        Err(t) => {
            assert forall|rest: Seq<Option<i32>>|
                #[trigger] run_instr(
                    fuel,
                    i,
                    funcs,
                    eps,
                    locals,
                    vm_state(pre_stack, pre_mem, calls_sub + rest),
                ) == fail(t) by {
                assert(call_module(
                    fuel,
                    funcs[fi as int],
                    funcs,
                    eps,
                    vm_state(pre_stack, pre_mem, calls_sub + rest),
                ) == fail(t));
            }
        },
    }
}

/// What a `Call` past both function vectors does, and how an extern
/// call fails when the stack is short.
pub proof fn lemma_instr_call_extern_fail(
    fuel: nat,
    i: Instruction,
    fi: usize,
    funcs: Seq<ModuleFunction>,
    eps: Seq<usize>,
    locals: Seq<i32>,
    pre_stack: Seq<i32>,
    pre_mem: Seq<i32>,
)
    requires
        i == Instruction::Call(FuncIdx(fi)),
        fi >= funcs.len(),
    ensures
        fi - funcs.len() >= eps.len() ==> instr_fails(
            fuel,
            i,
            funcs,
            eps,
            locals,
            pre_stack,
            pre_mem,
            Seq::empty(),
            Trap::FunctionOutOfBounds,
        ),
        fi - funcs.len() < eps.len() && pre_stack.len() < eps[fi - funcs.len()] ==> instr_fails(
            fuel,
            i,
            funcs,
            eps,
            locals,
            pre_stack,
            pre_mem,
            Seq::empty(),
            Trap::StackUnderflow,
        ),
{
    if fi - funcs.len() >= eps.len() {
        assert forall|rest: Seq<Option<i32>>|
            #[trigger] run_instr(
                fuel,
                i,
                funcs,
                eps,
                locals,
                vm_state(pre_stack, pre_mem, Seq::<Option<i32>>::empty() + rest),
            ) == fail(Trap::FunctionOutOfBounds) by {
            assert(Seq::<Option<i32>>::empty() + rest =~= rest);
        }
    } else if pre_stack.len() < eps[fi - funcs.len()] {
        assert forall|rest: Seq<Option<i32>>|
            #[trigger] run_instr(
                fuel,
                i,
                funcs,
                eps,
                locals,
                vm_state(pre_stack, pre_mem, Seq::<Option<i32>>::empty() + rest),
            ) == fail(Trap::StackUnderflow) by {
            assert(Seq::<Option<i32>>::empty() + rest =~= rest);
        }
    }
}

/// What a `Call` into a host function does when the stack is long
/// enough: it consumes one oracle entry — the result the host actually
/// produced — and applies it to the stack.
pub proof fn lemma_instr_call_extern_ok(
    fuel: nat,
    i: Instruction,
    fi: usize,
    funcs: Seq<ModuleFunction>,
    eps: Seq<usize>,
    locals: Seq<i32>,
    pre_stack: Seq<i32>,
    pre_mem: Seq<i32>,
    res: Option<i32>,
)
    requires
        i == Instruction::Call(FuncIdx(fi)),
        fi >= funcs.len(),
        fi - funcs.len() < eps.len(),
        pre_stack.len() >= eps[fi - funcs.len()],
    ensures
        instr_does(
            fuel,
            i,
            funcs,
            eps,
            locals,
            pre_stack,
            pre_mem,
            seq![res],
            host_stack(pre_stack, eps[fi - funcs.len()] as int, res),
            pre_mem,
            None,
        ),
{
    assert forall|rest: Seq<Option<i32>>|
        #[trigger] run_instr(fuel, i, funcs, eps, locals, vm_state(pre_stack, pre_mem, seq![res] + rest))
            == done(
            vm_state(host_stack(pre_stack, eps[fi - funcs.len()] as int, res), pre_mem, rest),
            None,
        ) by {
        assert((seq![res] + rest)[0] == res);
        assert((seq![res] + rest).drop_first() =~= rest);
    }
}

/// Entering a `Loop`: before any iteration ran, the loop from the entry
/// state is the loop from the entry state.
pub proof fn lemma_loop_enter(
    fuel: nat,
    i: Instruction,
    funcs: Seq<ModuleFunction>,
    eps: Seq<usize>,
    locals: Seq<i32>,
    pre_stack: Seq<i32>,
    pre_mem: Seq<i32>,
)
    ensures
        loop_inv(
            fuel,
            fuel,
            i,
            funcs,
            eps,
            locals,
            pre_stack,
            pre_mem,
            Seq::empty(),
            pre_stack,
            pre_mem,
        ),
{
    assert forall|rest: Seq<Option<i32>>|
        #[trigger] run_instr(
            fuel,
            i,
            funcs,
            eps,
            locals,
            vm_state(pre_stack, pre_mem, Seq::<Option<i32>>::empty() + rest),
        ) == run_instr(fuel, i, funcs, eps, locals, vm_state(pre_stack, pre_mem, rest)) by {
        assert(Seq::<Option<i32>>::empty() + rest =~= rest);
    }
}

/// One iteration of a `Loop` whose body finished normally or with
/// `Branch(0)`: the loop runs again from the body's final state, with
/// one unit of fuel fewer.
pub proof fn lemma_loop_iterate(
    nf: nat,
    lf: nat,
    i: Instruction,
    b: Vec<Instruction>,
    funcs: Seq<ModuleFunction>,
    eps: Seq<usize>,
    locals: Seq<i32>,
    pre_stack: Seq<i32>,
    pre_mem: Seq<i32>,
    lcalls: Seq<Option<i32>>,
    it_stack: Seq<i32>,
    it_mem: Seq<i32>,
    sub: Result<Option<ControlFlow>, Trap>,
    post_stack: Seq<i32>,
    post_mem: Seq<i32>,
    calls_sub: Seq<Option<i32>>,
)
    requires
        i == Instruction::Loop(crate::wasm::BlockType::Empty, b),
        lf > 0,
        loop_inv(nf, lf, i, funcs, eps, locals, pre_stack, pre_mem, lcalls, it_stack, it_mem),
        invoke_matches(
            (lf - 1) as nat,
            b@,
            funcs,
            eps,
            locals,
            it_stack,
            it_mem,
            sub,
            post_stack,
            post_mem,
            calls_sub,
        ),
        sub == Ok::<Option<ControlFlow>, Trap>(None) || sub == Ok::<Option<ControlFlow>, Trap>(
            Some(ControlFlow::Branch(0)),
        ),
    ensures
        loop_inv(
            nf,
            (lf - 1) as nat,
            i,
            funcs,
            eps,
            locals,
            pre_stack,
            pre_mem,
            lcalls + calls_sub,
            post_stack,
            post_mem,
        ),
{
    assert forall|rest: Seq<Option<i32>>|
        #[trigger] run_instr(
            nf,
            i,
            funcs,
            eps,
            locals,
            vm_state(pre_stack, pre_mem, (lcalls + calls_sub) + rest),
        ) == run_instr(
            (lf - 1) as nat,
            i,
            funcs,
            eps,
            locals,
            vm_state(post_stack, post_mem, rest),
        ) by {
        assert((lcalls + calls_sub) + rest =~= lcalls + (calls_sub + rest));
        assert(run_instr(nf, i, funcs, eps, locals, vm_state(pre_stack, pre_mem, lcalls + (calls_sub + rest)))
            == run_instr(lf, i, funcs, eps, locals, vm_state(it_stack, it_mem, calls_sub + rest)));
        assert(run_seq((lf - 1) as nat, b@, funcs, eps, locals, vm_state(it_stack, it_mem, calls_sub + rest))
            == outcome_of(sub, vm_state(post_stack, post_mem, rest)));
    }
}

/// A `Loop` iteration that ends the loop: the body returned, branched
/// past the loop, or failed.
pub proof fn lemma_loop_finish(
    nf: nat,
    lf: nat,
    i: Instruction,
    b: Vec<Instruction>,
    funcs: Seq<ModuleFunction>,
    eps: Seq<usize>,
    locals: Seq<i32>,
    pre_stack: Seq<i32>,
    pre_mem: Seq<i32>,
    lcalls: Seq<Option<i32>>,
    it_stack: Seq<i32>,
    it_mem: Seq<i32>,
    sub: Result<Option<ControlFlow>, Trap>,
    post_stack: Seq<i32>,
    post_mem: Seq<i32>,
    calls_sub: Seq<Option<i32>>,
)
    requires
        i == Instruction::Loop(crate::wasm::BlockType::Empty, b),
        lf > 0,
        loop_inv(nf, lf, i, funcs, eps, locals, pre_stack, pre_mem, lcalls, it_stack, it_mem),
        invoke_matches(
            (lf - 1) as nat,
            b@,
            funcs,
            eps,
            locals,
            it_stack,
            it_mem,
            sub,
            post_stack,
            post_mem,
            calls_sub,
        ),
    ensures
        sub == Ok::<Option<ControlFlow>, Trap>(Some(ControlFlow::Return)) ==> instr_does(
            nf,
            i,
            funcs,
            eps,
            locals,
            pre_stack,
            pre_mem,
            lcalls + calls_sub,
            post_stack,
            post_mem,
            Some(ControlFlow::Return),
        ),
        (sub matches Ok(Some(ControlFlow::Branch(l))) ==> (l > 0 ==> instr_does(
            nf,
            i,
            funcs,
            eps,
            locals,
            pre_stack,
            pre_mem,
            lcalls + calls_sub,
            post_stack,
            post_mem,
            Some(ControlFlow::Branch((l - 1) as usize)),
        ))),
        (sub matches Err(t) ==> instr_fails(
            nf,
            i,
            funcs,
            eps,
            locals,
            pre_stack,
            pre_mem,
            lcalls + calls_sub,
            t,
        )),
{
    match sub {
        Ok(Some(ControlFlow::Return)) => {
            assert forall|rest: Seq<Option<i32>>|
                #[trigger] run_instr(
                    nf,
                    i,
                    funcs,
                    eps,
                    locals,
                    vm_state(pre_stack, pre_mem, (lcalls + calls_sub) + rest),
                ) == done(vm_state(post_stack, post_mem, rest), Some(ControlFlow::Return)) by {
                assert((lcalls + calls_sub) + rest =~= lcalls + (calls_sub + rest));
                assert(run_instr(nf, i, funcs, eps, locals, vm_state(pre_stack, pre_mem, lcalls + (calls_sub + rest)))
                    == run_instr(lf, i, funcs, eps, locals, vm_state(it_stack, it_mem, calls_sub + rest)));
                assert(run_seq((lf - 1) as nat, b@, funcs, eps, locals, vm_state(it_stack, it_mem, calls_sub + rest))
                    == outcome_of(sub, vm_state(post_stack, post_mem, rest)));
            }
        },
        Ok(Some(ControlFlow::Branch(l))) => {
            if l > 0 {
                assert forall|rest: Seq<Option<i32>>|
                    #[trigger] run_instr(
                        nf,
                        i,
                        funcs,
                        eps,
                        locals,
                        vm_state(pre_stack, pre_mem, (lcalls + calls_sub) + rest),
                    ) == done(
                    vm_state(post_stack, post_mem, rest),
                    Some(ControlFlow::Branch((l - 1) as usize)),
                ) by {
                    assert((lcalls + calls_sub) + rest =~= lcalls + (calls_sub + rest));
                    assert(run_instr(nf, i, funcs, eps, locals, vm_state(pre_stack, pre_mem, lcalls + (calls_sub + rest)))
                        == run_instr(lf, i, funcs, eps, locals, vm_state(it_stack, it_mem, calls_sub + rest)));
                    assert(run_seq((lf - 1) as nat, b@, funcs, eps, locals, vm_state(it_stack, it_mem, calls_sub + rest))
                        == outcome_of(sub, vm_state(post_stack, post_mem, rest)));
                }
            }
        },
        Err(t) => {
            assert forall|rest: Seq<Option<i32>>|
                #[trigger] run_instr(
                    nf,
                    i,
                    funcs,
                    eps,
                    locals,
                    vm_state(pre_stack, pre_mem, (lcalls + calls_sub) + rest),
                ) == fail(t) by {
                assert((lcalls + calls_sub) + rest =~= lcalls + (calls_sub + rest));
                assert(run_instr(nf, i, funcs, eps, locals, vm_state(pre_stack, pre_mem, lcalls + (calls_sub + rest)))
                    == run_instr(lf, i, funcs, eps, locals, vm_state(it_stack, it_mem, calls_sub + rest)));
                assert(run_seq((lf - 1) as nat, b@, funcs, eps, locals, vm_state(it_stack, it_mem, calls_sub + rest))
                    == outcome_of(sub, vm_state(post_stack, post_mem, rest)));
            }
        },
        _ => {},
    }
}

/// A `Loop` iteration reached with no fuel left fails there.
pub proof fn lemma_loop_no_fuel(
    nf: nat,
    i: Instruction,
    funcs: Seq<ModuleFunction>,
    eps: Seq<usize>,
    locals: Seq<i32>,
    pre_stack: Seq<i32>,
    pre_mem: Seq<i32>,
    lcalls: Seq<Option<i32>>,
    it_stack: Seq<i32>,
    it_mem: Seq<i32>,
)
    requires
        i is Loop,
        loop_inv(nf, 0, i, funcs, eps, locals, pre_stack, pre_mem, lcalls, it_stack, it_mem),
    ensures
        instr_fails(nf, i, funcs, eps, locals, pre_stack, pre_mem, lcalls, Trap::OutOfFuel),
{
    assert forall|rest: Seq<Option<i32>>|
        #[trigger] run_instr(nf, i, funcs, eps, locals, vm_state(pre_stack, pre_mem, lcalls + rest))
            == fail(Trap::OutOfFuel) by {
        assert(run_instr(nf, i, funcs, eps, locals, vm_state(pre_stack, pre_mem, lcalls + rest))
            == run_instr(0, i, funcs, eps, locals, vm_state(it_stack, it_mem, rest)));
    }
}

/// Fuel is immaterial once there is enough of it: a sequence whose
/// evaluation did not run out of fuel evaluates the same under any
/// larger budget.
pub proof fn lemma_run_seq_more_fuel(
    f1: nat,
    f2: nat,
    code: Seq<Instruction>,
    funcs: Seq<ModuleFunction>,
    eps: Seq<usize>,
    locals: Seq<i32>,
    st: VmState,
)
    requires
        f1 <= f2,
        run_seq(f1, code, funcs, eps, locals, st) != fail(Trap::OutOfFuel),
    ensures
        run_seq(f2, code, funcs, eps, locals, st) == run_seq(f1, code, funcs, eps, locals, st),
    decreases f1, 2nat, code.len(),
{
    if code.len() != 0 {
        lemma_run_instr_more_fuel(f1, f2, code[0], funcs, eps, locals, st);
        match run_instr(f1, code[0], funcs, eps, locals, st) {
            Outcome::Done { st: st1, ctl: None } => {
                lemma_run_seq_more_fuel(f1, f2, code.drop_first(), funcs, eps, locals, st1);
            },
            _ => {},
        }
    }
}

/// As `lemma_run_seq_more_fuel`, for one instruction.
pub proof fn lemma_run_instr_more_fuel(
    f1: nat,
    f2: nat,
    i: Instruction,
    funcs: Seq<ModuleFunction>,
    eps: Seq<usize>,
    locals: Seq<i32>,
    st: VmState,
)
    requires
        f1 <= f2,
        run_instr(f1, i, funcs, eps, locals, st) != fail(Trap::OutOfFuel),
    ensures
        run_instr(f2, i, funcs, eps, locals, st) == run_instr(f1, i, funcs, eps, locals, st),
    decreases f1, 1nat, 0nat,
{
    match i {
        Instruction::Call(FuncIdx(fi)) => {
            if fi < funcs.len() {
                lemma_call_module_more_fuel(f1, f2, funcs[fi as int], funcs, eps, st);
            }
        },
        Instruction::Block(_, body) => {
            lemma_run_seq_more_fuel(
                (f1 - 1) as nat,
                (f2 - 1) as nat,
                body@,
                funcs,
                eps,
                locals,
                st,
            );
        },
        Instruction::Loop(_, body) => {
            lemma_run_seq_more_fuel(
                (f1 - 1) as nat,
                (f2 - 1) as nat,
                body@,
                funcs,
                eps,
                locals,
                st,
            );
            match run_seq((f1 - 1) as nat, body@, funcs, eps, locals, st) {
                Outcome::Done { st: st1, ctl: None } => {
                    lemma_run_instr_more_fuel((f1 - 1) as nat, (f2 - 1) as nat, i, funcs, eps, locals, st1);
                },
                Outcome::Done { st: st1, ctl: Some(ControlFlow::Branch(l)) } => {
                    if l == 0 {
                        lemma_run_instr_more_fuel(
                            (f1 - 1) as nat,
                            (f2 - 1) as nat,
                            i,
                            funcs,
                            eps,
                            locals,
                            st1,
                        );
                    }
                },
                _ => {},
            }
        },
        _ => {},
    }
}

/// As `lemma_run_seq_more_fuel`, for a call into a module function.
pub proof fn lemma_call_module_more_fuel(
    f1: nat,
    f2: nat,
    f: ModuleFunction,
    funcs: Seq<ModuleFunction>,
    eps: Seq<usize>,
    st: VmState,
)
    requires
        f1 <= f2,
        call_module(f1, f, funcs, eps, st) != fail(Trap::OutOfFuel),
    ensures
        call_module(f2, f, funcs, eps, st) == call_module(f1, f, funcs, eps, st),
    decreases f1, 0nat, 0nat,
{
    if st.stack.len() >= f.param_count {
        let args = st.stack.skip(st.stack.len() - f.param_count);
        let inner = vm_state(st.stack.take(st.stack.len() - f.param_count), st.memory, st.oracle);
        lemma_run_seq_more_fuel((f1 - 1) as nat, (f2 - 1) as nat, f.code@, funcs, eps, args, inner);
    }
}

/// Without host functions, execution is deterministic: the oracle is
/// never consumed, and the run reaches the same stack, memory and
/// control result whatever oracle the state carries.
pub proof fn lemma_run_seq_no_hosts(
    fuel: nat,
    code: Seq<Instruction>,
    funcs: Seq<ModuleFunction>,
    locals: Seq<i32>,
    st: VmState,
    o2: Seq<Option<i32>>,
)
    ensures
        (run_seq(fuel, code, funcs, Seq::empty(), locals, st) matches Outcome::Done {
            st: st1,
            ctl,
        } ==> st1.oracle == st.oracle && run_seq(
            fuel,
            code,
            funcs,
            Seq::empty(),
            locals,
            vm_state(st.stack, st.memory, o2),
        ) == done(vm_state(st1.stack, st1.memory, o2), ctl)),
        (run_seq(fuel, code, funcs, Seq::empty(), locals, st) matches Outcome::Fail { trap }
            ==> run_seq(fuel, code, funcs, Seq::empty(), locals, vm_state(st.stack, st.memory, o2))
            == fail(trap)),
    decreases fuel, 2nat, code.len(),
{
    if code.len() != 0 {
        lemma_run_instr_no_hosts(fuel, code[0], funcs, locals, st, o2);
        match run_instr(fuel, code[0], funcs, Seq::empty(), locals, st) {
            Outcome::Done { st: st1, ctl: None } => {
                lemma_run_seq_no_hosts(fuel, code.drop_first(), funcs, locals, st1, o2);
            },
            _ => {},
        }
    }
}

/// As `lemma_run_seq_no_hosts`, for one instruction.
pub proof fn lemma_run_instr_no_hosts(
    fuel: nat,
    i: Instruction,
    funcs: Seq<ModuleFunction>,
    locals: Seq<i32>,
    st: VmState,
    o2: Seq<Option<i32>>,
)
    ensures
        (run_instr(fuel, i, funcs, Seq::empty(), locals, st) matches Outcome::Done {
            st: st1,
            ctl,
        } ==> st1.oracle == st.oracle && run_instr(
            fuel,
            i,
            funcs,
            Seq::empty(),
            locals,
            vm_state(st.stack, st.memory, o2),
        ) == done(vm_state(st1.stack, st1.memory, o2), ctl)),
        (run_instr(fuel, i, funcs, Seq::empty(), locals, st) matches Outcome::Fail { trap }
            ==> run_instr(fuel, i, funcs, Seq::empty(), locals, vm_state(st.stack, st.memory, o2))
            == fail(trap)),
    decreases fuel, 1nat, 0nat,
{
    match i {
        Instruction::Call(FuncIdx(fi)) => {
            if fi < funcs.len() {
                lemma_call_module_no_hosts(fuel, funcs[fi as int], funcs, st, o2);
            }
        },
        Instruction::Block(_, body) => {
            if fuel > 0 {
                lemma_run_seq_no_hosts((fuel - 1) as nat, body@, funcs, locals, st, o2);
            }
        },
        Instruction::Loop(_, body) => {
            if fuel > 0 {
                lemma_run_seq_no_hosts((fuel - 1) as nat, body@, funcs, locals, st, o2);
                match run_seq((fuel - 1) as nat, body@, funcs, Seq::empty(), locals, st) {
                    Outcome::Done { st: st1, ctl: None } => {
                        lemma_run_instr_no_hosts((fuel - 1) as nat, i, funcs, locals, st1, o2);
                    },
                    Outcome::Done { st: st1, ctl: Some(ControlFlow::Branch(l)) } => {
                        if l == 0 {
                            lemma_run_instr_no_hosts((fuel - 1) as nat, i, funcs, locals, st1, o2);
                        }
                    },
                    _ => {},
                }
            }
        },
        _ => {},
    }
}

/// As `lemma_run_seq_no_hosts`, for a call into a module function.
pub proof fn lemma_call_module_no_hosts(
    fuel: nat,
    f: ModuleFunction,
    funcs: Seq<ModuleFunction>,
    st: VmState,
    o2: Seq<Option<i32>>,
)
    ensures
        (call_module(fuel, f, funcs, Seq::empty(), st) matches Outcome::Done { st: st1, ctl }
            ==> st1.oracle == st.oracle && call_module(
            fuel,
            f,
            funcs,
            Seq::empty(),
            vm_state(st.stack, st.memory, o2),
        ) == done(vm_state(st1.stack, st1.memory, o2), ctl)),
        (call_module(fuel, f, funcs, Seq::empty(), st) matches Outcome::Fail { trap }
            ==> call_module(fuel, f, funcs, Seq::empty(), vm_state(st.stack, st.memory, o2))
            == fail(trap)),
    decreases fuel, 0nat, 0nat,
{
    if st.stack.len() >= f.param_count && fuel > 0 {
        let args = st.stack.skip(st.stack.len() - f.param_count);
        let inner = vm_state(st.stack.take(st.stack.len() - f.param_count), st.memory, st.oracle);
        lemma_run_seq_no_hosts((fuel - 1) as nat, f.code@, funcs, args, inner, o2);
    }
}

/// A call into a module function that fails before the body runs:
/// too few arguments on the stack, or no fuel to enter the body.
pub proof fn lemma_call_fail(
    fuel: nat,
    f: ModuleFunction,
    funcs: Seq<ModuleFunction>,
    eps: Seq<usize>,
    pre_stack: Seq<i32>,
    pre_mem: Seq<i32>,
    fin_stack: Seq<i32>,
    fin_mem: Seq<i32>,
)
    ensures
        pre_stack.len() < f.param_count ==> call_matches(
            fuel,
            f,
            funcs,
            eps,
            pre_stack,
            pre_mem,
            Err(Trap::StackUnderflow),
            fin_stack,
            fin_mem,
            Seq::empty(),
        ),
        pre_stack.len() >= f.param_count && fuel == 0 ==> call_matches(
            fuel,
            f,
            funcs,
            eps,
            pre_stack,
            pre_mem,
            Err(Trap::OutOfFuel),
            fin_stack,
            fin_mem,
            Seq::empty(),
        ),
{
    if pre_stack.len() < f.param_count {
        assert forall|rest: Seq<Option<i32>>|
            #[trigger] call_module(
                fuel,
                f,
                funcs,
                eps,
                vm_state(pre_stack, pre_mem, Seq::<Option<i32>>::empty() + rest),
            ) == fail(Trap::StackUnderflow) by {
            assert(Seq::<Option<i32>>::empty() + rest =~= rest);
        }
    } else if fuel == 0 {
        assert forall|rest: Seq<Option<i32>>|
            #[trigger] call_module(
                fuel,
                f,
                funcs,
                eps,
                vm_state(pre_stack, pre_mem, Seq::<Option<i32>>::empty() + rest),
            ) == fail(Trap::OutOfFuel) by {
            assert(Seq::<Option<i32>>::empty() + rest =~= rest);
        }
    }
}

/// A call into a module function whose body ran: the arguments left the
/// stack and became the locals, and however the body finished, the call
/// finishes normally; the body's failure is the call's.
pub proof fn lemma_call_body(
    fuel: nat,
    f: ModuleFunction,
    funcs: Seq<ModuleFunction>,
    eps: Seq<usize>,
    pre_stack: Seq<i32>,
    pre_mem: Seq<i32>,
    sub: Result<Option<ControlFlow>, Trap>,
    r: Result<(), Trap>,
    post_stack: Seq<i32>,
    post_mem: Seq<i32>,
    calls_sub: Seq<Option<i32>>,
)
    requires
        pre_stack.len() >= f.param_count,
        fuel > 0,
        invoke_matches(
            (fuel - 1) as nat,
            f.code@,
            funcs,
            eps,
            pre_stack.skip(pre_stack.len() - f.param_count),
            pre_stack.take(pre_stack.len() - f.param_count),
            pre_mem,
            sub,
            post_stack,
            post_mem,
            calls_sub,
        ),
        r == (match sub {
            Ok(_) => Ok::<(), Trap>(()),
            Err(t) => Err::<(), Trap>(t),
        }),
    ensures
        call_matches(fuel, f, funcs, eps, pre_stack, pre_mem, r, post_stack, post_mem, calls_sub),
{
    assert forall|rest: Seq<Option<i32>>|
        #[trigger] call_module(fuel, f, funcs, eps, vm_state(pre_stack, pre_mem, calls_sub + rest))
            == (match r {
            Ok(_) => done(vm_state(post_stack, post_mem, rest), None),
            Err(t) => fail(t),
        }) by {
        assert(run_seq(
            (fuel - 1) as nat,
            f.code@,
            funcs,
            eps,
            pre_stack.skip(pre_stack.len() - f.param_count),
            vm_state(pre_stack.take(pre_stack.len() - f.param_count), pre_mem, calls_sub + rest),
        ) == outcome_of(sub, vm_state(post_stack, post_mem, rest)));
    }
}

} // verus!
