//! The interpreter: a stack machine over decoded instruction trees, with
//! structured branching, calls into module-defined code, and calls out to
//! host functions.
//!
//! Execution is bounded by an explicit fuel argument, consumed each time
//! a nested body is entered; a run that exhausts it stops with
//! [`Trap::OutOfFuel`]. Every other run-time fault — stack underflow, an
//! out-of-range local, memory cell or function index, or an instruction
//! the interpreter does not support — stops execution with the matching
//! [`Trap`] instead of going on.
use vstd::prelude::*;

use crate::semantics::{
    call_matches, extern_params, host_stack, invoke_matches, lemma_call_body, lemma_call_fail,
    lemma_continue, lemma_finish_ctl, lemma_finish_end, lemma_finish_fail, lemma_instr_binop,
    lemma_instr_block, lemma_instr_branch_if, lemma_instr_call_extern_fail,
    lemma_instr_call_extern_ok, lemma_instr_call_module, lemma_instr_const, lemma_instr_exit,
    lemma_instr_load, lemma_instr_local_get, lemma_instr_no_fuel, lemma_instr_store,
    lemma_instr_unsupported, lemma_loop_enter, lemma_loop_finish, lemma_loop_iterate,
    lemma_loop_no_fuel, lemma_progress_zero, loop_inv, seq_progress,
};
use crate::wasm::{BlockType, FuncIdx, Instruction, LabelIdx, LocalIdx};

verus! {

/// How a body finished when it did not fall off the end: by `Return`,
/// which unwinds the whole call, or by `Branch(n)`, which unwinds `n`
/// enclosing structured blocks.
#[derive(Debug, Clone, Copy, PartialEq, Eq, Structural)]
pub enum ControlFlow {
    Return,
    Branch(usize),
}

/// Why a run stopped without finishing.
#[derive(Debug, Clone, Copy, PartialEq, Eq, Structural)]
pub enum Trap {
    /// An instruction needed more operands than the stack held.
    StackUnderflow,
    /// A load or store addressed a cell outside the linear memory.
    MemoryOutOfBounds,
    /// A `LocalGet` addressed a slot outside the locals frame.
    LocalOutOfBounds,
    /// A call addressed an index past both function vectors.
    FunctionOutOfBounds,
    /// An instruction the interpreter does not execute (`Unreachable`,
    /// `If`, variable writes, global or floating-point instructions).
    UnsupportedInstruction,
    /// The fuel budget ran out before the body finished.
    OutOfFuel,
}

/// A host callback. It receives the arguments popped for it, in their
/// original pushed order, and may produce one result to push back.
pub trait HostFunction {
    fn call(&mut self, args: &[i32]) -> Option<i32>;
}

/// A host function together with the number of arguments it consumes
/// from the operand stack.
pub struct ExternFunction<F> {
    pub param_count: usize,
    pub fun: F,
}

/// A function defined inside the module: how many parameters it pops
/// into its locals frame, and its body.
pub struct ModuleFunction {
    pub param_count: usize,
    pub code: Vec<Instruction>,
}

/// The interpreter state: the operand stack and the linear memory,
/// plus a flag drivers may use to ask for tracing.
pub struct Machine {
    pub stack: Vec<i32>,
    pub memory: Vec<i32>,
    pub debugging: bool,
}

impl<F: HostFunction> ExternFunction<F> {
    /// Calls the host function against the machine: pops `param_count`
    /// arguments (failing with `StackUnderflow` when the stack is
    /// shorter), hands them over in pushed order, and pushes the result
    /// if the host produced one. Nothing more is known of the result:
    /// the contract holds whatever the host returns.
    pub fn call(&mut self, machine: &mut Machine) -> (r: Result<(), Trap>)
        ensures
            final(self).param_count == old(self).param_count,
            final(machine).memory == old(machine).memory,
            final(machine).debugging == old(machine).debugging,
            old(machine).stack@.len() < old(self).param_count ==> r == Err::<(), Trap>(
                Trap::StackUnderflow,
            ) && final(machine).stack == old(machine).stack,
            old(machine).stack@.len() >= old(self).param_count ==> r == Ok::<(), Trap>(())
                && (exists|res: Option<i32>|
                final(machine).stack@ == host_stack(
                    old(machine).stack@,
                    old(self).param_count as int,
                    res,
                )),
    {
        if machine.stack.len() < self.param_count {
            return Err(Trap::StackUnderflow);
        }
        let at = machine.stack.len() - self.param_count;
        let args = machine.stack.split_off(at);
        let res = self.fun.call(args.as_slice());
        proof {
            assert(machine.stack@ == old(machine).stack@.take(
                old(machine).stack@.len() - old(self).param_count,
            ));
        }
        match res {
            Some(v) => {
                machine.stack.push(v);
                proof {
                    assert(machine.stack@ == host_stack(
                        old(machine).stack@,
                        old(self).param_count as int,
                        Some(v),
                    ));
                }
            },
            None => {
                proof {
                    assert(machine.stack@ == host_stack(
                        old(machine).stack@,
                        old(self).param_count as int,
                        None,
                    ));
                }
            },
        }
        Ok(())
    }
}

impl ModuleFunction {
    /// Calls this module function against the machine: pops
    /// `param_count` arguments off the operand stack into a fresh locals
    /// frame and runs the body with one unit of fuel spent. Whatever
    /// control result the body produced is discarded: a call traps
    /// structured control flow. The contract ties the call to
    /// [`crate::semantics::call_module`], the evaluator's account of
    /// exactly this step.
    pub fn call<F: HostFunction>(
        &self,
        machine: &mut Machine,
        module_functions: &Vec<ModuleFunction>,
        extern_functions: &mut Vec<ExternFunction<F>>,
        fuel: u64,
    ) -> (r: Result<(), Trap>)
        ensures
            final(machine).debugging == old(machine).debugging,
            final(machine).memory@.len() == old(machine).memory@.len(),
            final(extern_functions)@.len() == old(extern_functions)@.len(),
            extern_params(final(extern_functions)@) == extern_params(old(extern_functions)@),
            (exists|calls: Seq<Option<i32>>|
                call_matches(
                    fuel as nat,
                    *self,
                    module_functions@,
                    extern_params(old(extern_functions)@),
                    old(machine).stack@,
                    old(machine).memory@,
                    r,
                    final(machine).stack@,
                    final(machine).memory@,
                    calls,
                )),
        decreases fuel, 0int,
    {
        let ghost funcs = module_functions@;
        let ghost eps = extern_params(extern_functions@);
        let ghost pre_stack = machine.stack@;
        let ghost pre_mem = machine.memory@;
        if machine.stack.len() < self.param_count {
            proof {
                lemma_call_fail(
                    fuel as nat,
                    *self,
                    funcs,
                    eps,
                    pre_stack,
                    pre_mem,
                    machine.stack@,
                    machine.memory@,
                );
            }
            return Err(Trap::StackUnderflow);
        }
        if fuel == 0 {
            proof {
                lemma_call_fail(
                    fuel as nat,
                    *self,
                    funcs,
                    eps,
                    pre_stack,
                    pre_mem,
                    machine.stack@,
                    machine.memory@,
                );
            }
            return Err(Trap::OutOfFuel);
        }
        let at = machine.stack.len() - self.param_count;
        let mut args = machine.stack.split_off(at);
        let sub = machine.invoke(&self.code, module_functions, extern_functions, &mut args, fuel - 1);
        let r: Result<(), Trap> = match sub {
            Ok(_) => Ok(()),
            Err(t) => Err(t),
        };
        proof {
            let calls_sub = choose|c: Seq<Option<i32>>|
                #[trigger] invoke_matches(
                    (fuel - 1) as nat,
                    self.code@,
                    funcs,
                    eps,
                    pre_stack.skip(at as int),
                    pre_stack.take(at as int),
                    pre_mem,
                    sub,
                    machine.stack@,
                    machine.memory@,
                    c,
                );
            assert(invoke_matches(
                (fuel - 1) as nat,
                self.code@,
                funcs,
                eps,
                pre_stack.skip(at as int),
                pre_stack.take(at as int),
                pre_mem,
                sub,
                machine.stack@,
                machine.memory@,
                calls_sub,
            ));
            assert(at as int == pre_stack.len() - self.param_count);
            assert((fuel as nat - 1) as nat == (fuel - 1) as nat);
            lemma_call_body(
                fuel as nat,
                *self,
                funcs,
                eps,
                pre_stack,
                pre_mem,
                sub,
                r,
                machine.stack@,
                machine.memory@,
                calls_sub,
            );
        }
        r
    }
}

impl Machine {
    /// A fresh machine: empty stack, ten zeroed memory cells.
    pub fn new() -> (m: Machine)
        ensures
            m.stack@ == Seq::<i32>::empty(),
            m.memory@.len() == 10,
            forall|j: int| 0 <= j < m.memory@.len() ==> m.memory@[j] == 0i32,
            m.debugging,
    {
        let mut memory: Vec<i32> = Vec::new();
        let mut j: usize = 0;
        while j < 10
            invariant
                j <= 10,
                memory@.len() == j,
                forall|k: int| 0 <= k < j ==> memory@[k] == 0i32,
            decreases 10 - j,
        {
            memory.push(0);
            j = j + 1;
        }
        Machine { stack: Vec::new(), memory, debugging: true }
    }

    /// Executes one instruction sequence against this machine: `code` is
    /// the body to run, `module_functions` the functions a `Call` may
    /// dispatch into, `extern_functions` the host functions reachable at
    /// the indices just past them, and `locals` the frame `LocalGet`
    /// reads (it is borrowed mutably but never changed). `fuel` bounds
    /// how many nested bodies — blocks, loop iterations, calls — the run
    /// may enter.
    ///
    /// On success the result reports how the body finished: `None` when
    /// it fell off the end, `Some(Return)` or `Some(Branch(n))` when an
    /// enclosing scope must unwind. On failure the machine stops at the
    /// reported trap instead of panicking.
    ///
    /// The contract says the run is exactly what [`run_seq`] assigns to
    /// `code` under this fuel: there is a sequence of host-call results
    /// `calls` — the ones the host functions actually produced — such
    /// that for every oracle beyond them, evaluation consumes precisely
    /// `calls` and reaches this machine's final stack and memory with
    /// the returned control result.
    ///
    /// [`run_seq`]: crate::semantics::run_seq
    #[verifier::loop_isolation(false)]
    #[verifier::rlimit(100)]
    #[verifier::spinoff_prover]
    pub fn invoke<F: HostFunction>(
        &mut self,
        code: &Vec<Instruction>,
        module_functions: &Vec<ModuleFunction>,
        extern_functions: &mut Vec<ExternFunction<F>>,
        locals: &mut Vec<i32>,
        fuel: u64,
    ) -> (r: Result<Option<ControlFlow>, Trap>)
        ensures
            final(locals)@ == old(locals)@,
            final(self).debugging == old(self).debugging,
            final(self).memory@.len() == old(self).memory@.len(),
            final(extern_functions)@.len() == old(extern_functions)@.len(),
            extern_params(final(extern_functions)@) == extern_params(old(extern_functions)@),
            (exists|calls: Seq<Option<i32>>|
                invoke_matches(
                    fuel as nat,
                    code@,
                    module_functions@,
                    extern_params(old(extern_functions)@),
                    old(locals)@,
                    old(self).stack@,
                    old(self).memory@,
                    r,
                    final(self).stack@,
                    final(self).memory@,
                    calls,
                )),
        decreases fuel, 1int,
    {
        let ghost nf = fuel as nat;
        let ghost funcs = module_functions@;
        let ghost eps = extern_params(extern_functions@);
        let ghost stack0 = self.stack@;
        let ghost mem0 = self.memory@;
        let ghost locals0 = locals@;
        let ghost dbg0 = self.debugging;
        let ghost elen0 = extern_functions@.len();
        let ghost mut calls_acc: Seq<Option<i32>> = Seq::empty();
        proof {
            lemma_progress_zero(nf, code@, funcs, eps, locals0, stack0, mem0);
        }
        let mut idx: usize = 0;
        while idx < code.len()
            invariant
                idx <= code@.len(),
                locals@ == locals0,
                self.debugging == dbg0,
                self.memory@.len() == mem0.len(),
                extern_functions@.len() == elen0,
                extern_params(extern_functions@) == eps,
                seq_progress(
                    nf,
                    code@,
                    idx as int,
                    funcs,
                    eps,
                    locals0,
                    stack0,
                    mem0,
                    calls_acc,
                    self.stack@,
                    self.memory@,
                ),
            decreases code@.len() - idx,
        {
            let ghost pre_stack = self.stack@;
            let ghost pre_mem = self.memory@;
            let ghost cur = code@[idx as int];
            let ghost e: Seq<Option<i32>> = Seq::empty();
            let instr = &code[idx];
            match instr {
                Instruction::I32Const(value) => {
                    let v = *value;
                    self.stack.push(v);
                    proof {
                        lemma_instr_const(nf, cur, funcs, eps, locals0, pre_stack, pre_mem, v);
                        lemma_continue(nf, code@, idx as int, funcs, eps, locals0, stack0, mem0, calls_acc, e, pre_stack, pre_mem, self.stack@, self.memory@);
                        calls_acc = calls_acc + e;
                    }
                },
                Instruction::I32Load(memarg) => {
                    let m = *memarg;
                    proof {
                        lemma_instr_load(nf, cur, funcs, eps, locals0, pre_stack, pre_mem, m);
                    }
                    if m.offset >= self.memory.len() {
                        proof {
                            lemma_finish_fail(nf, code@, idx as int, funcs, eps, locals0, stack0, mem0, calls_acc, e, pre_stack, pre_mem, Trap::MemoryOutOfBounds, self.stack@, self.memory@);
                        }
                        return Err(Trap::MemoryOutOfBounds);
                    }
                    let value = self.memory[m.offset];
                    self.stack.push(value);
                    proof {
                        lemma_continue(nf, code@, idx as int, funcs, eps, locals0, stack0, mem0, calls_acc, e, pre_stack, pre_mem, self.stack@, self.memory@);
                        calls_acc = calls_acc + e;
                    }
                },
                Instruction::I32Store(memarg) => {
                    let m = *memarg;
                    proof {
                        lemma_instr_store(nf, cur, funcs, eps, locals0, pre_stack, pre_mem, m);
                    }
                    let value = match self.stack.pop() {
                        Some(v) => v,
                        None => {
                            proof {
                                lemma_finish_fail(nf, code@, idx as int, funcs, eps, locals0, stack0, mem0, calls_acc, e, pre_stack, pre_mem, Trap::StackUnderflow, self.stack@, self.memory@);
                            }
                            return Err(Trap::StackUnderflow);
                        },
                    };
                    if m.offset >= self.memory.len() {
                        proof {
                            lemma_finish_fail(nf, code@, idx as int, funcs, eps, locals0, stack0, mem0, calls_acc, e, pre_stack, pre_mem, Trap::MemoryOutOfBounds, self.stack@, self.memory@);
                        }
                        return Err(Trap::MemoryOutOfBounds);
                    }
                    self.memory[m.offset] = value;
                    proof {
                        assert(self.stack@ =~= pre_stack.drop_last());
                        assert(value == pre_stack.last());
                        lemma_continue(nf, code@, idx as int, funcs, eps, locals0, stack0, mem0, calls_acc, e, pre_stack, pre_mem, self.stack@, self.memory@);
                        calls_acc = calls_acc + e;
                    }
                },
                Instruction::I32Add | Instruction::I32Sub | Instruction::I32Mul
                | Instruction::I32Eq => {
                    let right = match self.stack.pop() {
                        Some(v) => v,
                        None => {
                            proof {
                                lemma_instr_binop(nf, cur, funcs, eps, locals0, pre_stack, pre_mem, 0i32);
                                lemma_finish_fail(nf, code@, idx as int, funcs, eps, locals0, stack0, mem0, calls_acc, e, pre_stack, pre_mem, Trap::StackUnderflow, self.stack@, self.memory@);
                            }
                            return Err(Trap::StackUnderflow);
                        },
                    };
                    let left = match self.stack.pop() {
                        Some(v) => v,
                        None => {
                            proof {
                                lemma_instr_binop(nf, cur, funcs, eps, locals0, pre_stack, pre_mem, 0i32);
                                lemma_finish_fail(nf, code@, idx as int, funcs, eps, locals0, stack0, mem0, calls_acc, e, pre_stack, pre_mem, Trap::StackUnderflow, self.stack@, self.memory@);
                            }
                            return Err(Trap::StackUnderflow);
                        },
                    };
                    let result = match instr {
                        Instruction::I32Add => left.wrapping_add(right),
                        Instruction::I32Sub => left.wrapping_sub(right),
                        Instruction::I32Mul => left.wrapping_mul(right),
                        _ => if left == right {
                            1
                        } else {
                            0
                        },
                    };
                    self.stack.push(result);
                    proof {
                        assert(pre_stack.subrange(0, pre_stack.len() - 1) =~= pre_stack.drop_last());
                        assert(right == pre_stack.last());
                        assert(left == pre_stack.drop_last().last());
                        lemma_instr_binop(nf, cur, funcs, eps, locals0, pre_stack, pre_mem, result);
                        assert(self.stack@ =~= pre_stack.drop_last().drop_last().push(result));
                        lemma_continue(nf, code@, idx as int, funcs, eps, locals0, stack0, mem0, calls_acc, e, pre_stack, pre_mem, self.stack@, self.memory@);
                        calls_acc = calls_acc + e;
                    }
                },
                Instruction::LocalGet(LocalIdx(slot)) => {
                    let slot = *slot;
                    proof {
                        lemma_instr_local_get(nf, cur, funcs, eps, locals0, pre_stack, pre_mem, slot);
                    }
                    if slot >= locals.len() {
                        proof {
                            lemma_finish_fail(nf, code@, idx as int, funcs, eps, locals0, stack0, mem0, calls_acc, e, pre_stack, pre_mem, Trap::LocalOutOfBounds, self.stack@, self.memory@);
                        }
                        return Err(Trap::LocalOutOfBounds);
                    }
                    let value = locals[slot];
                    self.stack.push(value);
                    proof {
                        lemma_continue(nf, code@, idx as int, funcs, eps, locals0, stack0, mem0, calls_acc, e, pre_stack, pre_mem, self.stack@, self.memory@);
                        calls_acc = calls_acc + e;
                    }
                },
                Instruction::Call(FuncIdx(function_index)) => {
                    let function_index = *function_index;
                    if function_index < module_functions.len() {
                        let sub = module_functions[function_index].call(
                            self,
                            module_functions,
                            extern_functions,
                            fuel,
                        );
                        let ghost calls_sub = choose|c: Seq<Option<i32>>|
                            #[trigger] call_matches(nf, funcs[function_index as int], funcs, eps, pre_stack, pre_mem, sub, self.stack@, self.memory@, c);
                        proof {
                            assert(call_matches(nf, funcs[function_index as int], funcs, eps, pre_stack, pre_mem, sub, self.stack@, self.memory@, calls_sub));
                            lemma_instr_call_module(nf, cur, function_index, funcs, eps, locals0, pre_stack, pre_mem, sub, self.stack@, self.memory@, calls_sub);
                        }
                        match sub {
                            Ok(_) => {
                                proof {
                                    lemma_continue(nf, code@, idx as int, funcs, eps, locals0, stack0, mem0, calls_acc, calls_sub, pre_stack, pre_mem, self.stack@, self.memory@);
                                    calls_acc = calls_acc + calls_sub;
                                }
                            },
                            Err(t) => {
                                proof {
                                    lemma_finish_fail(nf, code@, idx as int, funcs, eps, locals0, stack0, mem0, calls_acc, calls_sub, pre_stack, pre_mem, t, self.stack@, self.memory@);
                                }
                                return Err(t);
                            },
                        }
                    } else {
                        let k = function_index - module_functions.len();
                        proof {
                            assert(eps.len() == elen0);
                            lemma_instr_call_extern_fail(nf, cur, function_index, funcs, eps, locals0, pre_stack, pre_mem);
                        }
                        if k >= extern_functions.len() {
                            proof {
                                lemma_finish_fail(nf, code@, idx as int, funcs, eps, locals0, stack0, mem0, calls_acc, e, pre_stack, pre_mem, Trap::FunctionOutOfBounds, self.stack@, self.memory@);
                            }
                            return Err(Trap::FunctionOutOfBounds);
                        }
                        proof {
                            assert(eps[k as int] == extern_functions@[k as int].param_count);
                        }
                        let ghost pre_ext = extern_functions@;
                        let sub = extern_functions[k].call(self);
                        proof {
                            assert forall|j: int| 0 <= j < elen0 implies #[trigger] extern_params(
                                extern_functions@,
                            )[j] == eps[j] by {
                                assert(extern_params(extern_functions@)[j] == extern_functions@[j].param_count);
                                assert(extern_params(pre_ext)[j] == pre_ext[j].param_count);
                            }
                            assert(extern_params(extern_functions@) =~= eps);
                        }
                        match sub {
                            Err(t) => {
                                proof {
                                    lemma_finish_fail(nf, code@, idx as int, funcs, eps, locals0, stack0, mem0, calls_acc, e, pre_stack, pre_mem, Trap::StackUnderflow, self.stack@, self.memory@);
                                }
                                return Err(t);
                            },
                            Ok(_) => {
                                let ghost res = choose|res: Option<i32>|
                                    self.stack@ == #[trigger] host_stack(pre_stack, eps[k as int] as int, res);
                                proof {
                                    assert(self.stack@ == host_stack(pre_stack, eps[k as int] as int, res));
                                    lemma_instr_call_extern_ok(nf, cur, function_index, funcs, eps, locals0, pre_stack, pre_mem, res);
                                    lemma_continue(nf, code@, idx as int, funcs, eps, locals0, stack0, mem0, calls_acc, seq![res], pre_stack, pre_mem, self.stack@, self.memory@);
                                    calls_acc = calls_acc + seq![res];
                                }
                            },
                        }
                    }
                },
                Instruction::Return => {
                    proof {
                        lemma_instr_exit(nf, cur, funcs, eps, locals0, pre_stack, pre_mem);
                        lemma_finish_ctl(nf, code@, idx as int, funcs, eps, locals0, stack0, mem0, calls_acc, e, pre_stack, pre_mem, self.stack@, self.memory@, Some(ControlFlow::Return));
                    }
                    return Ok(Some(ControlFlow::Return));
                },
                Instruction::Branch(LabelIdx(level)) => {
                    let level = *level;
                    proof {
                        lemma_instr_exit(nf, cur, funcs, eps, locals0, pre_stack, pre_mem);
                        lemma_finish_ctl(nf, code@, idx as int, funcs, eps, locals0, stack0, mem0, calls_acc, e, pre_stack, pre_mem, self.stack@, self.memory@, Some(ControlFlow::Branch(level)));
                    }
                    return Ok(Some(ControlFlow::Branch(level)));
                },
                Instruction::BranchIf(LabelIdx(level)) => {
                    let level = *level;
                    proof {
                        lemma_instr_branch_if(nf, cur, funcs, eps, locals0, pre_stack, pre_mem, level);
                    }
                    let condition = match self.stack.pop() {
                        Some(v) => v,
                        None => {
                            proof {
                                lemma_finish_fail(nf, code@, idx as int, funcs, eps, locals0, stack0, mem0, calls_acc, e, pre_stack, pre_mem, Trap::StackUnderflow, self.stack@, self.memory@);
                            }
                            return Err(Trap::StackUnderflow);
                        },
                    };
                    proof {
                        assert(self.stack@ =~= pre_stack.drop_last());
                        assert(condition == pre_stack.last());
                    }
                    if condition != 0 {
                        proof {
                            lemma_finish_ctl(nf, code@, idx as int, funcs, eps, locals0, stack0, mem0, calls_acc, e, pre_stack, pre_mem, self.stack@, self.memory@, Some(ControlFlow::Branch(level)));
                        }
                        return Ok(Some(ControlFlow::Branch(level)));
                    }
                    proof {
                        lemma_continue(nf, code@, idx as int, funcs, eps, locals0, stack0, mem0, calls_acc, e, pre_stack, pre_mem, self.stack@, self.memory@);
                        calls_acc = calls_acc + e;
                    }
                },
                Instruction::Block(_, body) => {
                    proof {
                        assert(cur == Instruction::Block(BlockType::Empty, *body));
                    }
                    if fuel == 0 {
                        proof {
                            lemma_instr_no_fuel(nf, cur, funcs, eps, locals0, pre_stack, pre_mem);
                            lemma_finish_fail(nf, code@, idx as int, funcs, eps, locals0, stack0, mem0, calls_acc, e, pre_stack, pre_mem, Trap::OutOfFuel, self.stack@, self.memory@);
                        }
                        return Err(Trap::OutOfFuel);
                    }
                    let sub = self.invoke(body, module_functions, extern_functions, locals, fuel - 1);
                    let ghost calls_sub = choose|c: Seq<Option<i32>>|
                        #[trigger] invoke_matches((fuel - 1) as nat, body@, funcs, eps, locals0, pre_stack, pre_mem, sub, self.stack@, self.memory@, c);
                    proof {
                        assert(invoke_matches((fuel - 1) as nat, body@, funcs, eps, locals0, pre_stack, pre_mem, sub, self.stack@, self.memory@, calls_sub));
                        assert((nf - 1) as nat == (fuel - 1) as nat);
                        lemma_instr_block(nf, cur, *body, funcs, eps, locals0, pre_stack, pre_mem, sub, self.stack@, self.memory@, calls_sub);
                    }
                    match sub {
                        Err(t) => {
                            proof {
                                lemma_finish_fail(nf, code@, idx as int, funcs, eps, locals0, stack0, mem0, calls_acc, calls_sub, pre_stack, pre_mem, t, self.stack@, self.memory@);
                            }
                            return Err(t);
                        },
                        Ok(None) => {
                            proof {
                                lemma_continue(nf, code@, idx as int, funcs, eps, locals0, stack0, mem0, calls_acc, calls_sub, pre_stack, pre_mem, self.stack@, self.memory@);
                                calls_acc = calls_acc + calls_sub;
                            }
                        },
                        Ok(Some(ControlFlow::Return)) => {
                            proof {
                                lemma_finish_ctl(nf, code@, idx as int, funcs, eps, locals0, stack0, mem0, calls_acc, calls_sub, pre_stack, pre_mem, self.stack@, self.memory@, Some(ControlFlow::Return));
                            }
                            return Ok(Some(ControlFlow::Return));
                        },
                        Ok(Some(ControlFlow::Branch(level))) => {
                            if level > 0 {
                                proof {
                                    lemma_finish_ctl(nf, code@, idx as int, funcs, eps, locals0, stack0, mem0, calls_acc, calls_sub, pre_stack, pre_mem, self.stack@, self.memory@, Some(ControlFlow::Branch((level - 1) as usize)));
                                }
                                return Ok(Some(ControlFlow::Branch(level - 1)));
                            }
                            proof {
                                lemma_continue(nf, code@, idx as int, funcs, eps, locals0, stack0, mem0, calls_acc, calls_sub, pre_stack, pre_mem, self.stack@, self.memory@);
                                calls_acc = calls_acc + calls_sub;
                            }
                        },
                    }
                },
                Instruction::Loop(_, body) => {
                    proof {
                        assert(cur == Instruction::Loop(BlockType::Empty, *body));
                    }
                    let ghost mut lcalls: Seq<Option<i32>> = Seq::empty();
                    let mut lfuel: u64 = fuel;
                    proof {
                        lemma_loop_enter(nf, cur, funcs, eps, locals0, pre_stack, pre_mem);
                    }
                    loop
                        invariant
                            lfuel <= fuel,
                            locals@ == locals0,
                            self.debugging == dbg0,
                            self.memory@.len() == mem0.len(),
                            extern_functions@.len() == elen0,
                            extern_params(extern_functions@) == eps,
                            loop_inv(
                                nf,
                                lfuel as nat,
                                cur,
                                funcs,
                                eps,
                                locals0,
                                pre_stack,
                                pre_mem,
                                lcalls,
                                self.stack@,
                                self.memory@,
                            ),
                        decreases lfuel,
                    {
                        let ghost it_stack = self.stack@;
                        let ghost it_mem = self.memory@;
                        if lfuel == 0 {
                            proof {
                                lemma_loop_no_fuel(nf, cur, funcs, eps, locals0, pre_stack, pre_mem, lcalls, it_stack, it_mem);
                                lemma_finish_fail(nf, code@, idx as int, funcs, eps, locals0, stack0, mem0, calls_acc, lcalls, pre_stack, pre_mem, Trap::OutOfFuel, self.stack@, self.memory@);
                            }
                            return Err(Trap::OutOfFuel);
                        }
                        let sub = self.invoke(body, module_functions, extern_functions, locals, lfuel - 1);
                        let ghost calls_sub = choose|c: Seq<Option<i32>>|
                            #[trigger] invoke_matches((lfuel - 1) as nat, body@, funcs, eps, locals0, it_stack, it_mem, sub, self.stack@, self.memory@, c);
                        proof {
                            assert(invoke_matches((lfuel - 1) as nat, body@, funcs, eps, locals0, it_stack, it_mem, sub, self.stack@, self.memory@, calls_sub));
                            assert((lfuel as nat - 1) as nat == (lfuel - 1) as nat);
                        }
                        match sub {
                            Err(t) => {
                                proof {
                                    lemma_loop_finish(nf, lfuel as nat, cur, *body, funcs, eps, locals0, pre_stack, pre_mem, lcalls, it_stack, it_mem, sub, self.stack@, self.memory@, calls_sub);
                                    lemma_finish_fail(nf, code@, idx as int, funcs, eps, locals0, stack0, mem0, calls_acc, lcalls + calls_sub, pre_stack, pre_mem, t, self.stack@, self.memory@);
                                }
                                return Err(t);
                            },
                            Ok(Some(ControlFlow::Return)) => {
                                proof {
                                    lemma_loop_finish(nf, lfuel as nat, cur, *body, funcs, eps, locals0, pre_stack, pre_mem, lcalls, it_stack, it_mem, sub, self.stack@, self.memory@, calls_sub);
                                    lemma_finish_ctl(nf, code@, idx as int, funcs, eps, locals0, stack0, mem0, calls_acc, lcalls + calls_sub, pre_stack, pre_mem, self.stack@, self.memory@, Some(ControlFlow::Return));
                                }
                                return Ok(Some(ControlFlow::Return));
                            },
                            Ok(None) => {
                                proof {
                                    lemma_loop_iterate(nf, lfuel as nat, cur, *body, funcs, eps, locals0, pre_stack, pre_mem, lcalls, it_stack, it_mem, sub, self.stack@, self.memory@, calls_sub);
                                    lcalls = lcalls + calls_sub;
                                }
                                lfuel = lfuel - 1;
                            },
                            Ok(Some(ControlFlow::Branch(level))) => {
                                if level == 0 {
                                    proof {
                                        lemma_loop_iterate(nf, lfuel as nat, cur, *body, funcs, eps, locals0, pre_stack, pre_mem, lcalls, it_stack, it_mem, sub, self.stack@, self.memory@, calls_sub);
                                        lcalls = lcalls + calls_sub;
                                    }
                                    lfuel = lfuel - 1;
                                } else {
                                    proof {
                                        lemma_loop_finish(nf, lfuel as nat, cur, *body, funcs, eps, locals0, pre_stack, pre_mem, lcalls, it_stack, it_mem, sub, self.stack@, self.memory@, calls_sub);
                                        lemma_finish_ctl(nf, code@, idx as int, funcs, eps, locals0, stack0, mem0, calls_acc, lcalls + calls_sub, pre_stack, pre_mem, self.stack@, self.memory@, Some(ControlFlow::Branch((level - 1) as usize)));
                                    }
                                    return Ok(Some(ControlFlow::Branch(level - 1)));
                                }
                            },
                        }
                    }
                },
                _ => {
                    proof {
                        lemma_instr_unsupported(nf, cur, funcs, eps, locals0, pre_stack, pre_mem);
                        lemma_finish_fail(nf, code@, idx as int, funcs, eps, locals0, stack0, mem0, calls_acc, e, pre_stack, pre_mem, Trap::UnsupportedInstruction, self.stack@, self.memory@);
                    }
                    return Err(Trap::UnsupportedInstruction);
                },
            }
            idx = idx + 1;
        }
        proof {
            lemma_finish_end(nf, code@, funcs, eps, locals0, stack0, mem0, calls_acc, self.stack@, self.memory@);
        }
        Ok(None)
    }
}

} // verus!
