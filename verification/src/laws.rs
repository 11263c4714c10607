//! General facts about execution, proved once and for all against the
//! evaluator in [`crate::semantics`]: how straight-line code moves the
//! operand stack, how loops iterate, what a branch out of a block means,
//! and what a call does to the caller's stack before the callee runs.
use vstd::prelude::*;

use crate::semantics::{
    call_module, done, fail, run_instr, run_seq, vm_state, Outcome, VmState,
};
use crate::vm::{ControlFlow, ModuleFunction, Trap};
use crate::wasm::{BlockType, Instruction, LabelIdx};

verus! {

/// The instructions with no control flow: each one finishes normally
/// (or traps) and moves the operand stack by a fixed amount.
pub open spec fn is_flat(i: Instruction) -> bool {
    ||| i is I32Const
    ||| i is I32Load
    ||| i is I32Store
    ||| i is I32Add
    ||| i is I32Sub
    ||| i is I32Mul
    ||| i is I32Eq
    ||| i is LocalGet
}

/// The stack delta of one flat instruction: what it pushes minus what
/// it pops.
pub open spec fn instr_delta(i: Instruction) -> int {
    match i {
        Instruction::I32Const(_) => 1,
        Instruction::I32Load(_) => 1,
        Instruction::I32Store(_) => -1,
        Instruction::I32Add => -1,
        Instruction::I32Sub => -1,
        Instruction::I32Mul => -1,
        Instruction::I32Eq => -1,
        Instruction::LocalGet(_) => 1,
        _ => 0,
    }
}

/// One flat instruction either traps, or finishes normally having moved
/// the stack by exactly its delta, leaving memory length, locals and
/// the oracle alone.
pub proof fn lemma_flat_instr(
    fuel: nat,
    i: Instruction,
    funcs: Seq<ModuleFunction>,
    eps: Seq<usize>,
    locals: Seq<i32>,
    st: VmState,
)
    requires
        is_flat(i),
    ensures
        (run_instr(fuel, i, funcs, eps, locals, st) matches Outcome::Done { st: st1, ctl }
            ==> ctl is None && st1.stack.len() == st.stack.len() + instr_delta(i)
            && st1.memory.len() == st.memory.len() && st1.oracle == st.oracle),
{
}

/// Straight-line instructions together with `Block`s whose bodies are
/// themselves straight-line: no branches, no calls, no loops. Such code
/// cannot escape early, so its whole stack delta is a static sum.
pub open spec fn no_control(i: Instruction) -> bool
    decreases i,
{
    match i {
        Instruction::Block(_, b) => all_no_control(b@),
        _ => is_flat(i),
    }
}

pub open spec fn all_no_control(code: Seq<Instruction>) -> bool
    decreases code,
{
    if code.len() == 0 {
        true
    } else {
        all_no_control(code.drop_last()) && no_control(code.last())
    }
}

/// The stack delta of an instruction without control flow, counting
/// through nested blocks.
pub open spec fn deep_delta(i: Instruction) -> int
    decreases i,
{
    match i {
        Instruction::Block(_, b) => deep_body_delta(b@),
        _ => instr_delta(i),
    }
}

pub open spec fn deep_body_delta(code: Seq<Instruction>) -> int
    decreases code,
{
    if code.len() == 0 {
        0
    } else {
        deep_body_delta(code.drop_last()) + deep_delta(code.last())
    }
}

/// For every body free of control flow whose evaluation finishes, it
/// finishes normally, and the operand-stack delta of the whole run
/// equals the algebraic sum of the per-instruction deltas, nested
/// blocks included. Memory keeps its length and no host call is
/// consumed.
pub proof fn body_stack_delta(
    fuel: nat,
    code: Seq<Instruction>,
    funcs: Seq<ModuleFunction>,
    eps: Seq<usize>,
    locals: Seq<i32>,
    st: VmState,
)
    requires
        all_no_control(code),
        run_seq(fuel, code, funcs, eps, locals, st) is Done,
    ensures
        (run_seq(fuel, code, funcs, eps, locals, st) matches Outcome::Done { st: st1, ctl }
            ==> ctl is None && st1.stack.len() == st.stack.len() + deep_body_delta(code)
            && st1.memory.len() == st.memory.len() && st1.oracle == st.oracle),
    decreases fuel, 1nat, code.len(),
{
    if code.len() != 0 {
        assert(all_no_control(code.drop_first())) by {
            lemma_all_no_control_index(code);
            lemma_all_no_control_from_index(code.drop_first());
        }
        assert(no_control(code[0])) by {
            lemma_all_no_control_index(code);
        }
        match run_instr(fuel, code[0], funcs, eps, locals, st) {
            Outcome::Done { st: st1, ctl } => {
                instr_stack_delta(fuel, code[0], funcs, eps, locals, st);
                if ctl is None {
                    body_stack_delta(fuel, code.drop_first(), funcs, eps, locals, st1);
                    lemma_deep_body_delta_split(code);
                }
            },
            Outcome::Fail { .. } => {},
        }
    }
}

/// As `body_stack_delta`, for one instruction.
pub proof fn instr_stack_delta(
    fuel: nat,
    i: Instruction,
    funcs: Seq<ModuleFunction>,
    eps: Seq<usize>,
    locals: Seq<i32>,
    st: VmState,
)
    requires
        no_control(i),
    ensures
        (run_instr(fuel, i, funcs, eps, locals, st) matches Outcome::Done { st: st1, ctl }
            ==> ctl is None && st1.stack.len() == st.stack.len() + deep_delta(i)
            && st1.memory.len() == st.memory.len() && st1.oracle == st.oracle),
    decreases fuel, 0nat, 0nat,
{
    match i {
        Instruction::Block(_, b) => {
            if fuel > 0 {
                match run_seq((fuel - 1) as nat, b@, funcs, eps, locals, st) {
                    Outcome::Done { .. } => {
                        body_stack_delta((fuel - 1) as nat, b@, funcs, eps, locals, st);
                    },
                    Outcome::Fail { .. } => {},
                }
            }
        },
        _ => {
            lemma_flat_instr(fuel, i, funcs, eps, locals, st);
        },
    }
}

/// Code without control flow, read one instruction at a time from the
/// front.
proof fn lemma_all_no_control_index(code: Seq<Instruction>)
    requires
        all_no_control(code),
    ensures
        forall|j: int| 0 <= j < code.len() ==> no_control(#[trigger] code[j]),
    decreases code.len(),
{
    if code.len() > 0 {
        lemma_all_no_control_index(code.drop_last());
        assert forall|j: int| 0 <= j < code.len() implies no_control(#[trigger] code[j]) by {
            if j < code.len() - 1 {
                assert(code.drop_last()[j] == code[j]);
            }
        }
    }
}

proof fn lemma_all_no_control_from_index(code: Seq<Instruction>)
    requires
        forall|j: int| 0 <= j < code.len() ==> no_control(#[trigger] code[j]),
    ensures
        all_no_control(code),
    decreases code.len(),
{
    if code.len() > 0 {
        assert forall|j: int| 0 <= j < code.drop_last().len() implies no_control(
            #[trigger] code.drop_last()[j],
        ) by {
            assert(code.drop_last()[j] == code[j]);
        }
        lemma_all_no_control_from_index(code.drop_last());
        assert(no_control(code.last()));
    }
}

/// The static sum splits at the front.
proof fn lemma_deep_body_delta_split(code: Seq<Instruction>)
    requires
        code.len() > 0,
    ensures
        deep_body_delta(code) == deep_delta(code[0]) + deep_body_delta(code.drop_first()),
    decreases code.len(),
{
    if code.len() == 1 {
        assert(code.drop_last() =~= Seq::<Instruction>::empty());
        assert(code.drop_first() =~= Seq::<Instruction>::empty());
        assert(code.last() == code[0]);
    } else {
        lemma_deep_body_delta_split(code.drop_last());
        assert(code.drop_last()[0] == code[0]);
        assert(code.drop_first().drop_last() =~= code.drop_last().drop_first());
        assert(code.drop_first().last() == code.last());
        assert(deep_body_delta(code.drop_first()) == deep_body_delta(code.drop_first().drop_last())
            + deep_delta(code.drop_first().last()));
    }
}

/// Splitting an instruction sequence: evaluating `c1 + c2` is
/// evaluating `c1`, and then, only if `c1` fell off its end normally,
/// evaluating `c2` from where `c1` left off.
pub proof fn lemma_run_seq_append(
    fuel: nat,
    c1: Seq<Instruction>,
    c2: Seq<Instruction>,
    funcs: Seq<ModuleFunction>,
    eps: Seq<usize>,
    locals: Seq<i32>,
    st: VmState,
)
    ensures
        run_seq(fuel, c1 + c2, funcs, eps, locals, st) == (match run_seq(
            fuel,
            c1,
            funcs,
            eps,
            locals,
            st,
        ) {
            Outcome::Done { st: st1, ctl: None } => run_seq(fuel, c2, funcs, eps, locals, st1),
            Outcome::Done { st: st1, ctl: Some(c) } => done(st1, Some(c)),
            Outcome::Fail { trap } => fail(trap),
        }),
    decreases c1.len(),
{
    if c1.len() == 0 {
        assert(c1 + c2 =~= c2);
    } else {
        assert((c1 + c2)[0] == c1[0]);
        assert((c1 + c2).drop_first() =~= c1.drop_first() + c2);
        match run_instr(fuel, c1[0], funcs, eps, locals, st) {
            Outcome::Done { st: st1, ctl: None } => {
                lemma_run_seq_append(fuel, c1.drop_first(), c2, funcs, eps, locals, st1);
            },
            _ => {},
        }
    }
}

/// A `Loop` whose body fell off the end iterates again: running the
/// loop is running it once more from the body's final state, with one
/// unit of fuel spent. The same holds of a body that finished with
/// `Branch(0)`. Termination needs an explicit `Branch` past the loop or
/// a `Return`.
pub proof fn loop_iterates_on_normal_finish(
    fuel: nat,
    bt: BlockType,
    b: Vec<Instruction>,
    funcs: Seq<ModuleFunction>,
    eps: Seq<usize>,
    locals: Seq<i32>,
    st: VmState,
    st1: VmState,
)
    requires
        fuel > 0,
        run_seq((fuel - 1) as nat, b@, funcs, eps, locals, st) == done(st1, None) || run_seq(
            (fuel - 1) as nat,
            b@,
            funcs,
            eps,
            locals,
            st,
        ) == done(st1, Some(ControlFlow::Branch(0))),
    ensures
        run_instr(fuel, Instruction::Loop(bt, b), funcs, eps, locals, st) == run_instr(
            (fuel - 1) as nat,
            Instruction::Loop(bt, b),
            funcs,
            eps,
            locals,
            st1,
        ),
{
}

/// A `Loop` with an empty body never finishes: whatever fuel it is
/// given, it runs out. With no `Branch` and no `Return` inside, a loop
/// is infinite.
pub proof fn loop_empty_body_never_finishes(
    fuel: nat,
    bt: BlockType,
    b: Vec<Instruction>,
    funcs: Seq<ModuleFunction>,
    eps: Seq<usize>,
    locals: Seq<i32>,
    st: VmState,
)
    requires
        b@.len() == 0,
    ensures
        run_instr(fuel, Instruction::Loop(bt, b), funcs, eps, locals, st) == fail(Trap::OutOfFuel),
    decreases fuel,
{
    if fuel > 0 {
        assert(run_seq((fuel - 1) as nat, b@, funcs, eps, locals, st) == done(st, None));
        loop_empty_body_never_finishes((fuel - 1) as nat, bt, b, funcs, eps, locals, st);
        assert(run_instr(fuel, Instruction::Loop(bt, b), funcs, eps, locals, st) == run_instr(
            (fuel - 1) as nat,
            Instruction::Loop(bt, b),
            funcs,
            eps,
            locals,
            st,
        ));
    } else {
        assert(run_instr(fuel, Instruction::Loop(bt, b), funcs, eps, locals, st) == fail(
            Trap::OutOfFuel,
        ));
    }
}

/// A `Block` whose body reaches `Branch(0)` after a prefix that ran
/// normally is observationally the prefix applied once: same final
/// state, normal finish, whatever follows the branch in the body.
pub proof fn block_branch_zero_is_prefix(
    fuel: nat,
    bt: BlockType,
    b: Vec<Instruction>,
    pre: Seq<Instruction>,
    post: Seq<Instruction>,
    funcs: Seq<ModuleFunction>,
    eps: Seq<usize>,
    locals: Seq<i32>,
    st: VmState,
    st1: VmState,
)
    requires
        b@ == pre + seq![Instruction::Branch(LabelIdx(0))] + post,
        run_seq(fuel, pre, funcs, eps, locals, st) == done(st1, None),
    ensures
        run_instr((fuel + 1) as nat, Instruction::Block(bt, b), funcs, eps, locals, st) == done(
            st1,
            None,
        ),
{
    lemma_run_seq_append(
        fuel,
        pre,
        seq![Instruction::Branch(LabelIdx(0))] + post,
        funcs,
        eps,
        locals,
        st,
    );
    assert(b@ =~= pre + (seq![Instruction::Branch(LabelIdx(0))] + post));
    assert((seq![Instruction::Branch(LabelIdx(0))] + post)[0] == Instruction::Branch(LabelIdx(0)));
    assert((seq![Instruction::Branch(LabelIdx(0))] + post).len() > 0);
    assert(run_instr(fuel, Instruction::Branch(LabelIdx(0)), funcs, eps, locals, st1) == done(
        st1,
        Some(ControlFlow::Branch(0)),
    ));
    assert(run_seq(fuel, seq![Instruction::Branch(LabelIdx(0))] + post, funcs, eps, locals, st1)
        == done(st1, Some(ControlFlow::Branch(0))));
    assert(run_seq(fuel, b@, funcs, eps, locals, st) == done(st1, Some(ControlFlow::Branch(0))));
}

/// A `Block` whose body reaches `Branch(k)` with `k > 0` after a prefix
/// that ran normally is observationally `Branch(k - 1)` at the
/// enclosing scope, after the prefix: the block consumes one level.
pub proof fn block_branch_deeper_unwinds(
    fuel: nat,
    bt: BlockType,
    b: Vec<Instruction>,
    pre: Seq<Instruction>,
    post: Seq<Instruction>,
    k: usize,
    funcs: Seq<ModuleFunction>,
    eps: Seq<usize>,
    locals: Seq<i32>,
    st: VmState,
    st1: VmState,
)
    requires
        k > 0,
        b@ == pre + seq![Instruction::Branch(LabelIdx(k))] + post,
        run_seq(fuel, pre, funcs, eps, locals, st) == done(st1, None),
    ensures
        run_instr((fuel + 1) as nat, Instruction::Block(bt, b), funcs, eps, locals, st) == done(
            st1,
            Some(ControlFlow::Branch((k - 1) as usize)),
        ),
{
    lemma_run_seq_append(
        fuel,
        pre,
        seq![Instruction::Branch(LabelIdx(k))] + post,
        funcs,
        eps,
        locals,
        st,
    );
    assert(b@ =~= pre + (seq![Instruction::Branch(LabelIdx(k))] + post));
    assert((seq![Instruction::Branch(LabelIdx(k))] + post)[0] == Instruction::Branch(LabelIdx(k)));
    assert((seq![Instruction::Branch(LabelIdx(k))] + post).len() > 0);
    assert(run_instr(fuel, Instruction::Branch(LabelIdx(k)), funcs, eps, locals, st1) == done(
        st1,
        Some(ControlFlow::Branch(k)),
    ));
    assert(run_seq(fuel, seq![Instruction::Branch(LabelIdx(k))] + post, funcs, eps, locals, st1)
        == done(st1, Some(ControlFlow::Branch(k))));
    assert(run_seq(fuel, b@, funcs, eps, locals, st) == done(st1, Some(ControlFlow::Branch(k))));
}

/// A call into a module function with `param_count = n` removes exactly
/// the top `n` values from the caller's operand stack before the callee
/// runs: the callee's body starts from the caller's stack without them,
/// and they become the callee's locals in their original pushed order.
pub proof fn call_pops_params_before_callee(
    fuel: nat,
    f: ModuleFunction,
    funcs: Seq<ModuleFunction>,
    eps: Seq<usize>,
    st: VmState,
)
    requires
        st.stack.len() >= f.param_count,
        fuel > 0,
    ensures
        ({
            let n = f.param_count as int;
            let entry_stack = st.stack.take(st.stack.len() - n);
            let args = st.stack.skip(st.stack.len() - n);
            &&& entry_stack.len() + n == st.stack.len()
            &&& args.len() == n
            &&& (forall|j: int|
                0 <= j < n ==> #[trigger] args[j] == st.stack[st.stack.len() - n + j])
            &&& call_module(fuel, f, funcs, eps, st) == (match run_seq(
                (fuel - 1) as nat,
                f.code@,
                funcs,
                eps,
                args,
                vm_state(entry_stack, st.memory, st.oracle),
            ) {
                Outcome::Done { st: st1, ctl: _ } => done(st1, None),
                Outcome::Fail { trap } => fail(trap),
            })
        }),
{
}

} // verus!
