//! What a program of the expression language means, and the proof that
//! the compiler preserves that meaning on the execution engine.

use vstd::prelude::*;
use crate::compiler::{
    AstNode, CompilerState, BinOp, lookup, alloc_spec, binop_instruction, emit_binop, compile_spec,
    compile_all, compile_program_spec, initial_state,
};
use crate::models::{Register, Instruction, reg_index, reg_from_u32, lower_spec, lemma_reg_from_u32_index};
use crate::runtime::{
    wrap32, read_reg, write_reg, execute_spec, fetch_spec, run, Machine, RunEnd, MAX_STEPS,
    zero_registers, initial_machine,
};

verus! {

/// Evaluating a node in an environment of variable values: its value and
/// the environment afterwards, or `None` where a variable is read before
/// it is assigned. Arithmetic wraps at 32 bits; operands are evaluated
/// left to right.
pub open spec fn eval(node: AstNode, env: Map<Seq<char>, u32>) -> Option<(u32, Map<Seq<char>, u32>)>
    decreases node,
{
    match node {
        AstNode::Literal(v) => Some((v, env)),
        AstNode::Variable(name) => if env.contains_key(name@) {
            Some((env[name@], env))
        } else {
            None
        },
        AstNode::Assign(name, expr) => match eval(*expr, env) {
            Some((v, env1)) => Some((v, env1.insert(name@, v))),
            None => None,
        },
        AstNode::Add(lhs, rhs) => match eval(*lhs, env) {
            Some((a, env1)) => match eval(*rhs, env1) {
                Some((b, env2)) => Some((wrap32(a + b), env2)),
                None => None,
            },
            None => None,
        },
        AstNode::Sub(lhs, rhs) => match eval(*lhs, env) {
            Some((a, env1)) => match eval(*rhs, env1) {
                Some((b, env2)) => Some((wrap32(a - b), env2)),
                None => None,
            },
            None => None,
        },
        AstNode::Mul(lhs, rhs) => match eval(*lhs, env) {
            Some((a, env1)) => match eval(*rhs, env1) {
                Some((b, env2)) => Some((wrap32(a * b), env2)),
                None => None,
            },
            None => None,
        },
    }
}

/// Evaluating a program: its nodes in order, threading the environment.
pub open spec fn eval_all(nodes: Seq<AstNode>, env: Map<Seq<char>, u32>) -> Option<Map<Seq<char>, u32>>
    decreases nodes.len(),
{
    if nodes.len() == 0 {
        Some(env)
    } else {
        match eval_all(nodes.drop_last(), env) {
            Some(env1) => match eval(nodes.last(), env1) {
                Some((_, env2)) => Some(env2),
                None => None,
            },
            None => None,
        }
    }
}

/// The registers after executing straight-line instructions in order.
pub open spec fn run_straight(regs: Seq<u32>, instrs: Seq<Instruction>) -> Seq<u32>
    decreases instrs.len(),
{
    if instrs.len() == 0 {
        regs
    } else {
        execute_spec(run_straight(regs, instrs.drop_last()), lower_spec(instrs.last()))
    }
}

/// The register an emitted instruction writes (none for `Ecall`).
pub open spec fn dest_index(i: Instruction) -> int {
    match i {
        Instruction::Li(rd, _) => reg_index(rd) as int,
        Instruction::Add(rd, _, _) => reg_index(rd) as int,
        Instruction::Sub(rd, _, _) => reg_index(rd) as int,
        Instruction::Mul(rd, _, _) => reg_index(rd) as int,
        Instruction::Ecall => -1,
    }
}

/// The registers after the compiler's instructions ran from zeroed registers.
pub open spec fn final_regs(s: CompilerState) -> Seq<u32> {
    run_straight(zero_registers(), s.instructions)
}

/// The shape every compiler state reached from a fresh one has: the k-th
/// instruction writes register k + 1, and one register is allocated per
/// instruction.
pub open spec fn positional(s: CompilerState) -> bool {
    &&& s.next_free == s.instructions.len() + 1
    &&& s.next_free <= 8
    &&& forall|k: int| 0 <= k < s.instructions.len() ==> #[trigger] dest_index(s.instructions[k]) == k + 1
}

/// A compiler state agrees with an environment: exactly the environment's
/// variables are bound, each to a register that holds its value once the
/// emitted instructions have run.
pub open spec fn agrees(s: CompilerState, env: Map<Seq<char>, u32>) -> bool {
    &&& positional(s)
    &&& forall|name: Seq<char>|
        #![trigger env.contains_key(name)]
        #![trigger lookup(s.bindings, name)]
        env.contains_key(name) <==> lookup(s.bindings, name) is Some
    &&& forall|name: Seq<char>| #[trigger] bound_ok(s, env, name)
}

/// A bound name's register is allocated and holds the name's value.
pub open spec fn bound_ok(s: CompilerState, env: Map<Seq<char>, u32>, name: Seq<char>) -> bool {
    match lookup(s.bindings, name) {
        Some(r) => 1 <= reg_index(r) < s.next_free && final_regs(s)[reg_index(r) as int] == env[name],
        None => true,
    }
}

proof fn lemma_execute_len(regs: Seq<u32>, f: crate::models::InstructionFormat)
    requires
        regs.len() == 32,
    ensures
        execute_spec(regs, f).len() == 32,
{
}

proof fn lemma_run_straight_len(regs: Seq<u32>, instrs: Seq<Instruction>)
    requires
        regs.len() == 32,
    ensures
        run_straight(regs, instrs).len() == 32,
    decreases instrs.len(),
{
    if instrs.len() > 0 {
        lemma_run_straight_len(regs, instrs.drop_last());
        lemma_execute_len(run_straight(regs, instrs.drop_last()), lower_spec(instrs.last()));
    }
}

/// Registers below the ones a positional extension writes keep their values.
proof fn lemma_prefix_frame(p: Seq<Instruction>, q: Seq<Instruction>, j: int)
    requires
        p.len() <= q.len(),
        q.subrange(0, p.len() as int) == p,
        forall|k: int| 0 <= k < q.len() ==> #[trigger] dest_index(q[k]) == k + 1,
        0 <= j <= p.len(),
        j < 32,
    ensures
        run_straight(zero_registers(), q)[j] == run_straight(zero_registers(), p)[j],
    decreases q.len(),
{
    if q.len() > p.len() {
        let q1 = q.drop_last();
        assert(q1.subrange(0, p.len() as int) =~= p);
        assert forall|k: int| 0 <= k < q1.len() implies #[trigger] dest_index(q1[k]) == k + 1 by {
            assert(dest_index(q[k]) == k + 1);
        }
        lemma_prefix_frame(p, q1, j);
        let r = run_straight(zero_registers(), q1);
        lemma_run_straight_len(zero_registers(), q1);
        assert(dest_index(q[q.len() - 1]) == q.len());
        assert(execute_spec(r, lower_spec(q.last()))[j] == r[j]);
    } else {
        assert(q =~= p);
    }
}

proof fn lemma_prefix_trans(a: Seq<Instruction>, b: Seq<Instruction>, c: Seq<Instruction>)
    requires
        a.len() <= b.len(),
        b.subrange(0, a.len() as int) == a,
        b.len() <= c.len(),
        c.subrange(0, b.len() as int) == b,
    ensures
        c.subrange(0, a.len() as int) == a,
{
    assert(c.subrange(0, a.len() as int) =~= a) by {
        assert forall|k: int| 0 <= k < a.len() implies c.subrange(0, a.len() as int)[k] == a[k] by {
            assert(c.subrange(0, b.len() as int)[k] == b[k]);
            assert(b.subrange(0, a.len() as int)[k] == a[k]);
        }
    }
}

/// Emitting an operation over two registers that hold `a` and `b`.
proof fn lemma_emit_binop(op: BinOp, s: CompilerState, rl: Register, rr: Register, a: u32, b: u32, env: Map<Seq<char>, u32>)
    requires
        agrees(s, env),
        1 <= reg_index(rl) < s.next_free,
        1 <= reg_index(rr) < s.next_free,
        final_regs(s)[reg_index(rl) as int] == a,
        final_regs(s)[reg_index(rr) as int] == b,
        emit_binop(op, s, rl, rr).1 is Ok,
    ensures
        ({
            let (s3, res) = emit_binop(op, s, rl, rr);
            let rd = res->Ok_0;
            let v = match op {
                BinOp::Add => wrap32(a + b),
                BinOp::Sub => wrap32(a - b),
                BinOp::Mul => wrap32(a * b),
            };
            &&& s.instructions.len() <= s3.instructions.len()
            &&& s3.instructions.subrange(0, s.instructions.len() as int) == s.instructions
            &&& agrees(s3, env)
            &&& 1 <= reg_index(rd) < s3.next_free
            &&& final_regs(s3)[reg_index(rd) as int] == v
        }),
{
    let (rd, s1) = alloc_spec(s)->Ok_0;
    let (s3, res) = emit_binop(op, s, rl, rr);
    lemma_reg_from_u32_index(s.next_free as u32);
    let instr = binop_instruction(op, rd, rl, rr);
    assert(s3.instructions == s.instructions.push(instr));
    assert(s3.instructions.drop_last() =~= s.instructions);
    assert(s3.instructions.subrange(0, s.instructions.len() as int) =~= s.instructions);
    let r0 = final_regs(s);
    lemma_run_straight_len(zero_registers(), s.instructions);
    assert(final_regs(s3) == execute_spec(r0, lower_spec(instr)));
    assert forall|k: int| 0 <= k < s3.instructions.len() implies #[trigger] dest_index(s3.instructions[k]) == k + 1 by {
        if k < s.instructions.len() {
            assert(s3.instructions[k] == s.instructions[k]);
        }
    }
    assert forall|name: Seq<char>| #[trigger] bound_ok(s3, env, name) by {
        assert(bound_ok(s, env, name));
        if let Some(q) = lookup(s.bindings, name) {
            lemma_prefix_frame(s.instructions, s3.instructions, reg_index(q) as int);
        }
    }
}

/// Compiling a node in a state that agrees with `env` evaluates it: the
/// result register holds its value and the new state agrees with the
/// environment after evaluation.
pub proof fn lemma_compile_correct(node: AstNode, s: CompilerState, env: Map<Seq<char>, u32>)
    requires
        agrees(s, env),
        compile_spec(node, s).1 is Ok,
    ensures
        ({
            let (s2, res) = compile_spec(node, s);
            let r = res->Ok_0;
            &&& s.instructions.len() <= s2.instructions.len()
            &&& s2.instructions.subrange(0, s.instructions.len() as int) == s.instructions
            &&& eval(node, env) is Some
            &&& agrees(s2, (eval(node, env)->0).1)
            &&& 1 <= reg_index(r) < s2.next_free
            &&& final_regs(s2)[reg_index(r) as int] == (eval(node, env)->0).0
        }),
    decreases node,
{
    assert(s.instructions.subrange(0, s.instructions.len() as int) =~= s.instructions);
    match node {
        AstNode::Literal(val) => {
            let (r, s1) = alloc_spec(s)->Ok_0;
            let s2 = compile_spec(node, s).0;
            lemma_reg_from_u32_index(s.next_free as u32);
            let instr = Instruction::Li(r, val);
            assert(s2.instructions == s.instructions.push(instr));
            assert(s2.instructions.drop_last() =~= s.instructions);
            assert(s2.instructions.subrange(0, s.instructions.len() as int) =~= s.instructions);
            lemma_run_straight_len(zero_registers(), s.instructions);
            assert(final_regs(s2) == execute_spec(final_regs(s), lower_spec(instr)));
            assert(final_regs(s2)[reg_index(r) as int] == val);
            assert forall|k: int| 0 <= k < s2.instructions.len() implies #[trigger] dest_index(s2.instructions[k]) == k + 1 by {
                if k < s.instructions.len() {
                    assert(s2.instructions[k] == s.instructions[k]);
                }
            }
            assert forall|name: Seq<char>| #[trigger] bound_ok(s2, env, name) by {
                assert(bound_ok(s, env, name));
                if let Some(q) = lookup(s.bindings, name) {
                    lemma_prefix_frame(s.instructions, s2.instructions, reg_index(q) as int);
                }
            }
            assert(compile_spec(node, s).1 == Ok::<Register, Seq<char>>(r));
        },
        AstNode::Variable(name) => {
            assert(bound_ok(s, env, name@));
        },
        AstNode::Assign(name, expr) => {
            lemma_compile_correct(*expr, s, env);
            let (s1, res) = compile_spec(*expr, s);
            let r = res->Ok_0;
            let (v, env1) = eval(*expr, env)->0;
            let s2 = compile_spec(node, s).0;
            let env2 = env1.insert(name@, v);
            assert(s2.bindings == s1.bindings.push((name@, r)));
            assert forall|x: Seq<char>| #[trigger] lookup(s2.bindings, x) == (if x == name@ {
                Some(r)
            } else {
                lookup(s1.bindings, x)
            }) by {
                assert(s2.bindings.drop_last() =~= s1.bindings);
            }
            assert forall|x: Seq<char>| #[trigger] env2.contains_key(x) <==> lookup(s2.bindings, x) is Some by {
                assert(lookup(s2.bindings, x) == (if x == name@ { Some(r) } else { lookup(s1.bindings, x) }));
                assert(env1.contains_key(x) <==> lookup(s1.bindings, x) is Some);
            }
            assert forall|x: Seq<char>| #[trigger] bound_ok(s2, env2, x) by {
                assert(lookup(s2.bindings, x) == (if x == name@ { Some(r) } else { lookup(s1.bindings, x) }));
                assert(bound_ok(s1, env1, x));
            }
        },
        AstNode::Add(lhs, rhs) => {
            lemma_compile_correct(*lhs, s, env);
            let (s1, a) = compile_spec(*lhs, s);
            let (x, env1) = eval(*lhs, env)->0;
            lemma_compile_correct(*rhs, s1, env1);
            let (s2, b) = compile_spec(*rhs, s1);
            let (y, env2) = eval(*rhs, env1)->0;
            let rl = a->Ok_0;
            let rr = b->Ok_0;
            lemma_prefix_frame(s1.instructions, s2.instructions, reg_index(rl) as int);
            lemma_emit_binop(BinOp::Add, s2, rl, rr, x, y, env2);
            let s3 = emit_binop(BinOp::Add, s2, rl, rr).0;
            lemma_prefix_trans(s.instructions, s1.instructions, s2.instructions);
            lemma_prefix_trans(s.instructions, s2.instructions, s3.instructions);
        },
        AstNode::Sub(lhs, rhs) => {
            lemma_compile_correct(*lhs, s, env);
            let (s1, a) = compile_spec(*lhs, s);
            let (x, env1) = eval(*lhs, env)->0;
            lemma_compile_correct(*rhs, s1, env1);
            let (s2, b) = compile_spec(*rhs, s1);
            let (y, env2) = eval(*rhs, env1)->0;
            let rl = a->Ok_0;
            let rr = b->Ok_0;
            lemma_prefix_frame(s1.instructions, s2.instructions, reg_index(rl) as int);
            lemma_emit_binop(BinOp::Sub, s2, rl, rr, x, y, env2);
            let s3 = emit_binop(BinOp::Sub, s2, rl, rr).0;
            lemma_prefix_trans(s.instructions, s1.instructions, s2.instructions);
            lemma_prefix_trans(s.instructions, s2.instructions, s3.instructions);
        },
        AstNode::Mul(lhs, rhs) => {
            lemma_compile_correct(*lhs, s, env);
            let (s1, a) = compile_spec(*lhs, s);
            let (x, env1) = eval(*lhs, env)->0;
            lemma_compile_correct(*rhs, s1, env1);
            let (s2, b) = compile_spec(*rhs, s1);
            let (y, env2) = eval(*rhs, env1)->0;
            let rl = a->Ok_0;
            let rr = b->Ok_0;
            lemma_prefix_frame(s1.instructions, s2.instructions, reg_index(rl) as int);
            lemma_emit_binop(BinOp::Mul, s2, rl, rr, x, y, env2);
            let s3 = emit_binop(BinOp::Mul, s2, rl, rr).0;
            lemma_prefix_trans(s.instructions, s1.instructions, s2.instructions);
            lemma_prefix_trans(s.instructions, s2.instructions, s3.instructions);
        },
    }
}

/// Compiling a sequence of nodes in a state that agrees with `env`
/// evaluates the sequence, and the final state agrees with the final
/// environment.
proof fn lemma_compile_all_correct(nodes: Seq<AstNode>, s: CompilerState, env: Map<Seq<char>, u32>)
    requires
        agrees(s, env),
        compile_all(nodes, s).1 is Ok,
    ensures
        eval_all(nodes, env) is Some,
        agrees(compile_all(nodes, s).0, eval_all(nodes, env)->0),
    decreases nodes.len(),
{
    if nodes.len() > 0 {
        lemma_compile_all_correct(nodes.drop_last(), s, env);
        let s1 = compile_all(nodes.drop_last(), s).0;
        let env1 = eval_all(nodes.drop_last(), env)->0;
        lemma_compile_correct(nodes.last(), s1, env1);
    }
}

/// A straight-line program closed by its only `Ecall`, run from its k-th
/// instruction, executes the rest in order and halts.
proof fn lemma_run_straight_line(p: Seq<Instruction>, mem: Map<u32, u8>, m: Machine, k: nat)
    requires
        1 <= p.len() <= 8,
        p.last() == Instruction::Ecall,
        forall|i: int| 0 <= i < p.len() - 1 ==> !(#[trigger] p[i] is Ecall),
        k < p.len(),
        m.pc == 4 * k,
        m.clk == k,
        m.registers == run_straight(zero_registers(), p.subrange(0, k as int)),
    ensures
        run(p, mem, m).1 == RunEnd::Halted,
        run(p, mem, m).0.clk == p.len(),
        run(p, mem, m).0.registers == run_straight(zero_registers(), p.subrange(0, p.len() - 1)),
    decreases p.len() - k,
{
    assert(m.pc % 4 == 0 && m.pc / 4 == k);
    let f = lower_spec(p[k as int]);
    assert(fetch_spec(p, mem, m.pc) == crate::runtime::Fetched::Decoded(f));
    let next = crate::runtime::step_spec(m, f);
    assert(p.subrange(0, k + 1 as int).drop_last() =~= p.subrange(0, k as int));
    assert(next.registers == run_straight(zero_registers(), p.subrange(0, k + 1 as int)));
    if k + 1 == p.len() {
        assert(f is Ecall);
    } else {
        assert(!(p[k as int] is Ecall));
        assert(!(f is Ecall));
        lemma_run_straight_line(p, mem, next, k + 1);
    }
}

/// A program that compiles computes what it means. Run on a fresh machine,
/// the compiled instructions halt normally after one step per instruction;
/// the program evaluates without reading an unassigned variable; the
/// compiler binds exactly the variables the program assigns; and each of
/// them ends in its bound register holding the value evaluation gives it.
pub proof fn law_compiled_program_computes(program: Seq<AstNode>)
    requires
        compile_program_spec(program) is Ok,
    ensures
        ({
            let instrs = compile_program_spec(program)->Ok_0;
            let bindings = compile_all(program, initial_state()).0.bindings;
            let (m, end) = run(instrs, Map::empty(), initial_machine());
            let env = eval_all(program, Map::empty())->0;
            &&& end == RunEnd::Halted
            &&& m.clk == instrs.len()
            &&& eval_all(program, Map::empty()) is Some
            &&& forall|name: Seq<char>|
                #![trigger env.contains_key(name)]
                #![trigger lookup(bindings, name)]
                env.contains_key(name) <==> lookup(bindings, name) is Some
            &&& forall|name: Seq<char>|
                #[trigger] env.contains_key(name) ==> read_reg(m.registers, lookup(bindings, name)->0)
                    == env[name]
        }),
{
    let s0 = initial_state();
    let env0 = Map::<Seq<char>, u32>::empty();
    assert(run_straight(zero_registers(), s0.instructions) == zero_registers());
    assert forall|name: Seq<char>| #[trigger] bound_ok(s0, env0, name) by {}
    assert(agrees(s0, env0));
    lemma_compile_all_correct(program, s0, env0);
    let sf = compile_all(program, s0).0;
    let env = eval_all(program, env0)->0;
    let p = sf.instructions.push(Instruction::Ecall);
    assert forall|i: int| 0 <= i < p.len() - 1 implies !(#[trigger] p[i] is Ecall) by {
        assert(p[i] == sf.instructions[i]);
        assert(dest_index(sf.instructions[i]) == i + 1);
    }
    assert(p.subrange(0, 0) =~= Seq::<Instruction>::empty());
    lemma_run_straight_line(p, Map::empty(), initial_machine(), 0);
    assert(p.subrange(0, p.len() - 1) =~= sf.instructions);
    let m = run(p, Map::empty(), initial_machine()).0;
    assert forall|name: Seq<char>| #[trigger] env.contains_key(name) implies read_reg(
        m.registers,
        lookup(sf.bindings, name)->0,
    ) == env[name] by {
        assert(bound_ok(sf, env, name));
    }
}

/// The values a node computes, each needing a register of its own: one
/// per literal and one per arithmetic operation.
pub open spec fn value_count(node: AstNode) -> nat
    decreases node,
{
    match node {
        AstNode::Literal(_) => 1,
        AstNode::Variable(_) => 0,
        AstNode::Assign(_, expr) => value_count(*expr),
        AstNode::Add(lhs, rhs) => value_count(*lhs) + value_count(*rhs) + 1,
        AstNode::Sub(lhs, rhs) => value_count(*lhs) + value_count(*rhs) + 1,
        AstNode::Mul(lhs, rhs) => value_count(*lhs) + value_count(*rhs) + 1,
    }
}

/// The values a program computes.
pub open spec fn value_count_all(nodes: Seq<AstNode>) -> nat
    decreases nodes.len(),
{
    if nodes.len() == 0 {
        0
    } else {
        value_count_all(nodes.drop_last()) + value_count(nodes.last())
    }
}

proof fn lemma_next_free_counts(node: AstNode, s: CompilerState)
    requires
        compile_spec(node, s).1 is Ok,
    ensures
        compile_spec(node, s).0.next_free == s.next_free + value_count(node),
    decreases node,
{
    match node {
        AstNode::Assign(_, expr) => {
            lemma_next_free_counts(*expr, s);
        },
        AstNode::Add(lhs, rhs) => {
            lemma_next_free_counts(*lhs, s);
            lemma_next_free_counts(*rhs, compile_spec(*lhs, s).0);
        },
        AstNode::Sub(lhs, rhs) => {
            lemma_next_free_counts(*lhs, s);
            lemma_next_free_counts(*rhs, compile_spec(*lhs, s).0);
        },
        AstNode::Mul(lhs, rhs) => {
            lemma_next_free_counts(*lhs, s);
            lemma_next_free_counts(*rhs, compile_spec(*lhs, s).0);
        },
        _ => {},
    }
}

proof fn lemma_next_free_counts_all(nodes: Seq<AstNode>, s: CompilerState)
    requires
        compile_all(nodes, s).1 is Ok,
    ensures
        compile_all(nodes, s).0.next_free == s.next_free + value_count_all(nodes),
    decreases nodes.len(),
{
    if nodes.len() > 0 {
        lemma_next_free_counts_all(nodes.drop_last(), s);
        lemma_next_free_counts(nodes.last(), compile_all(nodes.drop_last(), s).0);
    }
}

/// A node that evaluates, in a state with a register left for each value
/// it computes, compiles.
proof fn lemma_compile_complete(node: AstNode, s: CompilerState, env: Map<Seq<char>, u32>)
    requires
        agrees(s, env),
        eval(node, env) is Some,
        s.next_free + value_count(node) <= 8,
    ensures
        compile_spec(node, s).1 is Ok,
    decreases node,
{
    match node {
        AstNode::Literal(_) => {},
        AstNode::Variable(name) => {
            assert(env.contains_key(name@));
        },
        AstNode::Assign(_, expr) => {
            lemma_compile_complete(*expr, s, env);
        },
        AstNode::Add(lhs, rhs) => {
            lemma_compile_complete(*lhs, s, env);
            lemma_compile_correct(*lhs, s, env);
            lemma_next_free_counts(*lhs, s);
            let s1 = compile_spec(*lhs, s).0;
            let env1 = (eval(*lhs, env)->0).1;
            lemma_compile_complete(*rhs, s1, env1);
            lemma_compile_correct(*rhs, s1, env1);
            lemma_next_free_counts(*rhs, s1);
        },
        AstNode::Sub(lhs, rhs) => {
            lemma_compile_complete(*lhs, s, env);
            lemma_compile_correct(*lhs, s, env);
            lemma_next_free_counts(*lhs, s);
            let s1 = compile_spec(*lhs, s).0;
            let env1 = (eval(*lhs, env)->0).1;
            lemma_compile_complete(*rhs, s1, env1);
            lemma_compile_correct(*rhs, s1, env1);
            lemma_next_free_counts(*rhs, s1);
        },
        AstNode::Mul(lhs, rhs) => {
            lemma_compile_complete(*lhs, s, env);
            lemma_compile_correct(*lhs, s, env);
            lemma_next_free_counts(*lhs, s);
            let s1 = compile_spec(*lhs, s).0;
            let env1 = (eval(*lhs, env)->0).1;
            lemma_compile_complete(*rhs, s1, env1);
            lemma_compile_correct(*rhs, s1, env1);
            lemma_next_free_counts(*rhs, s1);
        },
    }
}

proof fn lemma_compile_all_complete(nodes: Seq<AstNode>, s: CompilerState, env: Map<Seq<char>, u32>)
    requires
        agrees(s, env),
        eval_all(nodes, env) is Some,
        s.next_free + value_count_all(nodes) <= 8,
    ensures
        compile_all(nodes, s).1 is Ok,
    decreases nodes.len(),
{
    if nodes.len() > 0 {
        let rest = nodes.drop_last();
        lemma_compile_all_complete(rest, s, env);
        lemma_compile_all_correct(rest, s, env);
        lemma_next_free_counts_all(rest, s);
        lemma_compile_complete(nodes.last(), compile_all(rest, s).0, eval_all(rest, env)->0);
    }
}

/// The compiler fails on exactly the programs it must: a program compiles
/// if and only if it never reads a variable before assigning it and it
/// computes at most seven values (literals and operations), one for each
/// of the registers `R1` to `R7`.
pub proof fn law_compiler_is_complete(program: Seq<AstNode>)
    ensures
        compile_program_spec(program) is Ok <==> (eval_all(program, Map::empty()) is Some
            && value_count_all(program) <= 7),
{
    let s0 = initial_state();
    let env0 = Map::<Seq<char>, u32>::empty();
    assert(run_straight(zero_registers(), s0.instructions) == zero_registers());
    assert forall|name: Seq<char>| #[trigger] bound_ok(s0, env0, name) by {}
    assert(agrees(s0, env0));
    if eval_all(program, env0) is Some && value_count_all(program) <= 7 {
        lemma_compile_all_complete(program, s0, env0);
    }
    if compile_program_spec(program) is Ok {
        lemma_compile_all_correct(program, s0, env0);
        lemma_next_free_counts_all(program, s0);
    }
}

} // verus!
