//! The compiler: lowers a tiny expression language to register
//! instructions, allocating one fresh register per computed value.

use vstd::prelude::*;
use crate::models::{Register, Instruction, reg_from_u32};
use vstd::string::StringExecFns;

verus! {

/// A node of the expression language.
#[derive(Debug)]
pub enum AstNode {
    /// Binds a variable to the value of an expression; the expression's
    /// value is also the value of the assignment.
    Assign(String, Box<AstNode>),
    Add(Box<AstNode>, Box<AstNode>),
    Sub(Box<AstNode>, Box<AstNode>),
    Mul(Box<AstNode>, Box<AstNode>),
    Literal(u32),
    Variable(String),
}

/// A deep copy of the tree.
impl Clone for AstNode {
    fn clone(&self) -> (c: Self)
        ensures
            c == *self,
        decreases self,
    {
        match self {
            AstNode::Assign(n, e) => AstNode::Assign(n.clone(), Box::new((**e).clone())),
            AstNode::Add(l, r) => AstNode::Add(Box::new((**l).clone()), Box::new((**r).clone())),
            AstNode::Sub(l, r) => AstNode::Sub(Box::new((**l).clone()), Box::new((**r).clone())),
            AstNode::Mul(l, r) => AstNode::Mul(Box::new((**l).clone()), Box::new((**r).clone())),
            AstNode::Literal(v) => AstNode::Literal(*v),
            AstNode::Variable(n) => AstNode::Variable(n.clone()),
        }
    }
}

/// The compiler's state as mathematical values: the variable bindings in
/// the order they were made (a later binding of a name shadows earlier
/// ones), the next register to allocate, and the instructions emitted.
pub struct CompilerState {
    pub bindings: Seq<(Seq<char>, Register)>,
    pub next_free: nat,
    pub instructions: Seq<Instruction>,
}

/// The register a name is bound to: its latest binding.
pub open spec fn lookup(bindings: Seq<(Seq<char>, Register)>, name: Seq<char>) -> Option<Register>
    decreases bindings.len(),
{
    if bindings.len() == 0 {
        None
    } else if bindings.last().0 == name {
        Some(bindings.last().1)
    } else {
        lookup(bindings.drop_last(), name)
    }
}

/// The state of a fresh compiler: no bindings, `R1` next.
pub open spec fn initial_state() -> CompilerState {
    CompilerState { bindings: seq![], next_free: 1, instructions: seq![] }
}

/// The error text when all seven registers are in use.
pub open spec fn out_of_registers_message() -> Seq<char> {
    "Out of registers"@
}

/// The error text for a variable read before it is assigned.
pub open spec fn undefined_variable_message(name: Seq<char>) -> Seq<char> {
    "Undefined variable: "@ + name
}

/// Allocating a register: `R1` to `R7` in turn, then an error.
pub open spec fn alloc_spec(s: CompilerState) -> Result<(Register, CompilerState), Seq<char>> {
    if 1 <= s.next_free <= 7 {
        Ok((reg_from_u32(s.next_free as u32), CompilerState { next_free: s.next_free + 1, ..s }))
    } else {
        Err(out_of_registers_message())
    }
}

/// The arithmetic operators of the language.
pub enum BinOp {
    Add,
    Sub,
    Mul,
}

/// The instruction that computes `op` into `rd`.
pub open spec fn binop_instruction(op: BinOp, rd: Register, rl: Register, rr: Register) -> Instruction {
    match op {
        BinOp::Add => Instruction::Add(rd, rl, rr),
        BinOp::Sub => Instruction::Sub(rd, rl, rr),
        BinOp::Mul => Instruction::Mul(rd, rl, rr),
    }
}

/// Allocating the result register of a binary operation and emitting it.
pub open spec fn emit_binop(op: BinOp, s: CompilerState, rl: Register, rr: Register) -> (
    CompilerState,
    Result<Register, Seq<char>>,
) {
    match alloc_spec(s) {
        Ok((rd, s1)) => (
            CompilerState {
                instructions: s1.instructions.push(binop_instruction(op, rd, rl, rr)),
                ..s1
            },
            Ok(rd),
        ),
        Err(e) => (s, Err(e)),
    }
}

/// Compiling a node: the state afterwards (instructions already emitted
/// stay when a later part fails) and the register holding its value.
pub open spec fn compile_spec(node: AstNode, s: CompilerState) -> (
    CompilerState,
    Result<Register, Seq<char>>,
)
    decreases node,
{
    match node {
        AstNode::Literal(val) => match alloc_spec(s) {
            Ok((r, s1)) => (
                CompilerState { instructions: s1.instructions.push(Instruction::Li(r, val)), ..s1 },
                Ok(r),
            ),
            Err(e) => (s, Err(e)),
        },
        AstNode::Variable(name) => match lookup(s.bindings, name@) {
            Some(r) => (s, Ok(r)),
            None => (s, Err(undefined_variable_message(name@))),
        },
        AstNode::Assign(name, expr) => {
            let (s1, res) = compile_spec(*expr, s);
            match res {
                Ok(r) => (CompilerState { bindings: s1.bindings.push((name@, r)), ..s1 }, Ok(r)),
                Err(e) => (s1, Err(e)),
            }
        },
        AstNode::Add(lhs, rhs) => {
            let (s1, a) = compile_spec(*lhs, s);
            match a {
                Err(e) => (s1, Err(e)),
                Ok(rl) => {
                    let (s2, b) = compile_spec(*rhs, s1);
                    match b {
                        Err(e) => (s2, Err(e)),
                        Ok(rr) => emit_binop(BinOp::Add, s2, rl, rr),
                    }
                },
            }
        },
        AstNode::Sub(lhs, rhs) => {
            let (s1, a) = compile_spec(*lhs, s);
            match a {
                Err(e) => (s1, Err(e)),
                Ok(rl) => {
                    let (s2, b) = compile_spec(*rhs, s1);
                    match b {
                        Err(e) => (s2, Err(e)),
                        Ok(rr) => emit_binop(BinOp::Sub, s2, rl, rr),
                    }
                },
            }
        },
        AstNode::Mul(lhs, rhs) => {
            let (s1, a) = compile_spec(*lhs, s);
            match a {
                Err(e) => (s1, Err(e)),
                Ok(rl) => {
                    let (s2, b) = compile_spec(*rhs, s1);
                    match b {
                        Err(e) => (s2, Err(e)),
                        Ok(rr) => emit_binop(BinOp::Mul, s2, rl, rr),
                    }
                },
            }
        },
    }
}

/// Compiling a sequence of nodes in order, stopping at the first error.
pub open spec fn compile_all(nodes: Seq<AstNode>, s: CompilerState) -> (
    CompilerState,
    Result<(), Seq<char>>,
)
    decreases nodes.len(),
{
    if nodes.len() == 0 {
        (s, Ok(()))
    } else {
        let (s1, r) = compile_all(nodes.drop_last(), s);
        match r {
            Err(e) => (s1, Err(e)),
            Ok(_) => {
                let (s2, r2) = compile_spec(nodes.last(), s1);
                match r2 {
                    Err(e) => (s2, Err(e)),
                    Ok(_) => (s2, Ok(())),
                }
            },
        }
    }
}

/// The program a compiler in state `s` produces: its instructions so far,
/// the nodes' instructions and a closing `Ecall`.
pub open spec fn compile_program_from(nodes: Seq<AstNode>, s: CompilerState) -> Result<
    Seq<Instruction>,
    Seq<char>,
> {
    let (s1, r) = compile_all(nodes, s);
    match r {
        Ok(_) => Ok(s1.instructions.push(Instruction::Ecall)),
        Err(e) => Err(e),
    }
}

/// The program a fresh compiler produces.
pub open spec fn compile_program_spec(nodes: Seq<AstNode>) -> Result<Seq<Instruction>, Seq<char>> {
    compile_program_from(nodes, initial_state())
}

/// Once compiling a prefix fails, compiling the whole sequence fails the
/// same way.
proof fn lemma_compile_all_error_persists(nodes: Seq<AstNode>, s: CompilerState, k: nat)
    requires
        k <= nodes.len(),
        compile_all(nodes.subrange(0, k as int), s).1 is Err,
    ensures
        compile_all(nodes, s) == compile_all(nodes.subrange(0, k as int), s),
    decreases nodes.len(),
{
    if k == nodes.len() {
        assert(nodes.subrange(0, k as int) =~= nodes);
    } else {
        assert(nodes.drop_last().subrange(0, k as int) =~= nodes.subrange(0, k as int));
        lemma_compile_all_error_persists(nodes.drop_last(), s, k);
    }
}

/// No instruction of `instrs` is an `Ecall`.
pub open spec fn no_ecall(instrs: Seq<Instruction>) -> bool {
    forall|i: int| 0 <= i < instrs.len() ==> !(#[trigger] instrs[i] is Ecall)
}

/// `longer` begins with `shorter`.
pub open spec fn extends(shorter: Seq<Instruction>, longer: Seq<Instruction>) -> bool {
    &&& shorter.len() <= longer.len()
    &&& forall|i: int| 0 <= i < shorter.len() ==> #[trigger] longer[i] == shorter[i]
}

proof fn lemma_binop_emits_no_ecall(op: BinOp, s: CompilerState, rl: Register, rr: Register)
    requires
        no_ecall(s.instructions),
    ensures
        extends(s.instructions, emit_binop(op, s, rl, rr).0.instructions),
        no_ecall(emit_binop(op, s, rl, rr).0.instructions),
{
}

proof fn lemma_compile_emits_no_ecall(node: AstNode, s: CompilerState)
    requires
        no_ecall(s.instructions),
    ensures
        extends(s.instructions, compile_spec(node, s).0.instructions),
        no_ecall(compile_spec(node, s).0.instructions),
    decreases node,
{
    match node {
        AstNode::Literal(_) => {},
        AstNode::Variable(_) => {},
        AstNode::Assign(_, expr) => {
            lemma_compile_emits_no_ecall(*expr, s);
        },
        AstNode::Add(lhs, rhs) => {
            lemma_compile_emits_no_ecall(*lhs, s);
            let (s1, a) = compile_spec(*lhs, s);
            if a is Ok {
                lemma_compile_emits_no_ecall(*rhs, s1);
                let (s2, b) = compile_spec(*rhs, s1);
                if let Ok(rr) = b {
                    lemma_binop_emits_no_ecall(BinOp::Add, s2, a->Ok_0, rr);
                }
            }
        },
        AstNode::Sub(lhs, rhs) => {
            lemma_compile_emits_no_ecall(*lhs, s);
            let (s1, a) = compile_spec(*lhs, s);
            if a is Ok {
                lemma_compile_emits_no_ecall(*rhs, s1);
                let (s2, b) = compile_spec(*rhs, s1);
                if let Ok(rr) = b {
                    lemma_binop_emits_no_ecall(BinOp::Sub, s2, a->Ok_0, rr);
                }
            }
        },
        AstNode::Mul(lhs, rhs) => {
            lemma_compile_emits_no_ecall(*lhs, s);
            let (s1, a) = compile_spec(*lhs, s);
            if a is Ok {
                lemma_compile_emits_no_ecall(*rhs, s1);
                let (s2, b) = compile_spec(*rhs, s1);
                if let Ok(rr) = b {
                    lemma_binop_emits_no_ecall(BinOp::Mul, s2, a->Ok_0, rr);
                }
            }
        },
    }
}

proof fn lemma_compile_all_emits_no_ecall(nodes: Seq<AstNode>, s: CompilerState)
    requires
        no_ecall(s.instructions),
    ensures
        extends(s.instructions, compile_all(nodes, s).0.instructions),
        no_ecall(compile_all(nodes, s).0.instructions),
    decreases nodes.len(),
{
    if nodes.len() > 0 {
        lemma_compile_all_emits_no_ecall(nodes.drop_last(), s);
        let (s1, r) = compile_all(nodes.drop_last(), s);
        if r is Ok {
            lemma_compile_emits_no_ecall(nodes.last(), s1);
        }
    }
}

/// A compiled program is the instructions already emitted, then those of
/// each node in order, closed by one `Ecall`: the last instruction is the
/// only `Ecall`, since no node emits one.
pub proof fn law_compiled_program_ends_in_its_only_ecall(nodes: Seq<AstNode>, s: CompilerState)
    requires
        no_ecall(s.instructions),
    ensures
        compile_program_from(nodes, s) is Ok ==> {
            let p = compile_program_from(nodes, s)->Ok_0;
            &&& p == compile_all(nodes, s).0.instructions.push(Instruction::Ecall)
            &&& extends(s.instructions, p)
            &&& p.len() >= 1
            &&& p.last() == Instruction::Ecall
            &&& no_ecall(p.drop_last())
        },
{
    lemma_compile_all_emits_no_ecall(nodes, s);
    let q = compile_all(nodes, s).0.instructions;
    assert(q.push(Instruction::Ecall).drop_last() =~= q);
}

/// A register-or-message result as mathematical values.
pub open spec fn result_view(r: Result<Register, String>) -> Result<Register, Seq<char>> {
    match r {
        Ok(reg) => Ok(reg),
        Err(e) => Err(e@),
    }
}

/// The compiler environment: variable-to-register allocations.
pub struct Compiler {
    allocations: Vec<(String, Register)>,
    next_free_reg: usize,
    instructions: Vec<Instruction>,
}

impl Compiler {
    /// The compiler's state.
    pub closed spec fn state(&self) -> CompilerState {
        CompilerState {
            bindings: self.allocations@.map_values(|p: (String, Register)| (p.0@, p.1)),
            next_free: self.next_free_reg as nat,
            instructions: self.instructions@,
        }
    }

    /// A fresh compiler.
    pub fn new() -> (c: Self)
        ensures
            c.state() == initial_state(),
    {
        let c = Compiler { allocations: Vec::new(), next_free_reg: 1, instructions: Vec::new() };
        assert(c.state().bindings =~= seq![]);
        c
    }

    fn alloc_reg(&mut self) -> (r: Result<Register, String>)
        ensures
            match alloc_spec(old(self).state()) {
                Ok((reg, s)) => r == Ok::<Register, String>(reg) && final(self).state() == s,
                Err(e) => r is Err && r->Err_0@ == e && final(self).state() == old(self).state(),
            },
    {
        let reg = match self.next_free_reg {
            1 => Register::R1,
            2 => Register::R2,
            3 => Register::R3,
            4 => Register::R4,
            5 => Register::R5,
            6 => Register::R6,
            7 => Register::R7,
            _ => {
                return Err(String::from_str("Out of registers"));
            },
        };
        self.next_free_reg = self.next_free_reg + 1;
        Ok(reg)
    }

    /// The register bound to `name`, searching from the latest binding.
    fn lookup_variable(&self, name: &String) -> (r: Option<Register>)
        ensures
            r == lookup(self.state().bindings, name@),
    {
        let ghost b = self.state().bindings;
        let mut i = self.allocations.len();
        assert(b.subrange(0, i as int) =~= b);
        while i > 0
            invariant
                i <= self.allocations@.len(),
                b == self.state().bindings,
                lookup(b, name@) == lookup(b.subrange(0, i as int), name@),
            decreases i,
        {
            let ghost prefix = b.subrange(0, i as int);
            assert(prefix.drop_last() =~= b.subrange(0, i - 1));
            if self.allocations[i - 1].0 == *name {
                return Some(self.allocations[i - 1].1);
            }
            i = i - 1;
        }
        assert(b.subrange(0, 0) =~= Seq::<(Seq<char>, Register)>::empty());
        None
    }

    /// Compiles a node into instructions, returning the register that
    /// holds its value.
    pub fn compile_node(&mut self, node: &AstNode) -> (r: Result<Register, String>)
        ensures
            (final(self).state(), result_view(r)) == compile_spec(*node, old(self).state()),
        decreases node,
    {
        match node {
            AstNode::Literal(val) => {
                let r = match self.alloc_reg() {
                    Ok(r) => r,
                    Err(e) => {
                        return Err(e);
                    },
                };
                self.instructions.push(Instruction::Li(r, *val));
                Ok(r)
            },
            AstNode::Variable(name) => {
                if let Some(r) = self.lookup_variable(name) {
                    Ok(r)
                } else {
                    let mut msg = String::from_str("Undefined variable: ");
                    msg.append(name.as_str());
                    Err(msg)
                }
            },
            AstNode::Assign(name, expr) => {
                let r = match self.compile_node(expr) {
                    Ok(r) => r,
                    Err(e) => {
                        return Err(e);
                    },
                };
                let ghost before = self.state();
                self.allocations.push((name.clone(), r));
                assert(self.state().bindings =~= before.bindings.push((name@, r)));
                Ok(r)
            },
            AstNode::Add(lhs, rhs) => {
                let r_lhs = match self.compile_node(lhs) {
                    Ok(r) => r,
                    Err(e) => {
                        return Err(e);
                    },
                };
                let r_rhs = match self.compile_node(rhs) {
                    Ok(r) => r,
                    Err(e) => {
                        return Err(e);
                    },
                };
                self.emit_binop(BinOp::Add, r_lhs, r_rhs)
            },
            AstNode::Sub(lhs, rhs) => {
                let r_lhs = match self.compile_node(lhs) {
                    Ok(r) => r,
                    Err(e) => {
                        return Err(e);
                    },
                };
                let r_rhs = match self.compile_node(rhs) {
                    Ok(r) => r,
                    Err(e) => {
                        return Err(e);
                    },
                };
                self.emit_binop(BinOp::Sub, r_lhs, r_rhs)
            },
            AstNode::Mul(lhs, rhs) => {
                let r_lhs = match self.compile_node(lhs) {
                    Ok(r) => r,
                    Err(e) => {
                        return Err(e);
                    },
                };
                let r_rhs = match self.compile_node(rhs) {
                    Ok(r) => r,
                    Err(e) => {
                        return Err(e);
                    },
                };
                self.emit_binop(BinOp::Mul, r_lhs, r_rhs)
            },
        }
    }

    /// Allocates the result register of an operation and emits it.
    fn emit_binop(&mut self, op: BinOp, r_lhs: Register, r_rhs: Register) -> (r: Result<Register, String>)
        ensures
            (final(self).state(), result_view(r)) == emit_binop(op, old(self).state(), r_lhs, r_rhs),
    {
        let r_res = match self.alloc_reg() {
            Ok(r) => r,
            Err(e) => {
                return Err(e);
            },
        };
        let instr = match op {
            BinOp::Add => Instruction::Add(r_res, r_lhs, r_rhs),
            BinOp::Sub => Instruction::Sub(r_res, r_lhs, r_rhs),
            BinOp::Mul => Instruction::Mul(r_res, r_lhs, r_rhs),
        };
        self.instructions.push(instr);
        Ok(r_res)
    }

    /// Compiles a whole program and closes it with an `Ecall`.
    pub fn compile_program(self, program: Vec<AstNode>) -> (r: Result<Vec<Instruction>, String>)
        ensures
            match compile_program_from(program@, self.state()) {
                Ok(instrs) => r is Ok && r->Ok_0@ == instrs,
                Err(e) => r is Err && r->Err_0@ == e,
            },
    {
        let ghost start = self.state();
        let mut c = self;
        let mut i: usize = 0;
        while i < program.len()
            invariant
                i <= program@.len(),
                start == self.state(),
                compile_all(program@.subrange(0, i as int), start) == (
                    c.state(),
                    Ok::<(), Seq<char>>(()),
                ),
            decreases program@.len() - i,
        {
            let ghost prefix = program@.subrange(0, i + 1);
            assert(prefix.drop_last() =~= program@.subrange(0, i as int));
            assert(prefix.last() == program@[i as int]);
            match c.compile_node(&program[i]) {
                Ok(_) => {},
                Err(e) => {
                    assert(compile_all(prefix, start).1 == Err::<(), Seq<char>>(e@));
                    proof {
                        lemma_compile_all_error_persists(program@, start, (i + 1) as nat);
                    }
                    return Err(e);
                },
            }
            i = i + 1;
        }
        assert(program@.subrange(0, i as int) =~= program@);
        c.instructions.push(Instruction::Ecall);
        Ok(c.instructions)
    }
}

} // verus!
